//! Exact fixed-point arithmetic for prices, quantities and money.
//!
//! Two scales are used so that every product the engine forms is exact:
//!
//! * [`Amount`] holds prices, order quantities and leverage at a scale of
//!   `AMOUNT_SCALE` atoms per unit (micro-units).
//! * [`Money`] holds balances, margins, thresholds and P&L at a scale of
//!   `MONEY_SCALE` atoms per unit (pico-units).
//!
//! Since `MONEY_SCALE == AMOUNT_SCALE * AMOUNT_SCALE`, the product of two
//! `Amount` values (a price times a quantity) is exactly a `Money` value:
//! no division and no rounding occurs anywhere in the engine.
//!
//! All raw values are `i128`.  The `*_LIMIT` constants bound the values the
//! engine accepts so that every intermediate product provably fits in
//! `i128`.

use vstd::prelude::*;

verus! {

/// Atoms per unit of an `Amount` (micro-unit fixed point).
pub const AMOUNT_SCALE: i128 = 1_000_000;

/// Atoms per unit of `Money` (pico-unit fixed point);
/// equals `AMOUNT_SCALE * AMOUNT_SCALE`.
pub const MONEY_SCALE: i128 = 1_000_000_000_000;

/// Largest raw magnitude accepted for prices, quantities and leverage
/// (one million units).
pub const AMOUNT_LIMIT: i128 = 1_000_000_000_000;

/// Largest raw magnitude accepted for margins, thresholds and P&L
/// (10^12 units); equals `AMOUNT_LIMIT * AMOUNT_LIMIT`, so any product of
/// two in-range `Amount`s is an in-range `Money`.
pub const MONEY_LIMIT: i128 = 1_000_000_000_000_000_000_000_000;

/// Cap on any wallet balance (10^18 units).
pub const BALANCE_LIMIT: i128 = 1_000_000_000_000_000_000_000_000_000_000;

/// A price, order quantity or leverage factor, in `AMOUNT_SCALE` atoms
/// per unit.  The sign of a quantity encodes the side of a position:
/// positive is long, negative is short.
#[derive(Clone, Copy, PartialEq, Eq, Structural, Debug)]
pub struct Amount {
    pub atoms: i128,
}

/// A balance, margin, threshold or P&L value, in `MONEY_SCALE` atoms per
/// unit.
#[derive(Clone, Copy, PartialEq, Eq, Structural, Debug)]
pub struct Money {
    pub atoms: i128,
}

impl View for Amount {
    type V = int;

    open spec fn view(&self) -> int {
        self.atoms as int
    }
}

impl View for Money {
    type V = int;

    open spec fn view(&self) -> int {
        self.atoms as int
    }
}

/// `|a * b| <= bound_a * bound_b` whenever `|a| <= bound_a` and
/// `|b| <= bound_b`.
pub proof fn lemma_mul_bound(a: int, b: int, bound_a: int, bound_b: int)
    requires
        -bound_a <= a <= bound_a,
        -bound_b <= b <= bound_b,
        0 <= bound_a,
        0 <= bound_b,
    ensures
        -(bound_a * bound_b) <= a * b <= bound_a * bound_b,
{
    assert(-(bound_a * bound_b) <= a * b <= bound_a * bound_b) by (nonlinear_arith)
        requires
            -bound_a <= a <= bound_a,
            -bound_b <= b <= bound_b,
            0 <= bound_a,
            0 <= bound_b,
    ;
}

/// The sign of a product follows the signs of its factors.
pub proof fn lemma_mul_sign(a: int, b: int)
    ensures
        a > 0 && b > 0 ==> a * b > 0,
        a < 0 && b < 0 ==> a * b > 0,
        a > 0 && b < 0 ==> a * b < 0,
        a < 0 && b > 0 ==> a * b < 0,
        a == 0 || b == 0 ==> a * b == 0,
        a >= 0 && b >= 0 ==> a * b >= 0,
{
    assert(a > 0 && b > 0 ==> a * b > 0) by (nonlinear_arith);
    assert(a < 0 && b < 0 ==> a * b > 0) by (nonlinear_arith);
    assert(a > 0 && b < 0 ==> a * b < 0) by (nonlinear_arith);
    assert(a < 0 && b > 0 ==> a * b < 0) by (nonlinear_arith);
    assert(a == 0 || b == 0 ==> a * b == 0) by (nonlinear_arith);
    assert(a >= 0 && b >= 0 ==> a * b >= 0) by (nonlinear_arith);
}

impl Amount {
    /// Builds an amount from a raw atom count.
    pub fn new(atoms: i128) -> (r: Amount)
        ensures
            r@ == atoms as int,
    {
        Amount { atoms }
    }

    /// Builds an amount from a whole number of units.
    pub fn from_units(units: i64) -> (r: Amount)
        ensures
            r@ == units as int * AMOUNT_SCALE as int,
    {
        proof {
            lemma_mul_bound(units as int, AMOUNT_SCALE as int, 0x8000_0000_0000_0000, AMOUNT_SCALE as int);
        }
        Amount { atoms: (units as i128) * AMOUNT_SCALE }
    }

    /// The zero amount.
    pub fn zero() -> (r: Amount)
        ensures
            r@ == 0,
    {
        Amount { atoms: 0 }
    }

    /// True when the raw magnitude is within the engine's accepted range.
    pub open spec fn in_range(self) -> bool {
        -(AMOUNT_LIMIT as int) <= self@ <= AMOUNT_LIMIT as int
    }

    /// Absolute value.
    pub fn abs(self) -> (r: Amount)
        requires
            self.in_range(),
        ensures
            r@ == if self@ >= 0 { self@ } else { -self@ },
            r.in_range(),
            r@ >= 0,
    {
        if self.atoms >= 0 {
            self
        } else {
            Amount { atoms: -self.atoms }
        }
    }

    /// Difference of two amounts (for example, exit price minus entry
    /// price).
    pub fn minus(self, rhs: Amount) -> (r: Amount)
        requires
            self.in_range(),
            rhs.in_range(),
        ensures
            r@ == self@ - rhs@,
    {
        Amount { atoms: self.atoms - rhs.atoms }
    }

    /// Exact product of two amounts; scales compose so the result is a
    /// `Money` value.
    pub fn times(self, rhs: Amount) -> (r: Money)
        requires
            self.in_range(),
            rhs.in_range(),
        ensures
            r@ == self@ * rhs@,
            -(MONEY_LIMIT as int) <= r@ <= MONEY_LIMIT as int,
    {
        proof {
            lemma_mul_bound(self@, rhs@, AMOUNT_LIMIT as int, AMOUNT_LIMIT as int);
        }
        Money { atoms: self.atoms * rhs.atoms }
    }
}

impl Money {
    /// Builds a money value from a raw atom count.
    pub fn new(atoms: i128) -> (r: Money)
        ensures
            r@ == atoms as int,
    {
        Money { atoms }
    }

    /// Builds a money value from a whole number of units.
    pub fn from_units(units: i64) -> (r: Money)
        ensures
            r@ == units as int * MONEY_SCALE as int,
    {
        proof {
            lemma_mul_bound(units as int, MONEY_SCALE as int, 0x8000_0000_0000_0000, MONEY_SCALE as int);
        }
        Money { atoms: (units as i128) * MONEY_SCALE }
    }

    /// The zero money value.
    pub fn zero() -> (r: Money)
        ensures
            r@ == 0,
    {
        Money { atoms: 0 }
    }

    /// Exact sum.
    pub fn plus(self, rhs: Money) -> (r: Money)
        requires
            i128::MIN as int <= self@ + rhs@ <= i128::MAX as int,
        ensures
            r@ == self@ + rhs@,
    {
        Money { atoms: self.atoms + rhs.atoms }
    }

    /// Exact difference.
    pub fn minus(self, rhs: Money) -> (r: Money)
        requires
            i128::MIN as int <= self@ - rhs@ <= i128::MAX as int,
        ensures
            r@ == self@ - rhs@,
    {
        Money { atoms: self.atoms - rhs.atoms }
    }
}

} // verus!
