//! The latest bid/ask snapshot and the cell that holds it.
//!
//! The cell is a single-writer holder of the newest snapshot.  Within the
//! sequential engine it is a plain field; sharing it between a tick source
//! and readers (behind an atomic pointer swap) is transport plumbing that
//! lives outside this crate.

use crate::money::{Amount, AMOUNT_LIMIT};
use vstd::prelude::*;

verus! {

/// An immutable bid/ask pair observed by one reader.
#[derive(Clone, Copy, PartialEq, Eq, Structural, Debug)]
pub struct CurrentPrice {
    pub bid: Amount,
    pub ask: Amount,
}

impl CurrentPrice {
    /// Prices the engine accepts: non-negative and within the fixed-point
    /// range.  `bid <= ask` is deliberately not required; the engine always
    /// picks the semantically correct leg itself.
    pub open spec fn wf(self) -> bool {
        &&& 0 <= self.bid@ <= AMOUNT_LIMIT as int
        &&& 0 <= self.ask@ <= AMOUNT_LIMIT as int
    }

    /// The zero snapshot, published before any tick has been seen.
    pub fn startup() -> (r: CurrentPrice)
        ensures
            r.bid@ == 0,
            r.ask@ == 0,
            r.wf(),
    {
        CurrentPrice { bid: Amount::zero(), ask: Amount::zero() }
    }
}

/// Holder of the latest `CurrentPrice`.  `store` replaces the snapshot,
/// `load` returns it; each reader sees one self-consistent pair.
pub struct PriceCell {
    pub snapshot: CurrentPrice,
}

impl PriceCell {
    pub open spec fn wf(self) -> bool {
        self.snapshot.wf()
    }

    /// A fresh cell holding the zero snapshot; orders are refused until a
    /// first real tick is stored.
    pub fn new() -> (r: PriceCell)
        ensures
            r.snapshot.bid@ == 0,
            r.snapshot.ask@ == 0,
            r.wf(),
    {
        PriceCell { snapshot: CurrentPrice::startup() }
    }

    /// Replaces the snapshot.
    pub fn store(&mut self, snapshot: CurrentPrice)
        ensures
            final(self).snapshot == snapshot,
    {
        self.snapshot = snapshot;
    }

    /// Returns the current snapshot.
    pub fn load(&self) -> (r: CurrentPrice)
        ensures
            r == self.snapshot,
    {
        self.snapshot
    }
}

} // verus!
