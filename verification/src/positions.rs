//! The position custodian: sole owner of the per-user open-position map.
//!
//! Orders are priced against the latest bid/ask snapshot by the
//! "opposing best" rule: a long entry crosses the ask and exits into the
//! bid; a short is the mirror image.  Every monetary computation is exact
//! fixed-point arithmetic (see [`crate::money`]), so the contracts pin
//! each balance movement to the unit.

use crate::errors::{CloseError, OpenError};
use crate::money::{
    lemma_mul_bound, lemma_mul_sign, Amount, Money, AMOUNT_LIMIT, AMOUNT_SCALE, BALANCE_LIMIT,
    MONEY_LIMIT,
};
use crate::price::CurrentPrice;
use crate::wallet::{
    distinct_wallet_keys, has_wallet, ledger_wf, lemma_updated_balance, spec_balance,
    updated_balance, Wallet, Wallets,
};
use vstd::prelude::*;
use vstd::string::StringExecFns;

verus! {

/// Globally unique identifier of an open position: an opaque random
/// token paired with the engine's own serial number.  The serial number
/// makes uniqueness a proved invariant; the token carries generator
/// entropy so ids stay distinct across engine restarts as well.
#[derive(Debug)]
pub struct PositionId {
    pub token: String,
    pub seq: u64,
}

impl Clone for PositionId {
    fn clone(&self) -> (r: Self)
        ensures
            r == *self,
    {
        PositionId { token: self.token.clone(), seq: self.seq }
    }
}

impl PositionId {
    /// Two ids are the same when both components agree.
    pub fn matches(&self, other: &PositionId) -> (r: bool)
        ensures
            r == (self.token@ == other.token@ && self.seq == other.seq),
    {
        self.seq == other.seq && self.token.eq(&other.token)
    }
}

/// One open position.  `qty` is signed: positive is long, negative is
/// short.  `pnl` is a cached derived value, recomputed by the risk
/// engine; it is the only field ever mutated in place.
#[derive(Debug)]
pub struct Position {
    pub position_id: PositionId,
    pub asset: String,
    pub entry_price: Amount,
    pub qty: Amount,
    pub pnl: Money,
    pub margin: Money,
    pub stop_loss: Option<Money>,
    pub take_profit: Option<Money>,
    pub leverage: Option<Amount>,
}

impl Clone for Position {
    fn clone(&self) -> (r: Self)
        ensures
            r == *self,
    {
        Position {
            position_id: self.position_id.clone(),
            asset: self.asset.clone(),
            entry_price: self.entry_price,
            qty: self.qty,
            pnl: self.pnl,
            margin: self.margin,
            stop_loss: self.stop_loss,
            take_profit: self.take_profit,
            leverage: self.leverage,
        }
    }
}

/// An order as the core consumes it.  `margin` defaults to zero when
/// absent; `stop_loss` and `take_profit` are non-negative P&L thresholds;
/// `leverage` is at least one.
pub struct OpenOrderRequest {
    pub qty: Amount,
    pub asset: String,
    pub margin: Option<Money>,
    pub stop_loss: Option<Money>,
    pub take_profit: Option<Money>,
    pub leverage: Option<Amount>,
}

/// The positions of one user, in insertion order.
pub struct UserPositions {
    pub user_id: String,
    pub entries: Vec<Position>,
}

/// The position map plus the serial-number source for fresh ids.
pub struct Positions {
    pub position_map: Vec<UserPositions>,
    pub next_seq: u64,
}

// ---------------------------------------------------------------------
// Pricing specifications
// ---------------------------------------------------------------------

/// Entry leg by side: a long buys into the ask, a short sells into the
/// bid.
pub open spec fn entry_price_spec(price: CurrentPrice, qty: int) -> int {
    if qty > 0 {
        price.ask@
    } else {
        price.bid@
    }
}

/// Exit (and mark) leg by side: a long sells into the bid, a short buys
/// back at the ask.
pub open spec fn exit_price_spec(price: CurrentPrice, qty: int) -> int {
    if qty > 0 {
        price.bid@
    } else {
        price.ask@
    }
}

pub open spec fn abs_spec(x: int) -> int {
    if x >= 0 {
        x
    } else {
        -x
    }
}

/// Unrealized P&L of a position at mark price `mark`.  The sign of `qty`
/// makes the sign correct for shorts automatically.
pub open spec fn pnl_spec(entry: int, qty: int, mark: int) -> int {
    (mark - entry) * qty
}

/// Gross economic size of a position.
pub open spec fn notional_spec(entry: int, qty: int) -> int {
    entry * abs_spec(qty)
}

/// The margin requested with an order; zero when absent.
pub open spec fn order_margin_spec(order: OpenOrderRequest) -> int {
    match order.margin {
        Some(m) => m@,
        None => 0,
    }
}

/// What an open debits: notional plus margin.
pub open spec fn required_spec(price: CurrentPrice, order: OpenOrderRequest) -> int {
    notional_spec(entry_price_spec(price, order.qty@), order.qty@) + order_margin_spec(order)
}

/// What a close credits: the debited notional and margin come back,
/// adjusted by the realized P&L — clamped at zero, since a loss beyond
/// the posted collateral cannot draw the wallet below zero.
pub open spec fn payout_spec(entry: int, qty: int, exit: int, margin: int) -> int {
    let gross = pnl_spec(entry, qty, exit) + notional_spec(entry, qty) + margin;
    if gross >= 0 {
        gross
    } else {
        0
    }
}

// ---------------------------------------------------------------------
// Well-formedness
// ---------------------------------------------------------------------

/// Field ranges of a stored position.
pub open spec fn wf_position(p: Position) -> bool {
    &&& 0 < p.entry_price@ <= AMOUNT_LIMIT as int
    &&& p.qty@ != 0
    &&& -(AMOUNT_LIMIT as int) <= p.qty@ <= AMOUNT_LIMIT as int
    &&& 0 <= p.margin@ <= MONEY_LIMIT as int
    &&& -(MONEY_LIMIT as int) <= p.pnl@ <= MONEY_LIMIT as int
    &&& (p.stop_loss matches Some(s) ==> 0 <= s@ <= MONEY_LIMIT as int)
    &&& (p.take_profit matches Some(t) ==> 0 <= t@ <= MONEY_LIMIT as int)
    &&& (p.leverage matches Some(l) ==> AMOUNT_SCALE as int <= l@ <= AMOUNT_LIMIT as int)
}

/// Machine-range bounds on an order, together with the value domains the
/// data model declares (`stop_loss`, `take_profit` at least zero,
/// `leverage` at least one).
pub open spec fn order_in_range(order: OpenOrderRequest) -> bool {
    &&& -(AMOUNT_LIMIT as int) <= order.qty@ <= AMOUNT_LIMIT as int
    &&& (order.margin matches Some(m) ==> -(MONEY_LIMIT as int) <= m@ <= MONEY_LIMIT as int)
    &&& (order.stop_loss matches Some(s) ==> 0 <= s@ <= MONEY_LIMIT as int)
    &&& (order.take_profit matches Some(t) ==> 0 <= t@ <= MONEY_LIMIT as int)
    &&& (order.leverage matches Some(l) ==> AMOUNT_SCALE as int <= l@ <= AMOUNT_LIMIT as int)
}

/// `m[i]` is the position list of user `u`.
pub open spec fn book_at(m: Seq<UserPositions>, u: Seq<char>, i: int) -> bool {
    &&& 0 <= i < m.len()
    &&& m[i].user_id@ == u
}

/// User `u` has a position list (possibly empty) in `m`.
pub open spec fn has_book(m: Seq<UserPositions>, u: Seq<char>) -> bool {
    exists|i: int| book_at(m, u, i)
}

/// The index of user `u`'s list (meaningful when keys are distinct).
pub open spec fn book_index(m: Seq<UserPositions>, u: Seq<char>) -> int {
    choose|i: int| book_at(m, u, i)
}

/// No two lists share a user id.
pub open spec fn distinct_book_keys(m: Seq<UserPositions>) -> bool {
    forall|i: int, j: int|
        0 <= i < m.len() && 0 <= j < m.len() && i != j ==> m[i].user_id@ != m[j].user_id@
}

/// `(i, j)` addresses a position in `m`.
pub open spec fn valid_pos(m: Seq<UserPositions>, i: int, j: int) -> bool {
    0 <= i < m.len() && 0 <= j < m[i].entries@.len()
}

/// The position at address `(i, j)`.
pub open spec fn pos_at(m: Seq<UserPositions>, i: int, j: int) -> Position {
    m[i].entries@[j]
}

/// Well-formed position map for a given id counter: distinct user keys,
/// every position well formed, and every serial number below the counter
/// and distinct from every other — ids are unique across the whole map.
pub open spec fn books_wf(m: Seq<UserPositions>, next_seq: u64) -> bool {
    &&& distinct_book_keys(m)
    &&& forall|i: int, j: int| valid_pos(m, i, j) ==> wf_position(#[trigger] pos_at(m, i, j))
    &&& forall|i: int, j: int|
        valid_pos(m, i, j) ==> (#[trigger] pos_at(m, i, j)).position_id.seq < next_seq
    &&& forall|i: int, j: int, k: int, l: int|
        valid_pos(m, i, j) && valid_pos(m, k, l) && !(i == k && j == l) ==> (#[trigger] pos_at(
            m,
            i,
            j,
        )).position_id.seq != (#[trigger] pos_at(m, k, l)).position_id.seq
}

/// With distinct keys the list of `u` sits at exactly one index.
pub proof fn lemma_book_index(m: Seq<UserPositions>, u: Seq<char>, i: int)
    requires
        distinct_book_keys(m),
        book_at(m, u, i),
    ensures
        has_book(m, u),
        book_index(m, u) == i,
{
    assert(has_book(m, u));
    let k = book_index(m, u);
    assert(book_at(m, u, k));
    if k != i {
        assert(m[i].user_id@ == m[k].user_id@);
        assert(false);
    }
}

// ---------------------------------------------------------------------
// Id lookup within one list
// ---------------------------------------------------------------------

/// The position at index `j` of `s` carries id `pid`.
pub open spec fn pid_at(s: Seq<Position>, pid: PositionId, j: int) -> bool {
    &&& 0 <= j < s.len()
    &&& s[j].position_id.token@ == pid.token@
    &&& s[j].position_id.seq == pid.seq
}

/// Some position in `s` carries id `pid`.
pub open spec fn has_pid(s: Seq<Position>, pid: PositionId) -> bool {
    exists|j: int| pid_at(s, pid, j)
}

/// Index of the first position carrying `pid` (equals `s.len()` when
/// there is none).
pub open spec fn first_pid_index(s: Seq<Position>, pid: PositionId) -> int
    decreases s.len(),
{
    if s.len() == 0 {
        0
    } else if s[0].position_id.token@ == pid.token@ && s[0].position_id.seq == pid.seq {
        0
    } else {
        1 + first_pid_index(s.drop_first(), pid)
    }
}

/// `first_pid_index` finds the first match when one exists.
pub proof fn lemma_first_pid_index(s: Seq<Position>, pid: PositionId)
    requires
        has_pid(s, pid),
    ensures
        pid_at(s, pid, first_pid_index(s, pid)),
        forall|k: int| 0 <= k < first_pid_index(s, pid) ==> !pid_at(s, pid, k),
    decreases s.len(),
{
    let j0 = choose|j: int| pid_at(s, pid, j);
    assert(pid_at(s, pid, j0));
    if s[0].position_id.token@ == pid.token@ && s[0].position_id.seq == pid.seq {
        assert(first_pid_index(s, pid) == 0);
    } else {
        let t = s.drop_first();
        assert(j0 != 0);
        assert(t[j0 - 1] == s[j0]);
        assert(pid_at(t, pid, j0 - 1));
        assert(has_pid(t, pid));
        lemma_first_pid_index(t, pid);
        let f = first_pid_index(t, pid);
        assert(t[f] == s[f + 1]);
        assert(pid_at(s, pid, f + 1));
        assert forall|k: int| 0 <= k < first_pid_index(s, pid) implies !pid_at(s, pid, k) by {
            if k > 0 {
                assert(t[k - 1] == s[k]);
                assert(!pid_at(t, pid, k - 1));
            }
        }
    }
}

/// `first_pid_index` equals any index with the first-match property.
pub proof fn lemma_first_pid_index_is(s: Seq<Position>, pid: PositionId, j: int)
    requires
        0 <= j < s.len(),
        pid_at(s, pid, j),
        forall|k: int| 0 <= k < j ==> !pid_at(s, pid, k),
    ensures
        has_pid(s, pid),
        first_pid_index(s, pid) == j,
{
    assert(has_pid(s, pid));
    lemma_first_pid_index(s, pid);
    let f = first_pid_index(s, pid);
    if f < j {
        assert(!pid_at(s, pid, f));
        assert(pid_at(s, pid, f));
    }
    if j < f {
        assert(!pid_at(s, pid, j));
    }
}

// ---------------------------------------------------------------------
// Transition relations
// ---------------------------------------------------------------------

/// `post` is `pre` with `pos` appended to `u`'s list, the list being
/// created when absent; everything else untouched.
pub open spec fn appended_position(
    pre: Seq<UserPositions>,
    post: Seq<UserPositions>,
    u: Seq<char>,
    pos: Position,
) -> bool {
    if has_book(pre, u) {
        &&& post.len() == pre.len()
        &&& forall|k: int| 0 <= k < pre.len() && k != book_index(pre, u) ==> post[k] == pre[k]
        &&& post[book_index(pre, u)].user_id == pre[book_index(pre, u)].user_id
        &&& post[book_index(pre, u)].entries@ == pre[book_index(pre, u)].entries@.push(pos)
    } else {
        &&& post.len() == pre.len() + 1
        &&& forall|k: int| 0 <= k < pre.len() ==> post[k] == pre[k]
        &&& post[pre.len() as int].user_id@ == u
        &&& post[pre.len() as int].entries@ == seq![pos]
    }
}

/// The position an accepted order creates, given the id assigned to it.
pub open spec fn new_position_spec(
    order: OpenOrderRequest,
    price: CurrentPrice,
    pid: PositionId,
) -> Position {
    Position {
        position_id: pid,
        asset: order.asset,
        entry_price: if order.qty@ > 0 {
            price.ask
        } else {
            price.bid
        },
        qty: order.qty,
        pnl: Money { atoms: 0 },
        margin: match order.margin {
            Some(m) => m,
            None => Money { atoms: 0 },
        },
        stop_loss: order.stop_loss,
        take_profit: order.take_profit,
        leverage: order.leverage,
    }
}

/// Full behaviour of the open path: which error comes on which input —
/// checked in this order — and, on success, exactly how the maps change.
pub open spec fn open_rel(
    pre: Positions,
    prew: Wallets,
    u: Seq<char>,
    order: OpenOrderRequest,
    price: CurrentPrice,
    post: Positions,
    postw: Wallets,
    r: Result<PositionId, OpenError>,
) -> bool {
    let margin = order_margin_spec(order);
    let required = required_spec(price, order);
    let unchanged = post == pre && postw == prew;
    if price.bid@ == 0 || price.ask@ == 0 {
        r matches Err(e) && e == OpenError::ServerNotReady && unchanged
    } else if order.asset@ != "BTC"@ {
        r matches Err(e) && e == OpenError::UnsupportedAsset && unchanged
    } else if order.qty@ == 0 {
        r matches Err(e) && e == OpenError::InvalidQuantity && unchanged
    } else if margin < 0 {
        r matches Err(e) && e == OpenError::InvalidMargin && unchanged
    } else if !has_wallet(prew.wallet_map@, u) {
        r matches Err(e) && e == OpenError::NoSuchWallet && unchanged
    } else if spec_balance(prew.wallet_map@, u) < required {
        r matches Err(e) && (e matches OpenError::InsufficientFunds { balance, required: req }
            && balance@ == spec_balance(prew.wallet_map@, u) && req@ == required) && unchanged
    } else if pre.next_seq == u64::MAX {
        r matches Err(e) && e == OpenError::IdSpaceExhausted && unchanged
    } else {
        &&& r matches Ok(pid)
        &&& (r matches Ok(pid) ==> {
            &&& pid.seq == pre.next_seq
            &&& pid.token@.len() == 21
            &&& post.next_seq == pre.next_seq + 1
            &&& updated_balance(
                prew.wallet_map@,
                postw.wallet_map@,
                u,
                spec_balance(prew.wallet_map@, u) - required,
            )
            &&& appended_position(
                pre.position_map@,
                post.position_map@,
                u,
                new_position_spec(order, price, pid),
            )
        })
    }
}

/// Full behaviour of the close path: which error comes on which input
/// and, on success, which position leaves and what the wallet receives.
pub open spec fn close_rel(
    pre: Seq<UserPositions>,
    prew: Seq<Wallet>,
    u: Seq<char>,
    pid: PositionId,
    price: CurrentPrice,
    post: Seq<UserPositions>,
    postw: Seq<Wallet>,
    r: Result<(), CloseError>,
) -> bool {
    let unchanged = post == pre && postw == prew;
    if !has_book(pre, u) {
        r matches Err(e) && e == CloseError::NoSuchUser && unchanged
    } else {
        let bi = book_index(pre, u);
        let entries = pre[bi].entries@;
        if !has_pid(entries, pid) {
            r matches Err(e) && e == CloseError::NoSuchPosition && unchanged
        } else {
            let j = first_pid_index(entries, pid);
            let p = entries[j];
            let payout = payout_spec(
                p.entry_price@,
                p.qty@,
                exit_price_spec(price, p.qty@),
                p.margin@,
            );
            if !has_wallet(prew, u) {
                r matches Err(e) && e == CloseError::WalletRefused(crate::errors::WalletError::NoSuchWallet)
                    && unchanged
            } else if spec_balance(prew, u) + payout > BALANCE_LIMIT as int {
                r matches Err(e) && e == CloseError::WalletRefused(
                    crate::errors::WalletError::BalanceOverflow,
                ) && unchanged
            } else {
                &&& r matches Ok(v) && v == ()
                &&& updated_balance(prew, postw, u, spec_balance(prew, u) + payout)
                &&& post.len() == pre.len()
                &&& forall|k: int| 0 <= k < pre.len() && k != bi ==> post[k] == pre[k]
                &&& post[bi].user_id == pre[bi].user_id
                &&& post[bi].entries@ == entries.remove(j)
            }
        }
    }
}

// ---------------------------------------------------------------------
// Risk-engine specifications
// ---------------------------------------------------------------------

/// Leverage of a position, defaulting to one (at `Amount` scale).
pub open spec fn lev_or_one(p: Position) -> int {
    match p.leverage {
        Some(l) => l@,
        None => AMOUNT_SCALE as int,
    }
}

/// The margin-exhaustion test, written over raw fixed-point integers.
/// In real terms it is `notional/leverage + margin < (pnl + margin)/10`
/// (the liquidation threshold is one tenth), multiplied through by
/// `10 * leverage` and the scales, so the comparison is exact.
pub open spec fn margin_call_spec(entry: int, qty: int, lev: int, margin: int, pnl: int) -> bool {
    10 * notional_spec(entry, qty) * (AMOUNT_SCALE as int) + 10 * lev * margin < lev * (pnl
        + margin)
}

/// Whether a position is selected for liquidation at `price`: margin
/// exhaustion, stop-loss hit, or take-profit hit, on the P&L recomputed
/// at the mark leg.
pub open spec fn fires(p: Position, price: CurrentPrice) -> bool {
    let pnl = pnl_spec(p.entry_price@, p.qty@, exit_price_spec(price, p.qty@));
    ||| margin_call_spec(p.entry_price@, p.qty@, lev_or_one(p), p.margin@, pnl)
    ||| (p.stop_loss matches Some(s) && pnl <= -s@)
    ||| (p.take_profit matches Some(t) && pnl >= t@)
}

/// A position with its cached P&L refreshed at `price`; the only
/// in-place mutation the engine ever performs.
pub open spec fn repriced(p: Position, price: CurrentPrice) -> Position {
    Position {
        pnl: Money {
            atoms: pnl_spec(p.entry_price@, p.qty@, exit_price_spec(price, p.qty@)) as i128,
        },
        ..p
    }
}

/// The recomputed P&L of a well-formed position stays within
/// `MONEY_LIMIT`, so `repriced` is exact and well formed, and firing is
/// unaffected by the refresh itself.
pub proof fn lemma_pnl_bound(p: Position, price: CurrentPrice)
    requires
        wf_position(p),
        price.wf(),
    ensures
        -(MONEY_LIMIT as int) <= pnl_spec(p.entry_price@, p.qty@, exit_price_spec(price, p.qty@))
            <= MONEY_LIMIT as int,
        repriced(p, price).pnl@ == pnl_spec(p.entry_price@, p.qty@, exit_price_spec(price, p.qty@)),
        wf_position(repriced(p, price)),
        repriced(p, price).position_id == p.position_id,
        fires(repriced(p, price), price) == fires(p, price),
{
    let mark = exit_price_spec(price, p.qty@);
    lemma_mul_bound(mark - p.entry_price@, p.qty@, AMOUNT_LIMIT as int, AMOUNT_LIMIT as int);
    assert(AMOUNT_LIMIT as int * AMOUNT_LIMIT as int == MONEY_LIMIT as int);
}

/// Index of the first position of the list that fires at `price`
/// (equals the length when none does).
pub open spec fn first_trigger(s: Seq<Position>, price: CurrentPrice) -> int
    decreases s.len(),
{
    if s.len() == 0 {
        0
    } else if fires(s[0], price) {
        0
    } else {
        1 + first_trigger(s.drop_first(), price)
    }
}

/// Basic facts about `first_trigger`.
pub proof fn lemma_first_trigger_bounds(s: Seq<Position>, price: CurrentPrice)
    ensures
        0 <= first_trigger(s, price) <= s.len(),
        forall|k: int| 0 <= k < first_trigger(s, price) ==> !fires(s[k], price),
        first_trigger(s, price) < s.len() ==> fires(s[first_trigger(s, price)], price),
    decreases s.len(),
{
    if s.len() == 0 {
    } else if fires(s[0], price) {
    } else {
        let t = s.drop_first();
        lemma_first_trigger_bounds(t, price);
        assert forall|k: int| 0 <= k < first_trigger(s, price) implies !fires(s[k], price) by {
            if k > 0 {
                assert(t[k - 1] == s[k]);
            }
        }
        if first_trigger(s, price) < s.len() {
            assert(t[first_trigger(t, price)] == s[first_trigger(s, price)]);
        }
    }
}

/// `first_trigger` equals any index with the first-trigger property.
pub proof fn lemma_first_trigger_is(s: Seq<Position>, price: CurrentPrice, j: int)
    requires
        0 <= j <= s.len(),
        forall|k: int| 0 <= k < j ==> !fires(s[k], price),
        j < s.len() ==> fires(s[j], price),
    ensures
        first_trigger(s, price) == j,
{
    lemma_first_trigger_bounds(s, price);
    let f = first_trigger(s, price);
    if f < j {
        assert(fires(s[f], price));
        assert(!fires(s[f], price));
    }
    if j < f {
        assert(!fires(s[j], price));
        assert(fires(s[j], price));
    }
}

/// One user's list after a risk pass: P&L refreshed up to and including
/// the first firing position (the pass short-circuits out of the list
/// there), untouched beyond it.
pub open spec fn marked_entries(s: Seq<Position>, price: CurrentPrice) -> Seq<Position> {
    let t = first_trigger(s, price);
    Seq::new(s.len(), |k: int| if k <= t { repriced(s[k], price) } else { s[k] })
}

/// A liquidation selected by the risk pass: whose position, and which.
pub struct LiqItem {
    pub user_id: String,
    pub position_id: PositionId,
}

/// The liquidations one user's list contributes: at most one per pass.
pub open spec fn user_liq_items(b: UserPositions, price: CurrentPrice) -> Seq<LiqItem> {
    let t = first_trigger(b.entries@, price);
    if t < b.entries@.len() {
        seq![LiqItem { user_id: b.user_id, position_id: b.entries@[t].position_id }]
    } else {
        Seq::empty()
    }
}

/// All liquidations a risk pass selects, in user order.
pub open spec fn liq_items(m: Seq<UserPositions>, price: CurrentPrice) -> Seq<LiqItem>
    decreases m.len(),
{
    if m.len() == 0 {
        Seq::empty()
    } else {
        user_liq_items(m[0], price) + liq_items(m.drop_first(), price)
    }
}

/// `liq_items` over a list extended by one user.
pub proof fn lemma_liq_items_snoc(m: Seq<UserPositions>, b: UserPositions, price: CurrentPrice)
    ensures
        liq_items(m.push(b), price) == liq_items(m, price) + user_liq_items(b, price),
    decreases m.len(),
{
    if m.len() == 0 {
        assert(m.push(b)[0] == b);
        assert(m.push(b).drop_first() =~= Seq::<UserPositions>::empty());
        assert(liq_items(Seq::<UserPositions>::empty(), price) == Seq::<LiqItem>::empty());
        assert(liq_items(m.push(b), price) == user_liq_items(b, price)
            + Seq::<LiqItem>::empty());
        assert(liq_items(m, price) == Seq::<LiqItem>::empty());
        assert(liq_items(m.push(b), price) =~= liq_items(m, price) + user_liq_items(b, price));
    } else {
        assert(m.push(b)[0] == m[0]);
        assert(m.push(b).drop_first() =~= m.drop_first().push(b));
        lemma_liq_items_snoc(m.drop_first(), b, price);
        assert(liq_items(m.push(b), price) == user_liq_items(m[0], price) + (liq_items(
            m.drop_first(),
            price,
        ) + user_liq_items(b, price)));
        vstd::seq_lib::lemma_concat_associative(
            user_liq_items(m[0], price),
            liq_items(m.drop_first(), price),
            user_liq_items(b, price),
        );
        assert(liq_items(m.push(b), price) =~= liq_items(m, price) + user_liq_items(b, price));
    }
}

/// The in-place part of a risk pass: every user keeps its key, every
/// list becomes its marked form.
pub open spec fn phase1_rel(
    pre: Seq<UserPositions>,
    post: Seq<UserPositions>,
    price: CurrentPrice,
) -> bool {
    &&& post.len() == pre.len()
    &&& forall|i: int| 0 <= i < pre.len() ==> (#[trigger] post[i]).user_id == pre[i].user_id
    &&& forall|i: int|
        0 <= i < pre.len() ==> (#[trigger] post[i]).entries@ == marked_entries(
            pre[i].entries@,
            price,
        )
}

/// A risk pass preserves well-formedness: ids and all fields but the
/// cached P&L are untouched, and the refreshed P&L stays in range.
pub proof fn lemma_wf_after_mark(
    pre: Seq<UserPositions>,
    post: Seq<UserPositions>,
    price: CurrentPrice,
    next_seq: u64,
)
    requires
        books_wf(pre, next_seq),
        price.wf(),
        phase1_rel(pre, post, price),
    ensures
        books_wf(post, next_seq),
{
    assert forall|i: int, j: int| valid_pos(post, i, j) implies {
        &&& valid_pos(pre, i, j)
        &&& wf_position(#[trigger] pos_at(post, i, j))
        &&& pos_at(post, i, j).position_id == pos_at(pre, i, j).position_id
    } by {
        assert(post[i].entries@.len() == pre[i].entries@.len());
        assert(valid_pos(pre, i, j));
        lemma_pnl_bound(pos_at(pre, i, j), price);
        let t = first_trigger(pre[i].entries@, price);
        if j <= t {
            assert(pos_at(post, i, j) == repriced(pos_at(pre, i, j), price));
        } else {
            assert(pos_at(post, i, j) == pos_at(pre, i, j));
        }
    }
}

/// The second phase of a risk pass: the selected liquidations are closed
/// one by one through the ordinary close path; the first close that
/// fails stops the pass with its error.
pub open spec fn liq_run(
    b0: Seq<UserPositions>,
    w0: Seq<Wallet>,
    items: Seq<LiqItem>,
    price: CurrentPrice,
    b1: Seq<UserPositions>,
    w1: Seq<Wallet>,
    r: Result<(), CloseError>,
) -> bool
    decreases items.len(),
{
    if items.len() == 0 {
        b1 == b0 && w1 == w0 && r is Ok
    } else {
        exists|bm: Seq<UserPositions>, wm: Seq<Wallet>, r0: Result<(), CloseError>|
            {
                &&& #[trigger] close_rel(
                    b0,
                    w0,
                    items[0].user_id@,
                    items[0].position_id,
                    price,
                    bm,
                    wm,
                    r0,
                )
                &&& if r0 is Ok {
                    liq_run(bm, wm, items.drop_first(), price, b1, w1, r)
                } else {
                    b1 == bm && w1 == wm && r == r0
                }
            }
    }
}

/// Extending a run of successful closes by one more close.
pub proof fn lemma_liq_run_extend(
    b0: Seq<UserPositions>,
    w0: Seq<Wallet>,
    items: Seq<LiqItem>,
    k: int,
    bk: Seq<UserPositions>,
    wk: Seq<Wallet>,
    bk1: Seq<UserPositions>,
    wk1: Seq<Wallet>,
    r0: Result<(), CloseError>,
    price: CurrentPrice,
)
    requires
        0 <= k < items.len(),
        liq_run(b0, w0, items.take(k), price, bk, wk, Ok(())),
        close_rel(bk, wk, items[k].user_id@, items[k].position_id, price, bk1, wk1, r0),
    ensures
        r0 is Ok ==> liq_run(b0, w0, items.take(k + 1), price, bk1, wk1, Ok(())),
        !(r0 is Ok) ==> liq_run(b0, w0, items, price, bk1, wk1, r0),
    decreases k,
{
    if k == 0 {
        assert(items.take(0).len() == 0);
        assert(bk == b0 && wk == w0);
        if r0 is Ok {
            assert(items.take(1)[0] == items[0]);
            assert(items.take(1).drop_first() =~= Seq::<LiqItem>::empty());
            assert(close_rel(
                b0,
                w0,
                items.take(1)[0].user_id@,
                items.take(1)[0].position_id,
                price,
                bk1,
                wk1,
                r0,
            ));
            assert(liq_run(bk1, wk1, items.take(1).drop_first(), price, bk1, wk1, Ok(())));
            assert(liq_run(b0, w0, items.take(1), price, bk1, wk1, Ok(())));
        } else {
            assert(close_rel(b0, w0, items[0].user_id@, items[0].position_id, price, bk1, wk1, r0));
            assert(liq_run(b0, w0, items, price, bk1, wk1, r0));
        }
    } else {
        let tk = items.take(k);
        assert(tk.len() == k);
        assert(tk[0] == items[0]);
        let (bm, wm, rr) = choose|bm: Seq<UserPositions>, wm: Seq<Wallet>, rr: Result<(), CloseError>|
            {
                &&& #[trigger] close_rel(
                    b0,
                    w0,
                    tk[0].user_id@,
                    tk[0].position_id,
                    price,
                    bm,
                    wm,
                    rr,
                )
                &&& if rr is Ok {
                    liq_run(bm, wm, tk.drop_first(), price, bk, wk, Ok(()))
                } else {
                    bk == bm && wk == wm && Ok::<(), CloseError>(()) == rr
                }
            };
        assert(rr is Ok);
        let rest = items.drop_first();
        assert(tk.drop_first() =~= rest.take(k - 1));
        assert(rest[k - 1] == items[k]);
        lemma_liq_run_extend(bm, wm, rest, k - 1, bk, wk, bk1, wk1, r0, price);
        if r0 is Ok {
            assert(items.take(k + 1)[0] == items[0]);
            assert(items.take(k + 1).drop_first() =~= rest.take(k));
            assert(close_rel(
                b0,
                w0,
                items.take(k + 1)[0].user_id@,
                items.take(k + 1)[0].position_id,
                price,
                bm,
                wm,
                rr,
            ));
            assert(liq_run(bm, wm, items.take(k + 1).drop_first(), price, bk1, wk1, Ok(())));
            assert(liq_run(b0, w0, items.take(k + 1), price, bk1, wk1, Ok(())));
        } else {
            assert(liq_run(bm, wm, items.drop_first(), price, bk1, wk1, r0));
            assert(liq_run(b0, w0, items, price, bk1, wk1, r0));
        }
    }
}

/// A close keeps every user's list and every wallet in place: at most
/// one position and one balance change.
pub proof fn lemma_close_rel_keys(
    pre: Seq<UserPositions>,
    prew: Seq<Wallet>,
    u: Seq<char>,
    pid: PositionId,
    price: CurrentPrice,
    post: Seq<UserPositions>,
    postw: Seq<Wallet>,
    r: Result<(), CloseError>,
)
    requires
        close_rel(pre, prew, u, pid, price, post, postw, r),
        distinct_book_keys(pre),
        distinct_wallet_keys(prew),
    ensures
        distinct_book_keys(post),
        distinct_wallet_keys(postw),
        forall|v: Seq<char>| #[trigger] has_book(post, v) == has_book(pre, v),
        forall|v: Seq<char>| #[trigger] has_wallet(postw, v) == has_wallet(prew, v),
{
    if !has_book(pre, u) {
    } else {
        let bi = book_index(pre, u);
        let entries = pre[bi].entries@;
        if !has_pid(entries, pid) {
        } else {
            let j = first_pid_index(entries, pid);
            let p = entries[j];
            let payout = payout_spec(
                p.entry_price@,
                p.qty@,
                exit_price_spec(price, p.qty@),
                p.margin@,
            );
            if !has_wallet(prew, u) {
            } else if spec_balance(prew, u) + payout > crate::money::BALANCE_LIMIT as int {
            } else {
                assert forall|k: int|
                    0 <= k < post.len() implies (#[trigger] post[k]).user_id@
                    == pre[k].user_id@ by {
                    if k != bi {
                        assert(post[k] == pre[k]);
                    }
                }
                assert forall|v: Seq<char>| #[trigger] has_book(post, v) == has_book(pre, v) by {
                    if has_book(pre, v) {
                        let k = book_index(pre, v);
                        assert(book_at(pre, v, k));
                        assert(book_at(post, v, k));
                    }
                    if has_book(post, v) {
                        let k = choose|k: int| book_at(post, v, k);
                        assert(book_at(post, v, k));
                        assert(book_at(pre, v, k));
                    }
                }
                lemma_updated_balance(prew, postw, u, spec_balance(prew, u) + payout);
            }
        }
    }
}

/// A risk pass's in-place phase keeps every user key.
pub proof fn lemma_phase1_keys(
    pre: Seq<UserPositions>,
    post: Seq<UserPositions>,
    price: CurrentPrice,
)
    requires
        phase1_rel(pre, post, price),
        distinct_book_keys(pre),
    ensures
        distinct_book_keys(post),
        forall|v: Seq<char>| #[trigger] has_book(post, v) == has_book(pre, v),
{
    assert forall|v: Seq<char>| #[trigger] has_book(post, v) == has_book(pre, v) by {
        if has_book(pre, v) {
            let k = book_index(pre, v);
            assert(book_at(pre, v, k));
            assert(book_at(post, v, k));
        }
        if has_book(post, v) {
            let k = choose|k: int| book_at(post, v, k);
            assert(book_at(post, v, k));
            assert(book_at(pre, v, k));
        }
    }
}

/// A run of liquidation closes keeps every user's list and wallet in
/// place.
pub proof fn lemma_liq_run_keys(
    b0: Seq<UserPositions>,
    w0: Seq<Wallet>,
    items: Seq<LiqItem>,
    price: CurrentPrice,
    b1: Seq<UserPositions>,
    w1: Seq<Wallet>,
    r: Result<(), CloseError>,
)
    requires
        liq_run(b0, w0, items, price, b1, w1, r),
        distinct_book_keys(b0),
        distinct_wallet_keys(w0),
    ensures
        distinct_book_keys(b1),
        distinct_wallet_keys(w1),
        forall|v: Seq<char>| #[trigger] has_book(b1, v) == has_book(b0, v),
        forall|v: Seq<char>| #[trigger] has_wallet(w1, v) == has_wallet(w0, v),
    decreases items.len(),
{
    if items.len() == 0 {
    } else {
        let (bm, wm, r0) = choose|bm: Seq<UserPositions>, wm: Seq<Wallet>, r0: Result<(), CloseError>|
            {
                &&& #[trigger] close_rel(
                    b0,
                    w0,
                    items[0].user_id@,
                    items[0].position_id,
                    price,
                    bm,
                    wm,
                    r0,
                )
                &&& if r0 is Ok {
                    liq_run(bm, wm, items.drop_first(), price, b1, w1, r)
                } else {
                    b1 == bm && w1 == wm && r == r0
                }
            };
        lemma_close_rel_keys(b0, w0, items[0].user_id@, items[0].position_id, price, bm, wm, r0);
        if r0 is Ok {
            lemma_liq_run_keys(bm, wm, items.drop_first(), price, b1, w1, r);
            assert forall|v: Seq<char>| #[trigger] has_book(b1, v) == has_book(b0, v) by {
                assert(has_book(b1, v) == has_book(bm, v));
                assert(has_book(bm, v) == has_book(b0, v));
            }
            assert forall|v: Seq<char>| #[trigger] has_wallet(w1, v) == has_wallet(w0, v) by {
                assert(has_wallet(w1, v) == has_wallet(wm, v));
                assert(has_wallet(wm, v) == has_wallet(w0, v));
            }
        }
    }
}

/// Full behaviour of one risk pass.
pub open spec fn risk_rel(
    pre: Seq<UserPositions>,
    prew: Seq<Wallet>,
    price: CurrentPrice,
    post: Seq<UserPositions>,
    postw: Seq<Wallet>,
    r: Result<(), CloseError>,
) -> bool {
    exists|mid: Seq<UserPositions>|
        #[trigger] phase1_rel(pre, mid, price) && liq_run(
            mid,
            prew,
            liq_items(pre, price),
            price,
            post,
            postw,
            r,
        )
}

/// The index in a pre-removal position map that the entry at `(i, l)` of
/// the post-removal map came from, when the removal took place at
/// `(bi, j)`.
pub open spec fn orig_entry_index(bi: int, j: int, i: int, l: int) -> int {
    if i == bi && l >= j {
        l + 1
    } else {
        l
    }
}

impl Positions {
    /// Well-formed position map; see [`books_wf`].
    pub open spec fn wf(self) -> bool {
        books_wf(self.position_map@, self.next_seq)
    }

    /// An empty position map.
    pub fn new() -> (r: Positions)
        ensures
            r.wf(),
            r.position_map@.len() == 0,
            r.next_seq == 0,
    {
        Positions { position_map: Vec::new(), next_seq: 0 }
    }

    /// The index of `user_id`'s list, if any.
    fn find_book(&self, user_id: &String) -> (r: Option<usize>)
        ensures
            match r {
                Some(i) => book_at(self.position_map@, user_id@, i as int),
                None => !has_book(self.position_map@, user_id@),
            },
    {
        let mut i: usize = 0;
        while i < self.position_map.len()
            invariant
                0 <= i <= self.position_map@.len(),
                forall|k: int| 0 <= k < i ==> self.position_map@[k].user_id@ != user_id@,
            decreases self.position_map@.len() - i,
        {
            if self.position_map[i].user_id.eq(user_id) {
                return Some(i);
            }
            i = i + 1;
        }
        assert forall|k: int| !book_at(self.position_map@, user_id@, k) by {
            if 0 <= k < self.position_map@.len() {
                assert(self.position_map@[k].user_id@ != user_id@);
            }
        }
        None
    }

    /// A deep copy of `user_id`'s positions, in insertion order, or
    /// `None` when the user has no list at all.  The copy is the
    /// caller's own: changing it cannot touch the custodian's state.
    pub fn list(&self, user_id: &String) -> (r: Option<Vec<Position>>)
        requires
            self.wf(),
        ensures
            match r {
                Some(v) => has_book(self.position_map@, user_id@) && v@ == self.position_map@[
                    book_index(self.position_map@, user_id@)
                ].entries@,
                None => !has_book(self.position_map@, user_id@),
            },
    {
        match self.find_book(user_id) {
            None => None,
            Some(bi) => {
                proof {
                    lemma_book_index(self.position_map@, user_id@, bi as int);
                }
                let entries = &self.position_map[bi].entries;
                let mut out: Vec<Position> = Vec::new();
                let mut j: usize = 0;
                while j < entries.len()
                    invariant
                        0 <= j <= entries@.len(),
                        out@ =~= entries@.subrange(0, j as int),
                    decreases entries@.len() - j,
                {
                    out.push(entries[j].clone());
                    proof {
                        assert(out@ =~= entries@.subrange(0, j + 1 as int));
                    }
                    j = j + 1;
                }
                proof {
                    assert(out@ =~= entries@);
                }
                Some(out)
            },
        }
    }

    /// Opens a position for `user_id` against the snapshot `price`,
    /// debiting notional plus margin from the wallet.  See [`open_rel`]
    /// for the exact behaviour on every input.
    pub fn open(
        &mut self,
        user_id: String,
        order: OpenOrderRequest,
        price: CurrentPrice,
        wallets: &mut Wallets,
    ) -> (r: Result<PositionId, OpenError>)
        requires
            old(self).wf(),
            old(wallets).wf(),
            price.wf(),
            order_in_range(order),
        ensures
            final(self).wf(),
            final(wallets).wf(),
            final(self).next_seq >= old(self).next_seq,
            open_rel(
                *old(self),
                *old(wallets),
                user_id@,
                order,
                price,
                *final(self),
                *final(wallets),
                r,
            ),
    {
        if price.bid.atoms == 0 || price.ask.atoms == 0 {
            return Err(OpenError::ServerNotReady);
        }
        let btc = String::from_str("BTC");
        if !order.asset.eq(&btc) {
            return Err(OpenError::UnsupportedAsset);
        }
        if order.qty.atoms == 0 {
            return Err(OpenError::InvalidQuantity);
        }
        let margin = match order.margin {
            Some(m) => m,
            None => Money::zero(),
        };
        if margin.atoms < 0 {
            return Err(OpenError::InvalidMargin);
        }
        let balance = match wallets.get_balance(&user_id) {
            Some(b) => b,
            None => {
                return Err(OpenError::NoSuchWallet);
            },
        };
        let entry = if order.qty.atoms > 0 {
            price.ask
        } else {
            price.bid
        };
        let notional = entry.times(order.qty.abs());
        proof {
            lemma_mul_sign(entry@, abs_spec(order.qty@));
        }
        let required = notional.plus(margin);
        if balance.atoms < required.atoms {
            return Err(OpenError::InsufficientFunds { balance, required });
        }
        if self.next_seq == u64::MAX {
            return Err(OpenError::IdSpaceExhausted);
        }
        match wallets.debit(&user_id, required) {
            Ok(_) => {},
            Err(e) => {
                // The wallet exists and the sufficiency check passed, so
                // the ledger cannot refuse this debit.
                proof {
                    assert(false);
                }
                return Err(OpenError::WalletRefused(e));
            },
        }
        let token = crate::ids::fresh_token();
        let pid = PositionId { token, seq: self.next_seq };
        self.next_seq = self.next_seq + 1;
        let position = Position {
            position_id: pid.clone(),
            asset: order.asset,
            entry_price: entry,
            qty: order.qty,
            pnl: Money::zero(),
            margin,
            stop_loss: order.stop_loss,
            take_profit: order.take_profit,
            leverage: order.leverage,
        };
        let ghost pre = self.position_map@;
        let ghost pos = position;
        match self.find_book(&user_id) {
            Some(bi) => {
                proof {
                    lemma_book_index(pre, user_id@, bi as int);
                }
                let book = vstd::std_specs::vec::vec_index_mut(&mut self.position_map, bi);
                book.entries.push(position);
            },
            None => {
                let mut entries: Vec<Position> = Vec::new();
                entries.push(position);
                self.position_map.push(UserPositions { user_id, entries });
                proof {
                    assert(self.position_map@[pre.len() as int].entries@ =~= seq![pos]);
                }
            },
        }
        proof {
            self.lemma_wf_after_append(pre, user_id@, pos, (self.next_seq - 1) as u64);
        }
        Ok(pid)
    }

    /// Closes `user_id`'s position `position_id` against the snapshot
    /// `price`: the first position carrying the id leaves the list and
    /// the wallet is credited the payout.  See [`close_rel`] for the
    /// exact behaviour on every input.
    pub fn close(
        &mut self,
        user_id: &String,
        position_id: &PositionId,
        price: CurrentPrice,
        wallets: &mut Wallets,
    ) -> (r: Result<(), CloseError>)
        requires
            old(self).wf(),
            old(wallets).wf(),
            price.wf(),
        ensures
            final(self).wf(),
            final(wallets).wf(),
            final(self).next_seq == old(self).next_seq,
            close_rel(
                old(self).position_map@,
                old(wallets).wallet_map@,
                user_id@,
                *position_id,
                price,
                final(self).position_map@,
                final(wallets).wallet_map@,
                r,
            ),
    {
        let bi = match self.find_book(user_id) {
            Some(bi) => bi,
            None => {
                return Err(CloseError::NoSuchUser);
            },
        };
        proof {
            lemma_book_index(self.position_map@, user_id@, bi as int);
        }
        let ghost entries = self.position_map@[bi as int].entries@;
        let j = match Self::find_pid(&self.position_map[bi].entries, position_id) {
            Some(j) => j,
            None => {
                return Err(CloseError::NoSuchPosition);
            },
        };
        proof {
            lemma_first_pid_index(entries, *position_id);
            let f = first_pid_index(entries, *position_id);
            if f < j {
                assert(!pid_at(entries, *position_id, f));
            }
            assert(f == j);
            assert(valid_pos(self.position_map@, bi as int, j as int));
            assert(wf_position(pos_at(self.position_map@, bi as int, j as int)));
        }
        let entry = self.position_map[bi].entries[j].entry_price;
        let qty = self.position_map[bi].entries[j].qty;
        let margin = self.position_map[bi].entries[j].margin;
        let exit = if qty.atoms > 0 {
            price.bid
        } else {
            price.ask
        };
        let diff = exit.minus(entry);
        let realized = diff.times(qty);
        let notional = entry.times(qty.abs());
        proof {
            lemma_mul_sign(entry@, abs_spec(qty@));
        }
        let gross = realized.plus(notional).plus(margin);
        let payout = if gross.atoms >= 0 {
            gross
        } else {
            Money::zero()
        };
        assert(payout@ == payout_spec(entry@, qty@, exit_price_spec(price, qty@), margin@));
        match wallets.credit(user_id, payout) {
            Ok(_) => {},
            Err(e) => {
                return Err(CloseError::WalletRefused(e));
            },
        }
        let ghost pre = self.position_map@;
        let book = vstd::std_specs::vec::vec_index_mut(&mut self.position_map, bi);
        book.entries.remove(j);
        proof {
            Self::lemma_wf_after_remove(
                pre,
                self.position_map@,
                bi as int,
                j as int,
                self.next_seq,
            );
        }
        Ok(())
    }

    /// One price tick's risk pass.  First every user's list is walked in
    /// insertion order, refreshing each cached P&L, until the first
    /// position of that user that fires a liquidation predicate (at most
    /// one liquidation per user per pass; the rest of the list keeps its
    /// stale P&L until the next tick).  Then every selected position is
    /// closed through the ordinary close path; the first close that the
    /// wallet refuses stops the pass with that error.
    pub fn update_risk(&mut self, price: CurrentPrice, wallets: &mut Wallets) -> (r: Result<
        (),
        CloseError,
    >)
        requires
            old(self).wf(),
            old(wallets).wf(),
            price.wf(),
        ensures
            final(self).wf(),
            final(wallets).wf(),
            final(self).next_seq == old(self).next_seq,
            risk_rel(
                old(self).position_map@,
                old(wallets).wallet_map@,
                price,
                final(self).position_map@,
                final(wallets).wallet_map@,
                r,
            ),
    {
        let ghost pre_books = self.position_map@;
        let ghost nseq = self.next_seq;
        let ghost w_start = wallets.wallet_map@;
        let mut items: Vec<LiqItem> = Vec::new();
        let mut ui: usize = 0;
        while ui < self.position_map.len()
            invariant
                pre_books == old(self).position_map@,
                nseq == old(self).next_seq,
                w_start == old(wallets).wallet_map@,
                0 <= ui <= pre_books.len(),
                self.position_map@.len() == pre_books.len(),
                self.next_seq == nseq,
                books_wf(pre_books, nseq),
                price.wf(),
                wallets.wallet_map@ == w_start,
                ledger_wf(w_start),
                forall|i: int|
                    0 <= i < ui ==> (#[trigger] self.position_map@[i]).user_id
                        == pre_books[i].user_id,
                forall|i: int|
                    0 <= i < ui ==> (#[trigger] self.position_map@[i]).entries@ == marked_entries(
                        pre_books[i].entries@,
                        price,
                    ),
                forall|i: int|
                    ui <= i < pre_books.len() ==> (#[trigger] self.position_map@[i])
                        == pre_books[i],
                items@ == liq_items(pre_books.take(ui as int), price),
            decreases pre_books.len() - ui,
        {
            let ghost pre_book = pre_books[ui as int];
            assert(self.position_map@[ui as int] == pre_book);
            proof {
                assert forall|j: int|
                    0 <= j < pre_book.entries@.len() implies wf_position(
                    #[trigger] pre_book.entries@[j],
                ) by {
                    assert(valid_pos(pre_books, ui as int, j));
                    assert(wf_position(pos_at(pre_books, ui as int, j)));
                }
            }
            let book = vstd::std_specs::vec::vec_index_mut(&mut self.position_map, ui);
            let fired = mark_user(book, price);
            let pushed = match fired {
                Some(pid) => {
                    let uid = self.position_map[ui].user_id.clone();
                    items.push(LiqItem { user_id: uid, position_id: pid });
                    true
                },
                None => false,
            };
            proof {
                assert(pre_books.take(ui as int + 1) =~= pre_books.take(ui as int).push(pre_book));
                lemma_liq_items_snoc(pre_books.take(ui as int), pre_book, price);
                lemma_first_trigger_bounds(pre_book.entries@, price);
                if pushed {
                    let t = first_trigger(pre_book.entries@, price);
                    assert(items@.last() == LiqItem {
                        user_id: pre_book.user_id,
                        position_id: pre_book.entries@[t].position_id,
                    });
                    assert(items@ =~= liq_items(pre_books.take(ui as int + 1), price));
                } else {
                    assert(items@ =~= liq_items(pre_books.take(ui as int + 1), price));
                }
            }
            ui = ui + 1;
        }
        proof {
            assert(pre_books.take(pre_books.len() as int) =~= pre_books);
            assert(phase1_rel(pre_books, self.position_map@, price));
            lemma_wf_after_mark(pre_books, self.position_map@, price, nseq);
        }
        let ghost mid_books = self.position_map@;
        let ghost all_items = items@;
        let mut idx: usize = 0;
        while idx < items.len()
            invariant
                pre_books == old(self).position_map@,
                nseq == old(self).next_seq,
                w_start == old(wallets).wallet_map@,
                0 <= idx <= all_items.len(),
                items@ == all_items,
                all_items == liq_items(pre_books, price),
                price.wf(),
                books_wf(self.position_map@, self.next_seq),
                self.next_seq == nseq,
                ledger_wf(wallets.wallet_map@),
                phase1_rel(pre_books, mid_books, price),
                liq_run(
                    mid_books,
                    w_start,
                    all_items.take(idx as int),
                    price,
                    self.position_map@,
                    wallets.wallet_map@,
                    Ok(()),
                ),
            decreases all_items.len() - idx,
        {
            let ghost bk = self.position_map@;
            let ghost wk = wallets.wallet_map@;
            let res = self.close(&items[idx].user_id, &items[idx].position_id, price, wallets);
            proof {
                lemma_liq_run_extend(
                    mid_books,
                    w_start,
                    all_items,
                    idx as int,
                    bk,
                    wk,
                    self.position_map@,
                    wallets.wallet_map@,
                    res,
                    price,
                );
            }
            match res {
                Ok(_) => {},
                Err(e) => {
                    return Err(e);
                },
            }
            idx = idx + 1;
        }
        proof {
            assert(all_items.take(all_items.len() as int) =~= all_items);
        }
        Ok(())
    }

    /// Index of the first entry carrying `pid`, if any.
    fn find_pid(entries: &Vec<Position>, pid: &PositionId) -> (r: Option<usize>)
        ensures
            match r {
                Some(j) => pid_at(entries@, *pid, j as int) && forall|k: int|
                    0 <= k < j ==> !pid_at(entries@, *pid, k),
                None => !has_pid(entries@, *pid),
            },
    {
        let mut j: usize = 0;
        while j < entries.len()
            invariant
                0 <= j <= entries@.len(),
                forall|k: int| 0 <= k < j ==> !pid_at(entries@, *pid, k),
            decreases entries@.len() - j,
        {
            if entries[j].position_id.matches(pid) {
                return Some(j);
            }
            j = j + 1;
        }
        assert forall|k: int| !pid_at(entries@, *pid, k) by {
            if 0 <= k < entries@.len() {
                assert(!pid_at(entries@, *pid, k));
            }
        }
        None
    }

    /// `books_wf` survives removing one position.
    pub proof fn lemma_wf_after_remove(
        pre: Seq<UserPositions>,
        post: Seq<UserPositions>,
        bi: int,
        j: int,
        next_seq: u64,
    )
        requires
            books_wf(pre, next_seq),
            0 <= bi < pre.len(),
            0 <= j < pre[bi].entries@.len(),
            post.len() == pre.len(),
            forall|k: int| 0 <= k < pre.len() && k != bi ==> post[k] == pre[k],
            post[bi].user_id == pre[bi].user_id,
            post[bi].entries@ == pre[bi].entries@.remove(j),
        ensures
            books_wf(post, next_seq),
    {
        pre[bi].entries@.remove_ensures(j);
        assert forall|i: int, l: int| valid_pos(post, i, l) implies {
            &&& valid_pos(pre, i, orig_entry_index(bi, j, i, l))
            &&& #[trigger] pos_at(post, i, l) == pos_at(pre, i, orig_entry_index(bi, j, i, l))
        } by {
            if i == bi && l >= j {
                assert(post[bi].entries@[l] == pre[bi].entries@[l + 1]);
            }
        }
        assert forall|i: int, l: int| valid_pos(post, i, l) implies {
            &&& wf_position(#[trigger] pos_at(post, i, l))
            &&& pos_at(post, i, l).position_id.seq < next_seq
        } by {
            assert(pos_at(post, i, l) == pos_at(pre, i, orig_entry_index(bi, j, i, l)));
        }
        assert forall|i: int, l: int, k: int, n: int|
            valid_pos(post, i, l) && valid_pos(post, k, n) && !(i == k && l == n) implies (
        #[trigger] pos_at(post, i, l)).position_id.seq != (#[trigger] pos_at(
            post,
            k,
            n,
        )).position_id.seq by {
            let l0 = orig_entry_index(bi, j, i, l);
            let n0 = orig_entry_index(bi, j, k, n);
            assert(pos_at(post, i, l) == pos_at(pre, i, l0));
            assert(pos_at(post, k, n) == pos_at(pre, k, n0));
            assert(!(i == k && l0 == n0));
        }
    }

    /// `books_wf` survives appending one fresh, well-formed position.
    proof fn lemma_wf_after_append(
        self,
        pre: Seq<UserPositions>,
        u: Seq<char>,
        pos: Position,
        seq_no: u64,
    )
        requires
            books_wf(pre, seq_no),
            wf_position(pos),
            pos.position_id.seq == seq_no,
            seq_no < u64::MAX,
            self.next_seq == seq_no + 1,
            appended_position(pre, self.position_map@, u, pos),
        ensures
            self.wf(),
    {
        let post = self.position_map@;
        if has_book(pre, u) {
            let bi = book_index(pre, u);
            assert(book_at(pre, u, bi));
            assert forall|i: int, j: int| valid_pos(post, i, j) implies {
                &&& wf_position(#[trigger] pos_at(post, i, j))
                &&& pos_at(post, i, j).position_id.seq < self.next_seq
            } by {
                if i == bi && j == pre[bi].entries@.len() {
                    assert(pos_at(post, i, j) == pos);
                } else {
                    assert(valid_pos(pre, i, j));
                    assert(pos_at(post, i, j) == pos_at(pre, i, j));
                }
            }
            assert forall|i: int, j: int, k: int, l: int|
                valid_pos(post, i, j) && valid_pos(post, k, l) && !(i == k && j == l) implies (
            #[trigger] pos_at(post, i, j)).position_id.seq != (#[trigger] pos_at(
                post,
                k,
                l,
            )).position_id.seq by {
                let new_i = bi;
                let new_j = pre[bi].entries@.len() as int;
                if i == new_i && j == new_j {
                    assert(pos_at(post, i, j) == pos);
                    assert(valid_pos(pre, k, l));
                    assert(pos_at(post, k, l) == pos_at(pre, k, l));
                    assert(pos_at(pre, k, l).position_id.seq < seq_no);
                } else if k == new_i && l == new_j {
                    assert(pos_at(post, k, l) == pos);
                    assert(valid_pos(pre, i, j));
                    assert(pos_at(post, i, j) == pos_at(pre, i, j));
                    assert(pos_at(pre, i, j).position_id.seq < seq_no);
                } else {
                    assert(valid_pos(pre, i, j));
                    assert(valid_pos(pre, k, l));
                    assert(pos_at(post, i, j) == pos_at(pre, i, j));
                    assert(pos_at(post, k, l) == pos_at(pre, k, l));
                }
            }
        } else {
            let new_i = pre.len() as int;
            assert forall|i: int, j: int|
                0 <= i < post.len() && 0 <= j < post.len() && i != j implies post[i].user_id@
                != post[j].user_id@ by {
                if i == new_i {
                    assert(!book_at(pre, post[i].user_id@, j));
                } else if j == new_i {
                    assert(!book_at(pre, post[j].user_id@, i));
                } else {
                    assert(post[i] == pre[i]);
                    assert(post[j] == pre[j]);
                }
            }
            assert forall|i: int, j: int| valid_pos(post, i, j) implies {
                &&& wf_position(#[trigger] pos_at(post, i, j))
                &&& pos_at(post, i, j).position_id.seq < self.next_seq
            } by {
                if i == new_i {
                    assert(pos_at(post, i, j) == pos);
                } else {
                    assert(valid_pos(pre, i, j));
                    assert(pos_at(post, i, j) == pos_at(pre, i, j));
                }
            }
            assert forall|i: int, j: int, k: int, l: int|
                valid_pos(post, i, j) && valid_pos(post, k, l) && !(i == k && j == l) implies (
            #[trigger] pos_at(post, i, j)).position_id.seq != (#[trigger] pos_at(
                post,
                k,
                l,
            )).position_id.seq by {
                if i == new_i && k == new_i {
                    assert(j == 0 && l == 0);
                } else if i == new_i {
                    assert(pos_at(post, i, j) == pos);
                    assert(valid_pos(pre, k, l));
                    assert(pos_at(post, k, l) == pos_at(pre, k, l));
                    assert(pos_at(pre, k, l).position_id.seq < seq_no);
                } else if k == new_i {
                    assert(pos_at(post, k, l) == pos);
                    assert(valid_pos(pre, i, j));
                    assert(pos_at(post, i, j) == pos_at(pre, i, j));
                    assert(pos_at(pre, i, j).position_id.seq < seq_no);
                } else {
                    assert(valid_pos(pre, i, j));
                    assert(valid_pos(pre, k, l));
                    assert(pos_at(post, i, j) == pos_at(pre, i, j));
                    assert(pos_at(post, k, l) == pos_at(pre, k, l));
                }
            }
        }
    }
}

/// Evaluates the liquidation predicates on a position whose cached P&L
/// has just been refreshed at `price`.
fn position_fires(p: &Position, price: CurrentPrice) -> (r: bool)
    requires
        wf_position(*p),
        price.wf(),
        p.pnl@ == pnl_spec(p.entry_price@, p.qty@, exit_price_spec(price, p.qty@)),
    ensures
        r == fires(*p, price),
{
    let lev: i128 = match p.leverage {
        Some(l) => l.atoms,
        None => AMOUNT_SCALE,
    };
    let notional = p.entry_price.times(p.qty.abs());
    proof {
        lemma_mul_sign(p.entry_price@, abs_spec(p.qty@));
        lemma_mul_bound(lev as int, notional@, AMOUNT_LIMIT as int, MONEY_LIMIT as int);
        lemma_mul_bound(lev as int, p.margin@, AMOUNT_LIMIT as int, MONEY_LIMIT as int);
        lemma_mul_bound(
            lev as int,
            p.pnl@ + p.margin@,
            AMOUNT_LIMIT as int,
            2 * MONEY_LIMIT as int,
        );
    }
    proof {
        lemma_mul_bound(
            10 * lev as int,
            p.margin@,
            10 * AMOUNT_LIMIT as int,
            MONEY_LIMIT as int,
        );
    }
    let lhs: i128 = 10 * notional.atoms * AMOUNT_SCALE + 10 * lev * p.margin.atoms;
    let rhs: i128 = lev * (p.pnl.atoms + p.margin.atoms);
    if lhs < rhs {
        return true;
    }
    match p.stop_loss {
        Some(s) => {
            if p.pnl.atoms <= -s.atoms {
                return true;
            }
        },
        None => {},
    }
    match p.take_profit {
        Some(t) => {
            if p.pnl.atoms >= t.atoms {
                return true;
            }
        },
        None => {},
    }
    false
}

/// The in-place half of a risk pass for one user: refreshes each cached
/// P&L in insertion order until the first position that fires, and
/// reports that position's id.
fn mark_user(book: &mut UserPositions, price: CurrentPrice) -> (fired: Option<PositionId>)
    requires
        price.wf(),
        forall|j: int|
            0 <= j < old(book).entries@.len() ==> wf_position(#[trigger] old(book).entries@[j]),
    ensures
        final(book).user_id == old(book).user_id,
        final(book).entries@ == marked_entries(old(book).entries@, price),
        match fired {
            Some(pid) => first_trigger(old(book).entries@, price) < old(book).entries@.len()
                && pid == old(book).entries@[first_trigger(old(book).entries@, price)].position_id,
            None => first_trigger(old(book).entries@, price) == old(book).entries@.len(),
        },
{
    let ghost pre_entries = old(book).entries@;
    let len = book.entries.len();
    let mut pi: usize = 0;
    let mut fired: Option<PositionId> = None;
    while pi < len && fired.is_none()
        invariant
            price.wf(),
            forall|j: int| 0 <= j < pre_entries.len() ==> wf_position(#[trigger] pre_entries[j]),
            book.user_id == old(book).user_id,
            book.entries@.len() == pre_entries.len(),
            len == pre_entries.len(),
            0 <= pi <= len,
            forall|k: int| pi <= k < len ==> #[trigger] book.entries@[k] == pre_entries[k],
            match fired {
                None => {
                    &&& forall|k: int|
                        0 <= k < pi ==> #[trigger] book.entries@[k] == repriced(
                            pre_entries[k],
                            price,
                        )
                    &&& forall|k: int| 0 <= k < pi ==> !fires(pre_entries[k], price)
                },
                Some(pid) => {
                    let t = pi - 1;
                    &&& 1 <= pi <= len
                    &&& forall|k: int|
                        0 <= k <= t ==> #[trigger] book.entries@[k] == repriced(
                            pre_entries[k],
                            price,
                        )
                    &&& forall|k: int| 0 <= k < t ==> !fires(pre_entries[k], price)
                    &&& fires(pre_entries[t], price)
                    &&& pid == pre_entries[t].position_id
                },
            },
        decreases len - pi,
    {
        let entry = book.entries[pi].entry_price;
        let qty = book.entries[pi].qty;
        assert(book.entries@[pi as int] == pre_entries[pi as int]);
        proof {
            lemma_pnl_bound(pre_entries[pi as int], price);
        }
        let exit = if qty.atoms > 0 {
            price.bid
        } else {
            price.ask
        };
        let diff = exit.minus(entry);
        let pnlm = diff.times(qty);
        let e = vstd::std_specs::vec::vec_index_mut(&mut book.entries, pi);
        e.pnl = pnlm;
        assert(book.entries@[pi as int] == repriced(pre_entries[pi as int], price));
        let fire = position_fires(&book.entries[pi], price);
        if fire {
            proof {
                assert(fires(pre_entries[pi as int], price));
            }
            let pid = book.entries[pi].position_id.clone();
            fired = Some(pid);
        }
        pi = pi + 1;
    }
    proof {
        match fired {
            None => {
                lemma_first_trigger_is(pre_entries, price, len as int);
                assert(book.entries@ =~= marked_entries(pre_entries, price));
            },
            Some(_) => {
                lemma_first_trigger_is(pre_entries, price, pi - 1);
                assert(book.entries@ =~= marked_entries(pre_entries, price));
            },
        }
    }
    fired
}

} // verus!
