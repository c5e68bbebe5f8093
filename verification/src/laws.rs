//! The engine's laws: proofs that tie the custodians' contracts
//! together.
//!
//! Each public lemma here states a property of the engine over the same
//! transition relations that the executable functions ensure, so a
//! caller of `open_order`, `close_order` or `update_risk` can apply them
//! directly to the states those functions relate.

use crate::errors::CloseError;
use crate::money::lemma_mul_sign;
use crate::positions::{
    book_at, book_index, books_wf, close_rel, exit_price_spec, fires, first_pid_index,
    first_trigger, has_book, has_pid, lemma_first_pid_index_is, lemma_first_trigger_is,
    lemma_wf_after_mark, liq_items, liq_run, new_position_spec, notional_spec, open_rel,
    payout_spec, phase1_rel, pid_at, pnl_spec, pos_at, required_spec, risk_rel, user_liq_items,
    valid_pos, LiqItem, OpenOrderRequest, PositionId, Positions, UserPositions,
};
use crate::price::CurrentPrice;
use crate::wallet::{has_wallet, lemma_updated_balance, spec_balance, Wallet, Wallets};
use vstd::prelude::*;

verus! {

/// Opening debits exactly notional plus margin, and a successful open
/// never drives the balance negative: the post-state balance equals the
/// pre-state balance minus `entry_price * |qty| + margin`, which the
/// sufficiency check made non-negative.
pub proof fn lemma_open_debits_exactly(
    pre_p: Positions,
    pre_w: Wallets,
    post_p: Positions,
    post_w: Wallets,
    u: Seq<char>,
    order: OpenOrderRequest,
    price: CurrentPrice,
    pid: PositionId,
)
    requires
        pre_w.wf(),
        open_rel(pre_p, pre_w, u, order, price, post_p, post_w, Ok(pid)),
    ensures
        has_wallet(pre_w.wallet_map@, u),
        spec_balance(pre_w.wallet_map@, u) >= required_spec(price, order),
        has_wallet(post_w.wallet_map@, u),
        spec_balance(post_w.wallet_map@, u) == spec_balance(pre_w.wallet_map@, u) - required_spec(
            price,
            order,
        ),
        spec_balance(post_w.wallet_map@, u) >= 0,
{
    lemma_updated_balance(
        pre_w.wallet_map@,
        post_w.wallet_map@,
        u,
        spec_balance(pre_w.wallet_map@, u) - required_spec(price, order),
    );
}

/// Conservation on open plus close at a flat price: with `bid == ask`,
/// opening any order and immediately closing the position returns the
/// wallet to exactly its starting balance.
pub proof fn lemma_conservation_flat_price(
    pre_p: Positions,
    pre_w: Wallets,
    mid_p: Positions,
    mid_w: Wallets,
    post_p: Positions,
    post_w: Wallets,
    u: Seq<char>,
    order: OpenOrderRequest,
    price: CurrentPrice,
    pid: PositionId,
)
    requires
        pre_p.wf(),
        pre_w.wf(),
        mid_p.wf(),
        mid_w.wf(),
        price.wf(),
        price.bid@ == price.ask@,
        open_rel(pre_p, pre_w, u, order, price, mid_p, mid_w, Ok(pid)),
        close_rel(
            mid_p.position_map@,
            mid_w.wallet_map@,
            u,
            pid,
            price,
            post_p.position_map@,
            post_w.wallet_map@,
            Ok(()),
        ),
    ensures
        spec_balance(post_w.wallet_map@, u) == spec_balance(pre_w.wallet_map@, u),
{
    let preb = pre_p.position_map@;
    let midb = mid_p.position_map@;
    let required = required_spec(price, order);
    let balance0 = spec_balance(pre_w.wallet_map@, u);
    lemma_open_debits_exactly(pre_p, pre_w, mid_p, mid_w, u, order, price, pid);
    lemma_updated_balance(pre_w.wallet_map@, mid_w.wallet_map@, u, balance0 - required);
    let pos = new_position_spec(order, price, pid);

    // Locate the appended position in the mid state: it is the last
    // entry of u's list, and no earlier entry carries its id, because
    // every earlier serial number is below `pid.seq`.
    let bi = if has_book(preb, u) {
        book_index(preb, u)
    } else {
        preb.len() as int
    };
    let entries = midb[bi].entries@;
    if has_book(preb, u) {
        assert(book_at(preb, u, bi));
        assert(entries == preb[bi].entries@.push(pos));
        assert forall|k: int| 0 <= k < entries.len() - 1 implies !pid_at(entries, pid, k) by {
            assert(entries[k] == pos_at(preb, bi, k));
            assert(valid_pos(preb, bi, k));
            assert(pos_at(preb, bi, k).position_id.seq < pre_p.next_seq);
        }
    } else {
        assert(entries == seq![pos]);
    }
    assert(book_at(midb, u, bi));
    crate::positions::lemma_book_index(midb, u, bi);
    let j = entries.len() - 1;
    assert(entries[j] == pos);
    assert(pid_at(entries, pid, j));
    lemma_first_pid_index_is(entries, pid, j);

    // At a flat price the realized P&L is zero, so the payout equals
    // exactly what the open debited.
    let p0 = price.bid@;
    assert(pos.entry_price@ == p0);
    assert(exit_price_spec(price, pos.qty@) == p0);
    lemma_mul_sign(0, pos.qty@);
    assert(pnl_spec(pos.entry_price@, pos.qty@, p0) == 0);
    lemma_mul_sign(pos.entry_price@, crate::positions::abs_spec(pos.qty@));
    assert(notional_spec(pos.entry_price@, pos.qty@) + pos.margin@ == required);
    assert(required >= 0);
    assert(payout_spec(pos.entry_price@, pos.qty@, p0, pos.margin@) == required);

    lemma_updated_balance(mid_w.wallet_map@, post_w.wallet_map@, u, (balance0 - required)
        + required);
}

/// Sign correctness of the P&L formula: for a long, a price rise means
/// profit and a fall means loss; for a short, the mirror image; and at
/// an unchanged price the P&L is zero.
pub proof fn lemma_pnl_sign(entry: int, qty: int, mark: int)
    ensures
        qty > 0 && mark > entry ==> pnl_spec(entry, qty, mark) > 0,
        qty > 0 && mark < entry ==> pnl_spec(entry, qty, mark) < 0,
        qty < 0 && mark > entry ==> pnl_spec(entry, qty, mark) < 0,
        qty < 0 && mark < entry ==> pnl_spec(entry, qty, mark) > 0,
        mark == entry ==> pnl_spec(entry, qty, mark) == 0,
{
    lemma_mul_sign(mark - entry, qty);
}

/// Position ids are unique across the whole map: two distinct open
/// positions never share a serial number (and hence never share an id).
pub proof fn lemma_position_ids_unique(p: Positions, i: int, j: int, k: int, l: int)
    requires
        p.wf(),
        valid_pos(p.position_map@, i, j),
        valid_pos(p.position_map@, k, l),
        !(i == k && j == l),
    ensures
        pos_at(p.position_map@, i, j).position_id.seq != pos_at(
            p.position_map@,
            k,
            l,
        ).position_id.seq,
{
}

/// A newly assigned id differs from the id of every position that was
/// already open.
pub proof fn lemma_open_id_fresh(
    pre_p: Positions,
    pre_w: Wallets,
    post_p: Positions,
    post_w: Wallets,
    u: Seq<char>,
    order: OpenOrderRequest,
    price: CurrentPrice,
    pid: PositionId,
    i: int,
    j: int,
)
    requires
        pre_p.wf(),
        open_rel(pre_p, pre_w, u, order, price, post_p, post_w, Ok(pid)),
        valid_pos(pre_p.position_map@, i, j),
    ensures
        pos_at(pre_p.position_map@, i, j).position_id.seq != pid.seq,
{
    assert(pos_at(pre_p.position_map@, i, j).position_id.seq < pre_p.next_seq);
}

/// Some open position carries serial number `s`.
pub open spec fn seq_present(m: Seq<UserPositions>, s: u64) -> bool {
    exists|i: int, j: int| valid_pos(m, i, j) && (#[trigger] pos_at(m, i, j)).position_id.seq == s
}

/// The liquidation list contains the item of every user whose list
/// fires.
proof fn lemma_liq_items_member(m: Seq<UserPositions>, price: CurrentPrice, bi: int)
    requires
        0 <= bi < m.len(),
        first_trigger(m[bi].entries@, price) < m[bi].entries@.len(),
    ensures
        exists|x: int|
            0 <= x < liq_items(m, price).len() && #[trigger] liq_items(m, price)[x] == (LiqItem {
                user_id: m[bi].user_id,
                position_id: m[bi].entries@[first_trigger(m[bi].entries@, price)].position_id,
            }),
    decreases m.len(),
{
    let items = liq_items(m, price);
    let head = user_liq_items(m[0], price);
    if bi == 0 {
        assert(head.len() == 1);
        assert(items[0] == head[0]);
    } else {
        lemma_liq_items_member(m.drop_first(), price, bi - 1);
        assert(m.drop_first()[bi - 1] == m[bi]);
        let rest = liq_items(m.drop_first(), price);
        let x = choose|x: int|
            0 <= x < rest.len() && #[trigger] rest[x] == (LiqItem {
                user_id: m[bi].user_id,
                position_id: m[bi].entries@[first_trigger(m[bi].entries@, price)].position_id,
            });
        assert(items[head.len() + x] == rest[x]);
    }
}

/// A close never introduces a serial number: every id open afterwards
/// was open before.
proof fn lemma_close_rel_shrinks(
    pre: Seq<UserPositions>,
    prew: Seq<Wallet>,
    u: Seq<char>,
    pid: PositionId,
    price: CurrentPrice,
    post: Seq<UserPositions>,
    postw: Seq<Wallet>,
    r: Result<(), CloseError>,
    s: u64,
)
    requires
        close_rel(pre, prew, u, pid, price, post, postw, r),
        seq_present(post, s),
    ensures
        seq_present(pre, s),
{
    let (i, l) = choose|i: int, l: int|
        valid_pos(post, i, l) && (#[trigger] pos_at(post, i, l)).position_id.seq == s;
    if !has_book(pre, u) {
        assert(pos_at(pre, i, l) == pos_at(post, i, l));
    } else {
        let bi = book_index(pre, u);
        let entries = pre[bi].entries@;
        if !has_pid(entries, pid) {
            assert(pos_at(pre, i, l) == pos_at(post, i, l));
        } else {
            let j = first_pid_index(entries, pid);
            let p = entries[j];
            let payout = payout_spec(
                p.entry_price@,
                p.qty@,
                exit_price_spec(price, p.qty@),
                p.margin@,
            );
            if !has_wallet(prew, u) || spec_balance(prew, u) + payout
                > crate::money::BALANCE_LIMIT as int {
                assert(pos_at(pre, i, l) == pos_at(post, i, l));
            } else {
                crate::positions::lemma_first_pid_index(entries, pid);
                entries.remove_ensures(j);
                if i != bi {
                    assert(pos_at(pre, i, l) == pos_at(post, i, l));
                    assert(valid_pos(pre, i, l));
                } else {
                    let l0 = crate::positions::orig_entry_index(bi, j, i, l);
                    assert(pos_at(post, i, l) == pos_at(pre, i, l0));
                    assert(valid_pos(pre, i, l0));
                }
            }
        }
    }
}

/// A successful close removes its target id from the map entirely.
proof fn lemma_close_rel_removes(
    pre: Seq<UserPositions>,
    prew: Seq<Wallet>,
    u: Seq<char>,
    pid: PositionId,
    price: CurrentPrice,
    post: Seq<UserPositions>,
    postw: Seq<Wallet>,
    nseq: u64,
)
    requires
        close_rel(pre, prew, u, pid, price, post, postw, Ok(())),
        books_wf(pre, nseq),
    ensures
        !seq_present(post, pid.seq),
        books_wf(post, nseq),
{
    let bi = book_index(pre, u);
    assert(has_book(pre, u));
    let entries = pre[bi].entries@;
    assert(has_pid(entries, pid));
    let j = first_pid_index(entries, pid);
    crate::positions::lemma_first_pid_index(entries, pid);
    assert(pid_at(entries, pid, j));
    entries.remove_ensures(j);
    Positions::lemma_wf_after_remove(pre, post, bi, j, nseq);
    assert forall|i: int, l: int|
        valid_pos(post, i, l) implies (#[trigger] pos_at(post, i, l)).position_id.seq
        != pid.seq by {
        let l0 = crate::positions::orig_entry_index(bi, j, i, l);
        assert(pos_at(post, i, l) == pos_at(pre, i, l0));
        assert(valid_pos(pre, i, l0));
        assert(!(i == bi && l0 == j));
        assert(pos_at(pre, i, l0).position_id.seq != pos_at(pre, bi, j).position_id.seq);
    }
}

/// A run of closes never introduces a serial number.
proof fn lemma_liq_run_absence(
    b0: Seq<UserPositions>,
    w0: Seq<Wallet>,
    items: Seq<LiqItem>,
    price: CurrentPrice,
    b1: Seq<UserPositions>,
    w1: Seq<Wallet>,
    r: Result<(), CloseError>,
    s: u64,
)
    requires
        liq_run(b0, w0, items, price, b1, w1, r),
        !seq_present(b0, s),
    ensures
        !seq_present(b1, s),
    decreases items.len(),
{
    if items.len() == 0 {
    } else {
        let (bm, wm, r0) = choose|bm: Seq<UserPositions>, wm: Seq<Wallet>, r0: Result<(), CloseError>|
            {
                &&& #[trigger] close_rel(
                    b0,
                    w0,
                    items[0].user_id@,
                    items[0].position_id,
                    price,
                    bm,
                    wm,
                    r0,
                )
                &&& if r0 is Ok {
                    liq_run(bm, wm, items.drop_first(), price, b1, w1, r)
                } else {
                    b1 == bm && w1 == wm && r == r0
                }
            };
        if seq_present(bm, s) {
            lemma_close_rel_shrinks(
                b0,
                w0,
                items[0].user_id@,
                items[0].position_id,
                price,
                bm,
                wm,
                r0,
                s,
            );
        }
        if r0 is Ok {
            lemma_liq_run_absence(bm, wm, items.drop_first(), price, b1, w1, r, s);
        }
    }
}

/// A fully successful run of closes removes the target of each of its
/// items.
proof fn lemma_liq_run_removes(
    b0: Seq<UserPositions>,
    w0: Seq<Wallet>,
    items: Seq<LiqItem>,
    price: CurrentPrice,
    b1: Seq<UserPositions>,
    w1: Seq<Wallet>,
    nseq: u64,
    x: int,
)
    requires
        liq_run(b0, w0, items, price, b1, w1, Ok(())),
        books_wf(b0, nseq),
        0 <= x < items.len(),
    ensures
        !seq_present(b1, items[x].position_id.seq),
    decreases items.len(),
{
    let (bm, wm, r0) = choose|bm: Seq<UserPositions>, wm: Seq<Wallet>, r0: Result<(), CloseError>|
        {
            &&& #[trigger] close_rel(
                b0,
                w0,
                items[0].user_id@,
                items[0].position_id,
                price,
                bm,
                wm,
                r0,
            )
            &&& if r0 is Ok {
                liq_run(bm, wm, items.drop_first(), price, b1, w1, Ok(()))
            } else {
                b1 == bm && w1 == wm && Ok::<(), CloseError>(()) == r0
            }
        };
    assert(r0 is Ok);
    lemma_close_rel_removes(
        b0,
        w0,
        items[0].user_id@,
        items[0].position_id,
        price,
        bm,
        wm,
        nseq,
    );
    if x == 0 {
        lemma_liq_run_absence(
            bm,
            wm,
            items.drop_first(),
            price,
            b1,
            w1,
            Ok(()),
            items[0].position_id.seq,
        );
    } else {
        assert(items.drop_first()[x - 1] == items[x]);
        lemma_liq_run_removes(bm, wm, items.drop_first(), price, b1, w1, nseq, x - 1);
    }
}

/// Liquidation of a stop-loss hit: when a risk pass completes without a
/// wallet refusal and a position's recomputed P&L has crossed its
/// stop-loss — and no earlier position of the same user fires on the
/// same pass, since each pass liquidates at most one position per user —
/// that position is gone from the map: no open position carries its id,
/// so it appears in no later list response.
pub proof fn lemma_stop_loss_liquidates(
    pre_p: Positions,
    pre_w: Wallets,
    price: CurrentPrice,
    postb: Seq<UserPositions>,
    postw: Seq<Wallet>,
    bi: int,
    j: int,
)
    requires
        pre_p.wf(),
        pre_w.wf(),
        price.wf(),
        risk_rel(pre_p.position_map@, pre_w.wallet_map@, price, postb, postw, Ok(())),
        valid_pos(pre_p.position_map@, bi, j),
        pos_at(pre_p.position_map@, bi, j).stop_loss matches Some(s) && pnl_spec(
            pos_at(pre_p.position_map@, bi, j).entry_price@,
            pos_at(pre_p.position_map@, bi, j).qty@,
            exit_price_spec(price, pos_at(pre_p.position_map@, bi, j).qty@),
        ) <= -s@,
        forall|k: int|
            0 <= k < j ==> !fires(#[trigger] pre_p.position_map@[bi].entries@[k], price),
    ensures
        !seq_present(postb, pos_at(pre_p.position_map@, bi, j).position_id.seq),
{
    let preb = pre_p.position_map@;
    let entries = preb[bi].entries@;
    let p = entries[j];
    assert(fires(p, price));
    lemma_first_trigger_is(entries, price, j);
    let mid = choose|mid: Seq<UserPositions>|
        #[trigger] phase1_rel(preb, mid, price) && liq_run(
            mid,
            pre_w.wallet_map@,
            liq_items(preb, price),
            price,
            postb,
            postw,
            Ok(()),
        );
    lemma_wf_after_mark(preb, mid, price, pre_p.next_seq);
    lemma_liq_items_member(preb, price, bi);
    let x = choose|x: int|
        0 <= x < liq_items(preb, price).len() && #[trigger] liq_items(preb, price)[x] == (LiqItem {
            user_id: preb[bi].user_id,
            position_id: entries[j].position_id,
        });
    lemma_liq_run_removes(
        mid,
        pre_w.wallet_map@,
        liq_items(preb, price),
        price,
        postb,
        postw,
        pre_p.next_seq,
        x,
    );
}

} // verus!
