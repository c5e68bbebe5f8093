//! The engine: the three custodians and the price cell, wired together,
//! behind the in-process command API.
//!
//! In the deployed process each custodian runs as its own task and
//! commands arrive through inboxes; the engine here is the custodians'
//! combined state with the commands applied in arrival order, which is
//! exactly what the single-writer inbox model guarantees.  [`steps_rel`]
//! and [`lemma_steps_in_order`] state that serial model: a batch of
//! commands has the same effect as handling them one by one, in order.

use crate::errors::{CloseError, OpenError, WalletError};
use crate::money::{Amount, Money, AMOUNT_LIMIT};
use crate::positions::{
    close_rel, has_book, open_rel, order_in_range, risk_rel, OpenOrderRequest, Position,
    PositionId, Positions,
};
use crate::price::{CurrentPrice, PriceCell};
use crate::users::Users;
use crate::wallet::{has_wallet, lemma_updated_balance, spec_balance, Wallet, Wallets, SEED_BALANCE};
use vstd::prelude::*;

verus! {

/// The whole trading core.
pub struct Engine {
    pub price_cell: PriceCell,
    pub wallets: Wallets,
    pub positions: Positions,
    pub users: Users,
}

/// Every user that owns a position list also owns a wallet, so a close
/// or a liquidation always finds the wallet to credit.
pub open spec fn wallets_cover_books(books: Seq<crate::positions::UserPositions>, ledger: Seq<Wallet>) -> bool {
    forall|i: int|
        0 <= i < books.len() ==> has_wallet(ledger, (#[trigger] books[i]).user_id@)
}

/// What `create_wallet` does to the ledger.
pub open spec fn create_wallet_rel(
    prew: Wallets,
    postw: Wallets,
    u: Seq<char>,
    r: Result<(), WalletError>,
) -> bool {
    if has_wallet(prew.wallet_map@, u) {
        &&& r matches Err(e) && e == WalletError::AlreadyExists
        &&& postw.wallet_map@ == prew.wallet_map@
    } else {
        &&& r is Ok
        &&& postw.wallet_map@.len() == prew.wallet_map@.len() + 1
        &&& forall|k: int| 0 <= k < prew.wallet_map@.len() ==> postw.wallet_map@[k] == prew.wallet_map@[k]
        &&& postw.wallet_map@.last().user_id@ == u
        &&& postw.wallet_map@.last().balance@ == SEED_BALANCE as int
    }
}

/// What `get_balance` replies.
pub open spec fn balance_reply_rel(w: Wallets, u: Seq<char>, r: Option<Money>) -> bool {
    match r {
        Some(b) => has_wallet(w.wallet_map@, u) && b@ == spec_balance(w.wallet_map@, u),
        None => !has_wallet(w.wallet_map@, u),
    }
}

/// What `list_orders` replies: a snapshot of the user's list.
pub open spec fn list_reply_rel(p: Positions, u: Seq<char>, r: Option<Seq<Position>>) -> bool {
    match r {
        Some(v) => has_book(p.position_map@, u) && v == p.position_map@[crate::positions::book_index(
            p.position_map@,
            u,
        )].entries@,
        None => !has_book(p.position_map@, u),
    }
}

impl Engine {
    /// All custodians well formed, and every position owner has a
    /// wallet.
    pub open spec fn wf(self) -> bool {
        &&& self.price_cell.wf()
        &&& self.wallets.wf()
        &&& self.positions.wf()
        &&& self.users.wf()
        &&& wallets_cover_books(self.positions.position_map@, self.wallets.wallet_map@)
    }

    /// A fresh engine: no wallets, no positions, zero price snapshot.
    pub fn new() -> (r: Engine)
        ensures
            r.wf(),
            r.wallets.wallet_map@.len() == 0,
            r.positions.position_map@.len() == 0,
            r.positions.next_seq == 0,
            r.price_cell.snapshot.bid@ == 0,
            r.price_cell.snapshot.ask@ == 0,
    {
        Engine {
            price_cell: PriceCell::new(),
            wallets: Wallets::new(),
            positions: Positions::new(),
            users: Users::new(),
        }
    }

    /// Creates a wallet seeded with 10 000 units.
    pub fn create_wallet(&mut self, user_id: String) -> (r: Result<(), WalletError>)
        requires
            old(self).wf(),
        ensures
            final(self).wf(),
            final(self).positions == old(self).positions,
            final(self).price_cell == old(self).price_cell,
            final(self).users == old(self).users,
            create_wallet_rel(old(self).wallets, final(self).wallets, user_id@, r),
    {
        let ghost prew = self.wallets.wallet_map@;
        let r = self.wallets.create(user_id);
        proof {
            assert forall|i: int|
                0 <= i < self.positions.position_map@.len() implies has_wallet(
                self.wallets.wallet_map@,
                (#[trigger] self.positions.position_map@[i]).user_id@,
            ) by {
                let v = self.positions.position_map@[i].user_id@;
                let k = crate::wallet::wallet_index(prew, v);
                assert(crate::wallet::wallet_at(prew, v, k));
                assert(crate::wallet::wallet_at(self.wallets.wallet_map@, v, k));
            }
        }
        r
    }

    /// The balance of `user_id`, if a wallet exists.
    pub fn get_balance(&self, user_id: &String) -> (r: Option<Money>)
        requires
            self.wf(),
        ensures
            balance_reply_rel(self.wallets, user_id@, r),
    {
        self.wallets.get_balance(user_id)
    }

    /// Registers a user under a fresh opaque id, creating their wallet.
    pub fn create_user(&mut self, username: String) -> (r: Result<String, WalletError>)
        requires
            old(self).wf(),
        ensures
            final(self).wf(),
            final(self).positions == old(self).positions,
            final(self).price_cell == old(self).price_cell,
            r matches Ok(uid) ==> {
                &&& uid@.len() == 21
                &&& has_wallet(final(self).wallets.wallet_map@, uid@)
                &&& spec_balance(final(self).wallets.wallet_map@, uid@) == SEED_BALANCE as int
            },
            r matches Err(e) ==> e == WalletError::AlreadyExists && final(self).wallets.wallet_map@
                == old(self).wallets.wallet_map@,
    {
        let ghost prew = self.wallets.wallet_map@;
        let r = self.users.create_user(username, &mut self.wallets);
        proof {
            if r is Ok {
                assert forall|i: int|
                    0 <= i < self.positions.position_map@.len() implies has_wallet(
                    self.wallets.wallet_map@,
                    (#[trigger] self.positions.position_map@[i]).user_id@,
                ) by {
                    let v = self.positions.position_map@[i].user_id@;
                    let k = crate::wallet::wallet_index(prew, v);
                    assert(crate::wallet::wallet_at(prew, v, k));
                    assert(crate::wallet::wallet_at(self.wallets.wallet_map@, v, k));
                }
            }
        }
        r
    }

    /// Opens a position priced at the current snapshot; see
    /// [`open_rel`].
    pub fn open_order(&mut self, user_id: String, order: OpenOrderRequest) -> (r: Result<
        PositionId,
        OpenError,
    >)
        requires
            old(self).wf(),
            order_in_range(order),
        ensures
            final(self).wf(),
            final(self).price_cell == old(self).price_cell,
            final(self).users == old(self).users,
            open_rel(
                old(self).positions,
                old(self).wallets,
                user_id@,
                order,
                old(self).price_cell.snapshot,
                final(self).positions,
                final(self).wallets,
                r,
            ),
    {
        let ghost prew = self.wallets.wallet_map@;
        let ghost preb = self.positions.position_map@;
        let ghost u = user_id@;
        let price = self.price_cell.load();
        let r = self.positions.open(user_id, order, price, &mut self.wallets);
        proof {
            if r is Ok {
                lemma_updated_balance(
                    prew,
                    self.wallets.wallet_map@,
                    u,
                    spec_balance(prew, u) - crate::positions::required_spec(price, order),
                );
                assert forall|i: int|
                    0 <= i < self.positions.position_map@.len() implies has_wallet(
                    self.wallets.wallet_map@,
                    (#[trigger] self.positions.position_map@[i]).user_id@,
                ) by {
                    let v = self.positions.position_map@[i].user_id@;
                    if crate::positions::has_book(preb, u) {
                        assert(self.positions.position_map@[i].user_id@ == preb[i].user_id@);
                        assert(has_wallet(prew, v));
                    } else {
                        if i < preb.len() {
                            assert(self.positions.position_map@[i] == preb[i]);
                            assert(has_wallet(prew, v));
                        } else {
                            assert(v == u);
                            assert(has_wallet(prew, v));
                        }
                    }
                }
            } else {
                assert(self.positions.position_map@ == preb);
                assert(self.wallets.wallet_map@ == prew);
            }
        }
        r
    }

    /// Closes a position at the current snapshot; see [`close_rel`].
    pub fn close_order(&mut self, user_id: &String, position_id: &PositionId) -> (r: Result<
        (),
        CloseError,
    >)
        requires
            old(self).wf(),
        ensures
            final(self).wf(),
            final(self).price_cell == old(self).price_cell,
            final(self).users == old(self).users,
            final(self).positions.next_seq == old(self).positions.next_seq,
            close_rel(
                old(self).positions.position_map@,
                old(self).wallets.wallet_map@,
                user_id@,
                *position_id,
                old(self).price_cell.snapshot,
                final(self).positions.position_map@,
                final(self).wallets.wallet_map@,
                r,
            ),
    {
        let ghost prew = self.wallets.wallet_map@;
        let ghost preb = self.positions.position_map@;
        let price = self.price_cell.load();
        let r = self.positions.close(user_id, position_id, price, &mut self.wallets);
        proof {
            crate::positions::lemma_close_rel_keys(
                preb,
                prew,
                user_id@,
                *position_id,
                price,
                self.positions.position_map@,
                self.wallets.wallet_map@,
                r,
            );
            assert forall|i: int|
                0 <= i < self.positions.position_map@.len() implies has_wallet(
                self.wallets.wallet_map@,
                (#[trigger] self.positions.position_map@[i]).user_id@,
            ) by {
                let v = self.positions.position_map@[i].user_id@;
                assert(crate::positions::book_at(self.positions.position_map@, v, i));
                assert(has_book(self.positions.position_map@, v));
                assert(has_book(preb, v));
                let k = crate::positions::book_index(preb, v);
                assert(crate::positions::book_at(preb, v, k));
                assert(has_wallet(prew, v));
            }
        }
        r
    }

    /// A snapshot of `user_id`'s positions; mutating the returned vector
    /// cannot touch the engine.
    pub fn list_orders(&self, user_id: &String) -> (r: Option<Vec<Position>>)
        requires
            self.wf(),
        ensures
            match r {
                Some(v) => list_reply_rel(self.positions, user_id@, Some(v@)),
                None => list_reply_rel(self.positions, user_id@, None::<Seq<Position>>),
            },
    {
        self.positions.list(user_id)
    }

    /// Runs one risk pass against the current snapshot; see
    /// [`risk_rel`].
    pub fn update_risk(&mut self) -> (r: Result<(), CloseError>)
        requires
            old(self).wf(),
        ensures
            final(self).wf(),
            final(self).price_cell == old(self).price_cell,
            final(self).users == old(self).users,
            final(self).positions.next_seq == old(self).positions.next_seq,
            risk_rel(
                old(self).positions.position_map@,
                old(self).wallets.wallet_map@,
                old(self).price_cell.snapshot,
                final(self).positions.position_map@,
                final(self).wallets.wallet_map@,
                r,
            ),
    {
        let ghost prew = self.wallets.wallet_map@;
        let ghost preb = self.positions.position_map@;
        let price = self.price_cell.load();
        let r = self.positions.update_risk(price, &mut self.wallets);
        proof {
            let post_b = self.positions.position_map@;
            let post_w = self.wallets.wallet_map@;
            let mid = choose|mid: Seq<crate::positions::UserPositions>|
                #[trigger] crate::positions::phase1_rel(preb, mid, price)
                    && crate::positions::liq_run(
                    mid,
                    prew,
                    crate::positions::liq_items(preb, price),
                    price,
                    post_b,
                    post_w,
                    r,
                );
            crate::positions::lemma_phase1_keys(preb, mid, price);
            crate::positions::lemma_liq_run_keys(
                mid,
                prew,
                crate::positions::liq_items(preb, price),
                price,
                post_b,
                post_w,
                r,
            );
            assert forall|i: int|
                0 <= i < post_b.len() implies has_wallet(
                post_w,
                (#[trigger] post_b[i]).user_id@,
            ) by {
                let v = post_b[i].user_id@;
                assert(crate::positions::book_at(post_b, v, i));
                assert(has_book(post_b, v));
                assert(has_book(mid, v));
                assert(has_book(preb, v));
                let k = crate::positions::book_index(preb, v);
                assert(crate::positions::book_at(preb, v, k));
                assert(has_wallet(prew, v));
            }
        }
        r
    }

    /// Consumes one price tick: publishes the snapshot, then runs the
    /// risk pass it triggers.
    pub fn on_price_update(&mut self, bid: Amount, ask: Amount) -> (r: Result<(), CloseError>)
        requires
            old(self).wf(),
            0 <= bid@ <= AMOUNT_LIMIT as int,
            0 <= ask@ <= AMOUNT_LIMIT as int,
        ensures
            final(self).wf(),
            final(self).price_cell.snapshot == (CurrentPrice { bid, ask }),
            final(self).users == old(self).users,
            final(self).positions.next_seq == old(self).positions.next_seq,
            risk_rel(
                old(self).positions.position_map@,
                old(self).wallets.wallet_map@,
                CurrentPrice { bid, ask },
                final(self).positions.position_map@,
                final(self).wallets.wallet_map@,
                r,
            ),
    {
        self.price_cell.store(CurrentPrice { bid, ask });
        self.update_risk()
    }
}

// ---------------------------------------------------------------------
// The command surface, serialized
// ---------------------------------------------------------------------

/// A command envelope as a custodian inbox carries it; the reply channel
/// of the deployed system is represented by the returned [`Reply`].
pub enum Command {
    CreateWallet { user_id: String },
    GetBalance { user_id: String },
    Open { user_id: String, order: OpenOrderRequest },
    Close { user_id: String, position_id: PositionId },
    List { user_id: String },
    PriceTick { bid: Amount, ask: Amount },
}

/// The reply a command produces.
pub enum Reply {
    Created(Result<(), WalletError>),
    Balance(Option<Money>),
    Opened(Result<PositionId, OpenError>),
    Closed(Result<(), CloseError>),
    Listing(Option<Vec<Position>>),
    Ticked(Result<(), CloseError>),
}

/// Machine-range bounds on a command's payload.
pub open spec fn cmd_in_range(cmd: Command) -> bool {
    match cmd {
        Command::Open { user_id, order } => order_in_range(order),
        Command::PriceTick { bid, ask } => 0 <= bid@ <= AMOUNT_LIMIT as int && 0 <= ask@
            <= AMOUNT_LIMIT as int,
        _ => true,
    }
}

/// What handling one command does to the engine and replies.
pub open spec fn step_rel(pre: Engine, cmd: Command, post: Engine, reply: Reply) -> bool {
    match cmd {
        Command::CreateWallet { user_id } => {
            &&& post.positions == pre.positions
            &&& post.price_cell == pre.price_cell
            &&& post.users == pre.users
            &&& reply matches Reply::Created(r) && create_wallet_rel(
                pre.wallets,
                post.wallets,
                user_id@,
                r,
            )
        },
        Command::GetBalance { user_id } => {
            &&& post == pre
            &&& reply matches Reply::Balance(r) && balance_reply_rel(pre.wallets, user_id@, r)
        },
        Command::Open { user_id, order } => {
            &&& post.price_cell == pre.price_cell
            &&& post.users == pre.users
            &&& reply matches Reply::Opened(r) && open_rel(
                pre.positions,
                pre.wallets,
                user_id@,
                order,
                pre.price_cell.snapshot,
                post.positions,
                post.wallets,
                r,
            )
        },
        Command::Close { user_id, position_id } => {
            &&& post.price_cell == pre.price_cell
            &&& post.users == pre.users
            &&& reply matches Reply::Closed(r) && close_rel(
                pre.positions.position_map@,
                pre.wallets.wallet_map@,
                user_id@,
                position_id,
                pre.price_cell.snapshot,
                post.positions.position_map@,
                post.wallets.wallet_map@,
                r,
            )
        },
        Command::List { user_id } => {
            &&& post == pre
            &&& reply matches Reply::Listing(r) && (match r {
                Some(v) => list_reply_rel(pre.positions, user_id@, Some(v@)),
                None => list_reply_rel(pre.positions, user_id@, None::<Seq<Position>>),
            })
        },
        Command::PriceTick { bid, ask } => {
            &&& post.price_cell.snapshot == (CurrentPrice { bid, ask })
            &&& post.users == pre.users
            &&& reply matches Reply::Ticked(r) && risk_rel(
                pre.positions.position_map@,
                pre.wallets.wallet_map@,
                CurrentPrice { bid, ask },
                post.positions.position_map@,
                post.wallets.wallet_map@,
                r,
            )
        },
    }
}

impl Engine {
    /// Handles one command, as the custodian tasks do with each envelope
    /// taken from their inboxes.
    pub fn handle(&mut self, cmd: Command) -> (reply: Reply)
        requires
            old(self).wf(),
            cmd_in_range(cmd),
        ensures
            final(self).wf(),
            step_rel(*old(self), cmd, *final(self), reply),
    {
        match cmd {
            Command::CreateWallet { user_id } => Reply::Created(self.create_wallet(user_id)),
            Command::GetBalance { user_id } => Reply::Balance(self.get_balance(&user_id)),
            Command::Open { user_id, order } => Reply::Opened(self.open_order(user_id, order)),
            Command::Close { user_id, position_id } => Reply::Closed(
                self.close_order(&user_id, &position_id),
            ),
            Command::List { user_id } => Reply::Listing(self.list_orders(&user_id)),
            Command::PriceTick { bid, ask } => Reply::Ticked(self.on_price_update(bid, ask)),
        }
    }
}

/// A batch of commands handled strictly in order, with its replies.
pub open spec fn steps_rel(pre: Engine, cmds: Seq<Command>, post: Engine, replies: Seq<Reply>) -> bool
    decreases cmds.len(),
{
    if cmds.len() == 0 {
        post == pre && replies.len() == 0
    } else {
        &&& replies.len() == cmds.len()
        &&& exists|mid: Engine|
            #[trigger] step_rel(pre, cmds[0], mid, replies[0]) && steps_rel(
                mid,
                cmds.drop_first(),
                post,
                replies.drop_first(),
            )
    }
}

/// Commands submitted in order `c1, c2` have their effects applied in
/// that order: running one batch after another is the same as running
/// the concatenated batch.  This is the custodians' FIFO guarantee,
/// stated over the serial command model.
pub proof fn lemma_steps_in_order(
    pre: Engine,
    cs1: Seq<Command>,
    cs2: Seq<Command>,
    mid: Engine,
    post: Engine,
    rs1: Seq<Reply>,
    rs2: Seq<Reply>,
)
    requires
        steps_rel(pre, cs1, mid, rs1),
        steps_rel(mid, cs2, post, rs2),
    ensures
        steps_rel(pre, cs1 + cs2, post, rs1 + rs2),
    decreases cs1.len(),
{
    if cs1.len() == 0 {
        assert(cs1 + cs2 =~= cs2);
        assert(rs1 + rs2 =~= rs2);
    } else {
        let m0 = choose|m0: Engine|
            #[trigger] step_rel(pre, cs1[0], m0, rs1[0]) && steps_rel(
                m0,
                cs1.drop_first(),
                mid,
                rs1.drop_first(),
            );
        lemma_steps_in_order(m0, cs1.drop_first(), cs2, mid, post, rs1.drop_first(), rs2);
        assert((cs1 + cs2)[0] == cs1[0]);
        assert((rs1 + rs2)[0] == rs1[0]);
        assert((cs1 + cs2).drop_first() =~= cs1.drop_first() + cs2);
        assert((rs1 + rs2).drop_first() =~= rs1.drop_first() + rs2);
        assert(step_rel(pre, (cs1 + cs2)[0], m0, (rs1 + rs2)[0]));
        assert(steps_rel(m0, (cs1 + cs2).drop_first(), post, (rs1 + rs2).drop_first()));
    }
}

} // verus!
