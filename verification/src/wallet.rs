//! The wallet custodian: sole owner of the per-user balance map.
//!
//! The map is an association vector with distinct keys; every balance
//! stays within `[0, BALANCE_LIMIT]`.  The wallet is a dumb ledger: it
//! does not check that a debit is covered — callers (the position
//! custodian) perform the sufficiency check first, which the `debit`
//! contract records as a precondition.

use crate::errors::WalletError;
use crate::money::{Money, BALANCE_LIMIT};
use vstd::prelude::*;

verus! {

/// Seed balance of a freshly created wallet: 10 000 units.
pub const SEED_BALANCE: i128 = 10_000_000_000_000_000;

/// One user's wallet.
pub struct Wallet {
    pub user_id: String,
    pub balance: Money,
}

/// The balance map, keyed by user id.
pub struct Wallets {
    pub wallet_map: Vec<Wallet>,
}

/// `m[i]` is the wallet of user `u`.
pub open spec fn wallet_at(m: Seq<Wallet>, u: Seq<char>, i: int) -> bool {
    &&& 0 <= i < m.len()
    &&& m[i].user_id@ == u
}

/// Some wallet of user `u` exists in `m`.
pub open spec fn has_wallet(m: Seq<Wallet>, u: Seq<char>) -> bool {
    exists|i: int| wallet_at(m, u, i)
}

/// The index of user `u`'s wallet (meaningful when keys are distinct).
pub open spec fn wallet_index(m: Seq<Wallet>, u: Seq<char>) -> int {
    choose|i: int| wallet_at(m, u, i)
}

/// The balance of user `u` (meaningful when `has_wallet(m, u)`).
pub open spec fn spec_balance(m: Seq<Wallet>, u: Seq<char>) -> int {
    m[wallet_index(m, u)].balance@
}

/// No two wallets share a user id.
pub open spec fn distinct_wallet_keys(m: Seq<Wallet>) -> bool {
    forall|i: int, j: int|
        0 <= i < m.len() && 0 <= j < m.len() && i != j ==> m[i].user_id@ != m[j].user_id@
}

/// `post` is `pre` with user `u`'s balance set to `newbal` and everything
/// else untouched.
pub open spec fn updated_balance(pre: Seq<Wallet>, post: Seq<Wallet>, u: Seq<char>, newbal: int) -> bool {
    &&& has_wallet(pre, u)
    &&& post.len() == pre.len()
    &&& forall|k: int| 0 <= k < pre.len() && k != wallet_index(pre, u) ==> post[k] == pre[k]
    &&& post[wallet_index(pre, u)].user_id == pre[wallet_index(pre, u)].user_id
    &&& post[wallet_index(pre, u)].balance@ == newbal
}

/// With distinct keys the wallet of `u` sits at exactly one index.
pub proof fn lemma_wallet_index(m: Seq<Wallet>, u: Seq<char>, i: int)
    requires
        distinct_wallet_keys(m),
        wallet_at(m, u, i),
    ensures
        has_wallet(m, u),
        wallet_index(m, u) == i,
        spec_balance(m, u) == m[i].balance@,
{
    assert(has_wallet(m, u));
    let k = wallet_index(m, u);
    assert(wallet_at(m, u, k));
    if k != i {
        assert(m[i].user_id@ == m[k].user_id@);
        assert(false);
    }
}

/// What `updated_balance` means for every user: `u` now holds `newbal`,
/// everyone else is exactly as before.
pub proof fn lemma_updated_balance(pre: Seq<Wallet>, post: Seq<Wallet>, u: Seq<char>, newbal: int)
    requires
        distinct_wallet_keys(pre),
        updated_balance(pre, post, u, newbal),
    ensures
        distinct_wallet_keys(post),
        has_wallet(post, u),
        spec_balance(post, u) == newbal,
        forall|v: Seq<char>| #[trigger] has_wallet(post, v) == has_wallet(pre, v),
        forall|v: Seq<char>|
            v != u && has_wallet(pre, v) ==> #[trigger] spec_balance(post, v) == spec_balance(pre, v),
{
    let i = wallet_index(pre, u);
    assert(wallet_at(pre, u, i));
    assert(forall|k: int| 0 <= k < post.len() ==> post[k].user_id@ == pre[k].user_id@);
    assert(wallet_at(post, u, i));
    lemma_wallet_index(post, u, i);
    assert forall|v: Seq<char>| #[trigger] has_wallet(post, v) == has_wallet(pre, v) by {
        if has_wallet(pre, v) {
            let k = wallet_index(pre, v);
            assert(wallet_at(pre, v, k));
            assert(wallet_at(post, v, k));
        }
        if has_wallet(post, v) {
            let k = choose|k: int| wallet_at(post, v, k);
            assert(wallet_at(post, v, k));
            assert(wallet_at(pre, v, k));
        }
    }
    assert forall|v: Seq<char>|
        v != u && has_wallet(pre, v) implies #[trigger] spec_balance(post, v) == spec_balance(pre, v) by {
        let k = wallet_index(pre, v);
        assert(wallet_at(pre, v, k));
        assert(k != i);
        assert(post[k] == pre[k]);
        assert(wallet_at(post, v, k));
        lemma_wallet_index(post, v, k);
    }
}

/// Well-formed ledger: distinct keys, balances in `[0, BALANCE_LIMIT]`.
pub open spec fn ledger_wf(m: Seq<Wallet>) -> bool {
    &&& distinct_wallet_keys(m)
    &&& forall|i: int| 0 <= i < m.len() ==> 0 <= #[trigger] m[i].balance@ <= BALANCE_LIMIT as int
}

impl Wallets {
    /// Well-formed ledger: distinct keys, balances in `[0, BALANCE_LIMIT]`.
    pub open spec fn wf(self) -> bool {
        ledger_wf(self.wallet_map@)
    }

    /// An empty ledger.
    pub fn new() -> (r: Wallets)
        ensures
            r.wf(),
            r.wallet_map@.len() == 0,
    {
        Wallets { wallet_map: Vec::new() }
    }

    /// The index of `user_id`'s wallet, if any.
    fn find(&self, user_id: &String) -> (r: Option<usize>)
        ensures
            match r {
                Some(i) => wallet_at(self.wallet_map@, user_id@, i as int),
                None => !has_wallet(self.wallet_map@, user_id@),
            },
    {
        let mut i: usize = 0;
        while i < self.wallet_map.len()
            invariant
                0 <= i <= self.wallet_map@.len(),
                forall|k: int| 0 <= k < i ==> self.wallet_map@[k].user_id@ != user_id@,
            decreases self.wallet_map@.len() - i,
        {
            if self.wallet_map[i].user_id.eq(user_id) {
                return Some(i);
            }
            i = i + 1;
        }
        assert forall|k: int| !wallet_at(self.wallet_map@, user_id@, k) by {
            if 0 <= k < self.wallet_map@.len() {
                assert(self.wallet_map@[k].user_id@ != user_id@);
            }
        }
        None
    }

    /// Creates a wallet seeded with 10 000 units; fails if one exists.
    pub fn create(&mut self, user_id: String) -> (r: Result<(), WalletError>)
        requires
            old(self).wf(),
        ensures
            final(self).wf(),
            has_wallet(old(self).wallet_map@, user_id@) ==> {
                &&& r matches Err(e) && e == WalletError::AlreadyExists
                &&& final(self).wallet_map@ == old(self).wallet_map@
            },
            !has_wallet(old(self).wallet_map@, user_id@) ==> {
                &&& r matches Ok(u) && u == ()
                &&& final(self).wallet_map@.len() == old(self).wallet_map@.len() + 1
                &&& final(self).wallet_map@ == old(self).wallet_map@.push(
                    final(self).wallet_map@[old(self).wallet_map@.len() as int],
                )
                &&& final(self).wallet_map@.last().user_id@ == user_id@
                &&& final(self).wallet_map@.last().balance@ == SEED_BALANCE as int
            },
    {
        match self.find(&user_id) {
            Some(_) => Err(WalletError::AlreadyExists),
            None => {
                let ghost pre = self.wallet_map@;
                self.wallet_map.push(Wallet { user_id, balance: Money::new(SEED_BALANCE) });
                proof {
                    assert forall|i: int, j: int|
                        0 <= i < self.wallet_map@.len() && 0 <= j < self.wallet_map@.len() && i != j
                            implies self.wallet_map@[i].user_id@ != self.wallet_map@[j].user_id@ by {
                        if i < pre.len() && j < pre.len() {
                            assert(self.wallet_map@[i] == pre[i]);
                            assert(self.wallet_map@[j] == pre[j]);
                        } else if i == pre.len() {
                            assert(!wallet_at(pre, self.wallet_map@[i].user_id@, j));
                        } else {
                            assert(!wallet_at(pre, self.wallet_map@[j].user_id@, i));
                        }
                    }
                }
                Ok(())
            },
        }
    }

    /// Returns the balance of `user_id`, if a wallet exists.
    pub fn get_balance(&self, user_id: &String) -> (r: Option<Money>)
        requires
            self.wf(),
        ensures
            match r {
                Some(b) => has_wallet(self.wallet_map@, user_id@) && b@ == spec_balance(
                    self.wallet_map@,
                    user_id@,
                ),
                None => !has_wallet(self.wallet_map@, user_id@),
            },
    {
        match self.find(user_id) {
            Some(i) => {
                proof {
                    lemma_wallet_index(self.wallet_map@, user_id@, i as int);
                }
                Some(self.wallet_map[i].balance)
            },
            None => None,
        }
    }

    /// Sets the balance of `user_id` outright; the raw ledger write under
    /// credit and debit.
    pub fn update_balance(&mut self, user_id: &String, new_balance: Money) -> (r: Result<
        (),
        WalletError,
    >)
        requires
            old(self).wf(),
            0 <= new_balance@ <= BALANCE_LIMIT as int,
        ensures
            final(self).wf(),
            !has_wallet(old(self).wallet_map@, user_id@) ==> {
                &&& r matches Err(e) && e == WalletError::NoSuchWallet
                &&& final(self).wallet_map@ == old(self).wallet_map@
            },
            has_wallet(old(self).wallet_map@, user_id@) ==> {
                &&& r matches Ok(u) && u == ()
                &&& updated_balance(
                    old(self).wallet_map@,
                    final(self).wallet_map@,
                    user_id@,
                    new_balance@,
                )
            },
    {
        match self.find(user_id) {
            None => Err(WalletError::NoSuchWallet),
            Some(i) => {
                proof {
                    lemma_wallet_index(self.wallet_map@, user_id@, i as int);
                }
                let ghost pre = self.wallet_map@;
                let w = vstd::std_specs::vec::vec_index_mut(&mut self.wallet_map, i);
                w.balance = new_balance;
                proof {
                    assert(self.wallet_map@ == pre.update(
                        i as int,
                        Wallet { user_id: pre[i as int].user_id, balance: new_balance },
                    ));
                    lemma_updated_balance(pre, self.wallet_map@, user_id@, new_balance@);
                }
                Ok(())
            },
        }
    }

    /// Credits `amount` to `user_id`'s balance; refuses a credit that
    /// would push the balance past `BALANCE_LIMIT`.
    pub fn credit(&mut self, user_id: &String, amount: Money) -> (r: Result<(), WalletError>)
        requires
            old(self).wf(),
            amount@ >= 0,
        ensures
            final(self).wf(),
            !has_wallet(old(self).wallet_map@, user_id@) ==> {
                &&& r matches Err(e) && e == WalletError::NoSuchWallet
                &&& final(self).wallet_map@ == old(self).wallet_map@
            },
            has_wallet(old(self).wallet_map@, user_id@) && spec_balance(
                old(self).wallet_map@,
                user_id@,
            ) + amount@ > BALANCE_LIMIT as int ==> {
                &&& r matches Err(e) && e == WalletError::BalanceOverflow
                &&& final(self).wallet_map@ == old(self).wallet_map@
            },
            has_wallet(old(self).wallet_map@, user_id@) && spec_balance(
                old(self).wallet_map@,
                user_id@,
            ) + amount@ <= BALANCE_LIMIT as int ==> {
                &&& r matches Ok(u) && u == ()
                &&& updated_balance(
                    old(self).wallet_map@,
                    final(self).wallet_map@,
                    user_id@,
                    spec_balance(old(self).wallet_map@, user_id@) + amount@,
                )
            },
    {
        match self.get_balance(user_id) {
            None => Err(WalletError::NoSuchWallet),
            Some(balance) => {
                if balance.atoms > BALANCE_LIMIT - amount.atoms {
                    Err(WalletError::BalanceOverflow)
                } else {
                    let new_balance = balance.plus(amount);
                    self.update_balance(user_id, new_balance)
                }
            },
        }
    }

    /// Debits `amount` from `user_id`'s balance.  The wallet itself does
    /// not check sufficiency: the caller must have established that the
    /// balance covers the amount.
    pub fn debit(&mut self, user_id: &String, amount: Money) -> (r: Result<(), WalletError>)
        requires
            old(self).wf(),
            amount@ >= 0,
            has_wallet(old(self).wallet_map@, user_id@) ==> amount@ <= spec_balance(
                old(self).wallet_map@,
                user_id@,
            ),
        ensures
            final(self).wf(),
            !has_wallet(old(self).wallet_map@, user_id@) ==> {
                &&& r matches Err(e) && e == WalletError::NoSuchWallet
                &&& final(self).wallet_map@ == old(self).wallet_map@
            },
            has_wallet(old(self).wallet_map@, user_id@) ==> {
                &&& r matches Ok(u) && u == ()
                &&& updated_balance(
                    old(self).wallet_map@,
                    final(self).wallet_map@,
                    user_id@,
                    spec_balance(old(self).wallet_map@, user_id@) - amount@,
                )
            },
    {
        match self.get_balance(user_id) {
            None => Err(WalletError::NoSuchWallet),
            Some(balance) => {
                let new_balance = balance.minus(amount);
                self.update_balance(user_id, new_balance)
            },
        }
    }
}

} // verus!
