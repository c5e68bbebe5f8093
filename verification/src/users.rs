//! The user registry: signup assigns a fresh opaque user id and creates
//! the user's wallet.

use crate::errors::WalletError;
use crate::wallet::{has_wallet, spec_balance, Wallets, SEED_BALANCE};
use vstd::prelude::*;

verus! {

/// One registered user.
pub struct User {
    pub id: String,
    pub username: String,
}

/// The user map, keyed by user id.
pub struct Users {
    pub user_map: Vec<User>,
}

/// `m[i]` is the user with id `id`.
pub open spec fn user_at(m: Seq<User>, id: Seq<char>, i: int) -> bool {
    &&& 0 <= i < m.len()
    &&& m[i].id@ == id
}

/// Some user with id `id` exists in `m`.
pub open spec fn has_user(m: Seq<User>, id: Seq<char>) -> bool {
    exists|i: int| user_at(m, id, i)
}

/// No two users share an id.
pub open spec fn distinct_user_keys(m: Seq<User>) -> bool {
    forall|i: int, j: int|
        0 <= i < m.len() && 0 <= j < m.len() && i != j ==> m[i].id@ != m[j].id@
}

/// `post` is `pre` with a user `(id, username)` put in place: replacing
/// the entry with that id when one exists, appended otherwise.
pub open spec fn upserted_user(
    pre: Seq<User>,
    post: Seq<User>,
    id: Seq<char>,
    username: Seq<char>,
) -> bool {
    if has_user(pre, id) {
        exists|i: int|
            {
                &&& #[trigger] user_at(pre, id, i)
                &&& post.len() == pre.len()
                &&& forall|k: int| 0 <= k < pre.len() && k != i ==> post[k] == pre[k]
                &&& user_at(post, id, i)
                &&& post[i].username@ == username
            }
    } else {
        &&& post.len() == pre.len() + 1
        &&& forall|k: int| 0 <= k < pre.len() ==> post[k] == pre[k]
        &&& post[pre.len() as int].id@ == id
        &&& post[pre.len() as int].username@ == username
    }
}

impl Users {
    /// Well-formed registry: ids are distinct.
    pub open spec fn wf(self) -> bool {
        distinct_user_keys(self.user_map@)
    }

    /// An empty registry.
    pub fn new() -> (r: Users)
        ensures
            r.wf(),
            r.user_map@.len() == 0,
    {
        Users { user_map: Vec::new() }
    }

    /// The index of the user with `id`, if any.
    fn find(&self, id: &String) -> (r: Option<usize>)
        ensures
            match r {
                Some(i) => user_at(self.user_map@, id@, i as int),
                None => !has_user(self.user_map@, id@),
            },
    {
        let mut i: usize = 0;
        while i < self.user_map.len()
            invariant
                0 <= i <= self.user_map@.len(),
                forall|k: int| 0 <= k < i ==> self.user_map@[k].id@ != id@,
            decreases self.user_map@.len() - i,
        {
            if self.user_map[i].id.eq(id) {
                return Some(i);
            }
            i = i + 1;
        }
        assert forall|k: int| !user_at(self.user_map@, id@, k) by {
            if 0 <= k < self.user_map@.len() {
                assert(self.user_map@[k].id@ != id@);
            }
        }
        None
    }

    /// Registers a user under a freshly generated opaque id and creates
    /// their wallet, seeded with 10 000 units.  When the generated id
    /// collides with an existing wallet the wallet custodian refuses and
    /// the error is returned; the user entry stays, as signup left it.
    pub fn create_user(&mut self, username: String, wallets: &mut Wallets) -> (r: Result<
        String,
        WalletError,
    >)
        requires
            old(self).wf(),
            old(wallets).wf(),
        ensures
            final(self).wf(),
            final(wallets).wf(),
            match r {
                Ok(uid) => {
                    &&& uid@.len() == 21
                    &&& upserted_user(old(self).user_map@, final(self).user_map@, uid@, username@)
                    &&& !has_wallet(old(wallets).wallet_map@, uid@)
                    &&& has_wallet(final(wallets).wallet_map@, uid@)
                    &&& spec_balance(final(wallets).wallet_map@, uid@) == SEED_BALANCE as int
                    &&& final(wallets).wallet_map@ == old(wallets).wallet_map@.push(
                        final(wallets).wallet_map@[old(wallets).wallet_map@.len() as int],
                    )
                },
                Err(e) => {
                    &&& e == WalletError::AlreadyExists
                    &&& final(wallets).wallet_map@ == old(wallets).wallet_map@
                    &&& exists|uid: Seq<char>|
                        upserted_user(old(self).user_map@, final(self).user_map@, uid, username@)
                },
            },
    {
        let user_id = crate::ids::fresh_token();
        let out_id = user_id.clone();
        let ghost pre = self.user_map@;
        let ghost uname = username@;
        match self.find(&user_id) {
            Some(i) => {
                proof {
                    assert(user_at(pre, user_id@, i as int));
                }
                let slot = vstd::std_specs::vec::vec_index_mut(&mut self.user_map, i);
                *slot = User { id: user_id.clone(), username };
                proof {
                    assert forall|a: int, b: int|
                        0 <= a < self.user_map@.len() && 0 <= b < self.user_map@.len() && a != b
                            implies self.user_map@[a].id@ != self.user_map@[b].id@ by {
                        if a != i && b != i {
                            assert(self.user_map@[a] == pre[a]);
                            assert(self.user_map@[b] == pre[b]);
                        } else if a == i {
                            assert(self.user_map@[b] == pre[b]);
                            assert(pre[i as int].id@ == user_id@);
                        } else {
                            assert(self.user_map@[a] == pre[a]);
                            assert(pre[i as int].id@ == user_id@);
                        }
                    }
                    assert(user_at(self.user_map@, user_id@, i as int));
                }
            },
            None => {
                self.user_map.push(User { id: user_id.clone(), username });
                proof {
                    assert forall|a: int, b: int|
                        0 <= a < self.user_map@.len() && 0 <= b < self.user_map@.len() && a != b
                            implies self.user_map@[a].id@ != self.user_map@[b].id@ by {
                        if a < pre.len() && b < pre.len() {
                            assert(self.user_map@[a] == pre[a]);
                            assert(self.user_map@[b] == pre[b]);
                        } else if a == pre.len() {
                            assert(!user_at(pre, self.user_map@[a].id@, b));
                        } else {
                            assert(!user_at(pre, self.user_map@[b].id@, a));
                        }
                    }
                }
            },
        }
        proof {
            assert(upserted_user(pre, self.user_map@, user_id@, uname));
        }
        let ghost pre_wallets = wallets.wallet_map@;
        match wallets.create(user_id) {
            Ok(_) => {
                proof {
                    let n = pre_wallets.len() as int;
                    assert(crate::wallet::wallet_at(wallets.wallet_map@, out_id@, n));
                    crate::wallet::lemma_wallet_index(wallets.wallet_map@, out_id@, n);
                }
                Ok(out_id)
            },
            Err(e) => Err(e),
        }
    }
}

} // verus!
