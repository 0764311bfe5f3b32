//! Per-user multi-asset balance books.
//!
//! A [`User`] maps assets to non-negative balances. Balances are stored as an
//! association list; the abstract balance of an asset is the value at its
//! first entry, or zero when no entry exists. Credits are infallible (within
//! the machine's range) and debits fail when the balance does not cover the
//! requested amount, so a balance can never go below zero.

use vstd::prelude::*;

use crate::address::Address;
use crate::asset::{asset_name, Asset, AssetId};

verus! {

/// The balance recorded for asset `a` in the association list `s`: the value
/// of the first entry whose key is `a`, or zero when there is none.
pub open spec fn bal_of(s: Seq<(Asset, u64)>, a: AssetId) -> nat
    decreases s.len(),
{
    if s.len() == 0 {
        0
    } else if s[0].0@ == a {
        s[0].1 as nat
    } else {
        bal_of(s.drop_first(), a)
    }
}

/// The message a failed debit reports: `Insufficient <ASSET> balance`.
pub open spec fn insufficient_msg(a: AssetId) -> Seq<char> {
    "Insufficient "@ + asset_name(a) + " balance"@
}

/// If no entry carries key `a`, the recorded balance for `a` is zero.
proof fn lemma_bal_of_absent(s: Seq<(Asset, u64)>, a: AssetId)
    requires
        forall|j: int| 0 <= j < s.len() ==> s[j].0@ != a,
    ensures
        bal_of(s, a) == 0,
    decreases s.len(),
{
    if s.len() > 0 {
        assert(s[0].0@ != a);
        lemma_bal_of_absent(s.drop_first(), a);
    }
}

/// The balance for `a` is the value at its first matching entry.
proof fn lemma_bal_of_first(s: Seq<(Asset, u64)>, i: int, a: AssetId)
    requires
        0 <= i < s.len(),
        s[i].0@ == a,
        forall|j: int| 0 <= j < i ==> s[j].0@ != a,
    ensures
        bal_of(s, a) == s[i].1 as nat,
    decreases i,
{
    if i > 0 {
        let t = s.drop_first();
        assert(forall|j: int| 0 <= j < i - 1 ==> t[j].0@ != a);
        lemma_bal_of_first(t, i - 1, a);
    }
}

/// Overwriting the first entry for a key with another entry for the same key
/// changes only that key's balance.
proof fn lemma_bal_of_update_first(s: Seq<(Asset, u64)>, i: int, p: (Asset, u64), a: AssetId, b: AssetId)
    requires
        0 <= i < s.len(),
        s[i].0@ == a,
        p.0@ == a,
        forall|j: int| 0 <= j < i ==> s[j].0@ != a,
    ensures
        bal_of(s.update(i, p), b) == if b == a {
            p.1 as nat
        } else {
            bal_of(s, b)
        },
    decreases i,
{
    let u = s.update(i, p);
    if i == 0 {
        assert(u.drop_first() =~= s.drop_first());
    } else {
        assert(u.drop_first() =~= s.drop_first().update(i - 1, p));
        assert(forall|j: int| 0 <= j < i - 1 ==> s.drop_first()[j].0@ != a);
        lemma_bal_of_update_first(s.drop_first(), i - 1, p, a, b);
        assert(u[0] == s[0]);
    }
}

/// Appending an entry for a fresh key sets that key's balance and leaves every
/// other key's balance alone.
proof fn lemma_bal_of_push(s: Seq<(Asset, u64)>, p: (Asset, u64), b: AssetId)
    requires
        forall|j: int| 0 <= j < s.len() ==> s[j].0@ != p.0@,
    ensures
        bal_of(s.push(p), b) == if b == p.0@ {
            p.1 as nat
        } else {
            bal_of(s, b)
        },
    decreases s.len(),
{
    if s.len() == 0 {
        assert(s.push(p)[0] == p);
        assert(s.push(p).drop_first() =~= Seq::<(Asset, u64)>::empty());
        assert(bal_of(Seq::<(Asset, u64)>::empty(), b) == 0);
        assert(bal_of(s, b) == 0);
    } else {
        assert(s.push(p)[0] == s[0]);
        assert(s.push(p).drop_first() =~= s.drop_first().push(p));
        lemma_bal_of_push(s.drop_first(), p, b);
    }
}

/// Two association lists whose entries agree key-by-key and value-by-value
/// record the same balances.
proof fn lemma_bal_of_congruent(s1: Seq<(Asset, u64)>, s2: Seq<(Asset, u64)>, a: AssetId)
    requires
        s1.len() == s2.len(),
        forall|j: int| 0 <= j < s1.len() ==> s1[j].0@ == s2[j].0@ && s1[j].1 == s2[j].1,
    ensures
        bal_of(s1, a) == bal_of(s2, a),
    decreases s1.len(),
{
    if s1.len() > 0 {
        lemma_bal_of_congruent(s1.drop_first(), s2.drop_first(), a);
    }
}

/// A participant in the trading system: an address together with its balance
/// book.
pub struct User {
    pub address: Address,
    pub balances: Vec<(Asset, u64)>,
}

/// The users agree on their address and on the balance of every asset.
pub open spec fn user_eqv(u1: User, u2: User) -> bool {
    &&& u1.address@ == u2.address@
    &&& forall|a: AssetId| u1.balance_of(a) == #[trigger] u2.balance_of(a)
}

impl User {
    /// The abstract balance this user holds of asset `a`.
    pub open spec fn balance_of(&self, a: AssetId) -> nat {
        bal_of(self.balances@, a)
    }

    /// Creates a user with a zero balance for every asset; the closed-set
    /// assets get explicit zero entries.
    pub fn new(address: Address) -> (r: User)
        ensures
            r.address@ == address@,
            forall|a: AssetId| #[trigger] r.balance_of(a) == 0,
    {
        let assets = crate::asset::closed_assets();
        let mut balances: Vec<(Asset, u64)> = Vec::new();
        let mut k: usize = 0;
        while k < assets.len()
            invariant
                balances@.len() == k,
                k <= assets.len(),
                forall|j: int| 0 <= j < k ==> balances@[j].1 == 0,
            decreases assets.len() - k,
        {
            let a = &assets[k];
            balances.push((a.clone(), 0));
            k = k + 1;
        }
        proof {
            lemma_bal_of_all_zero(balances@);
        }
        User { address, balances }
    }

    /// Finds the first entry for `asset`, if any.
    fn find_index(&self, asset: &Asset) -> (r: Option<usize>)
        ensures
            match r {
                Some(i) => i < self.balances@.len() && self.balances@[i as int].0@ == asset@
                    && forall|j: int| 0 <= j < i ==> self.balances@[j].0@ != asset@,
                None => forall|j: int| 0 <= j < self.balances@.len()
                    ==> self.balances@[j].0@ != asset@,
            },
    {
        let n = self.balances.len();
        let mut k: usize = 0;
        while k < n
            invariant
                k <= n,
                n == self.balances@.len(),
                forall|j: int| 0 <= j < k ==> self.balances@[j].0@ != asset@,
            decreases n - k,
        {
            if self.balances[k].0 == *asset {
                return Some(k);
            }
            k = k + 1;
        }
        None
    }

    /// The balance of a specific asset (zero if the asset was never touched).
    pub fn get_balance(&self, asset: &Asset) -> (r: u64)
        ensures
            r as nat == self.balance_of(asset@),
    {
        match self.find_index(asset) {
            Some(i) => {
                proof {
                    lemma_bal_of_first(self.balances@, i as int, asset@);
                }
                self.balances[i].1
            },
            None => {
                proof {
                    lemma_bal_of_absent(self.balances@, asset@);
                }
                0
            },
        }
    }

    /// Credits `amount` of `asset` to this user.
    pub fn add_asset(&mut self, asset: &Asset, amount: u64)
        requires
            old(self).balance_of(asset@) + amount <= u64::MAX,
        ensures
            final(self).address@ == old(self).address@,
            final(self).balance_of(asset@) == old(self).balance_of(asset@) + amount,
            forall|a: AssetId| a != asset@
                ==> #[trigger] final(self).balance_of(a) == old(self).balance_of(a),
    {
        match self.find_index(asset) {
            Some(i) => {
                proof {
                    lemma_bal_of_first(self.balances@, i as int, asset@);
                }
                let cur = self.balances[i].1;
                let p = (asset.clone(), cur + amount);
                proof {
                    assert forall|a: AssetId| true implies bal_of(
                        old(self).balances@.update(i as int, p),
                        a,
                    ) == if a == asset@ {
                        (cur + amount) as nat
                    } else {
                        bal_of(old(self).balances@, a)
                    } by {
                        lemma_bal_of_update_first(old(self).balances@, i as int, p, asset@, a);
                    }
                }
                self.balances[i] = p;
            },
            None => {
                proof {
                    lemma_bal_of_absent(self.balances@, asset@);
                }
                let p = (asset.clone(), amount);
                proof {
                    assert forall|a: AssetId| true implies bal_of(
                        old(self).balances@.push(p),
                        a,
                    ) == if a == asset@ {
                        amount as nat
                    } else {
                        bal_of(old(self).balances@, a)
                    } by {
                        lemma_bal_of_push(old(self).balances@, p, a);
                    }
                }
                self.balances.push(p);
            },
        }
    }

    /// Debits `amount` of `asset` from this user. Fails, leaving the book
    /// unchanged, when the balance does not cover the amount.
    pub fn deduct_asset(&mut self, asset: &Asset, amount: u64) -> (r: Result<(), String>)
        ensures
            old(self).balance_of(asset@) < amount ==> (
                r matches Err(e) && e@ == insufficient_msg(asset@)
                && *final(self) == *old(self)
            ),
            old(self).balance_of(asset@) >= amount ==> (
                r is Ok
                && final(self).address@ == old(self).address@
                && final(self).balance_of(asset@) == old(self).balance_of(asset@) - amount
                && forall|a: AssetId| a != asset@
                    ==> #[trigger] final(self).balance_of(a) == old(self).balance_of(a)
            ),
    {
        match self.find_index(asset) {
            Some(i) => {
                proof {
                    lemma_bal_of_first(self.balances@, i as int, asset@);
                }
                let cur = self.balances[i].1;
                if cur < amount {
                    return Err(insufficient_balance_message(asset));
                }
                let p = (asset.clone(), cur - amount);
                proof {
                    assert forall|a: AssetId| true implies bal_of(
                        old(self).balances@.update(i as int, p),
                        a,
                    ) == if a == asset@ {
                        (cur - amount) as nat
                    } else {
                        bal_of(old(self).balances@, a)
                    } by {
                        lemma_bal_of_update_first(old(self).balances@, i as int, p, asset@, a);
                    }
                }
                self.balances[i] = p;
                Ok(())
            },
            None => {
                proof {
                    lemma_bal_of_absent(self.balances@, asset@);
                }
                if amount > 0 {
                    Err(insufficient_balance_message(asset))
                } else {
                    Ok(())
                }
            },
        }
    }
}

/// Ledger non-negativity: every user's balance of every asset is
/// non-negative at every observable point. Balances are natural numbers by
/// representation, so no debit can take one below zero.
pub proof fn lemma_balance_nonnegative(u: User, a: AssetId)
    ensures
        u.balance_of(a) >= 0,
{
}

/// An association list whose values are all zero records a zero balance for
/// every asset.
proof fn lemma_bal_of_all_zero(s: Seq<(Asset, u64)>)
    requires
        forall|j: int| 0 <= j < s.len() ==> s[j].1 == 0,
    ensures
        forall|a: AssetId| #[trigger] bal_of(s, a) == 0,
    decreases s.len(),
{
    if s.len() > 0 {
        lemma_bal_of_all_zero(s.drop_first());
        assert forall|a: AssetId| #[trigger] bal_of(s, a) == 0 by {
            assert(bal_of(s.drop_first(), a) == 0);
        }
    }
}

/// Builds the exact `Insufficient <ASSET> balance` message.
pub(crate) fn insufficient_balance_message(asset: &Asset) -> (r: String)
    ensures
        r@ == insufficient_msg(asset@),
{
    let name = asset.name();
    let m = String::from_str("Insufficient ");
    let m = m.concat(name.as_str());
    m.concat(" balance")
}

impl Clone for User {
    fn clone(&self) -> (r: Self)
        ensures
            user_eqv(r, *self),
    {
        let n = self.balances.len();
        let mut balances: Vec<(Asset, u64)> = Vec::new();
        let mut k: usize = 0;
        while k < n
            invariant
                k <= n,
                n == self.balances@.len(),
                balances@.len() == k,
                forall|j: int| 0 <= j < k ==> balances@[j].0@ == self.balances@[j].0@
                    && balances@[j].1 == self.balances@[j].1,
            decreases n - k,
        {
            let pair = &self.balances[k];
            balances.push((pair.0.clone(), pair.1));
            k = k + 1;
        }
        proof {
            assert forall|a: AssetId| bal_of(balances@, a) == #[trigger] bal_of(
                self.balances@,
                a,
            ) by {
                lemma_bal_of_congruent(balances@, self.balances@, a);
            }
        }
        User { address: self.address.clone(), balances }
    }
}

} // verus!
