//! Mark prices for asset pairs, with authorized mutation only.
//!
//! The provider maps ordered `(base, quote)` pairs to a rate. At
//! construction every ordered pair of distinct closed-set assets is present
//! with rate zero, and the `(BTC, USDT)` pair starts at 100 000. Only the
//! holder of the provider's `Admin` role may change a rate.

use vstd::prelude::*;

use crate::address::{addr_eq, Address};
use crate::asset::{is_closed_asset, Asset, AssetId};
use crate::rbac::{assignee_of, NamedRole, RoleAuthorizer};

verus! {

/// An ordered base/quote pair.
pub struct AssetPair {
    pub base: Asset,
    pub quote: Asset,
}

impl AssetPair {
    /// Packs a base and a quote asset into a pair.
    pub fn from(base: Asset, quote: Asset) -> (r: AssetPair)
        ensures
            r.base@ == base@,
            r.quote@ == quote@,
    {
        AssetPair { base, quote }
    }
}

/// The address that administers the built-in rate provider.
pub fn default_exchange_rate_provider_admin_address() -> (r: Address)
    ensures
        r@ == "0xb73B0A92544a5D2523F00F868d795d50DbDfcCf4"@,
{
    crate::rbac::placeholder_role_manager_address()
}

/// The rate recorded for `(base, quote)` in the association list `s`: the
/// value of the first entry for that pair, or nothing when there is none.
pub open spec fn rate_of(s: Seq<(AssetPair, u64)>, base: AssetId, quote: AssetId) -> Option<u64>
    decreases s.len(),
{
    if s.len() == 0 {
        None
    } else if s[0].0.base@ == base && s[0].0.quote@ == quote {
        Some(s[0].1)
    } else {
        rate_of(s.drop_first(), base, quote)
    }
}

/// The position of a closed-set asset in the canonical enumeration, or -1
/// for the open variant.
pub open spec fn closed_asset_pos(a: AssetId) -> int {
    match a {
        AssetId::Btc => 0,
        AssetId::Eth => 1,
        AssetId::Sol => 2,
        AssetId::Apple => 3,
        AssetId::Usdt => 4,
        AssetId::Usdc => 5,
        AssetId::Vndt => 6,
        AssetId::Vndc => 7,
        AssetId::Other(_) => -1,
    }
}

/// The rate table right after construction: 100 000 for `(BTC, USDT)`, zero
/// for every other ordered pair of distinct closed-set assets, absent
/// otherwise.
pub open spec fn initial_rate(base: AssetId, quote: AssetId) -> Option<u64> {
    if base == AssetId::Btc && quote == AssetId::Usdt {
        Some(100_000u64)
    } else if base != quote && is_closed_asset(base) && is_closed_asset(quote) {
        Some(0u64)
    } else {
        None
    }
}

/// If no entry carries the pair, no rate is recorded for it.
proof fn lemma_rate_of_absent(s: Seq<(AssetPair, u64)>, base: AssetId, quote: AssetId)
    requires
        forall|j: int| 0 <= j < s.len() ==> !(s[j].0.base@ == base && s[j].0.quote@ == quote),
    ensures
        rate_of(s, base, quote) is None,
    decreases s.len(),
{
    if s.len() > 0 {
        lemma_rate_of_absent(s.drop_first(), base, quote);
    }
}

/// Overwriting the first entry for a pair with another entry for the same
/// pair changes only that pair's rate.
proof fn lemma_rate_of_update_first(
    s: Seq<(AssetPair, u64)>,
    i: int,
    p: (AssetPair, u64),
    base: AssetId,
    quote: AssetId,
    b2: AssetId,
    q2: AssetId,
)
    requires
        0 <= i < s.len(),
        s[i].0.base@ == base && s[i].0.quote@ == quote,
        p.0.base@ == base && p.0.quote@ == quote,
        forall|j: int| 0 <= j < i ==> !(s[j].0.base@ == base && s[j].0.quote@ == quote),
    ensures
        rate_of(s.update(i, p), b2, q2) == if b2 == base && q2 == quote {
            Some(p.1)
        } else {
            rate_of(s, b2, q2)
        },
    decreases i,
{
    let u = s.update(i, p);
    if i == 0 {
        assert(u.drop_first() =~= s.drop_first());
    } else {
        assert(u.drop_first() =~= s.drop_first().update(i - 1, p));
        assert(forall|j: int|
            0 <= j < i - 1 ==> !(s.drop_first()[j].0.base@ == base && s.drop_first()[j].0.quote@
                == quote));
        lemma_rate_of_update_first(s.drop_first(), i - 1, p, base, quote, b2, q2);
        assert(u[0] == s[0]);
    }
}

/// The rate of a pair is the value at its first matching entry.
proof fn lemma_rate_of_first(s: Seq<(AssetPair, u64)>, i: int, base: AssetId, quote: AssetId)
    requires
        0 <= i < s.len(),
        s[i].0.base@ == base && s[i].0.quote@ == quote,
        forall|j: int| 0 <= j < i ==> !(s[j].0.base@ == base && s[j].0.quote@ == quote),
    ensures
        rate_of(s, base, quote) == Some(s[i].1),
    decreases i,
{
    if i > 0 {
        let t = s.drop_first();
        assert(forall|j: int| 0 <= j < i - 1 ==> !(t[j].0.base@ == base && t[j].0.quote@ == quote));
        lemma_rate_of_first(t, i - 1, base, quote);
    }
}

/// A process-wide table of mark prices, guarded by its own role registry.
pub struct ExchangeRateProvider {
    exchange_rates: Vec<(AssetPair, u64)>,
    authorizer: RoleAuthorizer,
}

impl ExchangeRateProvider {
    /// The rate currently recorded for `(base, quote)`, if any.
    pub closed spec fn rate(&self, base: AssetId, quote: AssetId) -> Option<u64> {
        rate_of(self.exchange_rates@, base, quote)
    }

    /// Whether `caller` holds this provider's `Admin` role.
    pub closed spec fn is_rate_admin(&self, caller: Seq<char>) -> bool {
        self.authorizer.assignee("Admin"@) matches Some(a) && addr_eq(a, caller)
    }

    /// Finds the first entry for the pair, if any.
    fn find_pair(&self, base: &Asset, quote: &Asset) -> (r: Option<usize>)
        ensures
            match r {
                Some(i) => i < self.exchange_rates@.len()
                    && self.exchange_rates@[i as int].0.base@ == base@
                    && self.exchange_rates@[i as int].0.quote@ == quote@
                    && self.rate(base@, quote@) == Some(self.exchange_rates@[i as int].1)
                    && forall|j: int| 0 <= j < i ==> !(self.exchange_rates@[j].0.base@ == base@
                        && self.exchange_rates@[j].0.quote@ == quote@),
                None => self.rate(base@, quote@) is None && forall|j: int|
                    0 <= j < self.exchange_rates@.len() ==> !(self.exchange_rates@[j].0.base@
                        == base@ && self.exchange_rates@[j].0.quote@ == quote@),
            },
    {
        let n = self.exchange_rates.len();
        let mut k: usize = 0;
        while k < n
            invariant
                k <= n,
                n == self.exchange_rates@.len(),
                forall|j: int| 0 <= j < k ==> !(self.exchange_rates@[j].0.base@ == base@
                    && self.exchange_rates@[j].0.quote@ == quote@),
            decreases n - k,
        {
            let entry = &self.exchange_rates[k];
            if entry.0.base == *base && entry.0.quote == *quote {
                proof {
                    lemma_rate_of_first(self.exchange_rates@, k as int, base@, quote@);
                }
                return Some(k);
            }
            k = k + 1;
        }
        proof {
            lemma_rate_of_absent(self.exchange_rates@, base@, quote@);
        }
        None
    }

    /// Records `rate` as the rate of the pair, replacing any prior value.
    fn set_pair(&mut self, base: Asset, quote: Asset, rate: u64)
        ensures
            final(self).authorizer == old(self).authorizer,
            forall|b2: AssetId, q2: AssetId| #[trigger] final(self).rate(b2, q2) == if b2 == base@
                && q2 == quote@ {
                Some(rate)
            } else {
                old(self).rate(b2, q2)
            },
    {
        let ghost bv = base@;
        let ghost qv = quote@;
        match self.find_pair(&base, &quote) {
            Some(i) => {
                let p = (AssetPair { base, quote }, rate);
                proof {
                    assert forall|b2: AssetId, q2: AssetId| #[trigger] rate_of(
                        old(self).exchange_rates@.update(i as int, p),
                        b2,
                        q2,
                    ) == (if b2 == bv && q2 == qv {
                        Some(rate)
                    } else {
                        rate_of(old(self).exchange_rates@, b2, q2)
                    }) by {
                        lemma_rate_of_update_first(
                            old(self).exchange_rates@,
                            i as int,
                            p,
                            bv,
                            qv,
                            b2,
                            q2,
                        );
                    }
                }
                self.exchange_rates[i] = p;
            },
            None => {
                let p = (AssetPair { base, quote }, rate);
                proof {
                    assert forall|b2: AssetId, q2: AssetId| #[trigger] rate_of(
                        old(self).exchange_rates@.push(p),
                        b2,
                        q2,
                    ) == (if b2 == bv && q2 == qv {
                        Some(rate)
                    } else {
                        rate_of(old(self).exchange_rates@, b2, q2)
                    }) by {
                        lemma_rate_of_push(old(self).exchange_rates@, p, b2, q2);
                    }
                }
                self.exchange_rates.push(p);
            },
        }
    }

    /// Builds a provider with the initial rate table and an `Admin` role held
    /// by the default provider admin.
    pub fn new() -> (r: ExchangeRateProvider)
        ensures
            forall|b: AssetId, q: AssetId| #[trigger] r.rate(b, q) == initial_rate(b, q),
            forall|c: Seq<char>| #[trigger] r.is_rate_admin(c) == addr_eq(
                "0xb73B0A92544a5D2523F00F868d795d50DbDfcCf4"@,
                c,
            ),
    {
        let role_manager_addr = default_exchange_rate_provider_admin_address();
        let mut authorizer = RoleAuthorizer::new(role_manager_addr.clone());
        let admin_role = NamedRole(String::from_str("Admin"));

        proof {
            assert(authorizer.assignee("RolesManager"@) == Some(role_manager_addr@));
        }
        let made_known = authorizer.make_role_known(admin_role.clone(), role_manager_addr.clone());
        match made_known {
            Ok(()) => {},
            Err(_) => {
                proof {
                    assert(false);
                }
            },
        }
        let admin_addr = default_exchange_rate_provider_admin_address();
        proof {
            assert(authorizer.assignee("RolesManager"@) == Some(role_manager_addr@));
        }
        let assigned = authorizer.assign_role(admin_role, admin_addr, role_manager_addr);
        match assigned {
            Ok(()) => {},
            Err(_) => {
                proof {
                    assert(false);
                }
            },
        }
        proof {
            assert(authorizer.assignee("Admin"@) == Some(
                "0xb73B0A92544a5D2523F00F868d795d50DbDfcCf4"@,
            ));
        }

        let mut provider = ExchangeRateProvider { exchange_rates: Vec::new(), authorizer };
        let ghost auth0 = provider.authorizer;

        let assets = crate::asset::closed_assets();
        proof {
            assert forall|b: AssetId, q: AssetId| #[trigger] provider.rate(b, q) is None by {
                lemma_rate_of_absent(provider.exchange_rates@, b, q);
            }
        }
        let mut i: usize = 0;
        while i < 8
            invariant
                i <= 8,
                assets@.len() == 8,
                assets@[0]@ == AssetId::Btc,
                assets@[1]@ == AssetId::Eth,
                assets@[2]@ == AssetId::Sol,
                assets@[3]@ == AssetId::Apple,
                assets@[4]@ == AssetId::Usdt,
                assets@[5]@ == AssetId::Usdc,
                assets@[6]@ == AssetId::Vndt,
                assets@[7]@ == AssetId::Vndc,
                provider.authorizer == auth0,
                forall|b: AssetId, q: AssetId| #[trigger] provider.rate(b, q) == if b != q
                    && is_closed_asset(b) && is_closed_asset(q) && closed_asset_pos(b) < i {
                    Some(0u64)
                } else {
                    None::<u64>
                },
            decreases 8 - i,
        {
            let mut j: usize = 0;
            while j < 8
                invariant
                    i < 8,
                    j <= 8,
                    assets@.len() == 8,
                    assets@[0]@ == AssetId::Btc,
                    assets@[1]@ == AssetId::Eth,
                    assets@[2]@ == AssetId::Sol,
                    assets@[3]@ == AssetId::Apple,
                    assets@[4]@ == AssetId::Usdt,
                    assets@[5]@ == AssetId::Usdc,
                    assets@[6]@ == AssetId::Vndt,
                    assets@[7]@ == AssetId::Vndc,
                    provider.authorizer == auth0,
                    forall|b: AssetId, q: AssetId| #[trigger] provider.rate(b, q) == if b != q
                        && is_closed_asset(b) && is_closed_asset(q) && (closed_asset_pos(b) < i
                        || (closed_asset_pos(b) == i && closed_asset_pos(q) < j)) {
                        Some(0u64)
                    } else {
                        None::<u64>
                    },
                decreases 8 - j,
            {
                let base = assets[i].clone();
                let quote = assets[j].clone();
                if !(base == quote) {
                    provider.set_pair(base, quote, 0);
                }
                j = j + 1;
            }
            i = i + 1;
        }
        provider.set_pair(Asset::BTC, Asset::USDT, 100_000);
        proof {
            assert forall|c: Seq<char>| #[trigger] provider.is_rate_admin(c) == addr_eq(
                "0xb73B0A92544a5D2523F00F868d795d50DbDfcCf4"@,
                c,
            ) by {
                assert(provider.authorizer.assignee("Admin"@) == Some(
                    "0xb73B0A92544a5D2523F00F868d795d50DbDfcCf4"@,
                ));
            }
        }
        provider
    }

    /// Looks a pair's rate up; absent pairs (same-asset pairs, pairs with an
    /// open-variant asset never set) give `None`.
    pub fn get_rate(&self, base: &Asset, quote: &Asset) -> (r: Option<u64>)
        ensures
            r == self.rate(base@, quote@),
    {
        match self.find_pair(base, quote) {
            Some(i) => Some(self.exchange_rates[i].1),
            None => None,
        }
    }

    /// Sets a pair's rate; only the holder of this provider's `Admin` role
    /// may do so.
    pub fn set_rate(
        &mut self,
        base: Asset,
        quote: Asset,
        rate: u64,
        caller_address: Address,
    ) -> (r: Result<(), String>)
        ensures
            r is Ok == old(self).is_rate_admin(caller_address@),
            r matches Err(e) ==> *final(self) == *old(self) && e@
                == "caller not authorized to update exchange rate"@,
            r is Ok ==> {
                &&& forall|c: Seq<char>| #[trigger] final(self).is_rate_admin(c) == old(
                    self,
                ).is_rate_admin(c)
                &&& forall|b2: AssetId, q2: AssetId| #[trigger] final(self).rate(b2, q2) == if b2
                    == base@ && q2 == quote@ {
                    Some(rate)
                } else {
                    old(self).rate(b2, q2)
                }
            },
    {
        let mut roles: Vec<NamedRole> = Vec::new();
        roles.push(NamedRole(String::from_str("Admin")));
        match self.authorizer.only_authorized_role(roles.as_slice(), caller_address) {
            Ok(()) => {
                proof {
                    assert(roles@[0]@ == "Admin"@);
                }
                self.set_pair(base, quote, rate);
                Ok(())
            },
            Err(_) => {
                proof {
                    assert(roles@[0]@ == "Admin"@);
                }
                Err(String::from_str("caller not authorized to update exchange rate"))
            },
        }
    }
}

/// Appending an entry for a fresh pair sets that pair's rate and leaves
/// every other pair's rate alone.
proof fn lemma_rate_of_push(
    s: Seq<(AssetPair, u64)>,
    p: (AssetPair, u64),
    b2: AssetId,
    q2: AssetId,
)
    requires
        forall|j: int| 0 <= j < s.len() ==> !(s[j].0.base@ == p.0.base@ && s[j].0.quote@
            == p.0.quote@),
    ensures
        rate_of(s.push(p), b2, q2) == if b2 == p.0.base@ && q2 == p.0.quote@ {
            Some(p.1)
        } else {
            rate_of(s, b2, q2)
        },
    decreases s.len(),
{
    if s.len() == 0 {
        assert(s.push(p)[0] == p);
        assert(s.push(p).drop_first() =~= Seq::<(AssetPair, u64)>::empty());
        assert(rate_of(Seq::<(AssetPair, u64)>::empty(), b2, q2) is None);
    } else {
        assert(s.push(p)[0] == s[0]);
        assert(s.push(p).drop_first() =~= s.drop_first().push(p));
        lemma_rate_of_push(s.drop_first(), p, b2, q2);
    }
}

} // verus!
