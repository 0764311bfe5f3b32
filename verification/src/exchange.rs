//! The exchange: the option lifecycle bookkeeping engine.
//!
//! The exchange owns every user's balance book, the escrow account, and the
//! listings table, and orchestrates the atomic multi-balance transfers behind
//! `list`, `unlist`, `purchase`, `exercise` and spot trading. Every operation
//! is all-or-nothing: on any error the whole state is exactly as it was. On
//! success, the per-asset total over all users and the escrow is conserved.

use vstd::prelude::*;

use crate::address::{addr_eq, Address};
use crate::asset::{Asset, AssetId};
use crate::exchange_rate_provider::ExchangeRateProvider;
use crate::listing_option::ListingOption;
use crate::rbac::RoleAuthorizer;
use crate::types::ListingType;
use crate::user::{insufficient_msg, User};
use crate::utils::are_addresses_equal;

verus! {

/// The side of a spot trade, from the caller's viewpoint: BUY receives the
/// base asset, SELL gives it up.
#[derive(Debug, Clone, Copy, PartialEq, Eq, Structural)]
pub enum SpotAction {
    BUY,
    SELL,
}

/// The escrow account's distinguished all-zero address.
pub fn default_escrow_address() -> (r: Address)
    ensures
        r@ == "0x0000000000000000000000000000000000000000"@,
{
    proof {
        reveal_strlit("0x0000000000000000000000000000000000000000");
    }
    Address::from("0x0000000000000000000000000000000000000000").unwrap()
}

/// The market admin's fixed address.
pub fn default_exchange_admin_address() -> (r: Address)
    ensures
        r@ == "0x953674f672475ec0A1aBE55156400c6F0086E90a"@,
{
    proof {
        reveal_strlit("0x953674f672475ec0A1aBE55156400c6F0086E90a");
    }
    Address::from("0x953674f672475ec0A1aBE55156400c6F0086E90a").unwrap()
}

/// The marketplace: users, escrow, listings, fee parameters, and the admin.
pub struct Exchange {
    pub users: Vec<User>,
    pub escrow_user: User,
    pub listings: Vec<ListingOption>,
    pub next_listing_id: u32,
    pub beneficiary_fee_bps: u16,
    pub grantor_fee_bps: u16,
    pub market_admin_address: Address,
    pub role_authorizer: RoleAuthorizer,
}

/// The sum of the balances of asset `a` over a sequence of users.
pub open spec fn sum_bal(users: Seq<User>, a: AssetId) -> int
    decreases users.len(),
{
    if users.len() == 0 {
        0
    } else {
        users[0].balance_of(a) + sum_bal(users.drop_first(), a)
    }
}

/// Whether some user in the sequence has the given (case-insensitive)
/// address.
pub open spec fn has_user(users: Seq<User>, addr: Seq<char>) -> bool {
    exists|i: int| 0 <= i < users.len() && addr_eq(#[trigger] users[i].address@, addr)
}

/// The index of the user with the given address (meaningful under the
/// exchange's well-formedness, which makes it unique).
pub open spec fn user_idx(users: Seq<User>, addr: Seq<char>) -> int {
    choose|i: int| 0 <= i < users.len() && addr_eq(#[trigger] users[i].address@, addr)
}

/// Whether some listing in the sequence carries the given id.
pub open spec fn has_listing_in(listings: Seq<ListingOption>, id: u32) -> bool {
    exists|i: int| 0 <= i < listings.len() && (#[trigger] listings[i].listing_id) == id
}

/// The index of the listing with the given id (unique under
/// well-formedness).
pub open spec fn listing_idx(listings: Seq<ListingOption>, id: u32) -> int {
    choose|i: int| 0 <= i < listings.len() && (#[trigger] listings[i].listing_id) == id
}

/// A fee in basis points of a price: `p * bps / 10_000`, rounded down.
pub open spec fn spec_fee(p: int, bps: int) -> int {
    p * bps / 10_000
}

/// `post` differs from `pre` only in the balance of `ca`, which moved by
/// `delta`.
pub open spec fn user_delta(pre: User, post: User, ca: AssetId, delta: int) -> bool {
    &&& post.address@ == pre.address@
    &&& post.balance_of(ca) == pre.balance_of(ca) + delta
    &&& forall|a: AssetId| a != ca ==> #[trigger] post.balance_of(a) == pre.balance_of(a)
}

/// The user sequence is unchanged except at `gi`, whose balance of `ca`
/// moved by `delta`.
pub open spec fn users_updated_single(
    pre: Seq<User>,
    post: Seq<User>,
    gi: int,
    ca: AssetId,
    delta: int,
) -> bool {
    &&& 0 <= gi < pre.len()
    &&& post.len() == pre.len()
    &&& forall|j: int| 0 <= j < pre.len() && j != gi ==> post[j] == #[trigger] pre[j]
    &&& user_delta(pre[gi], post[gi], ca, delta)
}

/// The user sequence is unchanged except at `bi` and `gi`, whose balances of
/// `ca` moved by `delta_b` and `delta_g`; when both indices coincide the
/// deltas combine.
pub open spec fn users_updated_two(
    pre: Seq<User>,
    post: Seq<User>,
    bi: int,
    gi: int,
    ca: AssetId,
    delta_b: int,
    delta_g: int,
) -> bool {
    if bi == gi {
        users_updated_single(pre, post, bi, ca, delta_b + delta_g)
    } else {
        &&& 0 <= bi < pre.len()
        &&& 0 <= gi < pre.len()
        &&& post.len() == pre.len()
        &&& forall|j: int| 0 <= j < pre.len() && j != bi && j != gi ==> post[j] == #[trigger] pre[j]
        &&& user_delta(pre[bi], post[bi], ca, delta_b)
        &&& user_delta(pre[gi], post[gi], ca, delta_g)
    }
}

/// Everything but users, escrow and listings is unchanged.
pub open spec fn admin_frame_eq(pre: Exchange, post: Exchange) -> bool {
    &&& post.next_listing_id == pre.next_listing_id
    &&& post.beneficiary_fee_bps == pre.beneficiary_fee_bps
    &&& post.grantor_fee_bps == pre.grantor_fee_bps
    &&& post.market_admin_address == pre.market_admin_address
    &&& post.role_authorizer == pre.role_authorizer
}

/// A `Result` with its error message abstracted to a character sequence.
pub open spec fn res_view<T>(r: Result<T, String>) -> Result<T, Seq<char>> {
    match r {
        Ok(t) => Ok(t),
        Err(e) => Err(e@),
    }
}

/// The record stored for a freshly listed option: the submitted terms under
/// the assigned id, with no beneficiary and all lifecycle flags false.
pub open spec fn listed_record(opt: ListingOption, id: u32) -> ListingOption {
    ListingOption {
        listing_id: id,
        beneficiary_address: None,
        is_purchased: false,
        is_unlisted: false,
        is_exercised: false,
        ..opt
    }
}

/// The record of a listing right after its purchase by `beneficiary`.
pub open spec fn purchased_record(l: ListingOption, beneficiary: Address) -> ListingOption {
    ListingOption { beneficiary_address: Some(beneficiary), is_purchased: true, ..l }
}

/// The record of a listing right after its exercise.
pub open spec fn exercised_record(l: ListingOption) -> ListingOption {
    ListingOption { is_exercised: true, ..l }
}

/// How `list_option` relates its pre-state to its post-state and result.
///
/// An unknown caller is rejected; a caller whose balance does not cover the
/// collateral is rejected with the message for the option's type; otherwise
/// the collateral moves from the caller to the escrow and the option is
/// recorded under the next id.
pub open spec fn spec_list(
    pre: Exchange,
    caller: Seq<char>,
    opt: ListingOption,
    post: Exchange,
    r: Result<u32, Seq<char>>,
) -> bool {
    if !has_user(pre.users@, caller) {
        r == Err::<u32, Seq<char>>("User not found"@) && post == pre
    } else {
        let gi = user_idx(pre.users@, caller);
        let ca = opt.spec_collateral_asset();
        let camt = opt.spec_collateral_amount();
        if pre.users@[gi].balance_of(ca) < camt {
            &&& post == pre
            &&& opt.listing_type is CALL ==> r == Err::<u32, Seq<char>>(
                "Insufficient base asset balance to cover CALL option"@,
            )
            &&& opt.listing_type is PUT ==> r == Err::<u32, Seq<char>>(
                "Insufficient quote asset balance to cover PUT option"@,
            )
        } else {
            &&& r == Ok::<u32, Seq<char>>(pre.next_listing_id)
            &&& post.next_listing_id == pre.next_listing_id + 1
            &&& post.listings@ == pre.listings@.push(listed_record(opt, pre.next_listing_id))
            &&& users_updated_single(pre.users@, post.users@, gi, ca, -camt)
            &&& user_delta(pre.escrow_user, post.escrow_user, ca, camt)
            &&& post.beneficiary_fee_bps == pre.beneficiary_fee_bps
            &&& post.grantor_fee_bps == pre.grantor_fee_bps
            &&& post.market_admin_address == pre.market_admin_address
            &&& post.role_authorizer == pre.role_authorizer
        }
    }
}

/// How `unlist_option` relates its pre-state to its post-state and result.
///
/// The listing must exist, the caller must be its grantor, and it must not
/// have been acquired; the escrow must still cover the collateral. Then the
/// collateral returns to the grantor and the record is removed.
pub open spec fn spec_unlist(
    pre: Exchange,
    id: u32,
    caller: Seq<char>,
    post: Exchange,
    r: Result<(), Seq<char>>,
) -> bool {
    if !has_listing_in(pre.listings@, id) {
        r == Err::<(), Seq<char>>("Listing not found"@) && post == pre
    } else {
        let li = listing_idx(pre.listings@, id);
        let l = pre.listings@[li];
        let ca = l.spec_collateral_asset();
        let camt = l.spec_collateral_amount();
        if !addr_eq(caller, l.grantor_address@) {
            r == Err::<(), Seq<char>>("Only the seller can unlist this option"@) && post == pre
        } else if l.beneficiary_address is Some {
            r == Err::<(), Seq<char>>("Option has been acquired, cannot unlist"@) && post == pre
        } else if pre.escrow_user.balance_of(ca) < camt {
            r == Err::<(), Seq<char>>(insufficient_msg(ca)) && post == pre
        } else {
            &&& r == Ok::<(), Seq<char>>(())
            &&& has_user(pre.users@, caller)
            &&& post.listings@ == pre.listings@.remove(li)
            &&& users_updated_single(
                pre.users@,
                post.users@,
                user_idx(pre.users@, caller),
                ca,
                camt,
            )
            &&& user_delta(pre.escrow_user, post.escrow_user, ca, -camt)
            &&& admin_frame_eq(pre, post)
        }
    }
}

/// How `purchase_option` relates its pre-state to its post-state and
/// result.
///
/// The listing must exist in the untouched state and the buyer must be
/// registered and able to pay the premium plus their fee. The buyer then
/// pays `premium + buyer_fee` in the quote asset, the grantor receives
/// `premium - grantor_fee`, the escrow collects both fees, and the listing
/// is marked purchased with the buyer as its beneficiary.
pub open spec fn spec_purchase(
    pre: Exchange,
    id: u32,
    beneficiary: Address,
    post: Exchange,
    r: Result<(), Seq<char>>,
) -> bool {
    if !has_listing_in(pre.listings@, id) {
        r == Err::<(), Seq<char>>("Listing not found"@) && post == pre
    } else {
        let li = listing_idx(pre.listings@, id);
        let l = pre.listings@[li];
        let q = l.quote_asset@;
        let p = l.spec_premium();
        let bf = spec_fee(p, pre.beneficiary_fee_bps as int);
        let gf = spec_fee(p, pre.grantor_fee_bps as int);
        let bi = user_idx(pre.users@, beneficiary@);
        let gi = user_idx(pre.users@, l.grantor_address@);
        if l.is_purchased {
            r == Err::<(), Seq<char>>("Option already purchased!"@) && post == pre
        } else if l.is_unlisted {
            r == Err::<(), Seq<char>>("Option has been unlisted!"@) && post == pre
        } else if l.is_exercised {
            r == Err::<(), Seq<char>>("Option has already been exercised!"@) && post == pre
        } else if !has_user(pre.users@, beneficiary@) {
            r == Err::<(), Seq<char>>("User not found"@) && post == pre
        } else if pre.users@[bi].balance_of(q) < p + bf {
            r == Err::<(), Seq<char>>("Buyer doesn't have enough quote balance to purchase option"@)
                && post == pre
        } else {
            &&& r == Ok::<(), Seq<char>>(())
            &&& has_user(pre.users@, l.grantor_address@)
            &&& post.listings@ == pre.listings@.update(li, purchased_record(l, beneficiary))
            &&& post.users@.len() == pre.users@.len()
            &&& forall|j: int|
                0 <= j < pre.users@.len() && j != bi && j != gi ==> post.users@[j] == #[trigger] pre.users@[j]
            &&& forall|j: int|
                0 <= j < pre.users@.len() ==> (#[trigger] post.users@[j]).address@
                    == pre.users@[j].address@
            &&& forall|j: int, a: AssetId|
                0 <= j < pre.users@.len() ==> (#[trigger] post.users@[j].balance_of(a))
                    == pre.users@[j].balance_of(a) + (if j == bi && a == q {
                    -(p + bf)
                } else {
                    0
                }) + (if j == gi && a == q {
                    p - gf
                } else {
                    0
                })
            &&& user_delta(pre.escrow_user, post.escrow_user, q, bf + gf)
            &&& admin_frame_eq(pre, post)
        }
    }
}

/// How `exercise_option` relates its pre-state to its post-state and
/// result, at the instant `now`.
///
/// Only the beneficiary of a purchased, live, unexpired listing may
/// exercise. The beneficiary pays the settlement amount to the grantor and
/// the escrow releases the posted collateral to the beneficiary; the
/// listing is then marked exercised.
pub open spec fn spec_exercise(
    pre: Exchange,
    id: u32,
    caller: Seq<char>,
    now: i64,
    post: Exchange,
    r: Result<(), Seq<char>>,
) -> bool {
    if !has_listing_in(pre.listings@, id) {
        r == Err::<(), Seq<char>>("Listing not found"@) && post == pre
    } else {
        let li = listing_idx(pre.listings@, id);
        let l = pre.listings@[li];
        let is_benef = l.beneficiary_address matches Some(b) && addr_eq(b@, caller);
        if !is_benef {
            r == Err::<(), Seq<char>>("Caller is not beneficiary of option!"@) && post == pre
        } else if l.is_unlisted {
            r == Err::<(), Seq<char>>("Option has been unlisted!"@) && post == pre
        } else if l.is_exercised {
            r == Err::<(), Seq<char>>("Option has already been exercised!"@) && post == pre
        } else if now > l.expiration_time {
            r == Err::<(), Seq<char>>("Option has expired!"@) && post == pre
        } else {
            let pay_a = l.spec_settle_pay_asset();
            let pay = l.spec_settle_pay_amount();
            let rel_a = l.spec_settle_release_asset();
            let rel = l.spec_settle_release_amount();
            let bi = user_idx(pre.users@, caller);
            let gi = user_idx(pre.users@, l.grantor_address@);
            if pre.users@[bi].balance_of(pay_a) < pay {
                r == Err::<(), Seq<char>>(insufficient_msg(pay_a)) && post == pre
            } else if pre.escrow_user.balance_of(rel_a) < rel {
                r == Err::<(), Seq<char>>(insufficient_msg(rel_a)) && post == pre
            } else {
                &&& r == Ok::<(), Seq<char>>(())
                &&& has_user(pre.users@, caller)
                &&& has_user(pre.users@, l.grantor_address@)
                &&& post.listings@ == pre.listings@.update(li, exercised_record(l))
                &&& post.users@.len() == pre.users@.len()
                &&& forall|j: int|
                    0 <= j < pre.users@.len() && j != bi && j != gi ==> post.users@[j]
                        == #[trigger] pre.users@[j]
                &&& forall|j: int|
                    0 <= j < pre.users@.len() ==> (#[trigger] post.users@[j]).address@
                        == pre.users@[j].address@
                &&& forall|j: int, a: AssetId|
                    0 <= j < pre.users@.len() ==> (#[trigger] post.users@[j].balance_of(a))
                        == pre.users@[j].balance_of(a) + (if j == bi && a == pay_a {
                        -pay
                    } else {
                        0
                    }) + (if j == bi && a == rel_a {
                        rel
                    } else {
                        0
                    }) + (if j == gi && a == pay_a {
                        pay
                    } else {
                        0
                    })
                &&& user_delta(pre.escrow_user, post.escrow_user, rel_a, -rel)
                &&& admin_frame_eq(pre, post)
            }
        }
    }
}

/// How `spot_trade_current_price` relates its pre-state to its post-state
/// and result, given the rate the provider reported for `(base, quote)`.
///
/// The caller swaps `amount` of the base asset against `amount * rate` of
/// the quote asset with the escrow, in the direction given by `action`.
/// Both legs are checked against the untouched balances before anything
/// moves.
pub open spec fn spec_spot_trade(
    pre: Exchange,
    base: AssetId,
    quote: AssetId,
    amount: u64,
    action: SpotAction,
    caller: Seq<char>,
    rate: Option<u64>,
    post: Exchange,
    r: Result<(), Seq<char>>,
) -> bool {
    if !has_user(pre.users@, caller) {
        r == Err::<(), Seq<char>>("User not found"@) && post == pre
    } else if rate is None {
        r == Err::<(), Seq<char>>("Exchange rate not found"@) && post == pre
    } else {
        let rt = rate->0;
        let cost = amount * rt;
        let ti = user_idx(pre.users@, caller);
        let caller_short = if action is BUY {
            pre.users@[ti].balance_of(quote) < cost
        } else {
            pre.users@[ti].balance_of(base) < amount
        };
        let escrow_short = if action is BUY {
            pre.escrow_user.balance_of(base) < amount
        } else {
            pre.escrow_user.balance_of(quote) < cost
        };
        if caller_short || escrow_short {
            r == Err::<(), Seq<char>>("Transfer failed: sender doesn't have enough"@) && post
                == pre
        } else {
            let bdelta = if action is BUY {
                amount as int
            } else {
                -(amount as int)
            };
            let qdelta = if action is BUY {
                -cost
            } else {
                cost
            };
            &&& r == Ok::<(), Seq<char>>(())
            &&& post.listings@ == pre.listings@
            &&& post.users@.len() == pre.users@.len()
            &&& forall|j: int|
                0 <= j < pre.users@.len() && j != ti ==> post.users@[j] == #[trigger] pre.users@[j]
            &&& forall|j: int|
                0 <= j < pre.users@.len() ==> (#[trigger] post.users@[j]).address@
                    == pre.users@[j].address@
            &&& forall|j: int, a: AssetId|
                0 <= j < pre.users@.len() ==> (#[trigger] post.users@[j].balance_of(a))
                    == pre.users@[j].balance_of(a) + (if j == ti && a == base {
                    bdelta
                } else {
                    0
                }) + (if j == ti && a == quote {
                    qdelta
                } else {
                    0
                })
            &&& post.escrow_user.address@ == pre.escrow_user.address@
            &&& forall|a: AssetId|
                (#[trigger] post.escrow_user.balance_of(a)) == pre.escrow_user.balance_of(a) + (
                if a == base {
                    -bdelta
                } else {
                    0
                }) + (if a == quote {
                    -qdelta
                } else {
                    0
                })
            &&& admin_frame_eq(pre, post)
        }
    }
}

/// A fee on a non-negative price is non-negative and at most the price.
proof fn lemma_fee_bounds(p: int, bps: int)
    requires
        0 <= p,
        0 <= bps <= 10_000,
    ensures
        0 <= spec_fee(p, bps) <= p,
{
    assert(0 <= p * bps / 10_000 <= p) by (nonlinear_arith)
        requires
            0 <= p,
            0 <= bps <= 10_000,
    ;
}

/// The sum of balances is never negative.
pub(crate) proof fn lemma_sum_nonneg(users: Seq<User>, a: AssetId)
    ensures
        0 <= sum_bal(users, a),
    decreases users.len(),
{
    if users.len() > 0 {
        lemma_sum_nonneg(users.drop_first(), a);
    }
}

/// Replacing one user changes the sum by the difference of that user's
/// balance.
pub(crate) proof fn lemma_sum_update(users: Seq<User>, i: int, u: User, a: AssetId)
    requires
        0 <= i < users.len(),
    ensures
        sum_bal(users.update(i, u), a) == sum_bal(users, a) - users[i].balance_of(a)
            + u.balance_of(a),
    decreases i,
{
    let up = users.update(i, u);
    if i == 0 {
        assert(up.drop_first() =~= users.drop_first());
    } else {
        assert(up.drop_first() =~= users.drop_first().update(i - 1, u));
        lemma_sum_update(users.drop_first(), i - 1, u, a);
        assert(up[0] == users[0]);
    }
}

/// One user's balance is at most the sum.
pub(crate) proof fn lemma_sum_one(users: Seq<User>, i: int, a: AssetId)
    requires
        0 <= i < users.len(),
    ensures
        users[i].balance_of(a) <= sum_bal(users, a),
    decreases i,
{
    if i == 0 {
        lemma_sum_nonneg(users.drop_first(), a);
    } else {
        lemma_sum_one(users.drop_first(), i - 1, a);
        assert(users.drop_first()[i - 1] == users[i]);
    }
}

/// Two distinct users' balances together are at most the sum.
pub(crate) proof fn lemma_sum_two(users: Seq<User>, i: int, j: int, a: AssetId)
    requires
        0 <= i < users.len(),
        0 <= j < users.len(),
        i != j,
    ensures
        users[i].balance_of(a) + users[j].balance_of(a) <= sum_bal(users, a),
    decreases users.len(),
{
    if i == 0 {
        lemma_sum_one(users.drop_first(), j - 1, a);
    } else if j == 0 {
        lemma_sum_one(users.drop_first(), i - 1, a);
    } else {
        lemma_sum_two(users.drop_first(), i - 1, j - 1, a);
    }
}

/// Appending a user adds that user's balance to the sum.
pub(crate) proof fn lemma_sum_push(users: Seq<User>, u: User, a: AssetId)
    ensures
        sum_bal(users.push(u), a) == sum_bal(users, a) + u.balance_of(a),
    decreases users.len(),
{
    if users.len() == 0 {
        assert(users.push(u)[0] == u);
        assert(users.push(u).drop_first() =~= Seq::<User>::empty());
        assert(sum_bal(Seq::<User>::empty(), a) == 0);
        assert(sum_bal(users, a) == 0);
    } else {
        assert(users.push(u)[0] == users[0]);
        assert(users.push(u).drop_first() =~= users.drop_first().push(u));
        lemma_sum_push(users.drop_first(), u, a);
    }
}

/// Sequences of users whose addresses agree case-insensitively index-by-
/// index have users at the same addresses.
pub(crate) proof fn lemma_has_user_congruent(pre: Seq<User>, post: Seq<User>, addr: Seq<char>)
    requires
        pre.len() == post.len(),
        forall|i: int| 0 <= i < pre.len() ==> addr_eq(
            post[i].address@,
            #[trigger] pre[i].address@,
        ),
    ensures
        has_user(post, addr) == has_user(pre, addr),
{
    if has_user(pre, addr) {
        let i = choose|i: int| 0 <= i < pre.len() && addr_eq(#[trigger] pre[i].address@, addr);
        assert(addr_eq(post[i].address@, addr));
    }
    if has_user(post, addr) {
        let i = choose|i: int| 0 <= i < post.len() && addr_eq(#[trigger] post[i].address@, addr);
        assert(addr_eq(pre[i].address@, addr));
    }
}

impl Exchange {
    /// The total holdings of asset `a` across every user and the escrow.
    pub open spec fn total_of(&self, a: AssetId) -> int {
        sum_bal(self.users@, a) + self.escrow_user.balance_of(a)
    }

    /// Well-formedness of the exchange state:
    /// per-asset totals fit the machine range, user addresses are distinct,
    /// stored listings have in-range amounts, unique ids below the next id,
    /// name a beneficiary exactly when purchased, have a registered grantor,
    /// and the fee parameters are within bounds.
    pub open spec fn wf(&self) -> bool {
        &&& forall|a: AssetId| #[trigger] self.total_of(a) <= u64::MAX
        &&& forall|i: int, j: int|
            #![trigger addr_eq(self.users@[i].address@, self.users@[j].address@)]
            0 <= i < j < self.users@.len() ==> !addr_eq(
                self.users@[i].address@,
                self.users@[j].address@,
            )
        &&& forall|j: int| 0 <= j < self.listings@.len() ==> (
        #[trigger] self.listings@[j]).spec_amounts_in_range()
        &&& forall|j: int| 0 <= j < self.listings@.len() ==> (
        #[trigger] self.listings@[j]).listing_id < self.next_listing_id
        &&& forall|i: int, j: int|
            #![trigger self.listings@[i].listing_id, self.listings@[j].listing_id]
            0 <= i < j < self.listings@.len() ==> self.listings@[i].listing_id
                != self.listings@[j].listing_id
        &&& forall|j: int| 0 <= j < self.listings@.len() ==> ((
        #[trigger] self.listings@[j]).is_purchased <==> self.listings@[j].beneficiary_address
            is Some)
        &&& forall|j: int| 0 <= j < self.listings@.len() ==> ((
        #[trigger] self.listings@[j]).is_exercised ==> self.listings@[j].is_purchased)
        &&& forall|j: int| 0 <= j < self.listings@.len() ==> has_user(
            self.users@,
            (#[trigger] self.listings@[j]).grantor_address@,
        )
        &&& forall|j: int| 0 <= j < self.listings@.len() ==> ((
        #[trigger] self.listings@[j]).beneficiary_address matches Some(b) ==> has_user(
            self.users@,
            b@,
        ))
        &&& self.beneficiary_fee_bps <= 10_000
        &&& self.grantor_fee_bps <= 10_000
    }

    /// Creates an empty exchange: no users, no listings, ids starting at 1,
    /// both fees at 10 basis points, and the fixed market admin.
    pub fn new() -> (r: Exchange)
        ensures
            r.wf(),
            r.users@.len() == 0,
            r.listings@.len() == 0,
            r.next_listing_id == 1,
            r.beneficiary_fee_bps == 10,
            r.grantor_fee_bps == 10,
            r.market_admin_address@ == "0x953674f672475ec0A1aBE55156400c6F0086E90a"@,
            r.escrow_user.address@ == "0x0000000000000000000000000000000000000000"@,
            forall|a: AssetId| #[trigger] r.total_of(a) == 0,
    {
        let r = Exchange {
            users: Vec::new(),
            escrow_user: User::new(default_escrow_address()),
            listings: Vec::new(),
            next_listing_id: 1,
            beneficiary_fee_bps: 10,
            grantor_fee_bps: 10,
            market_admin_address: default_exchange_admin_address(),
            role_authorizer: RoleAuthorizer::new(crate::rbac::placeholder_role_manager_address()),
        };
        r
    }

    /// Finds the index of the user with the given address, if any.
    fn find_user_index(&self, user_address: &Address) -> (r: Option<usize>)
        requires
            self.wf(),
        ensures
            match r {
                Some(i) => has_user(self.users@, user_address@) && i == user_idx(
                    self.users@,
                    user_address@,
                ) && i < self.users@.len() && addr_eq(
                    self.users@[i as int].address@,
                    user_address@,
                ),
                None => !has_user(self.users@, user_address@),
            },
    {
        let n = self.users.len();
        let mut k: usize = 0;
        while k < n
            invariant
                self.wf(),
                k <= n,
                n == self.users@.len(),
                forall|j: int| 0 <= j < k ==> !addr_eq(
                    (#[trigger] self.users@[j]).address@,
                    user_address@,
                ),
            decreases n - k,
        {
            if are_addresses_equal(&self.users[k].address, user_address) {
                proof {
                    assert(addr_eq(self.users@[k as int].address@, user_address@));
                    let ci = user_idx(self.users@, user_address@);
                    assert(0 <= ci < self.users@.len() && addr_eq(
                        self.users@[ci].address@,
                        user_address@,
                    ));
                    if ci < k as int {
                        assert(addr_eq(self.users@[ci].address@, self.users@[k as int].address@));
                        assert(false);
                    } else if ci > k as int {
                        assert(addr_eq(self.users@[k as int].address@, self.users@[ci].address@));
                        assert(false);
                    }
                }
                return Some(k);
            }
            k = k + 1;
        }
        None
    }

    /// Finds the index of the listing with the given id, if any.
    fn find_listing_index(&self, listing_id: u32) -> (r: Option<usize>)
        requires
            self.wf(),
        ensures
            match r {
                Some(i) => has_listing_in(self.listings@, listing_id) && i == listing_idx(
                    self.listings@,
                    listing_id,
                ) && i < self.listings@.len() && self.listings@[i as int].listing_id == listing_id,
                None => !has_listing_in(self.listings@, listing_id),
            },
    {
        let n = self.listings.len();
        let mut k: usize = 0;
        while k < n
            invariant
                self.wf(),
                k <= n,
                n == self.listings@.len(),
                forall|j: int| 0 <= j < k ==> (#[trigger] self.listings@[j]).listing_id
                    != listing_id,
            decreases n - k,
        {
            if self.listings[k].listing_id == listing_id {
                proof {
                    assert(self.listings@[k as int].listing_id == listing_id);
                    let ci = listing_idx(self.listings@, listing_id);
                    assert(0 <= ci < self.listings@.len() && self.listings@[ci].listing_id
                        == listing_id);
                    if ci != k as int {
                        assert(self.listings@[ci].listing_id
                            == self.listings@[k as int].listing_id);
                        assert(false);
                    }
                }
                return Some(k);
            }
            k = k + 1;
        }
        None
    }

    /// Looks a user up by address; absent users give `"User not found"`.
    pub fn get_user_or_error_immutable(&self, user_address: &Address) -> (r: Result<&User, String>)
        requires
            self.wf(),
        ensures
            match r {
                Ok(u) => has_user(self.users@, user_address@) && *u == self.users@[user_idx(
                    self.users@,
                    user_address@,
                )],
                Err(e) => !has_user(self.users@, user_address@) && e@ == "User not found"@,
            },
    {
        match self.find_user_index(user_address) {
            Some(i) => Ok(&self.users[i]),
            None => Err(String::from_str("User not found")),
        }
    }

    /// Looks a listing up by id; absent listings give `"Listing not found"`.
    pub fn get_listing_or_error_immutable(&self, listing_id: u32) -> (r: Result<
        &ListingOption,
        String,
    >)
        requires
            self.wf(),
        ensures
            match r {
                Ok(l) => has_listing_in(self.listings@, listing_id) && *l == self.listings@[
                    listing_idx(self.listings@, listing_id)],
                Err(e) => !has_listing_in(self.listings@, listing_id) && e@
                    == "Listing not found"@,
            },
    {
        match self.find_listing_index(listing_id) {
            Some(i) => Ok(&self.listings[i]),
            None => Err(String::from_str("Listing not found")),
        }
    }

    /// Whether a listing with this id is currently on the book.
    pub fn has_listing(&self, listing_id: u32) -> (r: bool)
        requires
            self.wf(),
        ensures
            r == has_listing_in(self.listings@, listing_id),
    {
        match self.find_listing_index(listing_id) {
            Some(_) => true,
            None => false,
        }
    }

    /// The number of listings currently on the book.
    pub fn listings_count(&self) -> (r: usize)
        ensures
            r == self.listings@.len(),
    {
        self.listings.len()
    }

    /// The beneficiary's fee on a premium, at the current fee parameter.
    pub fn get_beneficiary_fee(&self, premium_price: u64) -> (r: u64)
        requires
            self.beneficiary_fee_bps <= 10_000,
        ensures
            r == spec_fee(premium_price as int, self.beneficiary_fee_bps as int),
    {
        compute_fee(premium_price, self.beneficiary_fee_bps)
    }

    /// The grantor's fee on a premium, at the current fee parameter.
    pub fn get_grantor_fee(&self, premium_price: u64) -> (r: u64)
        requires
            self.grantor_fee_bps <= 10_000,
        ensures
            r == spec_fee(premium_price as int, self.grantor_fee_bps as int),
    {
        compute_fee(premium_price, self.grantor_fee_bps)
    }

    /// Sets the beneficiary fee parameter; only the market admin may, and
    /// only to at most 10 000 basis points.
    pub fn set_beneficiary_fee_bps(&mut self, new_bps: u16, caller_address: Address) -> (r: Result<
        (),
        String,
    >)
        ensures
            !addr_eq(caller_address@, old(self).market_admin_address@) ==> (r matches Err(e) && e@
                == "Only market admin only"@ && *final(self) == *old(self)),
            addr_eq(caller_address@, old(self).market_admin_address@) && new_bps > 10_000 ==> (
            r matches Err(e) && e@ == "Invalid bps, must be between 0 - 10.000"@ && *final(self)
                == *old(self)),
            addr_eq(caller_address@, old(self).market_admin_address@) && new_bps <= 10_000 ==> (
            r is Ok && *final(self) == (Exchange {
                beneficiary_fee_bps: new_bps,
                ..*old(self)
            })),
    {
        if !are_addresses_equal(&caller_address, &self.market_admin_address) {
            return Err(String::from_str("Only market admin only"));
        }
        if new_bps > 10_000 {
            return Err(String::from_str("Invalid bps, must be between 0 - 10.000"));
        }
        self.beneficiary_fee_bps = new_bps;
        Ok(())
    }

    /// Sets the grantor fee parameter; only the market admin may, and only
    /// to at most 10 000 basis points.
    pub fn set_grantor_fee_bps(&mut self, new_bps: u16, caller_address: Address) -> (r: Result<
        (),
        String,
    >)
        ensures
            !addr_eq(caller_address@, old(self).market_admin_address@) ==> (r matches Err(e) && e@
                == "Only market admin only"@ && *final(self) == *old(self)),
            addr_eq(caller_address@, old(self).market_admin_address@) && new_bps > 10_000 ==> (
            r matches Err(e) && e@ == "Invalid bps, must be between 0 - 10.000"@ && *final(self)
                == *old(self)),
            addr_eq(caller_address@, old(self).market_admin_address@) && new_bps <= 10_000 ==> (
            r is Ok && *final(self) == (Exchange { grantor_fee_bps: new_bps, ..*old(self) })),
    {
        if !are_addresses_equal(&caller_address, &self.market_admin_address) {
            return Err(String::from_str("Only market admin only"));
        }
        if new_bps > 10_000 {
            return Err(String::from_str("Invalid bps, must be between 0 - 10.000"));
        }
        self.grantor_fee_bps = new_bps;
        Ok(())
    }

    /// Registers a user. A user with the same (case-insensitive) address is
    /// replaced; otherwise the user is appended.
    pub fn add_user(&mut self, user: User)
        requires
            old(self).wf(),
            forall|a: AssetId| #[trigger] old(self).total_of(a) + user.balance_of(a)
                <= u64::MAX,
        ensures
            final(self).wf(),
            admin_frame_eq(*old(self), *final(self)),
            final(self).listings@ == old(self).listings@,
            final(self).escrow_user == old(self).escrow_user,
            has_user(final(self).users@, user.address@),
            !has_user(old(self).users@, user.address@) ==> final(self).users@ == old(
                self,
            ).users@.push(user),
            has_user(old(self).users@, user.address@) ==> final(self).users@ == old(
                self,
            ).users@.update(user_idx(old(self).users@, user.address@), user),
    {
        let ghost pre = *self;
        match self.find_user_index(&user.address) {
            Some(i) => {
                proof {
                    let gi = i as int;
                    assert forall|a: AssetId| #[trigger] sum_bal(
                        pre.users@.update(gi, user),
                        a,
                    ) <= sum_bal(pre.users@, a) + user.balance_of(a) by {
                        lemma_sum_update(pre.users@, gi, user, a);
                        lemma_sum_nonneg(pre.users@, a);
                    }
                }
                self.users[i] = user;
                proof {
                    assert(pre == *old(self));
                    let gi = user_idx(pre.users@, user.address@);
                    assert(self.users@[gi] == user);
                    assert(addr_eq(self.users@[gi].address@, user.address@));
                    assert forall|a: AssetId| #[trigger] self.total_of(a) <= u64::MAX by {
                        lemma_sum_update(pre.users@, gi, user, a);
                        lemma_sum_nonneg(pre.users@, a);
                        assert(old(self).total_of(a) + user.balance_of(a) <= u64::MAX);
                    }
                    assert forall|k: int|
                        0 <= k < pre.users@.len() implies addr_eq(
                        self.users@[k].address@,
                        (#[trigger] pre.users@[k]).address@,
                    ) by {
                        if k == gi {
                            assert(addr_eq(pre.users@[gi].address@, user.address@));
                        }
                    }
                    self.lemma_same_shape_wf(pre);
                }
            },
            None => {
                self.users.push(user);
                proof {
                    assert(pre == *old(self));
                    assert(self.users@[pre.users@.len() as int] == user);
                    assert(addr_eq(user.address@, user.address@));
                    assert forall|a: AssetId| #[trigger] self.total_of(a) <= u64::MAX by {
                        lemma_sum_push(pre.users@, user, a);
                        assert(old(self).total_of(a) + user.balance_of(a) <= u64::MAX);
                    }
                    assert forall|i: int, j: int|
                        #![trigger addr_eq(self.users@[i].address@, self.users@[j].address@)]
                        0 <= i < j < self.users@.len() implies !addr_eq(
                        self.users@[i].address@,
                        self.users@[j].address@,
                    ) by {
                        if j == pre.users@.len() as int {
                            if addr_eq(self.users@[i].address@, user.address@) {
                                assert(has_user(pre.users@, user.address@));
                            }
                        }
                    }
                    assert forall|j: int|
                        0 <= j < self.listings@.len() implies has_user(
                        self.users@,
                        (#[trigger] self.listings@[j]).grantor_address@,
                    ) by {
                        let g = pre.listings@[j].grantor_address@;
                        assert(has_user(pre.users@, g));
                        let i = choose|i: int|
                            0 <= i < pre.users@.len() && addr_eq(
                                (#[trigger] pre.users@[i]).address@,
                                g,
                            );
                        assert(addr_eq(self.users@[i].address@, g));
                    }
                    assert forall|j: int|
                        0 <= j < self.listings@.len() implies ((
                    #[trigger] self.listings@[j]).beneficiary_address matches Some(b)
                        ==> has_user(self.users@, b@)) by {
                        if self.listings@[j].beneficiary_address is Some {
                            let b = pre.listings@[j].beneficiary_address->0;
                            assert(has_user(pre.users@, b@));
                            let i = choose|i: int|
                                0 <= i < pre.users@.len() && addr_eq(
                                    (#[trigger] pre.users@[i]).address@,
                                    b@,
                                );
                            assert(addr_eq(self.users@[i].address@, b@));
                        }
                    }
                }
            },
        }
    }

    /// Credits a registered user's balance from outside the marketplace: a
    /// liquidity injection, the one kind of operation that raises the
    /// per-asset total.
    pub fn add_user_asset(&mut self, user_address: &Address, asset: &Asset, amount: u64) -> (r:
        Result<(), String>)
        requires
            old(self).wf(),
            old(self).total_of(asset@) + amount <= u64::MAX,
        ensures
            final(self).wf(),
            admin_frame_eq(*old(self), *final(self)),
            final(self).listings@ == old(self).listings@,
            final(self).escrow_user == old(self).escrow_user,
            !has_user(old(self).users@, user_address@) ==> (r matches Err(e) && e@
                == "User not found"@ && *final(self) == *old(self)),
            has_user(old(self).users@, user_address@) ==> (r is Ok && users_updated_single(
                old(self).users@,
                final(self).users@,
                user_idx(old(self).users@, user_address@),
                asset@,
                amount as int,
            )),
    {
        let ghost pre = *self;
        match self.find_user_index(user_address) {
            Some(i) => {
                let mut u = self.users[i].clone();
                proof {
                    assert(pre == *old(self));
                    lemma_sum_one(pre.users@, i as int, asset@);
                    assert(old(self).total_of(asset@) + amount <= u64::MAX);
                    assert(u.balance_of(asset@) == pre.users@[i as int].balance_of(asset@));
                }
                u.add_asset(asset, amount);
                proof {
                    assert forall|a: AssetId| #[trigger] sum_bal(
                        pre.users@.update(i as int, u),
                        a,
                    ) + pre.escrow_user.balance_of(a) <= u64::MAX by {
                        lemma_sum_update(pre.users@, i as int, u, a);
                        lemma_sum_nonneg(pre.users@, a);
                        assert(old(self).total_of(a) <= u64::MAX);
                        if a == asset@ {
                            assert(u.balance_of(a) == pre.users@[i as int].balance_of(a)
                                + amount);
                            assert(old(self).total_of(asset@) + amount <= u64::MAX);
                        } else {
                            assert(u.balance_of(a) == pre.users@[i as int].balance_of(a));
                        }
                    }
                }
                self.users[i] = u;
                proof {
                    self.lemma_same_shape_wf(pre);
                }
                Ok(())
            },
            None => Err(String::from_str("User not found")),
        }
    }

    /// Debits a registered user's balance to outside the marketplace: a
    /// liquidity withdrawal, the one kind of operation that lowers the
    /// per-asset total.
    pub fn deduct_user_asset(&mut self, user_address: &Address, asset: &Asset, amount: u64) -> (r:
        Result<(), String>)
        requires
            old(self).wf(),
        ensures
            final(self).wf(),
            admin_frame_eq(*old(self), *final(self)),
            final(self).listings@ == old(self).listings@,
            final(self).escrow_user == old(self).escrow_user,
            !has_user(old(self).users@, user_address@) ==> (r matches Err(e) && e@
                == "User not found"@ && *final(self) == *old(self)),
            has_user(old(self).users@, user_address@) && old(self).users@[user_idx(
                old(self).users@,
                user_address@,
            )].balance_of(asset@) < amount ==> (r matches Err(e) && e@ == insufficient_msg(asset@)
                && *final(self) == *old(self)),
            has_user(old(self).users@, user_address@) && old(self).users@[user_idx(
                old(self).users@,
                user_address@,
            )].balance_of(asset@) >= amount ==> (r is Ok && users_updated_single(
                old(self).users@,
                final(self).users@,
                user_idx(old(self).users@, user_address@),
                asset@,
                -(amount as int),
            )),
    {
        let ghost pre = *self;
        match self.find_user_index(user_address) {
            Some(i) => {
                let mut u = self.users[i].clone();
                proof {
                    assert(pre == *old(self));
                    assert(u.balance_of(asset@) == pre.users@[i as int].balance_of(asset@));
                }
                match u.deduct_asset(asset, amount) {
                    Ok(()) => {
                        proof {
                            assert forall|a: AssetId| #[trigger] sum_bal(
                                pre.users@.update(i as int, u),
                                a,
                            ) + pre.escrow_user.balance_of(a) <= u64::MAX by {
                                lemma_sum_update(pre.users@, i as int, u, a);
                                lemma_sum_nonneg(pre.users@, a);
                                assert(old(self).total_of(a) <= u64::MAX);
                                if a == asset@ {
                                    assert(u.balance_of(a) <= pre.users@[i as int].balance_of(
                                        a,
                                    ));
                                } else {
                                    assert(u.balance_of(a) == pre.users@[i as int].balance_of(
                                        a,
                                    ));
                                }
                            }
                        }
                        self.users[i] = u;
                        proof {
                            self.lemma_same_shape_wf(pre);
                        }
                        Ok(())
                    },
                    Err(e) => Err(e),
                }
            },
            None => Err(String::from_str("User not found")),
        }
    }

    /// Credits the escrow account from outside the marketplace: a liquidity
    /// injection into the escrow's own book.
    pub fn add_escrow_asset(&mut self, asset: &Asset, amount: u64)
        requires
            old(self).wf(),
            old(self).total_of(asset@) + amount <= u64::MAX,
        ensures
            final(self).wf(),
            admin_frame_eq(*old(self), *final(self)),
            final(self).listings@ == old(self).listings@,
            final(self).users@ == old(self).users@,
            user_delta(old(self).escrow_user, final(self).escrow_user, asset@, amount as int),
    {
        let ghost pre = *self;
        proof {
            assert(pre == *old(self));
            lemma_sum_nonneg(pre.users@, asset@);
            assert(old(self).total_of(asset@) + amount <= u64::MAX);
        }
        self.escrow_user.add_asset(asset, amount);
        proof {
            assert forall|a: AssetId| #[trigger] self.total_of(a) <= u64::MAX by {
                assert(sum_bal(self.users@, a) == sum_bal(pre.users@, a));
                assert(old(self).total_of(a) <= u64::MAX);
                if a == asset@ {
                    assert(self.escrow_user.balance_of(a) == pre.escrow_user.balance_of(a)
                        + amount);
                } else {
                    assert(self.escrow_user.balance_of(a) == pre.escrow_user.balance_of(a));
                }
            }
            self.lemma_same_shape_wf(pre);
        }
    }

    /// Lists an option: the caller posts the collateral for the option's
    /// type into escrow, and the option is recorded under a fresh id, with
    /// no beneficiary and all lifecycle flags cleared.
    pub fn list_option(&mut self, caller_address: Address, option: ListingOption) -> (r: Result<
        u32,
        String,
    >)
        requires
            old(self).wf(),
            option.spec_amounts_in_range(),
            addr_eq(option.grantor_address@, caller_address@),
            old(self).next_listing_id < u32::MAX,
        ensures
            final(self).wf(),
            forall|a: AssetId| #[trigger] final(self).total_of(a) == old(self).total_of(a),
            r is Err ==> *final(self) == *old(self),
            spec_list(*old(self), caller_address@, option, *final(self), res_view(r)),
    {
        let gi = match self.find_user_index(&caller_address) {
            Some(i) => i,
            None => {
                return Err(String::from_str("User not found"));
            },
        };
        let collateral_amount: u64;
        let collateral_asset: Asset;
        if option.listing_type == ListingType::CALL {
            collateral_amount = option.exercise_amount;
            collateral_asset = option.base_asset.clone();
        } else {
            collateral_amount = option.strike_price * option.exercise_amount;
            collateral_asset = option.quote_asset.clone();
        }
        let bal = self.users[gi].get_balance(&collateral_asset);
        if bal < collateral_amount {
            if option.listing_type == ListingType::CALL {
                return Err(String::from_str("Insufficient base asset balance to cover CALL option"));
            } else {
                return Err(String::from_str("Insufficient quote asset balance to cover PUT option"));
            }
        }
        let ghost pre = *self;
        let ghost ca = option.spec_collateral_asset();
        let mut seller = self.users[gi].clone();
        proof {
            assert(seller.balance_of(ca) == pre.users@[gi as int].balance_of(ca));
        }
        match seller.deduct_asset(&collateral_asset, collateral_amount) {
            Ok(()) => {},
            Err(_) => {
                proof {
                    assert(false);
                }
            },
        }
        self.users[gi] = seller;
        proof {
            lemma_sum_update(pre.users@, gi as int, seller, ca);
            lemma_sum_one(pre.users@, gi as int, ca);
            assert(old(self).total_of(ca) <= u64::MAX);
            assert(self.escrow_user.balance_of(ca) + collateral_amount <= u64::MAX);
        }
        self.escrow_user.add_asset(&collateral_asset, collateral_amount);
        let listing_id = self.next_listing_id;
        self.next_listing_id = self.next_listing_id + 1;
        let mut option_with_id = option;
        option_with_id.listing_id = listing_id;
        option_with_id.beneficiary_address = None;
        option_with_id.is_purchased = false;
        option_with_id.is_unlisted = false;
        option_with_id.is_exercised = false;
        self.listings.push(option_with_id);
        proof {
            assert(pre == *old(self));
            let gii = gi as int;
            assert forall|a: AssetId| #[trigger] self.total_of(a) == old(self).total_of(a) by {
                lemma_sum_update(pre.users@, gii, seller, a);
                if a == ca {
                    assert(seller.balance_of(a) == pre.users@[gii].balance_of(a)
                        - collateral_amount);
                    assert(self.escrow_user.balance_of(a) == pre.escrow_user.balance_of(a)
                        + collateral_amount);
                } else {
                    assert(seller.balance_of(a) == pre.users@[gii].balance_of(a));
                    assert(self.escrow_user.balance_of(a) == pre.escrow_user.balance_of(a));
                }
            }
            assert(self.listings@ == pre.listings@.push(listed_record(
                *&option_with_id,
                pre.next_listing_id,
            )));
            assert forall|i: int, j: int|
                #![trigger addr_eq(self.users@[i].address@, self.users@[j].address@)]
                0 <= i < j < self.users@.len() implies !addr_eq(
                self.users@[i].address@,
                self.users@[j].address@,
            ) by {
                assert(self.users@[gii].address@ == pre.users@[gii].address@);
                assert(!addr_eq(pre.users@[i].address@, pre.users@[j].address@));
            }
            let nl = self.listings@.len() - 1;
            assert(self.listings@[nl] == listed_record(option_with_id, pre.next_listing_id));
            assert forall|j: int|
                0 <= j < self.listings@.len() implies has_user(
                self.users@,
                (#[trigger] self.listings@[j]).grantor_address@,
            ) by {
                assert forall|k: int|
                    0 <= k < pre.users@.len() implies addr_eq(
                    self.users@[k].address@,
                    (#[trigger] pre.users@[k]).address@,
                ) by {}
                if j < nl {
                    assert(self.listings@[j] == pre.listings@[j]);
                    assert(has_user(pre.users@, pre.listings@[j].grantor_address@));
                    lemma_has_user_congruent(
                        pre.users@,
                        self.users@,
                        pre.listings@[j].grantor_address@,
                    );
                } else {
                    assert(addr_eq(self.users@[gii].address@, self.listings@[j].grantor_address@));
                }
            }
            assert forall|j: int|
                0 <= j < self.listings@.len() implies ((
            #[trigger] self.listings@[j]).beneficiary_address matches Some(b) ==> has_user(
                self.users@,
                b@,
            )) by {
                assert forall|k: int|
                    0 <= k < pre.users@.len() implies addr_eq(
                    self.users@[k].address@,
                    (#[trigger] pre.users@[k]).address@,
                ) by {}
                if j < nl && self.listings@[j].beneficiary_address is Some {
                    assert(self.listings@[j] == pre.listings@[j]);
                    assert(has_user(pre.users@, pre.listings@[j].beneficiary_address->0@));
                    lemma_has_user_congruent(
                        pre.users@,
                        self.users@,
                        pre.listings@[j].beneficiary_address->0@,
                    );
                }
            }
        }
        Ok(listing_id)
    }

    /// Unlists a not-yet-acquired option: only its grantor may, the posted
    /// collateral returns to the grantor, and the record is removed.
    pub fn unlist_option(&mut self, listing_id: u32, caller_address: Address) -> (r: Result<
        (),
        String,
    >)
        requires
            old(self).wf(),
        ensures
            final(self).wf(),
            forall|a: AssetId| #[trigger] final(self).total_of(a) == old(self).total_of(a),
            r is Err ==> *final(self) == *old(self),
            spec_unlist(*old(self), listing_id, caller_address@, *final(self), res_view(r)),
    {
        let li = match self.find_listing_index(listing_id) {
            Some(i) => i,
            None => {
                return Err(String::from_str("Listing not found"));
            },
        };
        if !are_addresses_equal(&caller_address, &self.listings[li].grantor_address) {
            return Err(String::from_str("Only the seller can unlist this option"));
        }
        match &self.listings[li].beneficiary_address {
            Some(_) => {
                return Err(String::from_str("Option has been acquired, cannot unlist"));
            },
            None => {},
        }
        let collateral_amount: u64;
        let collateral_asset: Asset;
        if self.listings[li].listing_type == ListingType::CALL {
            collateral_amount = self.listings[li].exercise_amount;
            collateral_asset = self.listings[li].base_asset.clone();
        } else {
            collateral_amount = self.listings[li].strike_price * self.listings[li].exercise_amount;
            collateral_asset = self.listings[li].quote_asset.clone();
        }
        let escrow_bal = self.escrow_user.get_balance(&collateral_asset);
        if escrow_bal < collateral_amount {
            return Err(crate::user::insufficient_balance_message(&collateral_asset));
        }
        let gi = match self.find_user_index(&caller_address) {
            Some(i) => i,
            None => {
                proof {
                    let lii = li as int;
                    assert(has_user(
                        old(self).users@,
                        old(self).listings@[lii].grantor_address@,
                    ));
                    let w = choose|i: int|
                        0 <= i < old(self).users@.len() && addr_eq(
                            (#[trigger] old(self).users@[i]).address@,
                            old(self).listings@[lii].grantor_address@,
                        );
                    assert(addr_eq(old(self).users@[w].address@, caller_address@));
                    assert(false);
                }
                return Err(String::from_str("User not found"));
            },
        };
        let ghost pre = *self;
        let ghost ca = pre.listings@[li as int].spec_collateral_asset();
        match self.escrow_user.deduct_asset(&collateral_asset, collateral_amount) {
            Ok(()) => {},
            Err(_) => {
                proof {
                    assert(false);
                }
            },
        }
        let mut grantor = self.users[gi].clone();
        proof {
            assert(pre == *old(self));
            lemma_sum_one(pre.users@, gi as int, ca);
            assert(grantor.balance_of(ca) == pre.users@[gi as int].balance_of(ca));
            assert(old(self).total_of(ca) <= u64::MAX);
        }
        grantor.add_asset(&collateral_asset, collateral_amount);
        self.users[gi] = grantor;
        self.listings.remove(li);
        proof {
            let gii = gi as int;
            let lii = li as int;
            assert forall|a: AssetId| #[trigger] self.total_of(a) == old(self).total_of(a) by {
                lemma_sum_update(pre.users@, gii, grantor, a);
                if a == ca {
                    assert(grantor.balance_of(a) == pre.users@[gii].balance_of(a)
                        + collateral_amount);
                    assert(self.escrow_user.balance_of(a) == pre.escrow_user.balance_of(a)
                        - collateral_amount);
                } else {
                    assert(grantor.balance_of(a) == pre.users@[gii].balance_of(a));
                    assert(self.escrow_user.balance_of(a) == pre.escrow_user.balance_of(a));
                }
            }
            assert forall|i: int, j: int|
                #![trigger addr_eq(self.users@[i].address@, self.users@[j].address@)]
                0 <= i < j < self.users@.len() implies !addr_eq(
                self.users@[i].address@,
                self.users@[j].address@,
            ) by {
                assert(self.users@[gii].address@ == pre.users@[gii].address@);
                assert(!addr_eq(pre.users@[i].address@, pre.users@[j].address@));
            }
            assert(self.listings@ == pre.listings@.remove(lii));
            assert forall|j: int|
                0 <= j < self.listings@.len() implies self.listings@[j] == (if j < lii {
                pre.listings@[j]
            } else {
                pre.listings@[j + 1]
            }) by {}
            assert forall|j: int|
                0 <= j < self.listings@.len() implies has_user(
                self.users@,
                (#[trigger] self.listings@[j]).grantor_address@,
            ) by {
                assert forall|k: int|
                    0 <= k < pre.users@.len() implies addr_eq(
                    self.users@[k].address@,
                    (#[trigger] pre.users@[k]).address@,
                ) by {}
                let pj = if j < lii {
                    j
                } else {
                    j + 1
                };
                assert(has_user(pre.users@, pre.listings@[pj].grantor_address@));
                lemma_has_user_congruent(
                    pre.users@,
                    self.users@,
                    pre.listings@[pj].grantor_address@,
                );
            }
            assert forall|j: int|
                0 <= j < self.listings@.len() implies ((
            #[trigger] self.listings@[j]).beneficiary_address matches Some(b) ==> has_user(
                self.users@,
                b@,
            )) by {
                assert forall|k: int|
                    0 <= k < pre.users@.len() implies addr_eq(
                    self.users@[k].address@,
                    (#[trigger] pre.users@[k]).address@,
                ) by {}
                let pj = if j < lii {
                    j
                } else {
                    j + 1
                };
                assert(self.listings@[j] == pre.listings@[pj]);
                if self.listings@[j].beneficiary_address is Some {
                    assert(has_user(pre.users@, pre.listings@[pj].beneficiary_address->0@));
                    lemma_has_user_congruent(
                        pre.users@,
                        self.users@,
                        pre.listings@[pj].beneficiary_address->0@,
                    );
                }
            }
            assert forall|i: int, j: int|
                #![trigger self.listings@[i].listing_id, self.listings@[j].listing_id]
                0 <= i < j < self.listings@.len() implies self.listings@[i].listing_id
                != self.listings@[j].listing_id by {
                let pi = if i < lii {
                    i
                } else {
                    i + 1
                };
                let pj = if j < lii {
                    j
                } else {
                    j + 1
                };
                assert(pre.listings@[pi].listing_id != pre.listings@[pj].listing_id);
            }
        }
        Ok(())
    }

    /// Purchases a listed option: the buyer pays the premium plus their
    /// fee, the grantor receives the premium minus their fee, the escrow
    /// collects both fees, and the buyer becomes the listing's beneficiary.
    pub fn purchase_option(&mut self, listing_id: u32, beneficiary_address: Address) -> (r: Result<
        (),
        String,
    >)
        requires
            old(self).wf(),
        ensures
            final(self).wf(),
            forall|a: AssetId| #[trigger] final(self).total_of(a) == old(self).total_of(a),
            r is Err ==> *final(self) == *old(self),
            spec_purchase(
                *old(self),
                listing_id,
                beneficiary_address,
                *final(self),
                res_view(r),
            ),
    {
        let li = match self.find_listing_index(listing_id) {
            Some(i) => i,
            None => {
                return Err(String::from_str("Listing not found"));
            },
        };
        if self.listings[li].is_purchased {
            return Err(String::from_str("Option already purchased!"));
        }
        if self.listings[li].is_unlisted {
            return Err(String::from_str("Option has been unlisted!"));
        }
        if self.listings[li].is_exercised {
            return Err(String::from_str("Option has already been exercised!"));
        }
        let premium = self.listings[li].get_premium_price();
        let beneficiary_fee = self.get_beneficiary_fee(premium);
        let grantor_fee = self.get_grantor_fee(premium);
        let quote_asset = self.listings[li].quote_asset.clone();
        let grantor_address = self.listings[li].grantor_address.clone();
        proof {
            lemma_fee_bounds(premium as int, old(self).beneficiary_fee_bps as int);
            lemma_fee_bounds(premium as int, old(self).grantor_fee_bps as int);
        }
        let bi = match self.find_user_index(&beneficiary_address) {
            Some(i) => i,
            None => {
                return Err(String::from_str("User not found"));
            },
        };
        let buyer_bal = self.users[bi].get_balance(&quote_asset);
        if (buyer_bal as u128) < (premium as u128) + (beneficiary_fee as u128) {
            return Err(
                String::from_str("Buyer doesn't have enough quote balance to purchase option"),
            );
        }
        let amt_from_beneficiary: u64 = premium + beneficiary_fee;
        let amt_to_grantor: u64 = premium - grantor_fee;
        let gi = match self.find_user_index(&grantor_address) {
            Some(i) => i,
            None => {
                proof {
                    let lii = li as int;
                    assert(has_user(self.users@, self.listings@[lii].grantor_address@));
                    assert(false);
                }
                return Err(String::from_str("User not found"));
            },
        };
        let ghost pre = *self;
        let ghost q = quote_asset@;
        let ghost bii = bi as int;
        let ghost gii = gi as int;

        let mut buyer = self.users[bi].clone();
        proof {
            assert(pre == *old(self));
            assert(buyer.balance_of(q) == pre.users@[bii].balance_of(q));
        }
        match buyer.deduct_asset(&quote_asset, amt_from_beneficiary) {
            Ok(()) => {},
            Err(_) => {
                proof {
                    assert(false);
                }
            },
        }
        self.users[bi] = buyer;
        proof {
            lemma_sum_one(pre.users@, bii, q);
            assert(old(self).total_of(q) <= u64::MAX);
            assert(self.escrow_user.balance_of(q) + beneficiary_fee <= u64::MAX);
        }
        self.escrow_user.add_asset(&quote_asset, beneficiary_fee);
        let ghost mid = *self;
        let mut grantor = self.users[gi].clone();
        proof {
            assert(mid.users@ == pre.users@.update(bii, buyer));
            lemma_sum_update(pre.users@, bii, buyer, q);
            lemma_sum_one(mid.users@, gii, q);
            lemma_sum_nonneg(mid.users@, q);
            assert(grantor.balance_of(q) == mid.users@[gii].balance_of(q));
            assert(grantor.balance_of(q) + amt_to_grantor <= u64::MAX);
        }
        grantor.add_asset(&quote_asset, amt_to_grantor);
        self.users[gi] = grantor;
        proof {
            lemma_sum_update(mid.users@, gii, grantor, q);
            lemma_sum_nonneg(self.users@, q);
            assert(self.escrow_user.balance_of(q) + grantor_fee <= u64::MAX);
        }
        self.escrow_user.add_asset(&quote_asset, grantor_fee);
        let mut updated = self.listings[li].clone();
        updated.beneficiary_address = Some(beneficiary_address);
        updated.is_purchased = true;
        self.listings[li] = updated;
        proof {
            let lii = li as int;
            assert(self.listings@ == pre.listings@.update(
                lii,
                purchased_record(pre.listings@[lii], updated.beneficiary_address->0),
            ));
            assert(self.users@ == pre.users@.update(bii, buyer).update(gii, grantor));
            assert forall|j: int, a: AssetId|
                0 <= j < pre.users@.len() implies (#[trigger] self.users@[j].balance_of(a))
                == pre.users@[j].balance_of(a) + (if j == bii && a == q {
                -((premium + beneficiary_fee) as int)
            } else {
                0
            }) + (if j == gii && a == q {
                premium - grantor_fee
            } else {
                0
            }) by {
                if j == gii {
                    assert(grantor.balance_of(a) == if a == q {
                        mid.users@[gii].balance_of(a) + amt_to_grantor
                    } else {
                        mid.users@[gii].balance_of(a) as int
                    });
                }
                if j == bii && j != gii {
                    assert(self.users@[j] == buyer);
                }
            }
            assert forall|a: AssetId| #[trigger] self.total_of(a) == old(self).total_of(a) by {
                lemma_sum_update(pre.users@, bii, buyer, a);
                lemma_sum_update(mid.users@, gii, grantor, a);
                if a == q {
                } else {
                    assert(buyer.balance_of(a) == pre.users@[bii].balance_of(a));
                    assert(grantor.balance_of(a) == mid.users@[gii].balance_of(a));
                    assert(self.escrow_user.balance_of(a) == pre.escrow_user.balance_of(a));
                }
            }
            assert forall|i: int, j: int|
                #![trigger addr_eq(self.users@[i].address@, self.users@[j].address@)]
                0 <= i < j < self.users@.len() implies !addr_eq(
                self.users@[i].address@,
                self.users@[j].address@,
            ) by {
                assert(self.users@[i].address@ == pre.users@[i].address@);
                assert(self.users@[j].address@ == pre.users@[j].address@);
                assert(!addr_eq(pre.users@[i].address@, pre.users@[j].address@));
            }
            assert forall|j: int|
                0 <= j < self.listings@.len() implies has_user(
                self.users@,
                (#[trigger] self.listings@[j]).grantor_address@,
            ) by {
                assert forall|k: int|
                    0 <= k < pre.users@.len() implies addr_eq(
                    self.users@[k].address@,
                    (#[trigger] pre.users@[k]).address@,
                ) by {}
                assert(self.listings@[j].grantor_address@
                    == pre.listings@[j].grantor_address@);
                assert(has_user(pre.users@, pre.listings@[j].grantor_address@));
                lemma_has_user_congruent(
                    pre.users@,
                    self.users@,
                    pre.listings@[j].grantor_address@,
                );
            }
            assert forall|j: int|
                0 <= j < self.listings@.len() implies ((
            #[trigger] self.listings@[j]).beneficiary_address matches Some(b) ==> has_user(
                self.users@,
                b@,
            )) by {
                assert forall|k: int|
                    0 <= k < pre.users@.len() implies addr_eq(
                    self.users@[k].address@,
                    (#[trigger] pre.users@[k]).address@,
                ) by {}
                if j == lii {
                    assert(addr_eq(
                        self.users@[bii].address@,
                        self.listings@[j].beneficiary_address->0@,
                    ));
                } else if self.listings@[j].beneficiary_address is Some {
                    assert(self.listings@[j] == pre.listings@[j]);
                    assert(has_user(pre.users@, pre.listings@[j].beneficiary_address->0@));
                    lemma_has_user_congruent(
                        pre.users@,
                        self.users@,
                        pre.listings@[j].beneficiary_address->0@,
                    );
                }
            }
        }
        Ok(())
    }

    /// Exercises a purchased option as of the instant `now`: the
    /// beneficiary pays the settlement amount to the grantor, the escrow
    /// releases the posted collateral to the beneficiary, and the listing
    /// is marked exercised.
    pub fn exercise_option_at(
        &mut self,
        listing_id: u32,
        caller_address: Address,
        now: i64,
    ) -> (r: Result<(), String>)
        requires
            old(self).wf(),
        ensures
            final(self).wf(),
            forall|a: AssetId| #[trigger] final(self).total_of(a) == old(self).total_of(a),
            r is Err ==> *final(self) == *old(self),
            spec_exercise(*old(self), listing_id, caller_address@, now, *final(self), res_view(r)),
    {
        let li = match self.find_listing_index(listing_id) {
            Some(i) => i,
            None => {
                return Err(String::from_str("Listing not found"));
            },
        };
        let is_beneficiary = match &self.listings[li].beneficiary_address {
            Some(b) => are_addresses_equal(b, &caller_address),
            None => false,
        };
        if !is_beneficiary {
            return Err(String::from_str("Caller is not beneficiary of option!"));
        }
        if self.listings[li].is_unlisted {
            return Err(String::from_str("Option has been unlisted!"));
        }
        if self.listings[li].is_exercised {
            return Err(String::from_str("Option has already been exercised!"));
        }
        if now > self.listings[li].expiration_time {
            return Err(String::from_str("Option has expired!"));
        }
        let pay_amount = self.listings[li].get_sell_amount(false);
        let pay_asset = self.listings[li].get_sell_asset(false).clone();
        let release_amount = self.listings[li].get_buy_amount(false);
        let release_asset = self.listings[li].get_buy_asset(false).clone();
        let grantor_address = self.listings[li].grantor_address.clone();
        let bi = match self.find_user_index(&caller_address) {
            Some(i) => i,
            None => {
                proof {
                    let lii = li as int;
                    let b = self.listings@[lii].beneficiary_address->0;
                    assert(has_user(self.users@, b@));
                    let w = choose|i: int|
                        0 <= i < self.users@.len() && addr_eq(
                            (#[trigger] self.users@[i]).address@,
                            b@,
                        );
                    assert(addr_eq(self.users@[w].address@, caller_address@));
                    assert(false);
                }
                return Err(String::from_str("User not found"));
            },
        };
        let gi = match self.find_user_index(&grantor_address) {
            Some(i) => i,
            None => {
                proof {
                    let lii = li as int;
                    assert(has_user(self.users@, self.listings@[lii].grantor_address@));
                    assert(false);
                }
                return Err(String::from_str("User not found"));
            },
        };
        let benef_bal = self.users[bi].get_balance(&pay_asset);
        if benef_bal < pay_amount {
            return Err(crate::user::insufficient_balance_message(&pay_asset));
        }
        let escrow_bal = self.escrow_user.get_balance(&release_asset);
        if escrow_bal < release_amount {
            return Err(crate::user::insufficient_balance_message(&release_asset));
        }
        let ghost pre = *self;
        let ghost pay_a = pay_asset@;
        let ghost rel_a = release_asset@;
        let ghost bii = bi as int;
        let ghost gii = gi as int;
        let ghost lii = li as int;

        let mut benef = self.users[bi].clone();
        proof {
            assert(pre == *old(self));
            assert(benef.balance_of(pay_a) == pre.users@[bii].balance_of(pay_a));
            assert(benef.balance_of(rel_a) == pre.users@[bii].balance_of(rel_a));
            lemma_sum_one(pre.users@, bii, rel_a);
            assert(old(self).total_of(rel_a) <= u64::MAX);
        }
        match benef.deduct_asset(&pay_asset, pay_amount) {
            Ok(()) => {},
            Err(_) => {
                proof {
                    assert(false);
                }
            },
        }
        proof {
            assert(benef.balance_of(rel_a) <= pre.users@[bii].balance_of(rel_a));
            assert(benef.balance_of(rel_a) + release_amount <= u64::MAX);
        }
        benef.add_asset(&release_asset, release_amount);
        self.users[bi] = benef;
        let ghost mid = *self;
        let mut grantor = self.users[gi].clone();
        proof {
            assert(mid.users@ == pre.users@.update(bii, benef));
            assert(grantor.balance_of(pay_a) == mid.users@[gii].balance_of(pay_a));
            if gii == bii {
                lemma_sum_one(pre.users@, bii, pay_a);
                lemma_sum_one(pre.users@, bii, rel_a);
                assert(old(self).total_of(pay_a) <= u64::MAX);
                if rel_a == pay_a {
                    assert(grantor.balance_of(pay_a) == pre.users@[bii].balance_of(pay_a)
                        - pay_amount + release_amount);
                } else {
                    assert(grantor.balance_of(pay_a) == pre.users@[bii].balance_of(pay_a)
                        - pay_amount);
                }
            } else {
                assert(grantor.balance_of(pay_a) == pre.users@[gii].balance_of(pay_a));
                lemma_sum_two(pre.users@, bii, gii, pay_a);
                assert(old(self).total_of(pay_a) <= u64::MAX);
            }
            assert(grantor.balance_of(pay_a) + pay_amount <= u64::MAX);
        }
        grantor.add_asset(&pay_asset, pay_amount);
        self.users[gi] = grantor;
        match self.escrow_user.deduct_asset(&release_asset, release_amount) {
            Ok(()) => {},
            Err(_) => {
                proof {
                    assert(false);
                }
            },
        }
        let mut updated = self.listings[li].clone();
        updated.is_exercised = true;
        self.listings[li] = updated;
        proof {
            assert(self.listings@ == pre.listings@.update(
                lii,
                exercised_record(pre.listings@[lii]),
            ));
            assert(self.users@ == pre.users@.update(bii, benef).update(gii, grantor));
            assert forall|j: int, a: AssetId|
                0 <= j < pre.users@.len() implies (#[trigger] self.users@[j].balance_of(a))
                == pre.users@[j].balance_of(a) + (if j == bii && a == pay_a {
                -(pay_amount as int)
            } else {
                0
            }) + (if j == bii && a == rel_a {
                release_amount as int
            } else {
                0
            }) + (if j == gii && a == pay_a {
                pay_amount as int
            } else {
                0
            }) by {
                if j == gii {
                    assert(self.users@[j] == grantor);
                    assert(grantor.balance_of(a) == if a == pay_a {
                        mid.users@[gii].balance_of(a) + pay_amount
                    } else {
                        mid.users@[gii].balance_of(a) as int
                    });
                } else if j == bii {
                    assert(self.users@[j] == benef);
                }
            }
            assert forall|a: AssetId| #[trigger] self.total_of(a) == old(self).total_of(a) by {
                lemma_sum_update(pre.users@, bii, benef, a);
                lemma_sum_update(mid.users@, gii, grantor, a);
                if a == pay_a || a == rel_a {
                } else {
                    assert(benef.balance_of(a) == pre.users@[bii].balance_of(a));
                    assert(grantor.balance_of(a) == mid.users@[gii].balance_of(a));
                    assert(self.escrow_user.balance_of(a) == pre.escrow_user.balance_of(a));
                }
            }
            assert forall|i: int, j: int|
                #![trigger addr_eq(self.users@[i].address@, self.users@[j].address@)]
                0 <= i < j < self.users@.len() implies !addr_eq(
                self.users@[i].address@,
                self.users@[j].address@,
            ) by {
                assert(self.users@[i].address@ == pre.users@[i].address@);
                assert(self.users@[j].address@ == pre.users@[j].address@);
                assert(!addr_eq(pre.users@[i].address@, pre.users@[j].address@));
            }
            assert forall|j: int|
                0 <= j < self.listings@.len() implies has_user(
                self.users@,
                (#[trigger] self.listings@[j]).grantor_address@,
            ) by {
                assert forall|k: int|
                    0 <= k < pre.users@.len() implies addr_eq(
                    self.users@[k].address@,
                    (#[trigger] pre.users@[k]).address@,
                ) by {}
                assert(self.listings@[j].grantor_address@ == pre.listings@[j].grantor_address@);
                assert(has_user(pre.users@, pre.listings@[j].grantor_address@));
                lemma_has_user_congruent(
                    pre.users@,
                    self.users@,
                    pre.listings@[j].grantor_address@,
                );
            }
            assert forall|j: int|
                0 <= j < self.listings@.len() implies ((
            #[trigger] self.listings@[j]).beneficiary_address matches Some(b) ==> has_user(
                self.users@,
                b@,
            )) by {
                assert forall|k: int|
                    0 <= k < pre.users@.len() implies addr_eq(
                    self.users@[k].address@,
                    (#[trigger] pre.users@[k]).address@,
                ) by {}
                assert(self.listings@[j].beneficiary_address
                    == pre.listings@[j].beneficiary_address);
                if self.listings@[j].beneficiary_address is Some {
                    assert(has_user(pre.users@, pre.listings@[j].beneficiary_address->0@));
                    lemma_has_user_congruent(
                        pre.users@,
                        self.users@,
                        pre.listings@[j].beneficiary_address->0@,
                    );
                }
            }
        }
        Ok(())
    }

    /// Exercises a purchased option at the present moment, as
    /// [`Self::exercise_option_at`] does with the clock read at the call.
    pub fn exercise_option(&mut self, listing_id: u32, caller_address: Address) -> (r: Result<
        (),
        String,
    >)
        requires
            old(self).wf(),
        ensures
            final(self).wf(),
            forall|a: AssetId| #[trigger] final(self).total_of(a) == old(self).total_of(a),
            r is Err ==> *final(self) == *old(self),
            exists|now: i64|
                spec_exercise(
                    *old(self),
                    listing_id,
                    caller_address@,
                    now,
                    *final(self),
                    res_view(r),
                ),
            // The checks before the expiration test do not depend on the
            // clock, so their outcomes are pinned whatever instant was read.
            !has_listing_in(old(self).listings@, listing_id) ==> res_view(r) == Err::<
                (),
                Seq<char>,
            >("Listing not found"@),
            has_listing_in(old(self).listings@, listing_id) && !(old(self).listings@[listing_idx(
                old(self).listings@,
                listing_id,
            )].beneficiary_address matches Some(b) && addr_eq(b@, caller_address@)) ==> res_view(
                r,
            ) == Err::<(), Seq<char>>("Caller is not beneficiary of option!"@),
    {
        let now = now_timestamp();
        let r = self.exercise_option_at(listing_id, caller_address, now);
        proof {
            assert(spec_exercise(
                *old(self),
                listing_id,
                caller_address@,
                now,
                *self,
                res_view(r),
            ));
        }
        r
    }

    /// Swaps balances between the user at index `ti` and the escrow: the
    /// user gives `pay_amount` of `pay_asset` and receives `recv_amount` of
    /// `recv_asset`, both legs checked against the untouched balances.
    fn swap_with_escrow(
        &mut self,
        ti: usize,
        pay_asset: &Asset,
        pay_amount: u64,
        recv_asset: &Asset,
        recv_amount: u64,
    )
        requires
            old(self).wf(),
            ti < old(self).users@.len(),
            old(self).users@[ti as int].balance_of(pay_asset@) >= pay_amount,
            old(self).escrow_user.balance_of(recv_asset@) >= recv_amount,
        ensures
            final(self).wf(),
            forall|a: AssetId| #[trigger] final(self).total_of(a) == old(self).total_of(a),
            final(self).listings@ == old(self).listings@,
            admin_frame_eq(*old(self), *final(self)),
            final(self).users@.len() == old(self).users@.len(),
            forall|j: int|
                0 <= j < old(self).users@.len() && j != ti ==> final(self).users@[j]
                    == #[trigger] old(self).users@[j],
            forall|j: int|
                0 <= j < old(self).users@.len() ==> (#[trigger] final(self).users@[j]).address@
                    == old(self).users@[j].address@,
            forall|j: int, a: AssetId|
                0 <= j < old(self).users@.len() ==> (#[trigger] final(self).users@[j].balance_of(
                    a,
                )) == old(self).users@[j].balance_of(a) + (if j == ti && a == pay_asset@ {
                    -(pay_amount as int)
                } else {
                    0
                }) + (if j == ti && a == recv_asset@ {
                    recv_amount as int
                } else {
                    0
                }),
            final(self).escrow_user.address@ == old(self).escrow_user.address@,
            forall|a: AssetId|
                (#[trigger] final(self).escrow_user.balance_of(a)) == old(
                    self,
                ).escrow_user.balance_of(a) + (if a == pay_asset@ {
                    pay_amount as int
                } else {
                    0
                }) + (if a == recv_asset@ {
                    -(recv_amount as int)
                } else {
                    0
                }),
    {
        let ghost pre = *self;
        let ghost pay_a = pay_asset@;
        let ghost rel_a = recv_asset@;
        let ghost tii = ti as int;
        let mut caller = self.users[ti].clone();
        proof {
            assert(pre == *old(self));
            assert(caller.balance_of(pay_a) == pre.users@[tii].balance_of(pay_a));
            assert(caller.balance_of(rel_a) == pre.users@[tii].balance_of(rel_a));
            lemma_sum_one(pre.users@, tii, rel_a);
            assert(old(self).total_of(rel_a) <= u64::MAX);
        }
        match caller.deduct_asset(pay_asset, pay_amount) {
            Ok(()) => {},
            Err(_) => {
                proof {
                    assert(false);
                }
            },
        }
        proof {
            assert(caller.balance_of(rel_a) <= pre.users@[tii].balance_of(rel_a));
            assert(caller.balance_of(rel_a) + recv_amount <= u64::MAX);
        }
        caller.add_asset(recv_asset, recv_amount);
        self.users[ti] = caller;
        proof {
            lemma_sum_one(pre.users@, tii, pay_a);
            assert(old(self).total_of(pay_a) <= u64::MAX);
            assert(self.escrow_user.balance_of(pay_a) + pay_amount <= u64::MAX);
        }
        self.escrow_user.add_asset(pay_asset, pay_amount);
        match self.escrow_user.deduct_asset(recv_asset, recv_amount) {
            Ok(()) => {},
            Err(_) => {
                proof {
                    assert(false);
                }
            },
        }
        proof {
            assert(self.users@ == pre.users@.update(tii, caller));
            assert forall|a: AssetId| #[trigger] self.total_of(a) == old(self).total_of(a) by {
                lemma_sum_update(pre.users@, tii, caller, a);
                if a == pay_a || a == rel_a {
                } else {
                    assert(caller.balance_of(a) == pre.users@[tii].balance_of(a));
                    assert(self.escrow_user.balance_of(a) == pre.escrow_user.balance_of(a));
                }
            }
            assert forall|k: int|
                0 <= k < pre.users@.len() implies addr_eq(
                self.users@[k].address@,
                (#[trigger] pre.users@[k]).address@,
            ) by {}
            self.lemma_same_shape_wf(pre);
        }
    }

    /// Swaps `amount` of the base asset against the quote asset with the
    /// escrow, at the provider's current mark rate for `(base, quote)`: a
    /// BUY receives the base asset and pays `amount * rate` of the quote
    /// asset, a SELL the reverse. Both legs are checked before anything
    /// moves.
    pub fn spot_trade_current_price(
        &mut self,
        base: &Asset,
        quote: &Asset,
        amount: u64,
        action: &SpotAction,
        caller_address: Address,
        rate_provider: &ExchangeRateProvider,
    ) -> (r: Result<(), String>)
        requires
            old(self).wf(),
        ensures
            final(self).wf(),
            forall|a: AssetId| #[trigger] final(self).total_of(a) == old(self).total_of(a),
            r is Err ==> *final(self) == *old(self),
            spec_spot_trade(
                *old(self),
                base@,
                quote@,
                amount,
                *action,
                caller_address@,
                rate_provider.rate(base@, quote@),
                *final(self),
                res_view(r),
            ),
    {
        let ti = match self.find_user_index(&caller_address) {
            Some(i) => i,
            None => {
                return Err(String::from_str("User not found"));
            },
        };
        let rt = match rate_provider.get_rate(base, quote) {
            Some(rt) => rt,
            None => {
                return Err(String::from_str("Exchange rate not found"));
            },
        };
        let aw: u128 = amount as u128;
        let rw: u128 = rt as u128;
        proof {
            assert(aw * rw <= u128::MAX) by (nonlinear_arith)
                requires
                    0 <= aw <= u64::MAX,
                    0 <= rw <= u64::MAX,
            ;
        }
        let cost_w: u128 = aw * rw;
        match action {
            SpotAction::BUY => {
                let caller_quote = self.users[ti].get_balance(quote);
                if (caller_quote as u128) < cost_w {
                    return Err(String::from_str("Transfer failed: sender doesn't have enough"));
                }
                let escrow_base = self.escrow_user.get_balance(base);
                if escrow_base < amount {
                    return Err(String::from_str("Transfer failed: sender doesn't have enough"));
                }
                let cost: u64 = cost_w as u64;
                self.swap_with_escrow(ti, quote, cost, base, amount);
                Ok(())
            },
            SpotAction::SELL => {
                let caller_base = self.users[ti].get_balance(base);
                if caller_base < amount {
                    return Err(String::from_str("Transfer failed: sender doesn't have enough"));
                }
                let escrow_quote = self.escrow_user.get_balance(quote);
                if (escrow_quote as u128) < cost_w {
                    return Err(String::from_str("Transfer failed: sender doesn't have enough"));
                }
                let cost: u64 = cost_w as u64;
                self.swap_with_escrow(ti, base, amount, quote, cost);
                Ok(())
            },
        }
    }

    /// Looks a user up by address for in-place mutation; absent users give
    /// `"User not found"`. Writing through the returned reference changes
    /// exactly that user's entry, so a caller that alters balances is
    /// injecting or withdrawing liquidity and answers for the totals.
    pub fn get_user_or_error(&mut self, user_address: &Address) -> (r: Result<&mut User, String>)
        requires
            old(self).wf(),
        ensures
            r matches Ok(u) ==> {
                &&& has_user(old(self).users@, user_address@)
                &&& *u == old(self).users@[user_idx(old(self).users@, user_address@)]
                &&& final(self).users@ == old(self).users@.update(
                    user_idx(old(self).users@, user_address@),
                    *final(u),
                )
                &&& final(self).escrow_user == old(self).escrow_user
                &&& final(self).listings == old(self).listings
                &&& admin_frame_eq(*old(self), *final(self))
            },
            r matches Err(e) ==> !has_user(old(self).users@, user_address@) && e@
                == "User not found"@ && *final(self) == *old(self),
    {
        match self.find_user_index(user_address) {
            Some(i) => Ok(&mut self.users[i]),
            None => Err(String::from_str("User not found")),
        }
    }

    /// Looks a listing up by id for in-place mutation; absent listings give
    /// `"Listing not found"`. Writing through the returned reference
    /// changes exactly that record.
    pub fn get_listing_or_error(&mut self, listing_id: u32) -> (r: Result<
        &mut ListingOption,
        String,
    >)
        requires
            old(self).wf(),
        ensures
            r matches Ok(l) ==> {
                &&& has_listing_in(old(self).listings@, listing_id)
                &&& *l == old(self).listings@[listing_idx(old(self).listings@, listing_id)]
                &&& final(self).listings@ == old(self).listings@.update(
                    listing_idx(old(self).listings@, listing_id),
                    *final(l),
                )
                &&& final(self).users == old(self).users
                &&& final(self).escrow_user == old(self).escrow_user
                &&& admin_frame_eq(*old(self), *final(self))
            },
            r matches Err(e) ==> !has_listing_in(old(self).listings@, listing_id) && e@
                == "Listing not found"@ && *final(self) == *old(self),
    {
        match self.find_listing_index(listing_id) {
            Some(i) => Ok(&mut self.listings[i]),
            None => Err(String::from_str("Listing not found")),
        }
    }
    /// Re-establishes well-formedness for a state whose listings and frame
    /// are unchanged, whose user addresses are in place, and whose totals
    /// are in range.
    proof fn lemma_same_shape_wf(&self, pre: Exchange)
        requires
            pre.wf(),
            self.listings@ == pre.listings@,
            self.next_listing_id == pre.next_listing_id,
            self.beneficiary_fee_bps == pre.beneficiary_fee_bps,
            self.grantor_fee_bps == pre.grantor_fee_bps,
            self.users@.len() == pre.users@.len(),
            forall|i: int| 0 <= i < pre.users@.len() ==> addr_eq(
                self.users@[i].address@,
                (#[trigger] pre.users@[i]).address@,
            ),
            forall|a: AssetId| #[trigger] self.total_of(a) <= u64::MAX,
        ensures
            self.wf(),
    {
        assert forall|i: int, j: int|
            #![trigger addr_eq(self.users@[i].address@, self.users@[j].address@)]
            0 <= i < j < self.users@.len() implies !addr_eq(
            self.users@[i].address@,
            self.users@[j].address@,
        ) by {
            assert(addr_eq(self.users@[i].address@, pre.users@[i].address@));
            assert(addr_eq(self.users@[j].address@, pre.users@[j].address@));
            assert(!addr_eq(pre.users@[i].address@, pre.users@[j].address@));
        }
        assert forall|j: int|
            0 <= j < self.listings@.len() implies has_user(
            self.users@,
            (#[trigger] self.listings@[j]).grantor_address@,
        ) by {
            assert(has_user(pre.users@, pre.listings@[j].grantor_address@));
            lemma_has_user_congruent(pre.users@, self.users@, pre.listings@[j].grantor_address@);
        }
        assert forall|j: int|
            0 <= j < self.listings@.len() implies ((
        #[trigger] self.listings@[j]).beneficiary_address matches Some(b) ==> has_user(
            self.users@,
            b@,
        )) by {
            if self.listings@[j].beneficiary_address is Some {
                assert(has_user(pre.users@, pre.listings@[j].beneficiary_address->0@));
                lemma_has_user_congruent(
                    pre.users@,
                    self.users@,
                    pre.listings@[j].beneficiary_address->0@,
                );
            }
        }
    }
}

/// Relies on `chrono::Utc::now`: the current UTC time, as seconds since the
/// Unix epoch. Nothing is promised of the value; callers state what holds
/// for every reading.
#[verifier::external_body]
fn now_timestamp() -> i64 {
    chrono::Utc::now().timestamp()
}

/// Computes `p * bps / 10_000` without intermediate overflow.
fn compute_fee(p: u64, bps: u16) -> (r: u64)
    requires
        bps <= 10_000,
    ensures
        r == spec_fee(p as int, bps as int),
{
    let pw: u128 = p as u128;
    let bw: u128 = bps as u128;
    proof {
        assert(pw * bw <= u128::MAX && pw * bw / 10_000 <= pw) by (nonlinear_arith)
            requires
                0 <= pw <= u64::MAX,
                0 <= bw <= 10_000,
        ;
    }
    let wide: u128 = pw * bw / 10_000;
    wide as u64
}

} // verus!
