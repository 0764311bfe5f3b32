//! The marketplace's global laws, stated and proved over the transition
//! relations of the core operations.
//!
//! A [`CoreOp`] describes one core operation together with its arguments;
//! [`core_step`] relates a pre-state to the post-state such an operation
//! produces, whether it succeeds or fails, and [`core_steps`] chains any
//! sequence of them. The lemmas below hold of every such run.

use vstd::prelude::*;

use crate::address::{addr_eq, Address};
use crate::asset::AssetId;
use crate::exchange::{
    has_listing_in, has_user, lemma_has_user_congruent, lemma_sum_update, listing_idx,
    spec_exercise, spec_list, spec_purchase, spec_spot_trade, spec_unlist, user_idx, Exchange,
    SpotAction,
};
use crate::listing_option::ListingOption;
use crate::user::User;

verus! {

/// One core operation of the exchange, with its arguments. Operations that
/// consult the outside world carry the consulted value: the instant the
/// clock reported for an exercise, and the rate the provider reported for a
/// spot trade.
pub enum CoreOp {
    List(Seq<char>, ListingOption),
    Unlist(u32, Seq<char>),
    Purchase(u32, Address),
    Exercise(u32, Seq<char>, i64),
    SpotTrade(AssetId, AssetId, u64, SpotAction, Seq<char>, Option<u64>),
}

/// `post` is the state that performing `op` on `pre` leaves behind, for
/// some result (success or error).
pub open spec fn core_step(pre: Exchange, op: CoreOp, post: Exchange) -> bool {
    match op {
        CoreOp::List(caller, opt) => exists|r: Result<u32, Seq<char>>|
            spec_list(pre, caller, opt, post, r),
        CoreOp::Unlist(id, caller) => exists|r: Result<(), Seq<char>>|
            spec_unlist(pre, id, caller, post, r),
        CoreOp::Purchase(id, beneficiary) => exists|r: Result<(), Seq<char>>|
            spec_purchase(pre, id, beneficiary, post, r),
        CoreOp::Exercise(id, caller, now) => exists|r: Result<(), Seq<char>>|
            spec_exercise(pre, id, caller, now, post, r),
        CoreOp::SpotTrade(base, quote, amount, action, caller, rate) => exists|
            r: Result<(), Seq<char>>,
        | spec_spot_trade(pre, base, quote, amount, action, caller, rate, post, r),
    }
}

/// `post` is reached from `pre` by performing the operations of `ops` in
/// order. Every intermediate state is well-formed, as every state the
/// exchange's verified operations produce is.
pub open spec fn core_steps(pre: Exchange, ops: Seq<CoreOp>, post: Exchange) -> bool
    decreases ops.len(),
{
    if ops.len() == 0 {
        post == pre
    } else {
        exists|mid: Exchange|
            #[trigger] core_step(pre, ops[0], mid) && mid.wf() && core_steps(
                mid,
                ops.drop_first(),
                post,
            )
    }
}

/// One core operation conserves the total holdings of every asset over all
/// users and the escrow.
proof fn lemma_step_conserves(pre: Exchange, op: CoreOp, post: Exchange, a: AssetId)
    requires
        core_step(pre, op, post),
    ensures
        post.total_of(a) == pre.total_of(a),
{
    if post != pre {
        lemma_changed_step_conserves(pre, op, post, a);
    }
}

/// The state-changing half of [`lemma_step_conserves`].
proof fn lemma_changed_step_conserves(pre: Exchange, op: CoreOp, post: Exchange, a: AssetId)
    requires
        core_step(pre, op, post),
        post != pre,
    ensures
        post.total_of(a) == pre.total_of(a),
{
    match op {
        CoreOp::List(caller, opt) => {
            let r = choose|r: Result<u32, Seq<char>>| spec_list(pre, caller, opt, post, r);
            assert(spec_list(pre, caller, opt, post, r));
            let gi = user_idx(pre.users@, caller);
            assert(0 <= gi < pre.users@.len());
            assert(post.users@ =~= pre.users@.update(gi, post.users@[gi]));
            lemma_sum_update(pre.users@, gi, post.users@[gi], a);
        },
        CoreOp::Unlist(id, caller) => {
            let r = choose|r: Result<(), Seq<char>>| spec_unlist(pre, id, caller, post, r);
            assert(spec_unlist(pre, id, caller, post, r));
            let gi = user_idx(pre.users@, caller);
            assert(0 <= gi < pre.users@.len());
            assert(post.users@ =~= pre.users@.update(gi, post.users@[gi]));
            lemma_sum_update(pre.users@, gi, post.users@[gi], a);
        },
        CoreOp::Purchase(id, beneficiary) => {
            let r = choose|r: Result<(), Seq<char>>| spec_purchase(pre, id, beneficiary, post, r);
            assert(spec_purchase(pre, id, beneficiary, post, r));
            let li = listing_idx(pre.listings@, id);
            let l = pre.listings@[li];
            let bi = user_idx(pre.users@, beneficiary@);
            let gi = user_idx(pre.users@, l.grantor_address@);
            assert(has_user(pre.users@, beneficiary@));
            assert(0 <= bi < pre.users@.len());
            assert(0 <= gi < pre.users@.len());
            let u1 = pre.users@.update(bi, post.users@[bi]);
            assert forall|j: int| 0 <= j < pre.users@.len() implies post.users@[j]
                == u1.update(gi, post.users@[gi])[j] by {
                if j != bi && j != gi {
                    assert(post.users@[j] == pre.users@[j]);
                }
            }
            assert(post.users@ =~= u1.update(gi, post.users@[gi]));
            lemma_sum_update(pre.users@, bi, post.users@[bi], a);
            lemma_sum_update(u1, gi, post.users@[gi], a);
        },
        CoreOp::Exercise(id, caller, now) => {
            let r = choose|r: Result<(), Seq<char>>| spec_exercise(pre, id, caller, now, post, r);
            assert(spec_exercise(pre, id, caller, now, post, r));
            let li = listing_idx(pre.listings@, id);
            let l = pre.listings@[li];
            let bi = user_idx(pre.users@, caller);
            let gi = user_idx(pre.users@, l.grantor_address@);
            assert(0 <= bi < pre.users@.len());
            assert(0 <= gi < pre.users@.len());
            let u1 = pre.users@.update(bi, post.users@[bi]);
            assert forall|j: int| 0 <= j < pre.users@.len() implies post.users@[j]
                == u1.update(gi, post.users@[gi])[j] by {
                if j != bi && j != gi {
                    assert(post.users@[j] == pre.users@[j]);
                }
            }
            assert(post.users@ =~= u1.update(gi, post.users@[gi]));
            lemma_sum_update(pre.users@, bi, post.users@[bi], a);
            lemma_sum_update(u1, gi, post.users@[gi], a);
        },
        CoreOp::SpotTrade(base, quote, amount, action, caller, rate) => {
            let r = choose|r: Result<(), Seq<char>>|
                spec_spot_trade(pre, base, quote, amount, action, caller, rate, post, r);
            assert(spec_spot_trade(pre, base, quote, amount, action, caller, rate, post, r));
            let ti = user_idx(pre.users@, caller);
            assert(0 <= ti < pre.users@.len());
            assert(post.users@ =~= pre.users@.update(ti, post.users@[ti]));
            lemma_sum_update(pre.users@, ti, post.users@[ti], a);
        },
    }
}

/// Asset conservation: over any sequence of core operations, and for every
/// asset, the total held by all users together with the escrow is
/// invariant. Only direct balance injections and withdrawals, which are no
/// core operations, can change it.
pub proof fn lemma_asset_conservation(pre: Exchange, ops: Seq<CoreOp>, post: Exchange, a: AssetId)
    requires
        core_steps(pre, ops, post),
    ensures
        post.total_of(a) == pre.total_of(a),
    decreases ops.len(),
{
    if ops.len() > 0 {
        let mid = choose|mid: Exchange|
            #[trigger] core_step(pre, ops[0], mid) && mid.wf() && core_steps(
                mid,
                ops.drop_first(),
                post,
            );
        lemma_step_conserves(pre, ops[0], mid, a);
        lemma_asset_conservation(mid, ops.drop_first(), post, a);
    }
}

/// Terminal irreversibility over a whole run: once a listing is marked
/// exercised, its record survives any sequence of core operations
/// unchanged.
pub proof fn lemma_exercised_record_persists_run(
    pre: Exchange,
    ops: Seq<CoreOp>,
    post: Exchange,
    j: int,
)
    requires
        pre.wf(),
        core_steps(pre, ops, post),
        0 <= j < pre.listings@.len(),
        pre.listings@[j].is_exercised,
    ensures
        exists|k: int|
            0 <= k < post.listings@.len() && #[trigger] post.listings@[k] == pre.listings@[j],
    decreases ops.len(),
{
    if ops.len() == 0 {
        assert(post.listings@[j] == pre.listings@[j]);
    } else {
        let mid = choose|mid: Exchange|
            #[trigger] core_step(pre, ops[0], mid) && mid.wf() && core_steps(
                mid,
                ops.drop_first(),
                post,
            );
        lemma_exercised_record_persists(pre, ops[0], mid, j);
        let k = choose|k: int|
            0 <= k < mid.listings@.len() && #[trigger] mid.listings@[k] == pre.listings@[j];
        lemma_exercised_record_persists_run(mid, ops.drop_first(), post, k);
        let m = choose|m: int|
            0 <= m < post.listings@.len() && #[trigger] post.listings@[m] == mid.listings@[k];
        assert(post.listings@[m] == pre.listings@[j]);
    }
}

/// Single beneficiary over a whole run: once a listing's beneficiary is
/// set, the record keeps that beneficiary, under the same id, through any
/// sequence of core operations.
pub proof fn lemma_single_beneficiary_run(
    pre: Exchange,
    ops: Seq<CoreOp>,
    post: Exchange,
    j: int,
)
    requires
        pre.wf(),
        core_steps(pre, ops, post),
        0 <= j < pre.listings@.len(),
        pre.listings@[j].beneficiary_address is Some,
    ensures
        exists|k: int|
            0 <= k < post.listings@.len() && (#[trigger] post.listings@[k]).listing_id
                == pre.listings@[j].listing_id && post.listings@[k].beneficiary_address
                == pre.listings@[j].beneficiary_address,
    decreases ops.len(),
{
    if ops.len() == 0 {
        assert(post.listings@[j].listing_id == pre.listings@[j].listing_id);
    } else {
        let mid = choose|mid: Exchange|
            #[trigger] core_step(pre, ops[0], mid) && mid.wf() && core_steps(
                mid,
                ops.drop_first(),
                post,
            );
        lemma_single_beneficiary(pre, ops[0], mid, j);
        let k = choose|k: int|
            0 <= k < mid.listings@.len() && (#[trigger] mid.listings@[k]).listing_id
                == pre.listings@[j].listing_id && mid.listings@[k].beneficiary_address
                == pre.listings@[j].beneficiary_address;
        lemma_single_beneficiary_run(mid, ops.drop_first(), post, k);
        let m = choose|m: int|
            0 <= m < post.listings@.len() && (#[trigger] post.listings@[m]).listing_id
                == mid.listings@[k].listing_id && post.listings@[m].beneficiary_address
                == mid.listings@[k].beneficiary_address;
        assert(post.listings@[m].listing_id == pre.listings@[j].listing_id);
    }
}

/// Monotonic listing ids: two consecutive successful listings return
/// strictly increasing ids, each one more than the last. Together with a
/// fresh exchange's next id of 1, successive ids are 1, 2, 3, ...
pub proof fn lemma_listing_ids_increase(
    e0: Exchange,
    caller1: Seq<char>,
    opt1: ListingOption,
    e1: Exchange,
    id1: u32,
    caller2: Seq<char>,
    opt2: ListingOption,
    e2: Exchange,
    id2: u32,
)
    requires
        spec_list(e0, caller1, opt1, e1, Ok(id1)),
        spec_list(e1, caller2, opt2, e2, Ok(id2)),
    ensures
        id1 == e0.next_listing_id,
        id2 == id1 + 1,
        id2 > id1,
{
}

/// Terminal irreversibility, exercised half: once a listing is marked
/// exercised, no core operation mutates or removes its record. States
/// reached through the exchange's verified operations are well-formed, so
/// the lemma applies along any run.
pub proof fn lemma_exercised_record_persists(pre: Exchange, op: CoreOp, post: Exchange, j: int)
    requires
        pre.wf(),
        core_step(pre, op, post),
        0 <= j < pre.listings@.len(),
        pre.listings@[j].is_exercised,
    ensures
        exists|k: int|
            0 <= k < post.listings@.len() && #[trigger] post.listings@[k] == pre.listings@[j],
{
    if post == pre {
        assert(post.listings@[j] == pre.listings@[j]);
    } else {
        lemma_changed_exercised_record_persists(pre, op, post, j);
    }
}

/// The state-changing half of [`lemma_exercised_record_persists`].
proof fn lemma_changed_exercised_record_persists(
    pre: Exchange,
    op: CoreOp,
    post: Exchange,
    j: int,
)
    requires
        pre.wf(),
        core_step(pre, op, post),
        post != pre,
        0 <= j < pre.listings@.len(),
        pre.listings@[j].is_exercised,
    ensures
        exists|k: int|
            0 <= k < post.listings@.len() && #[trigger] post.listings@[k] == pre.listings@[j],
{
    match op {
        CoreOp::List(caller, opt) => {
            let r = choose|r: Result<u32, Seq<char>>| spec_list(pre, caller, opt, post, r);
            assert(spec_list(pre, caller, opt, post, r));
            assert(post.listings@[j] == pre.listings@[j]);
        },
        CoreOp::Unlist(id, caller) => {
            let r = choose|r: Result<(), Seq<char>>| spec_unlist(pre, id, caller, post, r);
            assert(spec_unlist(pre, id, caller, post, r));
            let li = listing_idx(pre.listings@, id);
            assert(!pre.listings@[li].is_purchased);
            assert(li != j);
            if j < li {
                assert(post.listings@[j] == pre.listings@[j]);
            } else {
                assert(post.listings@[j - 1] == pre.listings@[j]);
            }
        },
        CoreOp::Purchase(id, beneficiary) => {
            let r = choose|r: Result<(), Seq<char>>| spec_purchase(pre, id, beneficiary, post, r);
            assert(spec_purchase(pre, id, beneficiary, post, r));
            let li = listing_idx(pre.listings@, id);
            assert(li != j);
            assert(post.listings@[j] == pre.listings@[j]);
        },
        CoreOp::Exercise(id, caller, now) => {
            let r = choose|r: Result<(), Seq<char>>| spec_exercise(pre, id, caller, now, post, r);
            assert(spec_exercise(pre, id, caller, now, post, r));
            let li = listing_idx(pre.listings@, id);
            assert(li != j);
            assert(post.listings@[j] == pre.listings@[j]);
        },
        CoreOp::SpotTrade(base, quote, amount, action, caller, rate) => {
            let r = choose|r: Result<(), Seq<char>>|
                spec_spot_trade(pre, base, quote, amount, action, caller, rate, post, r);
            assert(spec_spot_trade(pre, base, quote, amount, action, caller, rate, post, r));
            assert(post.listings@[j] == pre.listings@[j]);
        },
    }
}

/// Terminal irreversibility, id half: no core operation lowers the next
/// listing id, and a successful listing always takes the pre-state's next
/// id, which in a well-formed state exceeds the id of every record ever on
/// the book. A removed id can therefore never be re-listed.
pub proof fn lemma_next_id_monotone(pre: Exchange, op: CoreOp, post: Exchange)
    requires
        core_step(pre, op, post),
    ensures
        post.next_listing_id >= pre.next_listing_id,
{
    if post != pre {
        match op {
            CoreOp::List(caller, opt) => {
                let r = choose|r: Result<u32, Seq<char>>| spec_list(pre, caller, opt, post, r);
                assert(spec_list(pre, caller, opt, post, r));
            },
            CoreOp::Unlist(id, caller) => {
                let r = choose|r: Result<(), Seq<char>>| spec_unlist(pre, id, caller, post, r);
                assert(spec_unlist(pre, id, caller, post, r));
            },
            CoreOp::Purchase(id, beneficiary) => {
                let r = choose|r: Result<(), Seq<char>>|
                    spec_purchase(pre, id, beneficiary, post, r);
                assert(spec_purchase(pre, id, beneficiary, post, r));
            },
            CoreOp::Exercise(id, caller, now) => {
                let r = choose|r: Result<(), Seq<char>>|
                    spec_exercise(pre, id, caller, now, post, r);
                assert(spec_exercise(pre, id, caller, now, post, r));
            },
            CoreOp::SpotTrade(base, quote, amount, action, caller, rate) => {
                let r = choose|r: Result<(), Seq<char>>|
                    spec_spot_trade(pre, base, quote, amount, action, caller, rate, post, r);
                assert(spec_spot_trade(pre, base, quote, amount, action, caller, rate, post, r));
            },
        }
    }
}

/// Single beneficiary: once a listing's beneficiary is set, no core
/// operation changes or clears it; the record keeps its id and its
/// beneficiary.
pub proof fn lemma_single_beneficiary(pre: Exchange, op: CoreOp, post: Exchange, j: int)
    requires
        pre.wf(),
        core_step(pre, op, post),
        0 <= j < pre.listings@.len(),
        pre.listings@[j].beneficiary_address is Some,
    ensures
        exists|k: int|
            0 <= k < post.listings@.len() && (#[trigger] post.listings@[k]).listing_id
                == pre.listings@[j].listing_id && post.listings@[k].beneficiary_address
                == pre.listings@[j].beneficiary_address,
{
    if post == pre {
        assert(post.listings@[j] == pre.listings@[j]);
    } else {
        lemma_changed_single_beneficiary(pre, op, post, j);
    }
}

/// The state-changing half of [`lemma_single_beneficiary`].
proof fn lemma_changed_single_beneficiary(pre: Exchange, op: CoreOp, post: Exchange, j: int)
    requires
        pre.wf(),
        core_step(pre, op, post),
        post != pre,
        0 <= j < pre.listings@.len(),
        pre.listings@[j].beneficiary_address is Some,
    ensures
        exists|k: int|
            0 <= k < post.listings@.len() && (#[trigger] post.listings@[k]).listing_id
                == pre.listings@[j].listing_id && post.listings@[k].beneficiary_address
                == pre.listings@[j].beneficiary_address,
{
    match op {
        CoreOp::List(caller, opt) => {
            let r = choose|r: Result<u32, Seq<char>>| spec_list(pre, caller, opt, post, r);
            assert(spec_list(pre, caller, opt, post, r));
            assert(post.listings@[j] == pre.listings@[j]);
        },
        CoreOp::Unlist(id, caller) => {
            let r = choose|r: Result<(), Seq<char>>| spec_unlist(pre, id, caller, post, r);
            assert(spec_unlist(pre, id, caller, post, r));
            let li = listing_idx(pre.listings@, id);
            assert(li != j);
            if j < li {
                assert(post.listings@[j] == pre.listings@[j]);
            } else {
                assert(post.listings@[j - 1] == pre.listings@[j]);
            }
        },
        CoreOp::Purchase(id, beneficiary) => {
            let r = choose|r: Result<(), Seq<char>>| spec_purchase(pre, id, beneficiary, post, r);
            assert(spec_purchase(pre, id, beneficiary, post, r));
            let li = listing_idx(pre.listings@, id);
            assert(pre.listings@[li].beneficiary_address !is Some);
            assert(li != j);
            assert(post.listings@[j] == pre.listings@[j]);
        },
        CoreOp::Exercise(id, caller, now) => {
            let r = choose|r: Result<(), Seq<char>>| spec_exercise(pre, id, caller, now, post, r);
            assert(spec_exercise(pre, id, caller, now, post, r));
            let li = listing_idx(pre.listings@, id);
            if li == j {
                assert(post.listings@[j].listing_id == pre.listings@[j].listing_id);
                assert(post.listings@[j].beneficiary_address == pre.listings@[
                    j].beneficiary_address);
            } else {
                assert(post.listings@[j] == pre.listings@[j]);
            }
        },
        CoreOp::SpotTrade(base, quote, amount, action, caller, rate) => {
            let r = choose|r: Result<(), Seq<char>>|
                spec_spot_trade(pre, base, quote, amount, action, caller, rate, post, r);
            assert(spec_spot_trade(pre, base, quote, amount, action, caller, rate, post, r));
            assert(post.listings@[j] == pre.listings@[j]);
        },
    }
}

/// Under pairwise-distinct addresses, the index of a user is stable across
/// two user sequences whose addresses agree case-insensitively.
proof fn lemma_user_idx_stable(pre: Seq<User>, post: Seq<User>, addr: Seq<char>)
    requires
        forall|i: int, j: int|
            #![trigger addr_eq(pre[i].address@, pre[j].address@)]
            0 <= i < j < pre.len() ==> !addr_eq(pre[i].address@, pre[j].address@),
        pre.len() == post.len(),
        forall|i: int| 0 <= i < pre.len() ==> addr_eq(
            post[i].address@,
            (#[trigger] pre[i]).address@,
        ),
        has_user(pre, addr),
    ensures
        has_user(post, addr),
        user_idx(post, addr) == user_idx(pre, addr),
{
    lemma_has_user_congruent(pre, post, addr);
    let i0 = user_idx(pre, addr);
    let i1 = user_idx(post, addr);
    assert(0 <= i0 < pre.len() && addr_eq(pre[i0].address@, addr));
    assert(0 <= i1 < post.len() && addr_eq(post[i1].address@, addr));
    assert(addr_eq(post[i1].address@, pre[i1].address@));
    assert(addr_eq(pre[i1].address@, addr));
    if i0 < i1 {
        assert(addr_eq(pre[i0].address@, pre[i1].address@));
        assert(false);
    } else if i1 < i0 {
        assert(addr_eq(pre[i1].address@, pre[i0].address@));
        assert(false);
    }
}

/// Round trip: listing an option and unlisting it before any purchase
/// restores every user's balances, the escrow's balances, and the listing
/// book exactly.
pub proof fn lemma_list_unlist_round_trip(
    e0: Exchange,
    caller: Seq<char>,
    opt: ListingOption,
    e1: Exchange,
    id: u32,
    e2: Exchange,
)
    requires
        e0.wf(),
        spec_list(e0, caller, opt, e1, Ok(id)),
        spec_unlist(e1, id, caller, e2, Ok(())),
    ensures
        e2.listings@ == e0.listings@,
        e2.users@.len() == e0.users@.len(),
        forall|j: int, a: AssetId|
            0 <= j < e0.users@.len() ==> (#[trigger] e2.users@[j].balance_of(a))
                == e0.users@[j].balance_of(a),
        forall|a: AssetId| #[trigger] e2.escrow_user.balance_of(a) == e0.escrow_user.balance_of(
            a,
        ),
{
    let gi0 = user_idx(e0.users@, caller);
    let ca = opt.spec_collateral_asset();
    let camt = opt.spec_collateral_amount();
    let nl = e0.listings@.len() as int;
    let rec = crate::exchange::listed_record(opt, e0.next_listing_id);

    // The unlisted record is the one the listing pushed.
    assert(e1.listings@[nl] == rec);
    assert(has_listing_in(e1.listings@, id));
    let li = listing_idx(e1.listings@, id);
    assert(0 <= li < e1.listings@.len() && e1.listings@[li].listing_id == id);
    if li < nl {
        assert(e1.listings@[li] == e0.listings@[li]);
        assert(e0.listings@[li].listing_id < e0.next_listing_id);
        assert(false);
    }
    assert(li == nl);
    assert(e1.listings@[li].spec_collateral_asset() == ca);
    assert(e1.listings@[li].spec_collateral_amount() == camt);

    // The refund goes back to the same user slot the collateral came from.
    assert forall|i: int|
        0 <= i < e0.users@.len() implies addr_eq(
        e1.users@[i].address@,
        (#[trigger] e0.users@[i]).address@,
    ) by {}
    lemma_user_idx_stable(e0.users@, e1.users@, caller);
    let gi1 = user_idx(e1.users@, caller);
    assert(gi1 == gi0);

    assert(e2.listings@ =~= e0.listings@);
    assert forall|j: int, a: AssetId|
        0 <= j < e0.users@.len() implies (#[trigger] e2.users@[j].balance_of(a))
        == e0.users@[j].balance_of(a) by {
        if j != gi0 {
            assert(e1.users@[j] == e0.users@[j]);
            assert(e2.users@[j] == e1.users@[j]);
        } else {
            if a == ca {
                assert(e1.users@[j].balance_of(a) == e0.users@[j].balance_of(a) - camt);
                assert(e2.users@[j].balance_of(a) == e1.users@[j].balance_of(a) + camt);
            } else {
                assert(e1.users@[j].balance_of(a) == e0.users@[j].balance_of(a));
                assert(e2.users@[j].balance_of(a) == e1.users@[j].balance_of(a));
            }
        }
    }
    assert forall|a: AssetId| #[trigger] e2.escrow_user.balance_of(a)
        == e0.escrow_user.balance_of(a) by {
        if a == ca {
            assert(e1.escrow_user.balance_of(a) == e0.escrow_user.balance_of(a) + camt);
            assert(e2.escrow_user.balance_of(a) == e1.escrow_user.balance_of(a) - camt);
        } else {
            assert(e1.escrow_user.balance_of(a) == e0.escrow_user.balance_of(a));
            assert(e2.escrow_user.balance_of(a) == e1.escrow_user.balance_of(a));
        }
    }
}

/// Round trip: a spot BUY of some amount followed by a spot SELL of the
/// same amount, for the same pair at the same rate, returns the caller, the
/// escrow, and every other user to their exact pre-trade balances.
pub proof fn lemma_spot_round_trip(
    e0: Exchange,
    base: AssetId,
    quote: AssetId,
    amount: u64,
    caller: Seq<char>,
    rate: Option<u64>,
    e1: Exchange,
    e2: Exchange,
)
    requires
        e0.wf(),
        spec_spot_trade(e0, base, quote, amount, SpotAction::BUY, caller, rate, e1, Ok(())),
        spec_spot_trade(e1, base, quote, amount, SpotAction::SELL, caller, rate, e2, Ok(())),
    ensures
        e2.listings@ == e0.listings@,
        e2.users@.len() == e0.users@.len(),
        forall|j: int, a: AssetId|
            0 <= j < e0.users@.len() ==> (#[trigger] e2.users@[j].balance_of(a))
                == e0.users@[j].balance_of(a),
        forall|a: AssetId| #[trigger] e2.escrow_user.balance_of(a) == e0.escrow_user.balance_of(
            a,
        ),
{
    let ti0 = user_idx(e0.users@, caller);
    let cost = amount * rate->0;
    assert forall|i: int|
        0 <= i < e0.users@.len() implies addr_eq(
        e1.users@[i].address@,
        (#[trigger] e0.users@[i]).address@,
    ) by {}
    lemma_user_idx_stable(e0.users@, e1.users@, caller);
    let ti1 = user_idx(e1.users@, caller);
    assert(ti1 == ti0);
    assert forall|j: int, a: AssetId|
        0 <= j < e0.users@.len() implies (#[trigger] e2.users@[j].balance_of(a))
        == e0.users@[j].balance_of(a) by {
        if j != ti0 {
            assert(e1.users@[j] == e0.users@[j]);
            assert(e2.users@[j] == e1.users@[j]);
        } else {
            assert(e1.users@[j].balance_of(a) == e0.users@[j].balance_of(a) + (if a == base {
                amount as int
            } else {
                0
            }) + (if a == quote {
                -cost
            } else {
                0
            }));
            assert(e2.users@[j].balance_of(a) == e1.users@[j].balance_of(a) + (if a == base {
                -(amount as int)
            } else {
                0
            }) + (if a == quote {
                cost
            } else {
                0
            }));
        }
    }
    assert forall|a: AssetId| #[trigger] e2.escrow_user.balance_of(a)
        == e0.escrow_user.balance_of(a) by {
        assert(e1.escrow_user.balance_of(a) == e0.escrow_user.balance_of(a) + (if a == base {
            -(amount as int)
        } else {
            0
        }) + (if a == quote {
            cost
        } else {
            0
        }));
        assert(e2.escrow_user.balance_of(a) == e1.escrow_user.balance_of(a) + (if a == base {
            amount as int
        } else {
            0
        }) + (if a == quote {
            -cost
        } else {
            0
        }));
    }
}

} // verus!
