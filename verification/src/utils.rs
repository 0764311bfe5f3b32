//! Address comparison helpers shared across the marketplace.

use vstd::prelude::*;

use crate::address::{addr_eq, Address};

verus! {

/// Case-insensitive address comparison: both sides are case-folded before the
/// exact comparison.
pub fn are_addresses_equal(address1: &Address, address2: &Address) -> (r: bool)
    ensures
        r == addr_eq(address1@, address2@),
{
    address1.to_normalized().is_equal_to(&address2.to_normalized())
}

/// Case-insensitive address equality is symmetric: comparing in either order
/// gives the same answer.
pub proof fn lemma_address_equality_symmetric(a: Seq<char>, b: Seq<char>)
    ensures
        addr_eq(a, b) == addr_eq(b, a),
{
}

} // verus!
