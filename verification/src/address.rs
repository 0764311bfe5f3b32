//! Fixed-length account identifiers with case-insensitive comparison.

use vstd::prelude::*;

verus! {

/// What can go wrong when constructing an [`Address`].
#[derive(Debug, PartialEq, Eq, Clone, Copy)]
pub enum AddressError {
    InvalidLength,
}

/// A typed string that guarantees a length of 42 characters.
///
/// Two addresses denote the same account when they agree up to letter case;
/// [`Address::is_equal_to`] is the exact (case-sensitive) comparison, while
/// [`crate::utils::are_addresses_equal`] is the case-insensitive one.
#[derive(Debug, Hash, Eq, PartialEq)]
pub struct Address(String);

impl View for Address {
    type V = Seq<char>;

    closed spec fn view(&self) -> Seq<char> {
        self.0@
    }
}

/// The case-folded image of a character sequence, as `str::to_lowercase`
/// computes it. The folding itself is not modelled; contracts only relate
/// folded images to each other.
pub uninterp spec fn lower_of(s: Seq<char>) -> Seq<char>;

/// Case-insensitive equality of two character sequences: their case-folded
/// images coincide.
pub open spec fn addr_eq(a: Seq<char>, b: Seq<char>) -> bool {
    lower_of(a) == lower_of(b)
}

/// Relies on `str::to_lowercase`: the result is a function of the input
/// characters alone (no locale is consulted).
#[verifier::external_body]
pub(crate) fn lowercase(s: &str) -> (r: String)
    ensures
        r@ == lower_of(s@),
{
    s.to_lowercase()
}

impl Clone for Address {
    fn clone(&self) -> (r: Self)
        ensures
            r == *self,
    {
        Address(self.0.clone())
    }
}

impl Address {
    /// Builds an address from a string of exactly 42 characters; any other
    /// length is rejected with [`AddressError::InvalidLength`].
    pub fn from(s: &str) -> (r: Result<Self, AddressError>)
        ensures
            s@.len() == 42 ==> (r matches Ok(a) && a@ == s@),
            s@.len() != 42 ==> r === Err(AddressError::InvalidLength),
    {
        if s.unicode_len() == 42 {
            Ok(Address(s.to_owned()))
        } else {
            Err(AddressError::InvalidLength)
        }
    }

    /// Exact, case-sensitive comparison of the underlying strings.
    pub fn is_equal_to(&self, another_address: &Address) -> (r: bool)
        ensures
            r == (self@ == another_address@),
    {
        self.0 == another_address.0
    }

    /// The address's text.
    pub fn to_text(&self) -> (r: String)
        ensures
            r@ == self@,
    {
        self.0.clone()
    }

    /// The case-folded copy of this address.
    pub fn to_normalized(&self) -> (r: Address)
        ensures
            r@ == lower_of(self@),
    {
        Address(lowercase(self.0.as_str()))
    }
}

} // verus!
