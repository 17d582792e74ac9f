//! Identifiers that compare without regard to case.

use crate::text::{lower_text, to_lower};
use vstd::prelude::*;

verus! {

/// An identifier as it was written. Two of them are equal when their
/// lower-case forms are; the text itself keeps its casing.
#[derive(Debug, Clone, Copy)]
pub struct LowerCase<'a>(pub &'a str);

impl<'a> View for LowerCase<'a> {
    type V = Seq<char>;

    /// The identifier as written.
    open spec fn view(&self) -> Seq<char> {
        self.0@
    }
}

impl<'a> LowerCase<'a> {
    /// The lower-case form, by which the identifier is compared and looked
    /// up.
    pub open spec fn folded(&self) -> Seq<char> {
        lower_text(self.0@)
    }

    /// The lower-case form as a string of its own.
    pub fn key(&self) -> (r: String)
        ensures
            r@ == self.folded(),
    {
        to_lower(self.0)
    }

    /// The identifier as written.
    pub fn text(&self) -> (r: &'a str)
        ensures
            r@ == self.0@,
    {
        self.0
    }
}

impl<'a> PartialEq for LowerCase<'a> {
    fn eq(&self, other: &Self) -> (r: bool) {
        let a = to_lower(self.0);
        let b = to_lower(other.0);
        a == b
    }
}

impl<'a> Eq for LowerCase<'a> {

}

impl<'a> std::hash::Hash for LowerCase<'a> {
    /// Trusted: `str::to_lowercase` and `Hash::hash` of the standard
    /// library. The lower-case form is hashed, so that identifiers that are
    /// equal hash alike. Nothing is claimed of it: what reaches a hasher
    /// cannot be stated, and the trait's signature leaves no room to hand the
    /// lower-case form in from verified code.
    #[verifier::external_body]
    fn hash<H: std::hash::Hasher>(&self, state: &mut H) {
        self.0.to_lowercase().hash(state)
    }
}

impl<'a> vstd::std_specs::cmp::PartialEqSpecImpl for LowerCase<'a> {
    open spec fn obeys_eq_spec() -> bool {
        true
    }

    open spec fn eq_spec(&self, other: &Self) -> bool {
        self.folded() == other.folded()
    }
}

} // verus!
