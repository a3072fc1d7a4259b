//! Interned generator names.
//!
//! Generators are labelled by [`Ustr`] handles from the `ustr` crate. The
//! handle itself is opaque to the verifier; everything the library proves
//! about a label is stated over the characters it stands for,
//! [`ustr_text`]. The declarations in this module are trusted: they record
//! what the `ustr` crate does and are not proved here.

use ustr::Ustr;
use vstd::prelude::*;

verus! {

/// Makes the handle type of the `ustr` crate known to the verifier, as an
/// opaque value.
#[verifier::external_type_specification]
#[verifier::external_body]
pub struct ExUstr(Ustr);

/// The characters of the string that an interned handle stands for: what
/// `Ustr::as_str` returns for it.
pub uninterp spec fn ustr_text(u: Ustr) -> Seq<char>;

/// Trusted: `ustr::ustr` interns the string and hands back a handle that
/// stands for exactly the characters it was given.
pub assume_specification[ ustr::ustr ](s: &str) -> (u: Ustr)
    ensures
        ustr_text(u) == s@,
;

/// Trusted: `==` on two handles (the `PartialEq` that `ustr` derives for
/// `Ustr`, a comparison of the two cache pointers) holds exactly when they
/// stand for the same characters, because the cache keeps one entry per
/// distinct string.
pub assume_specification[ <Ustr as PartialEq>::eq ](a: &Ustr, b: &Ustr) -> (r: bool)
    ensures
        r == (ustr_text(*a) == ustr_text(*b)),
;

/// The characters behind each handle of a sequence, in the same order.
pub open spec fn texts(s: Seq<Ustr>) -> Seq<Seq<char>> {
    s.map_values(|u: Ustr| ustr_text(u))
}

/// The characters behind a handle that may be absent.
pub open spec fn opt_text(o: Option<Ustr>) -> Option<Seq<char>> {
    match o {
        Some(u) => Some(ustr_text(u)),
        None => None,
    }
}

} // verus!
