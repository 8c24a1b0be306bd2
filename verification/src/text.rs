//! Small trusted bridge for turning computed characters into a `String`.

use vstd::prelude::*;

verus! {

/// Relies on `<String as FromIterator<char>>::from_iter`: the string built
/// from an iterator of characters consists of exactly those characters in
/// order.
#[verifier::external_body]
pub(crate) fn string_from_chars(v: Vec<char>) -> (r: String)
    ensures
        r@ == v@,
{
    String::from_iter(v)
}

} // verus!
