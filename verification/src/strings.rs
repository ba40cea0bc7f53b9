//! Small verified helpers on strings and characters.

use vstd::prelude::*;

verus! {

/// No backslash of `s` starts a line continuation: none is followed
/// directly by a newline, nor by a carriage return and a newline.
pub open spec fn no_continuation(s: Seq<char>) -> bool {
    forall|i: int| #![trigger s[i]]
        0 <= i && i + 1 < s.len() ==> !(s[i] == '\\' && (s[i + 1] == '\n' || (i + 2 < s.len()
            && s[i + 1] == '\r' && s[i + 2] == '\n')))
}

/// Character-by-character string equality, proved against the views.
pub fn str_eq(a: &str, b: &str) -> (r: bool)
    ensures
        r == (a@ == b@),
{
    let alen = a.unicode_len();
    let blen = b.unicode_len();
    if alen != blen {
        return false;
    }
    let mut i: usize = 0;
    while i < alen
        invariant
            alen == a@.len(),
            alen == b@.len(),
            i <= alen,
            forall|j: int| 0 <= j < i ==> a@[j] == b@[j],
        decreases alen - i,
    {
        if a.get_char(i) != b.get_char(i) {
            return false;
        }
        i += 1;
    }
    proof {
        assert(a@ =~= b@);
    }
    true
}

/// Build a `String` out of a sequence of characters.
///
/// Relies on `core::iter::Iterator::collect`, whose `String` implementation
/// appends the iterated characters in order.
#[verifier::external_body]
pub fn chars_to_string(cs: &Vec<char>) -> (r: String)
    ensures
        r@ == cs@,
{
    cs.iter().collect()
}

} // verus!
