//! Small helpers for building strings in executable code.

use vstd::prelude::*;

verus! {

/// Relies on String::push: appends exactly one character at the end of
/// the string.
#[verifier::external_body]
pub fn string_push(s: &mut String, c: char)
    ensures
        final(s)@ == old(s)@.push(c),
{
    s.push(c)
}

} // verus!
