//! Trusted string-building helper for the one `String` operation that vstd
//! leaves unspecified.
use vstd::prelude::*;

verus! {

/// Relies on `String::push`: appending one character appends exactly that
/// character to the string's character sequence.
#[verifier::external_body]
pub(crate) fn push_char(s: &mut String, c: char)
    ensures
        final(s)@ == old(s)@.push(c),
{
    s.push(c)
}

} // verus!
