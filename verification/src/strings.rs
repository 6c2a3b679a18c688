//! Small executable helpers over `String` used throughout the compiler.

use vstd::prelude::*;
use vstd::string::StringExecFns;

verus! {

/// Relies on `String::push` from std: appends exactly one character
/// at the end of the string.
#[verifier::external_body]
pub fn string_push(s: &mut String, c: char)
    ensures
        final(s)@ == old(s)@.push(c),
{
    s.push(c);
}

/// Whether a string equals a string slice, by characters.
pub fn str_eq(a: &String, b: &str) -> (r: bool)
    ensures
        r == (a@ == b@),
{
    let bs = String::from_str(b);
    *a == bs
}

} // verus!
