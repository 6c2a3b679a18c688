//! Snake-case conversion of type names, used to key resolved pairs and
//! to bake concrete type names into generated method names.

use vstd::prelude::*;

verus! {

/// The snake-case form of a string of characters.
pub uninterp spec fn snake_case_of(s: Seq<char>) -> Seq<char>;

/// Relies on heck's `ToSnakeCase for str`: converts a string to snake
/// case; the result depends on the input characters alone.
#[verifier::external_body]
pub fn to_snake_case(s: &String) -> (r: String)
    ensures
        r@ == snake_case_of(s@),
{
    heck::ToSnakeCase::to_snake_case(s.as_str())
}

} // verus!
