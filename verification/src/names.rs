//! Identifier case conversion, delegated to the `heck` crate. The conversions
//! depend on the characters of the input alone, so their results are given
//! names that the emitter's contracts speak of.

use vstd::prelude::*;
use heck::CamelCase;
use heck::SnakeCase;

verus! {

/// The CamelCase conversion of a character sequence, as `heck` computes it.
pub uninterp spec fn camel_of(s: Seq<char>) -> Seq<char>;

/// The snake_case conversion of a character sequence, as `heck` computes it.
pub uninterp spec fn snake_of(s: Seq<char>) -> Seq<char>;

/// Relies on `heck::CamelCase::to_camel_case` (heck 0.3): a case conversion
/// that is a function of the input characters alone.
#[verifier::external_body]
pub(crate) fn to_camel(s: &str) -> (r: String)
    ensures
        r@ == camel_of(s@),
{
    s.to_camel_case()
}

/// Relies on `heck::SnakeCase::to_snake_case` (heck 0.3): a case conversion
/// that is a function of the input characters alone.
#[verifier::external_body]
pub(crate) fn to_snake(s: &str) -> (r: String)
    ensures
        r@ == snake_of(s@),
{
    s.to_snake_case()
}

/// Relies on `String::push`: appends exactly the one given character.
#[verifier::external_body]
pub(crate) fn push_char(s: &mut String, c: char)
    ensures
        final(s)@ == old(s)@.push(c),
{
    s.push(c)
}

} // verus!
