//! Base64 encoding of the dynamic-completion script text, so that it can be
//! embedded verbatim inside the generated bridge function.

use vstd::prelude::*;

verus! {

/// What the standard-alphabet, padded base64 encoding of a string's UTF-8
/// bytes is: a function of the characters alone.
pub uninterp spec fn base64_of(s: Seq<char>) -> Seq<char>;

/// Relies on base64's Engine::encode with the STANDARD engine: encodes the
/// argument's bytes as padded base64 text, a function of the input alone;
/// the padded output holds four characters per started three-byte chunk.
#[verifier::external_body]
pub fn encode(source: &str) -> (r: String)
    ensures
        r@ == base64_of(source@),
        r@.len() == 4 * ((vstd::utf8::encode_utf8(source@).len() + 2) / 3),
{
    base64::Engine::encode(&base64::engine::general_purpose::STANDARD, source.as_bytes())
}

} // verus!
