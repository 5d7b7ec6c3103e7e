//! Trusted bridges to string operations of std that vstd does not specify,
//! and to the JSON decoder used for public-input documents.
use vstd::prelude::*;

verus! {

use vstd::utf8::{valid_utf8, decode_utf8};

/// Relies on std's String::push: appends exactly one character.
#[verifier::external_body]
pub(crate) fn push_char(s: &mut String, c: char)
    ensures
        final(s)@ == old(s)@.push(c),
{
    s.push(c);
}

/// Relies on std's String::from_utf8: succeeds exactly on valid UTF-8 input
/// and returns its decoding (vstd's `valid_utf8` / `decode_utf8` state the
/// same encoding std documents).
#[verifier::external_body]
pub(crate) fn utf8_to_string(bytes: Vec<u8>) -> (r: Option<String>)
    ensures
        r is Some <==> valid_utf8(bytes@),
        r matches Some(s) ==> s@ == decode_utf8(bytes@),
{
    String::from_utf8(bytes).ok()
}

/// Relies on std's `str` equality: character-for-character comparison.
#[verifier::external_body]
pub(crate) fn str_eq(a: &str, b: &str) -> (r: bool)
    ensures
        r == (a@ == b@),
{
    a == b
}

/// What `serde_json_wasm::from_str::<Vec<String>>` yields on a document: a
/// function of the text alone (`None` where the text is not a JSON array of
/// strings).
pub uninterp spec fn spec_parsed_string_list(s: Seq<char>) -> Option<Seq<Seq<char>>>;

/// Relies on serde_json_wasm's `from_str::<Vec<String>>`: decodes a JSON
/// array of strings, or fails; the result depends on the document alone.
#[verifier::external_body]
pub(crate) fn parse_string_list(s: &str) -> (r: Option<Vec<String>>)
    ensures
        r.deep_view() == spec_parsed_string_list(s@),
{
    serde_json_wasm::from_str::<Vec<String>>(s).ok()
}

} // verus!
