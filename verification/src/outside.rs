//! What the library takes from the standard library and from `serde_json` without proof.
use vstd::prelude::*;
use vstd::utf8::{decode_utf8, is_ascii_chars, valid_utf8};

verus! {

/// The text that `String::from_utf8_lossy` makes of bytes.
pub uninterp spec fn lossy_text(bytes: Seq<u8>) -> Seq<char>;

/// The text that `str::to_lowercase` makes of a text.
pub uninterp spec fn lowercase(text: Seq<char>) -> Seq<char>;

/// The integer that stands in a JSON document at a JSON pointer: `None` where the text is no JSON
/// document, `Some(None)` where nothing stands at the pointer or it is no integer in the range of
/// `i64`.
pub uninterp spec fn json_integer(document: Seq<char>, pointer: Seq<char>) -> Option<Option<i64>>;

/// The string that stands in a JSON document at a JSON pointer: `None` where the text is no JSON
/// document, `Some(None)` where nothing stands at the pointer or it is no string.
pub uninterp spec fn json_string(document: Seq<char>, pointer: Seq<char>) -> Option<
    Option<Seq<char>>,
>;

/// A letter of `A` to `Z` in lower case; any other character as it is.
pub open spec fn ascii_lower(c: char) -> char {
    if 'A' <= c <= 'Z' {
        (c as nat + 32) as char
    } else {
        c
    }
}

/// The views of what a JSON lookup gives.
pub open spec fn found_string(found: Option<Option<String>>) -> Option<Option<Seq<char>>> {
    match found {
        None => None,
        Some(None) => Some(None),
        Some(Some(s)) => Some(Some(s@)),
    }
}

/// Calls `String::from_utf8_lossy`, whose result depends on the bytes alone. Bytes that are UTF-8
/// give the text that they encode; nothing is claimed of how it replaces what is not UTF-8.
#[verifier::external_body]
pub(crate) fn text_lossy(bytes: &[u8]) -> (r: String)
    ensures
        r@ == lossy_text(bytes@),
        valid_utf8(bytes@) ==> r@ == decode_utf8(bytes@),
{
    String::from_utf8_lossy(bytes).into_owned()
}

/// Calls `std::str::from_utf8`, which gives the text that the bytes encode if they are UTF-8, and
/// an error otherwise.
#[verifier::external_body]
pub(crate) fn text_of_utf8(bytes: &[u8]) -> (r: Option<&str>)
    ensures
        r is Some <==> valid_utf8(bytes@),
        r matches Some(text) ==> text@ == decode_utf8(bytes@),
{
    std::str::from_utf8(bytes).ok()
}

/// Calls `str::to_lowercase`, whose result depends on the text alone. On ASCII it changes the
/// letters `A` to `Z` and nothing else; of other text nothing more is claimed.
#[verifier::external_body]
pub(crate) fn text_to_lowercase(text: &str) -> (r: String)
    ensures
        r@ == lowercase(text@),
        is_ascii_chars(text@) ==> r@ == text@.map_values(|c: char| ascii_lower(c)),
{
    text.to_lowercase()
}

/// Calls `serde_json::from_str` for a `serde_json::Value`, then `Value::pointer` and
/// `Value::as_i64` on it. The result depends on the document and the pointer alone.
#[verifier::external_body]
pub(crate) fn json_integer_at(document: &str, pointer: &str) -> (r: Option<Option<i64>>)
    ensures
        r == json_integer(document@, pointer@),
{
    match serde_json::from_str::<serde_json::Value>(document) {
        Ok(value) => Some(value.pointer(pointer).and_then(|v| v.as_i64())),
        Err(_) => None,
    }
}

/// Calls `serde_json::from_str` for a `serde_json::Value`, then `Value::pointer` and
/// `Value::as_str` on it. The result depends on the document and the pointer alone.
#[verifier::external_body]
pub(crate) fn json_string_at(document: &str, pointer: &str) -> (r: Option<Option<String>>)
    ensures
        found_string(r) == json_string(document@, pointer@),
{
    match serde_json::from_str::<serde_json::Value>(document) {
        Ok(value) => Some(value.pointer(pointer).and_then(|v| v.as_str().map(String::from))),
        Err(_) => None,
    }
}

} // verus!
