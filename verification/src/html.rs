//! Character references in titles.
//!
//! Track titles are written with HTML character references. Resolving them
//! is left to `htmlescape`; a title that it rejects is kept as written.

use vstd::prelude::*;

verus! {

/// The error with which `htmlescape` rejects a text.
#[verifier::external_type_specification]
#[verifier::external_body]
pub struct ExDecodeErr(htmlescape::DecodeErr);

/// The text that `htmlescape::decode_html` makes of `s`, or `None` where it
/// rejects `s`.
pub uninterp spec fn html_decoded(s: Seq<char>) -> Option<Seq<char>>;

/// Calls `htmlescape::decode_html`. Nothing is proved of what it decodes:
/// the contract only names its answer.
#[verifier::external_body]
fn decode_html(s: &str) -> (r: Result<String, htmlescape::DecodeErr>)
    ensures
        r is Ok <==> html_decoded(s@) is Some,
        r matches Ok(d) ==> html_decoded(s@) == Some(d@),
{
    htmlescape::decode_html(s)
}

/// The decoded text where there is one, and the text as written where not.
pub open spec fn decoded_or_raw(raw: Seq<char>, decoded: Option<Seq<char>>) -> Seq<char> {
    match decoded {
        Some(d) => d,
        None => raw,
    }
}

/// A title as it is shown: with its character references resolved where
/// they are well formed, and as written where not.
pub open spec fn shown_text(raw: Seq<char>) -> Seq<char> {
    decoded_or_raw(raw, html_decoded(raw))
}

/// What the decoder's answer gives for a title written as `raw`.
pub fn text_from_decoded(raw: &str, decoded: Result<String, htmlescape::DecodeErr>) -> (r: String)
    ensures
        r@ == decoded_or_raw(raw@, decoded.ok().deep_view()),
{
    match decoded {
        Ok(d) => d,
        Err(_) => raw.to_owned(),
    }
}

/// A title as it is shown.
pub fn show_text(raw: &str) -> (r: String)
    ensures
        r@ == shown_text(raw@),
{
    let decoded = decode_html(raw);
    text_from_decoded(raw, decoded)
}

/// A title with its character references resolved, or `None` where one of
/// them is not well formed.
pub fn decode_text(raw: &str) -> (r: Option<String>)
    ensures
        r.deep_view() == html_decoded(raw@),
{
    match decode_html(raw) {
        Ok(d) => Some(d),
        Err(_) => None,
    }
}

} // verus!
