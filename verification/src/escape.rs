//! HTML character references and quoted renderings of text.

use vstd::prelude::*;

verus! {

/// What `html_escape::decode_html_entities` makes of a text.
pub uninterp spec fn html_decoded(text: Seq<char>) -> Seq<char>;

/// What `format!("{:?}", s)` makes of a `&str`: the quoted, escaped form.
pub uninterp spec fn debug_quoted(text: Seq<char>) -> Seq<char>;

/// Calls `html_escape::decode_html_entities`, which replaces named and numeric
/// character references that end in `;`. The contract names its result, and
/// states what the crate's source shows: a text without `&` is given back
/// unchanged (the function then borrows its argument).
#[verifier::external_body]
pub(crate) fn decode_html(text: &str) -> (res: String)
    ensures
        res@ == html_decoded(text@),
        !text@.contains('&') ==> res@ == text@,
{
    html_escape::decode_html_entities(text).into_owned()
}

/// Calls `format!("{:?}", text)` (std's `Debug` for `str`); the result is named.
#[verifier::external_body]
pub(crate) fn debug_quote(text: &str) -> (res: String)
    ensures
        res@ == debug_quoted(text@),
{
    format!("{:?}", text)
}

} // verus!
