//! Calls into `encoding_rs`, `chardetng` and std's UTF-8 and `char` conversions.
//! An encoding is named by the label that selects it.

use vstd::prelude::*;
use vstd::utf8::{decode_utf8, is_scalar, valid_utf8};
use chardetng::EncodingDetector;

verus! {

/// The name of the encoding that `encoding_rs::Encoding::for_label` finds for a label.
pub uninterp spec fn label_encoding(label: Seq<char>) -> Option<Seq<char>>;

/// What `Encoding::decode_without_bom_handling` gives for the encoding of that
/// name: the text and whether malformed input was replaced.
pub uninterp spec fn bomless_decode(encoding: Seq<char>, data: Seq<u8>) -> (Seq<char>, bool);

/// The bytes fed to a detector so far.
pub uninterp spec fn detector_input(d: EncodingDetector) -> Seq<u8>;

/// Whether a detector has been fed with `last` set.
pub uninterp spec fn detector_closed(d: EncodingDetector) -> bool;

/// The name of the encoding that `EncodingDetector::guess(None, Utf8Detection::Allow)`
/// returns after a detector (created with `Iso2022JpDetection::Deny`) was fed `input`.
pub uninterp spec fn detector_guess(input: Seq<u8>, closed: bool) -> Seq<char>;

pub open spec fn utf8_name() -> Seq<char> {
    seq!['U', 'T', 'F', '-', '8']
}

pub open spec fn utf8_label() -> Seq<char> {
    seq!['u', 't', 'f', '-', '8']
}

pub open spec fn cp1254_label() -> Seq<char> {
    seq!['c', 'p', '1', '2', '5', '4']
}

pub open spec fn windows1254_name() -> Seq<char> {
    seq!['w', 'i', 'n', 'd', 'o', 'w', 's', '-', '1', '2', '5', '4']
}

/// The largest input the decoders take: `decode_without_bom_handling` reserves
/// an output buffer of about three times the input with `String::with_capacity`,
/// which panics above `isize::MAX` bytes (and its size computation unwraps).
pub open spec fn decodable_len(data: Seq<u8>) -> bool {
    data.len() <= isize::MAX / 4
}

#[verifier::external_type_specification]
#[verifier::external_body]
pub struct ExEncodingDetector(EncodingDetector);

/// Calls `Encoding::for_label` and, when it finds an encoding, its `name()`.
/// The result is named; the claims beyond the name are that `utf-8` selects
/// `UTF-8` and `cp1254` selects `windows-1254`, as the crate's label table shows.
#[verifier::external_body]
pub(crate) fn encoding_for_label(label: &str) -> (res: Option<String>)
    ensures
        match res {
            Some(n) => label_encoding(label@) == Some(n@),
            None => label_encoding(label@) is None,
        },
        match res {
            Some(n) => label@ == utf8_label() ==> n@ == utf8_name(),
            None => label@ != utf8_label(),
        },
        match res {
            Some(n) => label@ == cp1254_label() ==> n@ == windows1254_name(),
            None => label@ != cp1254_label(),
        },
{
    match encoding_rs::Encoding::for_label(label.as_bytes()) {
        Some(encoding) => Some(encoding.name().to_owned()),
        None => None,
    }
}

/// Calls `decode_without_bom_handling` on the encoding that `label` selects.
/// Besides naming the result it claims what the documentation and source show: malformed
/// input is replaced with U+FFFD and reported; for UTF-8 the input is malformed
/// exactly when it is not valid UTF-8, and valid input decodes as UTF-8; and
/// windows-1254, whose table maps every byte, never reports malformed input.
#[verifier::external_body]
pub(crate) fn decode_without_bom(label: &str, data: &[u8]) -> (res: (String, bool))
    requires
        label_encoding(label@) is Some,
        decodable_len(data@),
    ensures
        (res.0@, res.1) == bomless_decode(label_encoding(label@)->0, data@),
        res.1 ==> res.0@.contains('\u{FFFD}'),
        label_encoding(label@) == Some(utf8_name()) ==> (res.1 <==> !valid_utf8(data@)),
        label_encoding(label@) == Some(utf8_name()) && !res.1 ==> res.0@ == decode_utf8(data@),
        label_encoding(label@) == Some(windows1254_name()) ==> !res.1,
{
    let encoding = encoding_rs::Encoding::for_label(label.as_bytes()).unwrap();
    let (text, had_errors) = encoding.decode_without_bom_handling(data);
    (text.into_owned(), had_errors)
}

/// Calls `EncodingDetector::new(Iso2022JpDetection::Deny)`.
#[verifier::external_body]
pub(crate) fn new_detector() -> (d: EncodingDetector)
    ensures
        detector_input(d) == Seq::<u8>::empty(),
        !detector_closed(d),
{
    EncodingDetector::new(chardetng::Iso2022JpDetection::Deny)
}

/// Calls `EncodingDetector::feed`, which must not be called after a call with
/// `last` set. What it returns (whether non-ASCII was seen) is not stated.
#[verifier::external_body]
pub(crate) fn feed_detector(d: &mut EncodingDetector, buffer: &[u8], last: bool)
    requires
        !detector_closed(*old(d)),
    ensures
        detector_input(*final(d)) == detector_input(*old(d)) + buffer@,
        detector_closed(*final(d)) == last,
{
    d.feed(buffer, last);
}

/// Calls `EncodingDetector::guess(None, Utf8Detection::Allow)` and returns the
/// guessed encoding's name. Besides naming it, it claims what the crate's source
/// shows: a guess is never the `replacement` encoding, so its name, used as a
/// label, selects it again.
#[verifier::external_body]
pub(crate) fn guess_encoding(d: &EncodingDetector) -> (name: String)
    ensures
        name@ == detector_guess(detector_input(*d), detector_closed(*d)),
        label_encoding(name@) == Some(name@),
{
    d.guess(None, chardetng::Utf8Detection::Allow).name().to_owned()
}

/// Calls `std::str::from_utf8`: the text when the bytes are valid UTF-8.
#[verifier::external_body]
pub(crate) fn utf8_text(data: &[u8]) -> (res: Option<String>)
    ensures
        res is Some <==> valid_utf8(data@),
        res matches Some(s) ==> s@ == decode_utf8(data@),
{
    match std::str::from_utf8(data) {
        Ok(s) => Some(s.to_owned()),
        Err(_) => None,
    }
}

/// Calls `char::from_u32`: a `char` exactly for Unicode scalar values.
#[verifier::external_body]
pub(crate) fn char_from_u32(v: u32) -> (res: Option<char>)
    ensures
        res is Some <==> is_scalar(v),
        res matches Some(c) ==> c as u32 == v,
{
    char::from_u32(v)
}

} // verus!
