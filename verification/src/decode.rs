//! Bytes to text: byte order marks, UTF-16 and UTF-32, UTF-8, detected and
//! fallback legacy encodings; strictly, or with undecodable input marked.

use vstd::prelude::*;
use vstd::utf8::{decode_utf8, is_scalar, valid_utf8};
use crate::inline::ci_eq;
use crate::model::{ConverterError, SpecError, result_view};
use crate::outside::{
    bomless_decode, char_from_u32, decodable_len, decode_without_bom, detector_guess,
    detector_input, encoding_for_label, feed_detector, guess_encoding, label_encoding,
    new_detector, utf8_label, utf8_name, utf8_text, windows1254_name,
};
use crate::text::{
    chars_of, eq_pred, has_substr, lemma_scan, matches_at, scan, skip_char, string_of, sub_vec,
    trim_start_char,
};

verus! {

/// What marks undecodable input in lazy mode.
pub const ENCODING_ERROR_MARKER: &'static str = "[ENC?]";

pub open spec fn marker() -> Seq<char> {
    seq!['[', 'E', 'N', 'C', '?', ']']
}

/// Every leading U+FEFF dropped.
pub open spec fn trim_bom(s: Seq<char>) -> Seq<char> {
    trim_start_char(s, '\u{feff}')
}

pub open spec fn starts_with_bytes(d: Seq<u8>, p: Seq<u8>) -> bool {
    p.len() <= d.len() && d.subrange(0, p.len() as int) == p
}

pub open spec fn opt_concat(a: Seq<char>, o: Option<Seq<char>>) -> Option<Seq<char>> {
    match o {
        Some(s) => Some(a + s),
        None => None,
    }
}

/// The 16-bit code unit `i`.
pub open spec fn unit16(d: Seq<u8>, i: int, le: bool) -> int {
    if le {
        d[2 * i] as int + 256 * (d[2 * i + 1] as int)
    } else {
        256 * (d[2 * i] as int) + d[2 * i + 1] as int
    }
}

/// UTF-16 decoding of code units `i..`: `None` on an unpaired surrogate.
pub open spec fn utf16_from(d: Seq<u8>, le: bool, i: int) -> Option<Seq<char>>
    decreases d.len() / 2 - i,
{
    let n = d.len() / 2;
    if i < 0 || i >= n {
        Some(Seq::empty())
    } else {
        let u = unit16(d, i, le);
        if u < 0xD800 || u > 0xDFFF {
            opt_concat(seq![(u as u32) as char], utf16_from(d, le, i + 1))
        } else if u <= 0xDBFF && i + 1 < n && 0xDC00 <= unit16(d, i + 1, le) <= 0xDFFF {
            let v = 0x10000 + (u - 0xD800) * 0x400 + (unit16(d, i + 1, le) - 0xDC00);
            opt_concat(seq![(v as u32) as char], utf16_from(d, le, i + 2))
        } else {
            None
        }
    }
}

pub open spec fn spec_utf16(d: Seq<u8>, le: bool) -> Result<Seq<char>, SpecError> {
    if d.len() % 2 != 0 {
        Err(SpecError::Decode("Invalid UTF-16 byte length."@))
    } else {
        match utf16_from(d, le, 0) {
            Some(s) => Ok(s),
            None => Err(SpecError::Decode("Invalid UTF-16 sequence."@)),
        }
    }
}

pub open spec fn unit32(d: Seq<u8>, i: int, le: bool) -> int {
    if le {
        d[4 * i] as int + 256 * (d[4 * i + 1] as int) + 65536 * (d[4 * i + 2] as int) + 16777216 * (
        d[4 * i + 3] as int)
    } else {
        16777216 * (d[4 * i] as int) + 65536 * (d[4 * i + 1] as int) + 256 * (d[4 * i + 2] as int)
            + d[4 * i + 3] as int
    }
}

/// UTF-32 decoding of code units `i..`: `None` on a value that is no scalar.
pub open spec fn utf32_from(d: Seq<u8>, le: bool, i: int) -> Option<Seq<char>>
    decreases d.len() / 4 - i,
{
    if i < 0 || i >= d.len() / 4 {
        Some(Seq::empty())
    } else {
        let v = unit32(d, i, le);
        if v <= u32::MAX && is_scalar(v as u32) {
            opt_concat(seq![(v as u32) as char], utf32_from(d, le, i + 1))
        } else {
            None
        }
    }
}

pub open spec fn spec_utf32(d: Seq<u8>, le: bool) -> Result<Seq<char>, SpecError> {
    if d.len() % 4 != 0 {
        Err(SpecError::Decode("Invalid UTF-32 byte length."@))
    } else {
        match utf32_from(d, le, 0) {
            Some(s) => Ok(s),
            None => Err(SpecError::Decode("Invalid UTF-32 code point."@)),
        }
    }
}

fn bytes_from(data: &[u8], k: usize) -> (res: Vec<u8>)
    requires
        k <= data@.len(),
    ensures
        res@ == data@.subrange(k as int, data@.len() as int),
{
    let mut out: Vec<u8> = Vec::new();
    let mut i = k;
    while i < data.len()
        invariant
            k <= i <= data@.len(),
            out@ =~= data@.subrange(k as int, i as int),
        decreases data.len() - i,
    {
        out.push(data[i]);
        i += 1;
    }
    out
}

fn decode_utf16_strict(data: &[u8], little_endian: bool) -> (res: Result<String, ConverterError>)
    ensures
        result_view(res) == spec_utf16(data@, little_endian),
{
    if data.len() % 2 != 0 {
        return Err(ConverterError::Decode("Invalid UTF-16 byte length.".to_owned()));
    }
    let n = data.len() / 2;
    let mut out: Vec<char> = Vec::new();
    let mut i: usize = 0;
    while i < n
        invariant
            n == data@.len() / 2,
            data@.len() % 2 == 0,
            i <= n,
            utf16_from(data@, little_endian, 0) == opt_concat(
                out@,
                utf16_from(data@, little_endian, i as int),
            ),
        decreases n - i,
    {
        assert(2 * i + 1 < data@.len()) by (nonlinear_arith)
            requires
                i < n,
                n == data@.len() / 2,
        ;
        assert(data@.len() == data.len());
        let k = i + i;
        assert(k == 2 * i);
        let b0 = data[k] as u32;
        let b1 = data[k + 1] as u32;
        let u = if little_endian {
            b0 + 256 * b1
        } else {
            256 * b0 + b1
        };
        assert(u == unit16(data@, i as int, little_endian));
        if u < 0xD800 || u > 0xDFFF {
            let c = match char_from_u32(u) {
                Some(c) => c,
                None => {
                    assert(false);
                    return Err(ConverterError::Decode("Invalid UTF-16 sequence.".to_owned()));
                },
            };
            proof {
                vstd::utf8::char_u32_cast(c, u);
            }
            let ghost prev = out@;
            out.push(c);
            assert(opt_concat(prev, utf16_from(data@, little_endian, i as int)) =~= opt_concat(
                out@,
                utf16_from(data@, little_endian, i + 1),
            ));
            i += 1;
        } else if u <= 0xDBFF && i + 1 < n {
            assert(2 * i + 3 < data@.len()) by (nonlinear_arith)
                requires
                    i + 1 < n,
                    n == data@.len() / 2,
            ;
            let c0 = data[k + 2] as u32;
            let c1 = data[k + 3] as u32;
            let u2 = if little_endian {
                c0 + 256 * c1
            } else {
                256 * c0 + c1
            };
            assert(u2 == unit16(data@, i + 1, little_endian));
            if 0xDC00 <= u2 && u2 <= 0xDFFF {
                let v = 0x10000 + (u - 0xD800) * 0x400 + (u2 - 0xDC00);
                let c = match char_from_u32(v) {
                    Some(c) => c,
                    None => {
                        assert(false);
                        return Err(ConverterError::Decode("Invalid UTF-16 sequence.".to_owned()));
                    },
                };
                proof {
                    vstd::utf8::char_u32_cast(c, v);
                }
                let ghost prev = out@;
                out.push(c);
                assert(opt_concat(prev, utf16_from(data@, little_endian, i as int)) =~= opt_concat(
                    out@,
                    utf16_from(data@, little_endian, i + 2),
                ));
                i += 2;
            } else {
                return Err(ConverterError::Decode("Invalid UTF-16 sequence.".to_owned()));
            }
        } else {
            return Err(ConverterError::Decode("Invalid UTF-16 sequence.".to_owned()));
        }
    }
    assert(opt_concat(out@, utf16_from(data@, little_endian, i as int)) =~= Some(out@));
    Ok(string_of(&out))
}

fn decode_utf32_strict(data: &[u8], little_endian: bool) -> (res: Result<String, ConverterError>)
    ensures
        result_view(res) == spec_utf32(data@, little_endian),
{
    if data.len() % 4 != 0 {
        return Err(ConverterError::Decode("Invalid UTF-32 byte length.".to_owned()));
    }
    let n = data.len() / 4;
    let mut out: Vec<char> = Vec::new();
    let mut i: usize = 0;
    while i < n
        invariant
            n == data@.len() / 4,
            data@.len() % 4 == 0,
            i <= n,
            utf32_from(data@, little_endian, 0) == opt_concat(
                out@,
                utf32_from(data@, little_endian, i as int),
            ),
        decreases n - i,
    {
        assert(4 * i + 3 < data@.len()) by (nonlinear_arith)
            requires
                i < n,
                n == data@.len() / 4,
        ;
        assert(data@.len() == data.len());
        let k = i + i + i + i;
        assert(k == 4 * i);
        let b0 = data[k] as u64;
        let b1 = data[k + 1] as u64;
        let b2 = data[k + 2] as u64;
        let b3 = data[k + 3] as u64;
        let v64 = if little_endian {
            b0 + 256 * b1 + 65536 * b2 + 16777216 * b3
        } else {
            16777216 * b0 + 65536 * b1 + 256 * b2 + b3
        };
        assert(v64 == unit32(data@, i as int, little_endian));
        assert(v64 <= u32::MAX);
        let v = v64 as u32;
        match char_from_u32(v) {
            Some(c) => {
                proof {
                    vstd::utf8::char_u32_cast(c, v);
                }
                let ghost prev = out@;
                out.push(c);
                assert(opt_concat(prev, utf32_from(data@, little_endian, i as int)) =~= opt_concat(
                    out@,
                    utf32_from(data@, little_endian, i + 1),
                ));
                i += 1;
            },
            None => {
                return Err(ConverterError::Decode("Invalid UTF-32 code point.".to_owned()));
            },
        }
    }
    assert(opt_concat(out@, utf32_from(data@, little_endian, i as int)) =~= Some(out@));
    Ok(string_of(&out))
}


pub open spec fn ci_equals(s: Seq<char>, pat: Seq<char>) -> bool {
    s.len() == pat.len() && forall|k: int| 0 <= k < pat.len() ==> ci_eq(#[trigger] s[k], pat[k])
}

pub open spec fn utf16_word() -> Seq<char> {
    seq!['u', 't', 'f', '-', '1', '6']
}

pub open spec fn utf16le_word() -> Seq<char> {
    seq!['u', 't', 'f', '-', '1', '6', 'l', 'e']
}

pub open spec fn utf16be_word() -> Seq<char> {
    seq!['u', 't', 'f', '-', '1', '6', 'b', 'e']
}

pub open spec fn utf32_word() -> Seq<char> {
    seq!['u', 't', 'f', '-', '3', '2']
}

pub open spec fn utf32le_word() -> Seq<char> {
    seq!['u', 't', 'f', '-', '3', '2', 'l', 'e']
}

pub open spec fn utf32be_word() -> Seq<char> {
    seq!['u', 't', 'f', '-', '3', '2', 'b', 'e']
}

/// The charsets decoded here rather than by an encoding: UTF-16 and UTF-32.
pub open spec fn unicode_charset(cs: Seq<char>) -> bool {
    ci_equals(cs, utf16_word()) || ci_equals(cs, utf16le_word()) || ci_equals(cs, utf16be_word())
        || ci_equals(cs, utf32_word()) || ci_equals(cs, utf32le_word()) || ci_equals(
        cs,
        utf32be_word(),
    )
}

/// The bytes start with none of the byte order marks recognised here.
pub open spec fn no_byte_order_mark(d: Seq<u8>) -> bool {
    !(starts_with_bytes(d, bom_utf8()) || starts_with_bytes(d, bom_le32()) || starts_with_bytes(
        d,
        bom_be32(),
    ) || starts_with_bytes(d, bom_le16()) || starts_with_bytes(d, bom_be16()))
}

pub open spec fn bom_utf8() -> Seq<u8> {
    seq![0xefu8, 0xbbu8, 0xbfu8]
}

pub open spec fn bom_le16() -> Seq<u8> {
    seq![0xffu8, 0xfeu8]
}

pub open spec fn bom_be16() -> Seq<u8> {
    seq![0xfeu8, 0xffu8]
}

pub open spec fn bom_le32() -> Seq<u8> {
    seq![0xffu8, 0xfeu8, 0x00u8, 0x00u8]
}

pub open spec fn bom_be32() -> Seq<u8> {
    seq![0x00u8, 0x00u8, 0xfeu8, 0xffu8]
}

/// What strict decoding makes of an encoding's output: the text, or the
/// error naming the encoding when it had to replace input.
pub open spec fn strict_outcome(name: Seq<char>, text: Seq<char>, had_errors: bool) -> Result<
    Seq<char>,
    SpecError,
> {
    if had_errors {
        Err(SpecError::Decode("Could not decode transcript bytes with encoding "@ + name + "."@))
    } else {
        Ok(text)
    }
}

/// A text decoded with an encoding, or the error when it had to replace input.
pub open spec fn encoding_strict(name: Seq<char>, d: Seq<u8>) -> Result<Seq<char>, SpecError> {
    strict_outcome(name, bomless_decode(name, d).0, bomless_decode(name, d).1)
}

/// Every U+FFFD replaced with the marker.
pub open spec fn replace_marker(s: Seq<char>) -> Seq<char>
    decreases s.len(),
{
    if s.len() == 0 {
        Seq::empty()
    } else if s.last() == '\u{FFFD}' {
        replace_marker(s.drop_last()) + marker()
    } else {
        replace_marker(s.drop_last()).push(s.last())
    }
}

pub open spec fn encoding_marked(name: Seq<char>, d: Seq<u8>) -> Seq<char> {
    replace_marker(bomless_decode(name, d).0)
}

pub open spec fn map_trim(r: Result<Seq<char>, SpecError>) -> Result<Seq<char>, SpecError> {
    match r {
        Ok(s) => Ok(trim_bom(s)),
        Err(e) => Err(e),
    }
}

/// Decoding with a charset the caller names; UTF-16 and UTF-32 are decoded here.
pub open spec fn charset_strict(d: Seq<u8>, cs: Seq<char>) -> Result<Seq<char>, SpecError> {
    if ci_equals(cs, utf16_word()) {
        if starts_with_bytes(d, bom_le16()) {
            spec_utf16(d.subrange(2, d.len() as int), true)
        } else if starts_with_bytes(d, bom_be16()) {
            spec_utf16(d.subrange(2, d.len() as int), false)
        } else {
            spec_utf16(d, true)
        }
    } else if ci_equals(cs, utf16le_word()) {
        spec_utf16(d, true)
    } else if ci_equals(cs, utf16be_word()) {
        spec_utf16(d, false)
    } else if ci_equals(cs, utf32_word()) {
        if starts_with_bytes(d, bom_le32()) {
            spec_utf32(d.subrange(4, d.len() as int), true)
        } else if starts_with_bytes(d, bom_be32()) {
            spec_utf32(d.subrange(4, d.len() as int), false)
        } else {
            spec_utf32(d, true)
        }
    } else if ci_equals(cs, utf32le_word()) {
        spec_utf32(d, true)
    } else if ci_equals(cs, utf32be_word()) {
        spec_utf32(d, false)
    } else {
        match label_encoding(cs) {
            None => Err(SpecError::Decode("Unknown charset: "@ + cs)),
            Some(name) => encoding_strict(name, d),
        }
    }
}

pub open spec fn utf16_or_marked(d: Seq<u8>, le: bool) -> Seq<char> {
    match spec_utf16(d, le) {
        Ok(s) => s,
        Err(_) => encoding_marked(utf8_name(), d),
    }
}

/// Decoding with a charset that never fails: what cannot be decoded is marked.
pub open spec fn charset_marked(d: Seq<u8>, cs: Seq<char>) -> Seq<char> {
    if ci_equals(cs, utf16_word()) {
        if starts_with_bytes(d, bom_le16()) {
            utf16_or_marked(d.subrange(2, d.len() as int), true)
        } else if starts_with_bytes(d, bom_be16()) {
            utf16_or_marked(d.subrange(2, d.len() as int), false)
        } else {
            utf16_or_marked(d, true)
        }
    } else if ci_equals(cs, utf16le_word()) {
        utf16_or_marked(d, true)
    } else if ci_equals(cs, utf16be_word()) {
        utf16_or_marked(d, false)
    } else if ci_equals(cs, utf32_word()) || ci_equals(cs, utf32le_word()) || ci_equals(
        cs,
        utf32be_word(),
    ) {
        encoding_marked(utf8_name(), d)
    } else {
        match label_encoding(cs) {
            None => encoding_marked(utf8_name(), d),
            Some(name) => encoding_marked(name, d),
        }
    }
}

pub open spec fn count_zero_at(d: Seq<u8>, off: int, n: int) -> nat
    decreases n,
{
    if n <= 0 {
        0
    } else {
        count_zero_at(d, off, n - 1) + if d[2 * (n - 1) + off] == 0 {
            1nat
        } else {
            0nat
        }
    }
}

/// UTF-16 without a byte order mark, judged by zero bytes in the first 128
/// bytes: `Some(true)` little endian, `Some(false)` big endian.
pub open spec fn utf16_guess(d: Seq<u8>) -> Option<bool> {
    let len = if d.len() < 128 {
        d.len() as int
    } else {
        128
    };
    if len < 4 || len % 2 != 0 {
        None
    } else {
        let even = count_zero_at(d, 0, len / 2);
        let odd = count_zero_at(d, 1, len / 2);
        let threshold = if len / 2 / 2 > 4 {
            len / 2 / 2
        } else {
            4
        };
        if odd >= threshold && even == 0 {
            Some(true)
        } else if even >= threshold && odd == 0 {
            Some(false)
        } else {
            None
        }
    }
}

pub open spec fn fallback_message() -> Seq<char> {
    "Could not decode transcript bytes. Attempted BOM detection, utf-8, cp1254, cp1251, cp1252, and charset detection."@
}

/// The first of the legacy encodings that decodes the bytes without error.
pub open spec fn legacy_fallback(d: Seq<u8>) -> Result<Seq<char>, SpecError> {
    if label_encoding("cp1254"@) is Some && encoding_strict(label_encoding("cp1254"@)->0, d) is Ok {
        encoding_strict(label_encoding("cp1254"@)->0, d)
    } else if label_encoding("cp1251"@) is Some && encoding_strict(label_encoding("cp1251"@)->0, d) is Ok {
        encoding_strict(label_encoding("cp1251"@)->0, d)
    } else if label_encoding("cp1252"@) is Some && encoding_strict(label_encoding("cp1252"@)->0, d) is Ok {
        encoding_strict(label_encoding("cp1252"@)->0, d)
    } else {
        Err(SpecError::Decode(fallback_message()))
    }
}

/// The encoding that detection guesses for the whole input.
pub open spec fn guessed(d: Seq<u8>) -> Seq<char> {
    detector_guess(d, true)
}

/// Strict decoding: a named charset; else a byte order mark; else UTF-16 judged
/// by zero bytes; else UTF-8; else the detected encoding; else a legacy one.
pub open spec fn spec_strict_decode(d: Seq<u8>, cs: Option<Seq<char>>) -> Result<Seq<char>, SpecError> {
    match cs {
        Some(c) => map_trim(charset_strict(d, c)),
        None => if starts_with_bytes(d, bom_utf8()) {
            let r = d.subrange(3, d.len() as int);
            if valid_utf8(r) {
                Ok(trim_bom(decode_utf8(r)))
            } else {
                Err(SpecError::Decode("Could not decode transcript bytes with UTF-8 BOM."@))
            }
        } else if starts_with_bytes(d, bom_le32()) {
            map_trim(spec_utf32(d.subrange(4, d.len() as int), true))
        } else if starts_with_bytes(d, bom_be32()) {
            map_trim(spec_utf32(d.subrange(4, d.len() as int), false))
        } else if starts_with_bytes(d, bom_le16()) {
            map_trim(spec_utf16(d.subrange(2, d.len() as int), true))
        } else if starts_with_bytes(d, bom_be16()) {
            map_trim(spec_utf16(d.subrange(2, d.len() as int), false))
        } else if utf16_guess(d) is Some && spec_utf16(d, utf16_guess(d)->0) is Ok {
            map_trim(spec_utf16(d, utf16_guess(d)->0))
        } else if valid_utf8(d) {
            Ok(decode_utf8(d))
        } else if encoding_strict(guessed(d), d) is Ok {
            map_trim(encoding_strict(guessed(d), d))
        } else {
            legacy_fallback(d)
        },
    }
}

/// Decoding as `decode_transcript_bytes` does: strictly, or in lazy mode with
/// what cannot be decoded marked.
pub open spec fn spec_decode_transcript(d: Seq<u8>, cs: Option<Seq<char>>, lazy: bool) -> Result<
    Seq<char>,
    SpecError,
> {
    if !lazy || spec_strict_decode(d, cs) is Ok {
        spec_strict_decode(d, cs)
    } else {
        match cs {
            Some(c) => Ok(trim_bom(charset_marked(d, c))),
            None => if starts_with_bytes(d, bom_utf8()) {
                Ok(trim_bom(encoding_marked(utf8_name(), d.subrange(3, d.len() as int))))
            } else if starts_with_bytes(d, bom_le16()) {
                Ok(trim_bom(utf16_or_marked(d.subrange(2, d.len() as int), true)))
            } else if starts_with_bytes(d, bom_be16()) {
                Ok(trim_bom(utf16_or_marked(d.subrange(2, d.len() as int), false)))
            } else if utf16_guess(d) is Some && spec_utf16(d, utf16_guess(d)->0) is Ok {
                Ok(trim_bom(spec_utf16(d, utf16_guess(d)->0)->Ok_0))
            } else if encoding_marked(guessed(d), d).len() > 0 {
                Ok(trim_bom(encoding_marked(guessed(d), d)))
            } else {
                Ok(trim_bom(encoding_marked(utf8_name(), d)))
            },
        }
    }
}


proof fn lemma_replace_marker_shows_marker(s: Seq<char>)
    requires
        s.contains('\u{FFFD}'),
    ensures
        has_substr(replace_marker(s), marker()),
    decreases s.len(),
{
    let dl = s.drop_last();
    if s.last() == '\u{FFFD}' {
        let r = replace_marker(dl);
        assert((r + marker()).subrange(r.len() as int, r.len() + 6int) =~= marker());
        assert(matches_at(replace_marker(s), r.len() as int, marker()));
    } else {
        let j = choose|j: int| 0 <= j < s.len() && s[j] == '\u{FFFD}';
        assert(j < s.len() - 1);
        assert(dl[j] == s[j]);
        lemma_replace_marker_shows_marker(dl);
        let r = replace_marker(dl);
        let i = choose|i: int| matches_at(r, i, marker());
        assert(r.push(s.last()).subrange(i, i + 6) =~= r.subrange(i, i + 6));
        assert(matches_at(replace_marker(s), i, marker()));
    }
}

/// Dropping leading U+FEFF keeps every marker, which starts with `[`.
proof fn lemma_trim_bom_keeps_marker(x: Seq<char>)
    requires
        has_substr(x, marker()),
    ensures
        has_substr(trim_bom(x), marker()),
{
    let i = choose|i: int| matches_at(x, i, marker());
    let k = scan(x, 0, eq_pred('\u{feff}'));
    lemma_scan(x, 0, eq_pred('\u{feff}'));
    assert(x.subrange(i, i + 6)[0] == '[');
    assert(x[i] == '[');
    if i < k {
        assert(eq_pred('\u{feff}')(x[i]));
    }
    assert(trim_bom(x).subrange(i - k, i - k + 6) =~= x.subrange(i, i + 6));
    assert(matches_at(trim_bom(x), i - k, marker()));
}

fn utf8_label_str() -> (s: &'static str)
    ensures
        s@ == utf8_label(),
{
    proof {
        reveal_strlit("utf-8");
    }
    "utf-8"
}

/// Establishes that `utf-8` selects `UTF-8`, from what the lookup reports.
fn check_utf8_label()
    ensures
        label_encoding(utf8_label()) == Some(utf8_name()),
{
    let l = utf8_label_str();
    let _ = encoding_for_label(l);
}

fn trim_bom_prefix(text: String) -> (res: String)
    ensures
        res@ == trim_bom(text@),
{
    let v = chars_of(text.as_str());
    let k = skip_char(&v, 0, '\u{feff}');
    string_of(&sub_vec(&v, k, v.len()))
}

/// Every U+FFFD of a decoded text replaced with `[ENC?]`.
pub fn mark_undecodable(text: String) -> (res: String)
    ensures
        res@ == replace_marker(text@),
{
    let v = chars_of(text.as_str());
    let mut out: Vec<char> = Vec::new();
    let mut i: usize = 0;
    while i < v.len()
        invariant
            i <= v.len(),
            out@ == replace_marker(v@.take(i as int)),
        decreases v.len() - i,
    {
        assert(v@.take(i + 1).drop_last() =~= v@.take(i as int));
        let ghost prev = out@;
        if v[i] == '\u{FFFD}' {
            out.push('[');
            out.push('E');
            out.push('N');
            out.push('C');
            out.push('?');
            out.push(']');
            assert(out@ =~= prev + marker());
        } else {
            out.push(v[i]);
        }
        i += 1;
    }
    assert(v@.take(i as int) =~= v@);
    string_of(&out)
}

/// The outcome of strict decoding with the encoding `encoding`, from the text
/// it gave and whether it had to replace malformed input.
pub fn strict_decoding_outcome(encoding: &str, text: String, had_errors: bool) -> (res: Result<
    String,
    ConverterError,
>)
    ensures
        result_view(res) == strict_outcome(encoding@, text@, had_errors),
{
    if had_errors {
        let mut msg = "Could not decode transcript bytes with encoding ".to_owned();
        msg.append(encoding);
        msg.append(".");
        return Err(ConverterError::Decode(msg));
    }
    Ok(text)
}

fn decode_with_encoding_strict(data: &[u8], label: &str) -> (res: Result<String, ConverterError>)
    requires
        label_encoding(label@) is Some,
        decodable_len(data@),
    ensures
        result_view(res) == encoding_strict(label_encoding(label@)->0, data@),
        label_encoding(label@) == Some(utf8_name()) ==> (res is Ok <==> valid_utf8(data@)),
        label_encoding(label@) == Some(utf8_name()) ==> (res matches Ok(s) ==> s@ == decode_utf8(
            data@,
        )),
        label_encoding(label@) == Some(windows1254_name()) ==> res is Ok,
{
    let name = match encoding_for_label(label) {
        Some(n) => n,
        None => {
            assert(false);
            return Err(ConverterError::Decode(String::new()));
        },
    };
    let (text, had_errors) = decode_without_bom(label, data);
    strict_decoding_outcome(name.as_str(), text, had_errors)
}

fn decode_with_encoding_marker(data: &[u8], label: &str) -> (res: String)
    requires
        label_encoding(label@) is Some,
        decodable_len(data@),
    ensures
        res@ == encoding_marked(label_encoding(label@)->0, data@),
        label_encoding(label@) == Some(utf8_name()) && !valid_utf8(data@) ==> has_substr(
            res@,
            marker(),
        ),
        bomless_decode(label_encoding(label@)->0, data@).1 ==> has_substr(res@, marker()),
{
    let (text, had_errors) = decode_without_bom(label, data);
    proof {
        if had_errors {
            lemma_replace_marker_shows_marker(text@);
        }
    }
    mark_undecodable(text)
}

fn decode_utf8_marker(data: &[u8]) -> (res: String)
    requires
        decodable_len(data@),
    ensures
        res@ == encoding_marked(utf8_name(), data@),
        !valid_utf8(data@) ==> has_substr(res@, marker()),
{
    check_utf8_label();
    decode_with_encoding_marker(data, utf8_label_str())
}

fn ci_equals_exec(s: &Vec<char>, pat: &Vec<char>) -> (b: bool)
    ensures
        b == ci_equals(s@, pat@),
{
    if s.len() != pat.len() {
        return false;
    }
    let mut k: usize = 0;
    while k < pat.len()
        invariant
            s.len() == pat.len(),
            k <= pat.len(),
            forall|m: int| 0 <= m < k ==> ci_eq(#[trigger] s@[m], pat@[m]),
        decreases pat.len() - k,
    {
        if !crate::inline::ci_eq_exec(s[k], pat[k]) {
            return false;
        }
        k += 1;
    }
    true
}

fn starts_with_exec(d: &[u8], p: &Vec<u8>) -> (b: bool)
    ensures
        b == starts_with_bytes(d@, p@),
{
    if p.len() > d.len() {
        return false;
    }
    let mut k: usize = 0;
    while k < p.len()
        invariant
            p.len() <= d@.len(),
            k <= p.len(),
            forall|m: int| 0 <= m < k ==> d@[m] == p@[m],
        decreases p.len() - k,
    {
        if d[k] != p[k] {
            assert(d@.subrange(0, p@.len() as int)[k as int] != p@[k as int]);
            return false;
        }
        k += 1;
    }
    assert(d@.subrange(0, p@.len() as int) =~= p@);
    true
}

/// The charset names that this module decodes itself.
struct Charset {
    utf16: bool,
    utf16le: bool,
    utf16be: bool,
    utf32: bool,
    utf32le: bool,
    utf32be: bool,
}

fn classify_charset(charset: &str) -> (c: Charset)
    ensures
        c.utf16 == ci_equals(charset@, utf16_word()),
        c.utf16le == ci_equals(charset@, utf16le_word()),
        c.utf16be == ci_equals(charset@, utf16be_word()),
        c.utf32 == ci_equals(charset@, utf32_word()),
        c.utf32le == ci_equals(charset@, utf32le_word()),
        c.utf32be == ci_equals(charset@, utf32be_word()),
{
    let cs = chars_of(charset);
    let a = vec!['u', 't', 'f', '-', '1', '6'];
    let b = vec!['u', 't', 'f', '-', '1', '6', 'l', 'e'];
    let c = vec!['u', 't', 'f', '-', '1', '6', 'b', 'e'];
    let d = vec!['u', 't', 'f', '-', '3', '2'];
    let e = vec!['u', 't', 'f', '-', '3', '2', 'l', 'e'];
    let f = vec!['u', 't', 'f', '-', '3', '2', 'b', 'e'];
    assert(a@ =~= utf16_word());
    assert(b@ =~= utf16le_word());
    assert(c@ =~= utf16be_word());
    assert(d@ =~= utf32_word());
    assert(e@ =~= utf32le_word());
    assert(f@ =~= utf32be_word());
    Charset {
        utf16: ci_equals_exec(&cs, &a),
        utf16le: ci_equals_exec(&cs, &b),
        utf16be: ci_equals_exec(&cs, &c),
        utf32: ci_equals_exec(&cs, &d),
        utf32le: ci_equals_exec(&cs, &e),
        utf32be: ci_equals_exec(&cs, &f),
    }
}

fn le16() -> (v: Vec<u8>)
    ensures
        v@ == bom_le16(),
{
    let v = vec![0xffu8, 0xfeu8];
    assert(v@ =~= bom_le16());
    v
}

fn be16() -> (v: Vec<u8>)
    ensures
        v@ == bom_be16(),
{
    let v = vec![0xfeu8, 0xffu8];
    assert(v@ =~= bom_be16());
    v
}

fn le32() -> (v: Vec<u8>)
    ensures
        v@ == bom_le32(),
{
    let v = vec![0xffu8, 0xfeu8, 0x00u8, 0x00u8];
    assert(v@ =~= bom_le32());
    v
}

fn be32() -> (v: Vec<u8>)
    ensures
        v@ == bom_be32(),
{
    let v = vec![0x00u8, 0x00u8, 0xfeu8, 0xffu8];
    assert(v@ =~= bom_be32());
    v
}

fn utf8_bom() -> (v: Vec<u8>)
    ensures
        v@ == bom_utf8(),
{
    let v = vec![0xefu8, 0xbbu8, 0xbfu8];
    assert(v@ =~= bom_utf8());
    v
}

fn decode_with_charset_strict(data: &[u8], charset: &str) -> (res: Result<String, ConverterError>)
    requires
        decodable_len(data@),
    ensures
        result_view(res) == charset_strict(data@, charset@),
        charset@ == utf8_label() ==> (res is Ok <==> valid_utf8(data@)),
        charset@ == utf8_label() ==> (res matches Ok(s) ==> s@ == decode_utf8(data@)),
{
    let kind = classify_charset(charset);
    if kind.utf16 {
        if starts_with_exec(data, &le16()) {
            return decode_utf16_strict(bytes_from(data, 2).as_slice(), true);
        }
        if starts_with_exec(data, &be16()) {
            return decode_utf16_strict(bytes_from(data, 2).as_slice(), false);
        }
        return decode_utf16_strict(data, true);
    }
    if kind.utf16le {
        return decode_utf16_strict(data, true);
    }
    if kind.utf16be {
        return decode_utf16_strict(data, false);
    }
    if kind.utf32 {
        if starts_with_exec(data, &le32()) {
            return decode_utf32_strict(bytes_from(data, 4).as_slice(), true);
        }
        if starts_with_exec(data, &be32()) {
            return decode_utf32_strict(bytes_from(data, 4).as_slice(), false);
        }
        return decode_utf32_strict(data, true);
    }
    if kind.utf32le {
        return decode_utf32_strict(data, true);
    }
    if kind.utf32be {
        return decode_utf32_strict(data, false);
    }
    match encoding_for_label(charset) {
        None => {
            let mut msg = "Unknown charset: ".to_owned();
            msg.append(charset);
            Err(ConverterError::Decode(msg))
        },
        Some(_) => decode_with_encoding_strict(data, charset),
    }
}

fn utf16_or_marked_exec(data: &[u8], little_endian: bool) -> (res: String)
    requires
        decodable_len(data@),
    ensures
        res@ == utf16_or_marked(data@, little_endian),
{
    match decode_utf16_strict(data, little_endian) {
        Ok(s) => s,
        Err(_) => decode_utf8_marker(data),
    }
}

fn decode_with_charset_marker(data: &[u8], charset: &str) -> (res: String)
    requires
        decodable_len(data@),
    ensures
        res@ == charset_marked(data@, charset@),
        charset@ == utf8_label() && !valid_utf8(data@) ==> has_substr(res@, marker()),
        label_encoding(charset@) matches Some(e) && !unicode_charset(charset@) && bomless_decode(
            e,
            data@,
        ).1 ==> has_substr(res@, marker()),
{
    let kind = classify_charset(charset);
    if kind.utf16 {
        if starts_with_exec(data, &le16()) {
            return utf16_or_marked_exec(bytes_from(data, 2).as_slice(), true);
        }
        if starts_with_exec(data, &be16()) {
            return utf16_or_marked_exec(bytes_from(data, 2).as_slice(), false);
        }
        return utf16_or_marked_exec(data, true);
    }
    if kind.utf16le {
        return utf16_or_marked_exec(data, true);
    }
    if kind.utf16be {
        return utf16_or_marked_exec(data, false);
    }
    if kind.utf32 || kind.utf32le || kind.utf32be {
        return decode_utf8_marker(data);
    }
    match encoding_for_label(charset) {
        None => decode_utf8_marker(data),
        Some(_) => decode_with_encoding_marker(data, charset),
    }
}

fn looks_like_utf16(data: &[u8]) -> (res: Option<bool>)
    ensures
        res == utf16_guess(data@),
{
    let len = if data.len() < 128 {
        data.len()
    } else {
        128
    };
    if len < 4 || len % 2 != 0 {
        return None;
    }
    let half = len / 2;
    let mut even: usize = 0;
    let mut odd: usize = 0;
    let mut i: usize = 0;
    while i < half
        invariant
            half == len / 2,
            len <= data@.len(),
            len <= 128,
            i <= half,
            even <= i,
            odd <= i,
            even as nat == count_zero_at(data@, 0, i as int),
            odd as nat == count_zero_at(data@, 1, i as int),
        decreases half - i,
    {
        let k = i + i;
        if data[k] == 0 {
            even += 1;
        }
        if data[k + 1] == 0 {
            odd += 1;
        }
        i += 1;
    }
    let threshold = if half / 2 > 4 {
        half / 2
    } else {
        4
    };
    if odd >= threshold && even == 0 {
        return Some(true);
    }
    if even >= threshold && odd == 0 {
        return Some(false);
    }
    None
}

/// The name of the encoding that detection guesses for the whole input.
fn detect_encoding(data: &[u8]) -> (name: String)
    ensures
        name@ == guessed(data@),
        label_encoding(name@) == Some(name@),
{
    let mut detector = new_detector();
    feed_detector(&mut detector, data, true);
    assert(detector_input(detector) =~= data@);
    guess_encoding(&detector)
}

fn legacy_fallback_exec(data: &[u8]) -> (res: Result<String, ConverterError>)
    requires
        decodable_len(data@),
    ensures
        result_view(res) == legacy_fallback(data@),
        res is Ok,
{
    proof {
        reveal_strlit("cp1254");
        assert("cp1254"@ =~= crate::outside::cp1254_label());
    }
    if encoding_for_label("cp1254").is_some() {
        if let Ok(value) = decode_with_encoding_strict(data, "cp1254") {
            return Ok(value);
        }
    }
    if encoding_for_label("cp1251").is_some() {
        if let Ok(value) = decode_with_encoding_strict(data, "cp1251") {
            return Ok(value);
        }
    }
    if encoding_for_label("cp1252").is_some() {
        if let Ok(value) = decode_with_encoding_strict(data, "cp1252") {
            return Ok(value);
        }
    }
    Err(
        ConverterError::Decode(
            "Could not decode transcript bytes. Attempted BOM detection, utf-8, cp1254, cp1251, cp1252, and charset detection.".to_owned(),
        ),
    )
}

fn map_trim_exec(r: Result<String, ConverterError>) -> (res: Result<String, ConverterError>)
    ensures
        result_view(res) == map_trim(result_view(r)),
{
    match r {
        Ok(s) => Ok(trim_bom_prefix(s)),
        Err(e) => Err(e),
    }
}

fn strict_decode_bom(data: &[u8]) -> (res: Option<Result<String, ConverterError>>)
    requires
        decodable_len(data@),
    ensures
        match res {
            Some(r) => (starts_with_bytes(data@, bom_utf8()) || starts_with_bytes(data@, bom_le32())
                || starts_with_bytes(data@, bom_be32()) || starts_with_bytes(data@, bom_le16())
                || starts_with_bytes(data@, bom_be16())) && result_view(r) == spec_strict_decode(
                data@,
                None,
            ),
            None => !(starts_with_bytes(data@, bom_utf8()) || starts_with_bytes(data@, bom_le32())
                || starts_with_bytes(data@, bom_be32()) || starts_with_bytes(data@, bom_le16())
                || starts_with_bytes(data@, bom_be16())),
        },
{
    if starts_with_exec(data, &utf8_bom()) {
        let rest = bytes_from(data, 3);
        return Some(
            match utf8_text(rest.as_slice()) {
                Some(s) => Ok(trim_bom_prefix(s)),
                None => Err(
                    ConverterError::Decode(
                        "Could not decode transcript bytes with UTF-8 BOM.".to_owned(),
                    ),
                ),
            },
        );
    }
    if starts_with_exec(data, &le32()) {
        return Some(map_trim_exec(decode_utf32_strict(bytes_from(data, 4).as_slice(), true)));
    }
    if starts_with_exec(data, &be32()) {
        return Some(map_trim_exec(decode_utf32_strict(bytes_from(data, 4).as_slice(), false)));
    }
    if starts_with_exec(data, &le16()) {
        return Some(map_trim_exec(decode_utf16_strict(bytes_from(data, 2).as_slice(), true)));
    }
    if starts_with_exec(data, &be16()) {
        return Some(map_trim_exec(decode_utf16_strict(bytes_from(data, 2).as_slice(), false)));
    }
    None
}

fn strict_decode_guessing(data: &[u8]) -> (res: Result<String, ConverterError>)
    requires
        decodable_len(data@),
        !(starts_with_bytes(data@, bom_utf8()) || starts_with_bytes(data@, bom_le32())
            || starts_with_bytes(data@, bom_be32()) || starts_with_bytes(data@, bom_le16())
            || starts_with_bytes(data@, bom_be16())),
    ensures
        result_view(res) == spec_strict_decode(data@, None),
        res is Ok,
{
    if let Some(little_endian) = looks_like_utf16(data) {
        if let Ok(value) = decode_utf16_strict(data, little_endian) {
            return Ok(trim_bom_prefix(value));
        }
    }
    if let Some(value) = utf8_text(data) {
        return Ok(value);
    }
    let guess = detect_encoding(data);
    if let Ok(value) = decode_with_encoding_strict(data, guess.as_str()) {
        return Ok(trim_bom_prefix(value));
    }
    legacy_fallback_exec(data)
}

fn strict_decode_transcript_bytes(data: &[u8], charset: Option<&str>) -> (res: Result<
    String,
    ConverterError,
>)
    requires
        decodable_len(data@),
    ensures
        result_view(res) == spec_strict_decode(data@, crate::model::opt_str_view(charset)),
        charset matches Some(c) && c@ == utf8_label() ==> (res is Ok <==> valid_utf8(data@)),
        charset matches Some(c) && c@ == utf8_label() ==> (res matches Ok(s) ==> s@ == trim_bom(
            decode_utf8(data@),
        )),
        charset is None && no_byte_order_mark(data@) ==> res is Ok,
{
    if let Some(cs) = charset {
        return map_trim_exec(decode_with_charset_strict(data, cs));
    }
    match strict_decode_bom(data) {
        Some(r) => r,
        None => strict_decode_guessing(data),
    }
}

fn lazy_decode_unnamed(data: &[u8]) -> (res: String)
    requires
        decodable_len(data@),
    ensures
        spec_decode_transcript(data@, None, true) == (if spec_strict_decode(data@, None) is Ok {
            spec_strict_decode(data@, None)
        } else {
            Ok::<Seq<char>, SpecError>(res@)
        }),
{
    if starts_with_exec(data, &utf8_bom()) {
        return trim_bom_prefix(decode_utf8_marker(bytes_from(data, 3).as_slice()));
    }
    if starts_with_exec(data, &le16()) {
        return trim_bom_prefix(utf16_or_marked_exec(bytes_from(data, 2).as_slice(), true));
    }
    if starts_with_exec(data, &be16()) {
        return trim_bom_prefix(utf16_or_marked_exec(bytes_from(data, 2).as_slice(), false));
    }
    if let Some(little_endian) = looks_like_utf16(data) {
        if let Ok(value) = decode_utf16_strict(data, little_endian) {
            return trim_bom_prefix(value);
        }
    }
    let guess = detect_encoding(data);
    let best_effort = decode_with_encoding_marker(data, guess.as_str());
    if best_effort.as_str().unicode_len() > 0 {
        return trim_bom_prefix(best_effort);
    }
    trim_bom_prefix(decode_utf8_marker(data))
}

/// Decodes transcript bytes. Strict mode fails where bytes cannot be decoded;
/// lazy mode (`charset_lazy`) never fails. Where a named encoding (other than
/// UTF-16 and UTF-32, decoded here) cannot decode the bytes, lazy mode marks
/// what it could not decode with `[ENC?]`. With the charset `utf-8`, valid
/// UTF-8 is decoded as such in both modes; other bytes fail in strict mode.
/// With no charset and no byte order mark, decoding succeeds in both modes:
/// the last fallback, windows-1254, decodes any bytes.
pub fn decode_transcript_bytes(data: &[u8], charset: Option<&str>, charset_lazy: bool) -> (res:
    Result<String, ConverterError>)
    requires
        decodable_len(data@),
    ensures
        result_view(res) == spec_decode_transcript(
            data@,
            crate::model::opt_str_view(charset),
            charset_lazy,
        ),
        charset matches Some(c) && c@ == utf8_label() && valid_utf8(data@) ==> (res matches Ok(s)
            && s@ == trim_bom(decode_utf8(data@))),
        charset matches Some(c) && c@ == utf8_label() && !valid_utf8(data@) ==> if charset_lazy {
            (res matches Ok(s) && has_substr(s@, marker()))
        } else {
            res is Err
        },
        charset matches Some(c) && !unicode_charset(c@) && label_encoding(c@) is Some
            && charset_lazy && spec_strict_decode(data@, Some(c@)) is Err ==> (res matches Ok(s)
            && has_substr(s@, marker())),
        charset is None && no_byte_order_mark(data@) ==> res is Ok,
{
    let strict = strict_decode_transcript_bytes(data, charset);
    if !charset_lazy {
        return strict;
    }
    if let Ok(decoded) = strict {
        return Ok(decoded);
    }
    if let Some(cs) = charset {
        let marked = decode_with_charset_marker(data, cs);
        proof {
            if has_substr(marked@, marker()) {
                lemma_trim_bom_keeps_marker(marked@);
            }
        }
        return Ok(trim_bom_prefix(marked));
    }
    Ok(lazy_decode_unnamed(data))
}

/// Decodes with a named charset, marking what cannot be decoded with `[ENC?]`.
pub fn decode_with_marker(data: &[u8], charset: &str) -> (res: String)
    requires
        decodable_len(data@),
    ensures
        res@ == trim_bom(charset_marked(data@, charset@)),
        charset@ == utf8_label() && !valid_utf8(data@) ==> has_substr(res@, marker()),
{
    let marked = decode_with_charset_marker(data, charset);
    proof {
        if charset@ == utf8_label() && !valid_utf8(data@) {
            lemma_trim_bom_keeps_marker(marked@);
        }
    }
    trim_bom_prefix(marked)
}

} // verus!
