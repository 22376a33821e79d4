//! Properties of the library as a whole.

use vstd::prelude::*;
use vstd::utf8::{
    char_is_scalar, char_u32_cast, codepoint_width_1, codepoint_width_3, decode_first_scalar,
    decode_utf8, decode_utf8_first_scalar, encode_scalar, encode_utf8, encode_utf8_decode_utf8,
    encode_utf8_valid_utf8, is_continuation_byte, last_continuation_byte, leading_byte_width_3,
    length_of_first_scalar, pop_first_scalar, second_last_continuation_byte, take_first_scalar,
    valid_utf8,
};
use crate::convert::{
    chunk_end, render_chunks, render_with, spec_convert_bytes, spec_convert_text,
    spec_render_markdown, trim_end_newlines,
};
use crate::decode::{
    bom_be16, bom_be32, bom_le16, bom_le32, bom_utf8, count_zero_at, spec_decode_transcript,
    spec_strict_decode,
    spec_utf16, spec_utf32, starts_with_bytes, trim_bom, unit16, utf16_from, utf16_guess,
};
use crate::detect::{RuleSet, rulesets, score_of, spec_scores};
use crate::model::{SpecBlock, SpecError, SpecMatch};
use crate::parse::{
    join, lines_from, lines_of, parse_fold, raw_blocks, spec_parse_webvtt, strip_cr,
};
use crate::postprocess::{SpecMd, merge_fold, spec_postprocess, stitchable};
use crate::text::{eq_pred, is_blank, lemma_scan, lemma_scan_at, ne_pred, scan};
use crate::ranking::{best_index, detected, ruleset_named, spec_get_ruleset};

verus! {

/// Lazy decoding never fails, whatever the bytes and the charset.
pub proof fn lazy_decoding_never_fails(data: Seq<u8>, charset: Option<Seq<char>>)
    ensures
        spec_decode_transcript(data, charset, true) is Ok,
{
}

/// Lazy decoding gives what strict decoding gives wherever strict decoding
/// succeeds; only input that strict decoding refuses is marked.
pub proof fn lazy_decoding_agrees_with_strict(data: Seq<u8>, charset: Option<Seq<char>>)
    requires
        spec_strict_decode(data, charset) is Ok,
    ensures
        spec_decode_transcript(data, charset, true) == spec_strict_decode(data, charset),
        spec_decode_transcript(data, charset, false) == spec_strict_decode(data, charset),
{
}

/// Valid UTF-8 without a byte order mark, which does not look like UTF-16, is
/// decoded as UTF-8 in both modes when no charset is named.
pub proof fn plain_utf8_is_decoded_as_utf8(data: Seq<u8>, lazy: bool)
    requires
        valid_utf8(data),
        !starts_with_bytes(data, bom_utf8()),
        !starts_with_bytes(data, bom_le32()),
        !starts_with_bytes(data, bom_be32()),
        !starts_with_bytes(data, bom_le16()),
        !starts_with_bytes(data, bom_be16()),
        utf16_guess(data) is None,
    ensures
        spec_decode_transcript(data, None, lazy) == Ok::<Seq<char>, SpecError>(decode_utf8(data)),
{
}

/// With no charset named, a byte order mark chooses the decoding, in both
/// modes: UTF-8, UTF-32 or UTF-16, little or big endian. The mark, and any
/// U+FEFF that follows it, is dropped.
pub proof fn byte_order_marks_choose_the_decoding(data: Seq<u8>, lazy: bool)
    ensures
        starts_with_bytes(data, bom_utf8()) && valid_utf8(data.subrange(3, data.len() as int))
            ==> spec_decode_transcript(data, None, lazy) == Ok::<Seq<char>, SpecError>(
            trim_bom(decode_utf8(data.subrange(3, data.len() as int))),
        ),
        starts_with_bytes(data, bom_le32()) ==> (spec_utf32(
            data.subrange(4, data.len() as int),
            true,
        ) matches Ok(s) ==> spec_decode_transcript(data, None, lazy) == Ok::<Seq<char>, SpecError>(
            trim_bom(s),
        )),
        starts_with_bytes(data, bom_be32()) ==> (spec_utf32(
            data.subrange(4, data.len() as int),
            false,
        ) matches Ok(s) ==> spec_decode_transcript(data, None, lazy) == Ok::<Seq<char>, SpecError>(
            trim_bom(s),
        )),
        starts_with_bytes(data, bom_le16()) && !starts_with_bytes(data, bom_le32()) ==> (spec_utf16(
            data.subrange(2, data.len() as int),
            true,
        ) matches Ok(s) ==> spec_decode_transcript(data, None, lazy) == Ok::<Seq<char>, SpecError>(
            trim_bom(s),
        )),
        starts_with_bytes(data, bom_be16()) ==> (spec_utf16(
            data.subrange(2, data.len() as int),
            false,
        ) matches Ok(s) ==> spec_decode_transcript(data, None, lazy) == Ok::<Seq<char>, SpecError>(
            trim_bom(s),
        )),
{
    if starts_with_bytes(data, bom_le32()) || starts_with_bytes(data, bom_be32()) {
        assert(data[0] == data.subrange(0, 4)[0]);
        if starts_with_bytes(data, bom_utf8()) {
            assert(data[0] == data.subrange(0, 3)[0]);
        }
    }
    if starts_with_bytes(data, bom_le16()) {
        assert(data[0] == data.subrange(0, 2)[0]);
        if starts_with_bytes(data, bom_utf8()) {
            assert(data[0] == data.subrange(0, 3)[0]);
        }
    }
    if starts_with_bytes(data, bom_be16()) {
        assert(data[0] == data.subrange(0, 2)[0]);
        if starts_with_bytes(data, bom_utf8()) {
            assert(data[0] == data.subrange(0, 3)[0]);
        }
        if starts_with_bytes(data, bom_le32()) || starts_with_bytes(data, bom_be32()) {
            assert(data[0] == data.subrange(0, 4)[0]);
        }
    }
}

/// UTF-16 without a byte order mark, recognised by its zero bytes, is decoded
/// as UTF-16 of that byte order in both modes.
pub proof fn utf16_without_mark_is_recognised(data: Seq<u8>, lazy: bool)
    requires
        !starts_with_bytes(data, bom_utf8()),
        !starts_with_bytes(data, bom_le32()),
        !starts_with_bytes(data, bom_be32()),
        !starts_with_bytes(data, bom_le16()),
        !starts_with_bytes(data, bom_be16()),
        utf16_guess(data) is Some,
    ensures
        spec_utf16(data, utf16_guess(data)->0) matches Ok(s) ==> spec_decode_transcript(
            data,
            None,
            lazy,
        ) == Ok::<Seq<char>, SpecError>(trim_bom(s)),
{
}

proof fn lemma_no_zero_count(d: Seq<u8>, off: int, n: int)
    requires
        0 <= off <= 1,
        0 <= n,
        2 * n <= d.len(),
        forall|i: int| 0 <= i < d.len() ==> d[i] != 0,
    ensures
        count_zero_at(d, off, n) == 0,
    decreases n,
{
    if n > 0 {
        lemma_no_zero_count(d, off, n - 1);
        assert(d[2 * (n - 1) + off] != 0);
    }
}

/// Bytes without a zero byte never look like UTF-16.
proof fn lemma_no_zero_no_utf16_guess(d: Seq<u8>)
    requires
        forall|i: int| 0 <= i < d.len() ==> d[i] != 0,
    ensures
        utf16_guess(d) is None,
{
    let len = if d.len() < 128 {
        d.len() as int
    } else {
        128
    };
    if len >= 4 && len % 2 == 0 {
        lemma_no_zero_count(d, 0, len / 2);
        lemma_no_zero_count(d, 1, len / 2);
    }
}

/// Valid UTF-8 whose text holds no NUL has no zero byte.
proof fn lemma_utf8_without_nul(d: Seq<u8>)
    requires
        valid_utf8(d),
        !decode_utf8(d).contains('\0'),
    ensures
        forall|i: int| 0 <= i < d.len() ==> d[i] != 0,
    decreases d.len(),
{
    if d.len() > 0 {
        let rest = pop_first_scalar(d);
        let w = length_of_first_scalar(d);
        assert(decode_utf8(d) == seq![decode_first_scalar(d) as char] + decode_utf8(rest));
        assert(decode_utf8(d)[0] == decode_first_scalar(d) as char);
        if d[0] == 0 {
            assert(codepoint_width_1(0u8) == 0u32) by (bit_vector);
            assert(decode_first_scalar(d) == 0u32);
            char_u32_cast('\0', 0u32);
            assert(decode_utf8(d)[0] == '\0');
        }
        assert forall|j: int| 0 <= j < decode_utf8(rest).len() implies decode_utf8(rest)[j] != '\0' by {
            assert(decode_utf8(d)[j + 1] == decode_utf8(rest)[j]);
        }
        lemma_utf8_without_nul(rest);
        assert forall|i: int| 0 <= i < d.len() implies d[i] != 0 by {
            if i >= w {
                assert(rest[i - w] == d[i]);
            } else if i > 0 {
                assert(is_continuation_byte(d[i]));
            }
        }
    }
}

/// Valid UTF-8 text starts with U+FEFF exactly when its bytes start with the
/// UTF-8 byte order mark; and valid UTF-8 never starts with 0xFE or 0xFF.
proof fn lemma_utf8_start(d: Seq<u8>)
    requires
        valid_utf8(d),
        d.len() > 0,
    ensures
        d[0] != 0xfe && d[0] != 0xff,
        starts_with_bytes(d, bom_utf8()) <==> decode_utf8(d)[0] == '\u{feff}',
{
    assert(decode_utf8(d)[0] == decode_first_scalar(d) as char);
    char_u32_cast('\u{feff}', 0xfeffu32);
    assert(codepoint_width_3(0xefu8, 0xbbu8, 0xbfu8) == 0xfeffu32) by (bit_vector);
    if starts_with_bytes(d, bom_utf8()) {
        assert(d[0] == d.subrange(0, 3)[0] && d[1] == d.subrange(0, 3)[1] && d[2] == d.subrange(
            0,
            3,
        )[2]);
        assert(decode_first_scalar(d) == 0xfeffu32);
    }
    if decode_utf8(d)[0] == '\u{feff}' {
        decode_utf8_first_scalar(d);
        char_is_scalar(decode_utf8(d)[0]);
        assert(decode_first_scalar(d) as char == '\u{feff}');
        assert(('\u{feff}' as u32) == 0xfeffu32);
        assert(leading_byte_width_3(0xfeffu32) == 0xefu8) by (bit_vector);
        assert(second_last_continuation_byte(0xfeffu32) == 0xbbu8) by (bit_vector);
        assert(last_continuation_byte(0xfeffu32) == 0xbfu8) by (bit_vector);
        assert(encode_scalar(0xfeffu32) =~= bom_utf8());
        assert(take_first_scalar(d) =~= bom_utf8());
        assert(d.subrange(0, 3) =~= take_first_scalar(d));
    }
}

/// Valid UTF-8 without NUL and without a byte order mark decodes as UTF-8,
/// strictly and lazily, when no charset is named.
proof fn lemma_unmarked_utf8_decodes(d: Seq<u8>)
    requires
        valid_utf8(d),
        forall|i: int| 0 <= i < d.len() ==> d[i] != 0,
        !starts_with_bytes(d, bom_utf8()),
    ensures
        spec_strict_decode(d, None) == Ok::<Seq<char>, SpecError>(decode_utf8(d)),
{
    lemma_no_zero_no_utf16_guess(d);
    if d.len() > 0 {
        lemma_utf8_start(d);
        if starts_with_bytes(d, bom_le32()) || starts_with_bytes(d, bom_be32()) {
            assert(d[0] == d.subrange(0, 4)[0]);
        }
        if starts_with_bytes(d, bom_le16()) || starts_with_bytes(d, bom_be16()) {
            assert(d[0] == d.subrange(0, 2)[0]);
        }
    }
}

/// A UTF-8 byte order mark in front of valid UTF-8 without NUL changes
/// neither the decoded text nor the Markdown, in either mode.
pub proof fn utf8_mark_changes_nothing(
    data: Seq<u8>,
    lazy: bool,
    source: Option<Seq<char>>,
)
    requires
        valid_utf8(data),
        forall|i: int| 0 <= i < data.len() ==> data[i] != 0,
        !starts_with_bytes(data, bom_utf8()),
    ensures
        spec_decode_transcript(bom_utf8() + data, None, lazy) == spec_decode_transcript(
            data,
            None,
            lazy,
        ),
        spec_convert_bytes(bom_utf8() + data, None, lazy, source) == spec_convert_bytes(
            data,
            None,
            lazy,
            source,
        ),
{
    let marked = bom_utf8() + data;
    assert(marked.subrange(0, 3) =~= bom_utf8());
    assert(marked.subrange(3, marked.len() as int) =~= data);
    lemma_unmarked_utf8_decodes(data);
    let text = decode_utf8(data);
    lemma_scan(text, 0, eq_pred('\u{feff}'));
    if text.len() > 0 {
        lemma_utf8_start(data);
    }
    lemma_scan_at(text, 0, 0, eq_pred('\u{feff}'));
    assert(trim_bom(text) =~= text);
}

/// The UTF-8 bytes of a text without NUL, which does not start with U+FEFF,
/// decode to that text and convert as the text does, in either mode.
pub proof fn utf8_bytes_convert_like_their_text(
    text: Seq<char>,
    lazy: bool,
    source: Option<Seq<char>>,
)
    requires
        !text.contains('\0'),
        text.len() == 0 || text[0] != '\u{feff}',
    ensures
        spec_decode_transcript(encode_utf8(text), None, lazy) == Ok::<Seq<char>, SpecError>(text),
        spec_convert_bytes(encode_utf8(text), None, lazy, source) == spec_convert_text(
            text,
            source,
        ),
{
    let d = encode_utf8(text);
    encode_utf8_valid_utf8(text);
    encode_utf8_decode_utf8(text);
    lemma_utf8_without_nul(d);
    if d.len() > 0 {
        lemma_utf8_start(d);
    }
    lemma_unmarked_utf8_decodes(d);
}

/// The two bytes of a UTF-16 code unit in the given byte order.
pub open spec fn unit_bytes(u: int, le: bool) -> Seq<u8> {
    if le {
        seq![(u % 256) as u8, (u / 256) as u8]
    } else {
        seq![(u / 256) as u8, (u % 256) as u8]
    }
}

/// The UTF-16 encoding of one character: one code unit, or a surrogate pair.
pub open spec fn char_utf16(c: char, le: bool) -> Seq<u8> {
    let v = c as u32 as int;
    if v < 0x10000 {
        unit_bytes(v, le)
    } else {
        unit_bytes(0xD800 + (v - 0x10000) / 0x400, le) + unit_bytes(
            0xDC00 + (v - 0x10000) % 0x400,
            le,
        )
    }
}

/// The UTF-16 encoding of a text (`str::encode_utf16`, as bytes).
pub open spec fn encode_utf16(s: Seq<char>, le: bool) -> Seq<u8>
    decreases s.len(),
{
    if s.len() == 0 {
        Seq::empty()
    } else {
        char_utf16(s[0], le) + encode_utf16(s.drop_first(), le)
    }
}

proof fn lemma_encode_utf16_even(s: Seq<char>, le: bool)
    ensures
        encode_utf16(s, le).len() % 2 == 0,
    decreases s.len(),
{
    if s.len() > 0 {
        lemma_encode_utf16_even(s.drop_first(), le);
    }
}

proof fn lemma_unit_at(d: Seq<u8>, i: int, u: int, le: bool)
    requires
        0 <= u < 0x10000,
        0 <= i,
        2 * i + 1 < d.len(),
        d[2 * i] == unit_bytes(u, le)[0],
        d[2 * i + 1] == unit_bytes(u, le)[1],
    ensures
        unit16(d, i, le) == u,
{
    assert(u == (u % 256) + 256 * (u / 256)) by (nonlinear_arith);
    assert(0 <= u % 256 < 256 && 0 <= u / 256 < 256) by (nonlinear_arith)
        requires
            0 <= u < 0x10000,
    ;
}

proof fn lemma_utf16_shift(x: Seq<u8>, y: Seq<u8>, le: bool, i: int)
    requires
        x.len() % 2 == 0,
        0 <= i,
    ensures
        utf16_from(x + y, le, x.len() / 2 + i) == utf16_from(y, le, i),
    decreases y.len() / 2 - i,
{
    let xy = x + y;
    let h = x.len() / 2;
    assert(x.len() == 2 * h);
    assert(xy.len() / 2 == h + y.len() / 2);
    if i < y.len() / 2 {
        assert(xy[2 * (h + i)] == y[2 * i] && xy[2 * (h + i) + 1] == y[2 * i + 1]);
        assert(unit16(xy, h + i, le) == unit16(y, i, le));
        if i + 1 < y.len() / 2 {
            assert(xy[2 * (h + i + 1)] == y[2 * (i + 1)] && xy[2 * (h + i + 1) + 1] == y[2 * (i + 1)
                + 1]);
            assert(unit16(xy, h + i + 1, le) == unit16(y, i + 1, le));
            lemma_utf16_shift(x, y, le, i + 2);
        }
        lemma_utf16_shift(x, y, le, i + 1);
    }
}

proof fn lemma_utf16_round_trip(s: Seq<char>, le: bool)
    ensures
        utf16_from(encode_utf16(s, le), le, 0) == Some(s),
    decreases s.len(),
{
    if s.len() > 0 {
        let c = s[0];
        let v = c as u32 as int;
        let first = char_utf16(c, le);
        let rest = encode_utf16(s.drop_first(), le);
        let d = first + rest;
        assert(d == encode_utf16(s, le));
        lemma_utf16_round_trip(s.drop_first(), le);
        char_is_scalar(c);
        char_u32_cast(c, c as u32);
        if v < 0x10000 {
            lemma_unit_at(d, 0, v, le);
            lemma_utf16_shift(first, rest, le, 0);
            assert(((v as u32) as char) == c);
        } else {
            let w = v - 0x10000;
            let hi = 0xD800 + w / 0x400;
            let lo = 0xDC00 + w % 0x400;
            assert(0 <= w / 0x400 < 0x400 && 0 <= w % 0x400 < 0x400 && w == (w / 0x400) * 0x400 + w
                % 0x400) by (nonlinear_arith)
                requires
                    0 <= w <= 0xFFFFF,
            ;
            lemma_unit_at(d, 0, hi, le);
            lemma_unit_at(d, 1, lo, le);
            lemma_utf16_shift(first, rest, le, 0);
            assert(0x10000 + (hi - 0xD800) * 0x400 + (lo - 0xDC00) == v);
            assert(((v as u32) as char) == c);
        }
        assert(seq![c] + s.drop_first() =~= s);
    }
}

/// UTF-16 decoding gives back the text whose UTF-16 encoding it reads, in
/// either byte order; bytes of odd length are refused.
pub proof fn utf16_decoding_undoes_encoding(text: Seq<char>, le: bool, data: Seq<u8>)
    ensures
        spec_utf16(encode_utf16(text, le), le) == Ok::<Seq<char>, SpecError>(text),
        data.len() % 2 != 0 ==> spec_utf16(data, le) == Err::<Seq<char>, SpecError>(
            SpecError::Decode("Invalid UTF-16 byte length."@),
        ),
{
    lemma_encode_utf16_even(text, le);
    lemma_utf16_round_trip(text, le);
}

proof fn lemma_le_mark_is_not_utf32(text: Seq<char>)
    requires
        text.len() == 0 || text[0] != '\0',
    ensures
        !starts_with_bytes(bom_le16() + encode_utf16(text, true), bom_utf8()),
        !starts_with_bytes(bom_le16() + encode_utf16(text, true), bom_le32()),
        starts_with_bytes(bom_le16() + encode_utf16(text, true), bom_le16()),
{
    let le = bom_le16() + encode_utf16(text, true);
    assert(le.subrange(0, 2) =~= bom_le16());
    if starts_with_bytes(le, bom_utf8()) {
        assert(le[0] == le.subrange(0, 3)[0]);
    }
    if starts_with_bytes(le, bom_le32()) {
        let e = encode_utf16(text, true);
        assert(le[2] == le.subrange(0, 4)[2] && le[3] == le.subrange(0, 4)[3]);
        assert(e[0] == 0 && e[1] == 0);
        let c = text[0];
        let v = c as u32 as int;
        assert(e == char_utf16(c, true) + encode_utf16(text.drop_first(), true));
        if v < 0x10000 {
            lemma_unit_at(e, 0, v, true);
            assert(unit16(e, 0, true) == 0);
            char_u32_cast(c, 0u32);
            char_u32_cast('\0', 0u32);
        } else {
            let hi = 0xD800 + (v - 0x10000) / 0x400;
            char_is_scalar(c);
            assert(0 <= (v - 0x10000) / 0x400 < 0x400) by (nonlinear_arith)
                requires
                    0x10000 <= v <= 0x10FFFF,
            ;
            lemma_unit_at(e, 0, hi, true);
        }
    }
}

#[verifier::spinoff_prover]
#[verifier::rlimit(40)]
proof fn lemma_marked_utf16_decodes(text: Seq<char>, le: bool, lazy: bool)
    requires
        text.len() == 0 || (text[0] != '\u{feff}' && text[0] != '\0'),
    ensures
        spec_decode_transcript(
            (if le {
                bom_le16()
            } else {
                bom_be16()
            }) + encode_utf16(text, le),
            None,
            lazy,
        ) == Ok::<Seq<char>, SpecError>(text),
{
    let mark = if le {
        bom_le16()
    } else {
        bom_be16()
    };
    let d = mark + encode_utf16(text, le);
    utf16_decoding_undoes_encoding(text, le, Seq::empty());
    lemma_scan_at(text, 0, 0, eq_pred('\u{feff}'));
    assert(trim_bom(text) =~= text);
    assert(d.subrange(2, d.len() as int) =~= encode_utf16(text, le));
    if le {
        lemma_le_mark_is_not_utf32(text);
    } else {
        assert(d.subrange(0, 2) =~= bom_be16());
        lemma_be_mark_stands_alone(d);
    }
    assert(spec_strict_decode(d, None) == Ok::<Seq<char>, SpecError>(text));
}

/// A UTF-16 byte order mark followed by a text's UTF-16 encoding, in either
/// byte order, decodes to the text and converts as the text does, in either
/// mode (for a text that starts with neither U+FEFF nor NUL).
pub proof fn utf16_with_mark_converts_like_its_text(
    text: Seq<char>,
    lazy: bool,
    source: Option<Seq<char>>,
)
    requires
        text.len() == 0 || (text[0] != '\u{feff}' && text[0] != '\0'),
    ensures
        spec_decode_transcript(bom_le16() + encode_utf16(text, true), None, lazy) == Ok::<
            Seq<char>,
            SpecError,
        >(text),
        spec_decode_transcript(bom_be16() + encode_utf16(text, false), None, lazy) == Ok::<
            Seq<char>,
            SpecError,
        >(text),
        spec_convert_bytes(bom_le16() + encode_utf16(text, true), None, lazy, source)
            == spec_convert_text(text, source),
        spec_convert_bytes(bom_be16() + encode_utf16(text, false), None, lazy, source)
            == spec_convert_text(text, source),
{
    lemma_marked_utf16_decodes(text, true, lazy);
    lemma_marked_utf16_decodes(text, false, lazy);
}

/// Bytes that start with 0xFE start with no byte order mark but the UTF-16
/// big-endian one.
proof fn lemma_be_mark_stands_alone(be: Seq<u8>)
    requires
        starts_with_bytes(be, bom_be16()),
    ensures
        !starts_with_bytes(be, bom_utf8()),
        !starts_with_bytes(be, bom_le32()),
        !starts_with_bytes(be, bom_be32()),
        !starts_with_bytes(be, bom_le16()),
{
    assert(be[0] == be.subrange(0, 2)[0]);
    if starts_with_bytes(be, bom_utf8()) {
        assert(be[0] == be.subrange(0, 3)[0]);
    }
    if starts_with_bytes(be, bom_le32()) || starts_with_bytes(be, bom_be32()) {
        assert(be[0] == be.subrange(0, 4)[0]);
    }
}

/// Each ruleset's name selects that ruleset, and no other.
pub proof fn each_ruleset_is_found_by_its_name(r: RuleSet)
    ensures
        ruleset_named(r.source_name()) == Some(r),
{
    reveal_strlit("generic_webvtt");
    reveal_strlit("meeting_novoicetag");
    reveal_strlit("ms_teams_event");
    reveal_strlit("ms_teams_scheduled");
    reveal_strlit("zoom_event");
    reveal_strlit("zoom_scheduled");
    let g = RuleSet::GenericWebvtt.source_name();
    let m = RuleSet::MeetingNovoicetag.source_name();
    let te = RuleSet::MsTeamsEvent.source_name();
    let ts = RuleSet::MsTeamsScheduled.source_name();
    let ze = RuleSet::ZoomEvent.source_name();
    let zs = RuleSet::ZoomScheduled.source_name();
    assert(g[0] != m[0] && g[0] != te[0] && g[0] != ts[0] && g[0] != ze[0] && g[0] != zs[0]);
    assert(m[0] != ze[0] && m[0] != zs[0] && m.len() != te.len() && m[1] != ts[1]);
    assert(te[0] != ze[0] && te[0] != zs[0] && te.len() != ts.len());
    assert(ts[0] != ze[0] && ts[0] != zs[0]);
    assert(ze.len() != zs.len());
}

/// A named source renders with that ruleset, whatever the document.
pub proof fn named_source_is_used(blocks: Seq<SpecBlock>, r: RuleSet)
    ensures
        spec_get_ruleset(Some(r.source_name()), Some(blocks)) == Ok::<RuleSet, SpecError>(r),
        spec_render_markdown(blocks, Some(r.source_name())) == Ok::<Seq<char>, SpecError>(
            render_with(r, blocks),
        ),
{
    each_ruleset_is_found_by_its_name(r);
}

/// A name that selects no ruleset is refused, for a document and for a
/// transcript that parses.
pub proof fn unknown_source_is_refused(blocks: Seq<SpecBlock>, text: Seq<char>, name: Seq<char>)
    requires
        ruleset_named(name) is None,
    ensures
        spec_render_markdown(blocks, Some(name)) == Err::<Seq<char>, SpecError>(
            SpecError::Unsupported(name),
        ),
        spec_parse_webvtt(text) is Ok ==> spec_convert_text(text, Some(name)) == Err::<
            Seq<char>,
            SpecError,
        >(SpecError::Unsupported(name)),
{
}

proof fn lemma_fold_cues_have_text(raws: Seq<Seq<Seq<char>>>)
    ensures
        parse_fold(raws) matches Ok(bs) ==> forall|i: int|
            0 <= i < bs.len() ==> (#[trigger] bs[i] matches SpecBlock::Cue(c) ==> !is_blank(c.text)),
    decreases raws.len(),
{
    if raws.len() > 0 {
        lemma_fold_cues_have_text(raws.drop_last());
    }
}

/// Every cue of a parsed transcript has text that is not blank.
pub proof fn parsed_cues_have_text(transcript: Seq<char>)
    ensures
        spec_parse_webvtt(transcript) matches Ok(bs) ==> forall|i: int|
            0 <= i < bs.len() ==> (#[trigger] bs[i] matches SpecBlock::Cue(c) ==> !is_blank(c.text)),
{
    lemma_fold_cues_have_text(raw_blocks(transcript));
}

/// Tidying gives nothing for nothing, and otherwise text that ends with a newline.
pub proof fn tidied_markdown_ends_with_newline(markdown: Seq<char>, source: Option<Seq<char>>)
    ensures
        spec_postprocess(markdown, source).len() == 0 <==> markdown.len() == 0,
        markdown.len() > 0 ==> spec_postprocess(markdown, source).last() == '\n',
{
}

/// Joining leaves no two neighbouring blocks that could still be joined: after
/// it, neighbouring speaker blocks differ in speaker or one holds a list.
pub proof fn joined_blocks_cannot_be_joined_further(blocks: Seq<SpecMd>)
    ensures
        forall|i: int|
            0 <= i < merge_fold(blocks).len() - 1 ==> !stitchable(
                #[trigger] merge_fold(blocks)[i],
                merge_fold(blocks)[i + 1],
            ),
    decreases blocks.len(),
{
    if blocks.len() > 0 {
        let init = merge_fold(blocks.drop_last());
        joined_blocks_cannot_be_joined_further(blocks.drop_last());
        let out = merge_fold(blocks);
        let b = blocks.last();
        if init.len() > 0 && stitchable(init.last(), b) {
            let n = init.len();
            assert forall|i: int| 0 <= i < out.len() - 1 implies !stitchable(
                #[trigger] out[i],
                out[i + 1],
            ) by {
                if i + 1 < n - 1 {
                    assert(out[i] == init[i] && out[i + 1] == init[i + 1]);
                } else {
                    assert(out[i] == init[n - 2]);
                    assert(!stitchable(init[n - 2], init[n - 1]));
                }
            }
        } else if init.len() > 0 {
            assert forall|i: int| 0 <= i < out.len() - 1 implies !stitchable(
                #[trigger] out[i],
                out[i + 1],
            ) by {
                if i + 1 < init.len() {
                    assert(out[i] == init[i] && out[i + 1] == init[i + 1]);
                }
            }
        }
    }
}

/// Rendered Markdown is empty or ends with a newline.
pub proof fn markdown_is_empty_or_ends_with_newline(blocks: Seq<SpecBlock>, source: Option<Seq<char>>)
    ensures
        spec_render_markdown(blocks, source) matches Ok(md) ==> md.len() == 0 || md.last() == '\n',
{
}

/// A text with every `\n` written as `\r\n`.
pub open spec fn crlf(s: Seq<char>) -> Seq<char>
    decreases s.len(),
{
    if s.len() == 0 {
        Seq::empty()
    } else {
        (if s[0] == '\n' {
            seq!['\r', '\n']
        } else {
            seq![s[0]]
        }) + crlf(s.drop_first())
    }
}

proof fn lemma_crlf_concat(x: Seq<char>, y: Seq<char>)
    ensures
        crlf(x + y) == crlf(x) + crlf(y),
    decreases x.len(),
{
    if x.len() > 0 {
        assert((x + y).drop_first() =~= x.drop_first() + y);
        lemma_crlf_concat(x.drop_first(), y);
        assert((x + y)[0] == x[0]);
    } else {
        assert(x + y =~= y);
    }
}

proof fn lemma_crlf_plain(a: Seq<char>)
    requires
        !a.contains('\n'),
    ensures
        crlf(a) == a,
    decreases a.len(),
{
    if a.len() > 0 {
        assert(a[0] != '\n');
        assert forall|j: int| 0 <= j < a.drop_first().len() implies a.drop_first()[j] != '\n' by {
            assert(a.drop_first()[j] == a[j + 1]);
        }
        lemma_crlf_plain(a.drop_first());
        assert(a =~= seq![a[0]] + a.drop_first());
    }
}

proof fn lemma_lines_shift(s: Seq<char>, p: int, q: int)
    requires
        0 <= p <= q <= s.len(),
    ensures
        lines_from(s, q) == lines_from(s.subrange(p, s.len() as int), q - p),
    decreases s.len() - q,
{
    let t = s.subrange(p, s.len() as int);
    if q < s.len() {
        let k = scan(s, q, ne_pred('\n'));
        lemma_scan(s, q, ne_pred('\n'));
        assert forall|j: int| q - p <= j < k - p implies #[trigger] ne_pred('\n')(t[j]) by {
            assert(t[j] == s[j + p]);
            assert(ne_pred('\n')(s[j + p]));
        }
        if k < s.len() {
            assert(t[k - p] == s[k]);
        }
        lemma_scan_at(t, q - p, k - p, ne_pred('\n'));
        assert(s.subrange(q, k) =~= t.subrange(q - p, k - p));
        assert(s.subrange(q, s.len() as int) =~= t.subrange(q - p, t.len() as int));
        if k < s.len() {
            lemma_lines_shift(s, p, k + 1);
        }
    }
}

proof fn lemma_crlf_lines(s: Seq<char>)
    requires
        !s.contains('\r'),
    ensures
        lines_of(crlf(s)) == lines_of(s),
    decreases s.len(),
{
    if s.len() > 0 {
        let k = scan(s, 0, ne_pred('\n'));
        lemma_scan(s, 0, ne_pred('\n'));
        let a = s.subrange(0, k);
        assert forall|j: int| 0 <= j < a.len() implies a[j] != '\n' by {
            assert(ne_pred('\n')(s[j]));
        }
        if k == s.len() {
            assert(a =~= s);
            lemma_crlf_plain(s);
        } else {
            let rest = s.subrange(k + 1, s.len() as int);
            assert(s =~= a + (seq!['\n'] + rest));
            lemma_crlf_concat(a, seq!['\n'] + rest);
            lemma_crlf_plain(a);
            assert((seq!['\n'] + rest).drop_first() =~= rest);
            let c = crlf(s);
            assert(c == a + (seq!['\r', '\n'] + crlf(rest)));
            assert forall|j: int| 0 <= j < k + 1 implies #[trigger] ne_pred('\n')(c[j]) by {
                if j < k {
                    assert(c[j] == a[j]);
                } else {
                    assert(c[j] == '\r');
                }
            }
            assert(c[k + 1] == '\n');
            lemma_scan_at(c, 0, k + 1, ne_pred('\n'));
            assert(c.subrange(0, k + 1) =~= a.push('\r'));
            assert(c.subrange(0, k + 1).drop_last() =~= a);
            if a.len() > 0 {
                assert(a.last() == s[k - 1]);
                assert(s[k - 1] != '\r');
            }
            assert(strip_cr(a) == a);
            lemma_lines_shift(c, k + 2, k + 2);
            assert(c.subrange(k + 2, c.len() as int) =~= crlf(rest));
            lemma_lines_shift(s, k + 1, k + 1);
            assert forall|j: int| 0 <= j < rest.len() implies rest[j] != '\r' by {
                assert(rest[j] == s[j + k + 1]);
            }
            lemma_crlf_lines(rest);
        }
    }
}

/// Writing every line end of a transcript as `\r\n` instead of `\n` does not
/// change what it parses to (for a transcript without `\r` of its own).
pub proof fn crlf_line_endings_parse_alike(transcript: Seq<char>)
    requires
        !transcript.contains('\r'),
    ensures
        spec_parse_webvtt(crlf(transcript)) == spec_parse_webvtt(transcript),
{
    lemma_crlf_lines(transcript);
}

/// `a` claims no more strongly than `b`: lower confidence, or equal confidence
/// and no higher importance.
pub open spec fn claim_at_most(a: SpecMatch, b: SpecMatch) -> bool {
    a.confidence < b.confidence || (a.confidence == b.confidence && a.importance <= b.importance)
}

proof fn lemma_best_index_is_greatest(ms: Seq<SpecMatch>)
    requires
        ms.len() > 0,
        forall|i: int, j: int|
            0 <= i < j < ms.len() ==> #[trigger] ms[i].importance != #[trigger] ms[j].importance,
    ensures
        0 <= best_index(ms) < ms.len(),
        forall|j: int| 0 <= j < ms.len() ==> claim_at_most(#[trigger] ms[j], ms[best_index(ms)]),
    decreases ms.len(),
{
    if ms.len() > 1 {
        let init = ms.drop_last();
        lemma_best_index_is_greatest(init);
        let b = best_index(init);
        assert(init[b] == ms[b]);
        assert(ms[b].importance != ms.last().importance);
        assert forall|j: int| 0 <= j < ms.len() implies claim_at_most(
            #[trigger] ms[j],
            ms[best_index(ms)],
        ) by {
            if j < ms.len() - 1 {
                assert(init[j] == ms[j]);
            }
        }
    }
}

/// Detection picks a ruleset that no other ruleset out-claims: none has a
/// higher confidence, or an equal confidence and a higher importance.
pub proof fn detection_picks_the_strongest_claim(blocks: Seq<SpecBlock>, r: RuleSet)
    ensures
        claim_at_most(score_of(r, blocks), score_of(detected(blocks), blocks)),
        0 <= score_of(r, blocks).confidence <= 10,
{
    let ms = spec_scores(blocks);
    assert(ms.len() == 6);
    assert forall|i: int, j: int|
        0 <= i < j < ms.len() implies #[trigger] ms[i].importance != #[trigger] ms[j].importance by {
        assert(ms[i] == score_of(rulesets()[i], blocks));
        assert(ms[j] == score_of(rulesets()[j], blocks));
    }
    lemma_best_index_is_greatest(ms);
    let b = best_index(ms);
    assert(ms[b] == score_of(detected(blocks), blocks));
    let k: int = match r {
        RuleSet::GenericWebvtt => 0,
        RuleSet::MeetingNovoicetag => 1,
        RuleSet::MsTeamsEvent => 2,
        RuleSet::MsTeamsScheduled => 3,
        RuleSet::ZoomEvent => 4,
        RuleSet::ZoomScheduled => 5,
    };
    assert(rulesets()[k] == r);
    assert(ms[k] == score_of(r, blocks));
}

/// The Markdown of each chunk of blocks from `start` on, each rendered on its
/// own with the named source, trailing newlines trimmed, empty ones dropped.
pub open spec fn separately_rendered(name: Seq<char>, blocks: Seq<SpecBlock>, start: int) -> Seq<
    Seq<char>,
>
    decreases blocks.len() - start,
{
    if 0 <= start < blocks.len() {
        let end = chunk_end(blocks.len() as int, start);
        let md = match spec_render_markdown(blocks.subrange(start, end), Some(name)) {
            Ok(m) => trim_end_newlines(m),
            Err(_) => Seq::empty(),
        };
        let rest = separately_rendered(name, blocks, end);
        if md.len() > 0 {
            seq![md] + rest
        } else {
            rest
        }
    } else {
        Seq::empty()
    }
}

proof fn lemma_separately_rendered(r: RuleSet, blocks: Seq<SpecBlock>, start: int)
    ensures
        separately_rendered(r.source_name(), blocks, start) == render_chunks(r, blocks, start),
    decreases blocks.len() - start,
{
    if 0 <= start < blocks.len() {
        let end = chunk_end(blocks.len() as int, start);
        named_source_is_used(blocks.subrange(start, end), r);
        lemma_separately_rendered(r, blocks, end);
    }
}

/// A document of more than 500 blocks renders as its chunks of 500 blocks do,
/// each rendered on its own with the chosen source: the non-empty ones, their
/// trailing newlines trimmed, joined by a blank line and ended by a newline;
/// a lone newline when all are empty.
pub proof fn long_documents_render_chunk_by_chunk(blocks: Seq<SpecBlock>, source: Option<Seq<char>>)
    requires
        blocks.len() > 500,
    ensures
        match spec_get_ruleset(source, Some(blocks)) {
            Ok(r) => spec_render_markdown(blocks, source) == Ok::<Seq<char>, SpecError>(
                if separately_rendered(r.source_name(), blocks, 0).len() == 0 {
                    seq!['\n']
                } else {
                    join(separately_rendered(r.source_name(), blocks, 0), seq!['\n', '\n']) + seq![
                        '\n',
                    ]
                },
            ),
            Err(e) => spec_render_markdown(blocks, source) == Err::<Seq<char>, SpecError>(e),
        },
{
    if let Ok(r) = spec_get_ruleset(source, Some(blocks)) {
        lemma_separately_rendered(r, blocks, 0);
    }
}

/// Naming the detected source renders exactly what detection renders.
pub proof fn naming_the_detected_source_changes_nothing(blocks: Seq<SpecBlock>)
    ensures
        spec_render_markdown(blocks, Some(detected(blocks).source_name())) == spec_render_markdown(
            blocks,
            None,
        ),
{
    each_ruleset_is_found_by_its_name(detected(blocks));
}

} // verus!
