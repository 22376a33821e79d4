use webvtt_to_md::{
    convert_bytes_to_markdown, convert_text_to_markdown, decode_transcript_bytes,
    decode_with_marker, detect_generation_source_from_bytes, mark_undecodable,
    strict_decoding_outcome, ConverterError, ENCODING_ERROR_MARKER,
};

fn utf16(text: &str, little_endian: bool) -> Vec<u8> {
    let mut out = Vec::new();
    for unit in text.encode_utf16() {
        let bytes = if little_endian { unit.to_le_bytes() } else { unit.to_be_bytes() };
        out.extend_from_slice(&bytes);
    }
    out
}

fn utf32(text: &str, little_endian: bool) -> Vec<u8> {
    let mut out = Vec::new();
    for ch in text.chars() {
        let value = ch as u32;
        let bytes = if little_endian { value.to_le_bytes() } else { value.to_be_bytes() };
        out.extend_from_slice(&bytes);
    }
    out
}

fn decode_error(result: Result<String, ConverterError>) -> String {
    match result {
        Err(ConverterError::Decode(msg)) => msg,
        other => panic!("expected a decoding error, got {other:?}"),
    }
}

const ZOOM: &str = "WEBVTT\n\n1\n00:00:01.000 --> 00:00:02.000\nSpeaker 1: Hello\n\n2\n00:00:02.000 --> 00:00:03.000\nSpeaker 2: Hi\n";

#[test]
fn marker_is_the_documented_text() {
    assert_eq!(ENCODING_ERROR_MARKER, "[ENC?]");
}

#[test]
fn utf8_with_and_without_mark() {
    assert_eq!(decode_transcript_bytes(b"WEBVTT\n", None, false).unwrap(), "WEBVTT\n");
    assert_eq!(decode_transcript_bytes(b"\xef\xbb\xbfWEBVTT\n", None, false).unwrap(), "WEBVTT\n");
    assert_eq!(decode_transcript_bytes("gr\u{fc}\u{df}e".as_bytes(), None, false).unwrap(), "gr\u{fc}\u{df}e");
}

#[test]
fn invalid_utf8_after_mark_is_refused() {
    let msg = decode_error(decode_transcript_bytes(b"\xef\xbb\xbfa\xff", None, false));
    assert_eq!(msg, "Could not decode transcript bytes with UTF-8 BOM.");
    let lazy = decode_transcript_bytes(b"\xef\xbb\xbfa\xff", None, true).unwrap();
    assert_eq!(lazy, "a[ENC?]");
}

#[test]
fn utf16_marks_choose_byte_order() {
    let mut le = vec![0xff, 0xfe];
    le.extend(utf16("Hi \u{1f600}", true));
    assert_eq!(decode_transcript_bytes(&le, None, false).unwrap(), "Hi \u{1f600}");
    let mut be = vec![0xfe, 0xff];
    be.extend(utf16("Hi \u{1f600}", false));
    assert_eq!(decode_transcript_bytes(&be, None, false).unwrap(), "Hi \u{1f600}");
}

#[test]
fn utf32_marks_choose_byte_order() {
    let mut le = vec![0xff, 0xfe, 0x00, 0x00];
    le.extend(utf32("A\u{e9}", true));
    assert_eq!(decode_transcript_bytes(&le, None, false).unwrap(), "A\u{e9}");
    let mut be = vec![0x00, 0x00, 0xfe, 0xff];
    be.extend(utf32("A\u{e9}", false));
    assert_eq!(decode_transcript_bytes(&be, None, false).unwrap(), "A\u{e9}");
}

#[test]
fn utf16_without_mark_is_recognised() {
    let le = utf16("WEBVTT\n\nhello", true);
    assert_eq!(decode_transcript_bytes(&le, None, false).unwrap(), "WEBVTT\n\nhello");
    let be = utf16("WEBVTT\n\nhello", false);
    assert_eq!(decode_transcript_bytes(&be, None, false).unwrap(), "WEBVTT\n\nhello");
}

#[test]
fn utf16_transcript_converts_like_utf8() {
    let mut le = vec![0xff, 0xfe];
    le.extend(utf16(ZOOM, true));
    let from_utf16 = convert_bytes_to_markdown(&le, None, false, None).unwrap();
    let from_utf8 = convert_bytes_to_markdown(ZOOM.as_bytes(), None, false, None).unwrap();
    assert_eq!(from_utf16, from_utf8);
    assert_eq!(from_utf8, "**(00:00:01) Speaker 1**\nHello\n\n**(00:00:02) Speaker 2**\nHi\n");
}

#[test]
fn named_utf16_and_utf32_charsets() {
    assert_eq!(decode_transcript_bytes(&utf16("Hi", true), Some("utf-16le"), false).unwrap(), "Hi");
    assert_eq!(decode_transcript_bytes(&utf16("Hi", false), Some("UTF-16BE"), false).unwrap(), "Hi");
    let mut marked = vec![0xfe, 0xff];
    marked.extend(utf16("Hi", false));
    assert_eq!(decode_transcript_bytes(&marked, Some("utf-16"), false).unwrap(), "Hi");
    assert_eq!(decode_transcript_bytes(&utf16("Hi", true), Some("utf-16"), false).unwrap(), "Hi");
    assert_eq!(decode_transcript_bytes(&utf32("Hi", false), Some("utf-32be"), false).unwrap(), "Hi");
    assert_eq!(decode_transcript_bytes(&utf32("Hi", true), Some("Utf-32"), false).unwrap(), "Hi");
}

#[test]
fn utf16_errors() {
    let msg = decode_error(decode_transcript_bytes(b"abc", Some("utf-16le"), false));
    assert_eq!(msg, "Invalid UTF-16 byte length.");
    let msg = decode_error(decode_transcript_bytes(&[0x00, 0xd8, 0x41, 0x00], Some("utf-16le"), false));
    assert_eq!(msg, "Invalid UTF-16 sequence.");
}

#[test]
fn utf32_errors() {
    let msg = decode_error(decode_transcript_bytes(b"abcde", Some("utf-32le"), false));
    assert_eq!(msg, "Invalid UTF-32 byte length.");
    let msg = decode_error(decode_transcript_bytes(&[0x00, 0x00, 0x11, 0x00], Some("utf-32le"), false));
    assert_eq!(msg, "Invalid UTF-32 code point.");
}

#[test]
fn unknown_charset_is_refused_strictly_and_marked_lazily() {
    let msg = decode_error(decode_transcript_bytes(b"abc", Some("no-such-charset"), false));
    assert_eq!(msg, "Unknown charset: no-such-charset");
    let lazy = decode_transcript_bytes(b"a\xffc", Some("no-such-charset"), true).unwrap();
    assert_eq!(lazy, "a[ENC?]c");
}

#[test]
fn named_legacy_charsets() {
    assert_eq!(decode_transcript_bytes(&[0xcf, 0xf0, 0xe8], Some("cp1251"), false).unwrap(), "\u{41f}\u{440}\u{438}");
    assert_eq!(decode_transcript_bytes(&[0x80], Some("windows-1252"), false).unwrap(), "\u{20ac}");
}

#[test]
fn strict_utf8_charset_names_the_encoding() {
    let msg = decode_error(decode_transcript_bytes(b"a\xffb", Some("utf-8"), false));
    assert_eq!(msg, "Could not decode transcript bytes with encoding UTF-8.");
    assert_eq!(decode_transcript_bytes(b"\xef\xbb\xbfab", Some("utf-8"), false).unwrap(), "ab");
}

#[test]
fn lazy_marks_each_bad_sequence() {
    assert_eq!(decode_with_marker(b"a\xffb\xfe", "utf-8"), "a[ENC?]b[ENC?]");
    assert_eq!(decode_with_marker(&[0x00, 0xd8], "utf-16le"), "\u{0}[ENC?]");
    assert_eq!(decode_with_marker(b"ok", "utf-32"), "ok");
    assert_eq!(decode_transcript_bytes(b"a\xffb", Some("utf-8"), true).unwrap(), "a[ENC?]b");
}

#[test]
fn lazy_mode_keeps_valid_input() {
    assert_eq!(decode_transcript_bytes(b"fine", Some("utf-8"), true).unwrap(), "fine");
    assert_eq!(decode_transcript_bytes(b"fine", None, true).unwrap(), "fine");
}

#[test]
fn detection_from_bytes() {
    assert_eq!(detect_generation_source_from_bytes(ZOOM.as_bytes(), None, false).unwrap(), "zoom_scheduled");
    let err = detect_generation_source_from_bytes(b"WEBVTT\n\nhello\n", None, false).unwrap_err();
    assert_eq!(err.message(), "Each cue block must contain at least timing and text.");
}

#[test]
fn convert_bytes_reports_decoding_errors() {
    let msg = decode_error(convert_bytes_to_markdown(b"a\xff", Some("utf-8"), false, None));
    assert_eq!(msg, "Could not decode transcript bytes with encoding UTF-8.");
    let markdown = convert_bytes_to_markdown(b"WEBVTT\n\n00:00:01.000 --> 00:00:02.000\nbad \xff byte\n", Some("utf-8"), true, Some("generic_webvtt")).unwrap();
    assert_eq!(markdown, "**(00:00:01)**\nbad [ENC?] byte\n");
}

#[test]
fn lazy_decoding_accepts_any_bytes() {
    assert_eq!(decode_transcript_bytes(b"\xff\xfe\x00", None, true).unwrap(), "\u{0}");
    assert!(decode_transcript_bytes(b"\xff\xfe\x00", None, false).is_err());
    for charset in [None, Some("utf-8"), Some("utf-16"), Some("utf-32be"), Some("bogus")] {
        assert!(decode_transcript_bytes(b"\x00\xd8\xff", charset, true).is_ok(), "{charset:?}");
    }
}

#[test]
fn lazy_marks_what_a_named_encoding_cannot_decode() {
    let msg = decode_error(decode_transcript_bytes(b"a\x81", Some("shift_jis"), false));
    assert_eq!(msg, "Could not decode transcript bytes with encoding Shift_JIS.");
    assert_eq!(decode_transcript_bytes(b"a\x81", Some("shift_jis"), true).unwrap(), "a[ENC?]");
}

#[test]
fn strict_outcome_names_the_encoding() {
    let err = strict_decoding_outcome("UTF-8", "abc".to_owned(), true).unwrap_err();
    assert_eq!(err.message(), "Could not decode transcript bytes with encoding UTF-8.");
    assert_eq!(strict_decoding_outcome("windows-1252", "abc".to_owned(), false).unwrap(), "abc");
}

#[test]
fn replacement_characters_become_markers() {
    assert_eq!(mark_undecodable("a\u{fffd}b\u{fffd}".to_owned()), "a[ENC?]b[ENC?]");
    assert_eq!(mark_undecodable("plain".to_owned()), "plain");
}

#[test]
fn unmarked_bytes_always_decode_strictly() {
    for data in [&b"\x81\x8d\xff\x00\x9d"[..], b"\xc3\x28", b"\xfd\xfe\xfd", b""] {
        assert!(decode_transcript_bytes(data, None, false).is_ok(), "{data:?}");
    }
}

#[test]
fn utf8_mark_changes_no_conversion() {
    let mut marked = vec![0xef, 0xbb, 0xbf];
    marked.extend_from_slice(ZOOM.as_bytes());
    assert_eq!(
        convert_bytes_to_markdown(&marked, None, false, None).unwrap(),
        convert_bytes_to_markdown(ZOOM.as_bytes(), None, false, None).unwrap()
    );
}

#[test]
fn utf8_and_utf16_bytes_convert_like_their_text() {
    let text = "WEBVTT\n\n00:00:01.000 --> 00:00:02.000\nAnn: gr\u{fc}\u{df}e \u{1f600}\n";
    let expected = convert_text_to_markdown(text, None).unwrap();
    assert_eq!(convert_bytes_to_markdown(text.as_bytes(), None, false, None).unwrap(), expected);
    for little_endian in [true, false] {
        let mut bytes = if little_endian { vec![0xff, 0xfe] } else { vec![0xfe, 0xff] };
        bytes.extend(utf16(text, little_endian));
        assert_eq!(decode_transcript_bytes(&bytes, None, false).unwrap(), text);
        assert_eq!(convert_bytes_to_markdown(&bytes, None, true, None).unwrap(), expected);
    }
}
