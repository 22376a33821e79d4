use webvtt_to_md::{
    convert_bytes_to_markdown, convert_text_to_markdown, decode_transcript_bytes,
    detect_generation_source, parse_webvtt,
};

/// Text in windows-1254 whose `ı` (0xFD) is no valid UTF-8.
fn cp1254_transcript() -> Vec<u8> {
    let mut bytes = b"WEBVTT\n\n1\n00:00:01.000 --> 00:00:02.000\nKonu\xfe\xfdlan: merhaba d\xfcnya\n".to_vec();
    bytes.extend_from_slice(b"\n2\n00:00:02.000 --> 00:00:03.000\nAy\xfee: selam\n");
    bytes
}

#[test]
fn strict_mode_rejects_wrong_explicit_charset() {
    let input = cp1254_transcript();
    let result = decode_transcript_bytes(&input, Some("utf-8"), false);
    assert!(result.is_err());
}

#[test]
fn lazy_mode_marks_decoding_errors() {
    let input = cp1254_transcript();
    let result = decode_transcript_bytes(&input, Some("utf-8"), true).expect("lazy decoding should succeed");
    assert!(result.contains("[ENC?]"));
}

#[test]
fn detection_matches_zoom_scheduled_case() {
    let transcript = "WEBVTT\n\n1\n00:00:01.000 --> 00:00:02.000\nSpeaker 1: Hello\n\n2\n00:00:02.000 --> 00:00:03.000\nSpeaker 2: Hi\n";
    let document = parse_webvtt(transcript).expect("parse should succeed");
    let source = detect_generation_source(&document).expect("detection should succeed");
    assert_eq!(source, "zoom_scheduled");
}

#[test]
fn zoom_scheduled_converts_to_speaker_blocks() {
    let transcript = "WEBVTT\n\n1\n00:00:01.000 --> 00:00:02.000\nSpeaker 1: Hello\n\n2\n00:00:02.000 --> 00:00:03.000\nSpeaker 2: Hi\n";
    let markdown = convert_text_to_markdown(transcript, None).expect("conversion should succeed");
    assert_eq!(markdown, "**(00:00:01) Speaker 1**\nHello\n\n**(00:00:02) Speaker 2**\nHi\n");
}

#[test]
fn cp1254_bytes_decode_with_fallback() {
    let input = cp1254_transcript();
    let markdown = convert_bytes_to_markdown(&input, None, false, None).expect("conversion should succeed");
    assert!(markdown.contains("Konu\u{15f}\u{131}lan"), "{markdown}");
}
