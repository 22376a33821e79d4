use webvtt_to_md::model::ConverterError;
use webvtt_to_md::patterns::{timing_match_exec, voice_match_exec};
use webvtt_to_md::{parse_webvtt, WebVttBlock};

fn chars(s: &str) -> Vec<char> {
    s.chars().collect()
}

fn piece(v: &[char], a: usize, b: usize) -> String {
    v[a..b].iter().collect()
}

#[test]
fn parses_cue_note_and_style_blocks() {
    let transcript = "WEBVTT\n\n1\n00:00:01.000 --> 00:00:02.500 align:start\n<v Alice Smith>Hello &amp; welcome</v>\n\nNOTE a comment\nsecond line\n\nSTYLE\n::cue { color: red }\n";
    let document = parse_webvtt(transcript).expect("parse should succeed");
    assert_eq!(document.blocks.len(), 3);
    match &document.blocks[0] {
        WebVttBlock::Cue(cue) => {
            assert_eq!(cue.identifier.as_deref(), Some("1"));
            assert_eq!(cue.start, "00:00:01.000");
            assert_eq!(cue.end, "00:00:02.500");
            assert_eq!(cue.voice.as_deref(), Some("Alice Smith"));
            assert_eq!(cue.text, "Hello & welcome");
            assert_eq!(cue.raw_lines, vec!["<v Alice Smith>Hello &amp; welcome</v>".to_owned()]);
        }
        other => panic!("expected a cue, got {other:?}"),
    }
    match &document.blocks[1] {
        WebVttBlock::Note(note) => {
            assert_eq!(note.lines, vec!["a comment".to_owned(), "second line".to_owned()])
        }
        other => panic!("expected a note, got {other:?}"),
    }
    match &document.blocks[2] {
        WebVttBlock::Style(style) => assert_eq!(style.lines, vec!["::cue { color: red }".to_owned()]),
        other => panic!("expected a style, got {other:?}"),
    }
}

#[test]
fn header_with_byte_order_mark_and_title_is_skipped() {
    let transcript = "\u{feff}WEBVTT - a title\n\n00:00:01.000 --> 00:00:02.000\nHi\n";
    let document = parse_webvtt(transcript).expect("parse should succeed");
    assert_eq!(document.blocks.len(), 1);
    match &document.blocks[0] {
        WebVttBlock::Cue(cue) => {
            assert_eq!(cue.identifier, None);
            assert_eq!(cue.text, "Hi");
            assert_eq!(cue.voice, None);
        }
        other => panic!("expected a cue, got {other:?}"),
    }
}

#[test]
fn crlf_lines_and_multiline_text_are_joined() {
    let transcript = "WEBVTT\r\n\r\n00:00:01.000 --> 00:00:02.000\r\nfirst\r\nsecond\r\n";
    let document = parse_webvtt(transcript).expect("parse should succeed");
    match &document.blocks[0] {
        WebVttBlock::Cue(cue) => {
            assert_eq!(cue.text, "first\nsecond");
            assert_eq!(cue.raw_lines, vec!["first".to_owned(), "second".to_owned()]);
        }
        other => panic!("expected a cue, got {other:?}"),
    }
}

#[test]
fn timing_only_blocks_and_blank_cues_are_dropped() {
    let transcript = "WEBVTT\n\n00:00:01.000 --> 00:00:02.000\n\nid\n00:00:02.000 --> 00:00:03.000\n\n00:00:03.000 --> 00:00:04.000\n<v Bob>   </v>\n";
    let document = parse_webvtt(transcript).expect("parse should succeed");
    assert!(document.blocks.is_empty(), "{:?}", document.blocks);
}

#[test]
fn empty_transcript_has_no_blocks() {
    let document = parse_webvtt("").expect("parse should succeed");
    assert!(document.blocks.is_empty());
}

#[test]
fn invalid_timing_line_is_reported_quoted() {
    let err = parse_webvtt("WEBVTT\n\nid\nnot a timing\ntext\n").expect_err("parse should fail");
    match &err {
        ConverterError::Parse(msg) => assert_eq!(msg, "Invalid timing line: \"not a timing\""),
        other => panic!("unexpected error {other:?}"),
    }
    assert_eq!(err.message(), "Invalid timing line: \"not a timing\"");
}

#[test]
fn single_line_block_is_refused() {
    let err = parse_webvtt("WEBVTT\n\nhello\n").expect_err("parse should fail");
    assert_eq!(err.message(), "Each cue block must contain at least timing and text.");
}

#[test]
fn identifier_without_timing_is_refused() {
    let err = parse_webvtt("WEBVTT\n\nid\ntext\n").expect_err("parse should fail");
    assert_eq!(err.message(), "Cue blocks with identifier must contain timing and text.");
}

#[test]
fn header_is_only_recognised_first() {
    let err = parse_webvtt("00:00:01.000 --> 00:00:02.000\nHi\n\nWEBVTT\n").expect_err("parse should fail");
    assert_eq!(err.message(), "Each cue block must contain at least timing and text.");
}

#[test]
fn voice_grammar_agrees_with_the_regular_expression() {
    let re = regex::Regex::new(r"(?s)^<v(?:\.[^>\s]+)?\s+([^>]+)>(.*)</v>$").unwrap();
    let samples = [
        "<v Alice>Hi</v>",
        "<v.loud Bob Jones>Hey there</v>",
        "<v  Ann>x</v>",
        "<v   >x</v>",
        "<v\tTom>line one\nline two</v>",
        "<v.>x</v>",
        "<vAlice>x</v>",
        "<v Alice>no close",
        "<v Alice></v>",
        "<v Alice>a</v> trailing",
        "<v A>b</v></v>",
        "plain text",
        "<v>x</v>",
        "<v Al>ice>x</v>",
    ];
    for s in samples {
        let v = chars(s);
        let ours = voice_match_exec(&v).map(|(a, b, c, d)| (piece(&v, a, b), piece(&v, c, d)));
        let theirs = re
            .captures(s)
            .map(|caps| (caps[1].to_owned(), caps[2].to_owned()));
        assert_eq!(ours, theirs, "sample {s:?}");
    }
}

#[test]
fn timing_grammar_agrees_with_the_regular_expression() {
    let re = regex::Regex::new(r"^(?P<start>\S+)\s+-->\s+(?P<end>\S+)(?:\s+.*)?$").unwrap();
    let samples = [
        "00:00:01.000 --> 00:00:02.000",
        "00:01.000 --> 00:02.000 align:start position:10%",
        "a\t-->\tb",
        "a --> b ",
        "a -->b",
        "a-->b",
        " a --> b",
        "a --> ",
        "a --> b\nc",
        "a --> b c\nd",
        "x y --> z",
        "a --> b\u{3000}c",
    ];
    for s in samples {
        let v = chars(s);
        let ours = timing_match_exec(&v).map(|(a, c, d)| (piece(&v, 0, a), piece(&v, c, d)));
        let theirs = re
            .captures(s)
            .map(|caps| (caps["start"].to_owned(), caps["end"].to_owned()));
        assert_eq!(ours, theirs, "sample {s:?}");
    }
}

#[test]
fn text_without_references_is_kept_as_written() {
    let transcript = "WEBVTT\n\n00:00:01.000 --> 00:00:02.000\n<v Bob O'Neil>1 < 2 > 0; x</v>\n\n00:00:02.000 --> 00:00:03.000\nsay \"hi\" & go\n";
    let document = parse_webvtt(transcript).expect("parse should succeed");
    match &document.blocks[0] {
        WebVttBlock::Cue(cue) => {
            assert_eq!(cue.voice.as_deref(), Some("Bob O'Neil"));
            assert_eq!(cue.text, "1 < 2 > 0; x");
        }
        other => panic!("expected a cue, got {other:?}"),
    }
    match &document.blocks[1] {
        WebVttBlock::Cue(cue) => assert_eq!(cue.text, "say \"hi\" & go"),
        other => panic!("expected a cue, got {other:?}"),
    }
}
