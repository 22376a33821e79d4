use webvtt_to_md::ranking::compare_matches;
use webvtt_to_md::{
    convert_text_to_markdown, detect_generation_source, parse_webvtt, postprocess_markdown,
    render_decoded_markup, render_inline_tags, render_markdown, score_generation_sources, transcript_to_markdown,
    ConverterError, Source, WebVttDocument,
};

const TEAMS_SCHEDULED: &str = "WEBVTT\n\nd1b5/11-0\n00:00:01.000 --> 00:00:02.000\n<v Alice>Hello there</v>\n\nd1b5/11-1\n00:00:02.000 --> 00:00:03.000\n<v Alice>second part</v>\n\nd1b5/12-0\n00:00:04.000 --> 00:00:05.000\n<v Bob>Reply</v>\n";

const TEAMS_EVENT: &str = "WEBVTT\n\nx/7-1\n00:00:01.000 --> 00:00:02.000\nHello\n\nx/7-2\n00:00:02.000 --> 00:00:03.000\nagain\n";

const ZOOM_EVENT: &str = "WEBVTT\n\n1\n00:00:01.000 --> 00:00:02.000\nGood morning\n\n2\n00:00:03.000 --> 00:00:04.000\nWelcome all\n";

const ZOOM_SCHEDULED: &str = "WEBVTT\n\n1\n00:00:01.000 --> 00:00:02.000\nSpeaker 1: Hello\n\n2\n00:00:02.000 --> 00:00:03.000\nSpeaker 2: Hi\n";

const MEETING: &str = "WEBVTT\n\n00:00:01.000 --> 00:00:02.000\nAlice: Hi there\n\n00:00:02.000 --> 00:00:03.000\nAlice: how are you\n\n00:00:04.000 --> 00:00:05.000\nBob: fine\n";

const GENERIC: &str = "WEBVTT\n\nintro\n00:00:01.000 --> 00:00:02.000\n<v Ann>Hello <b>world</b></v>\n\nNOTE kept as a quote\n";

fn detect(text: &str) -> &'static str {
    let document = parse_webvtt(text).expect("parse should succeed");
    detect_generation_source(&document).expect("detection should succeed")
}

#[test]
fn detects_every_source() {
    assert_eq!(detect(TEAMS_SCHEDULED), "ms_teams_scheduled");
    assert_eq!(detect(TEAMS_EVENT), "ms_teams_event");
    assert_eq!(detect(ZOOM_EVENT), "zoom_event");
    assert_eq!(detect(ZOOM_SCHEDULED), "zoom_scheduled");
    assert_eq!(detect(MEETING), "meeting_novoicetag");
    assert_eq!(detect(GENERIC), "generic_webvtt");
}

#[test]
fn teams_scheduled_groups_segments_and_reflows() {
    let markdown = convert_text_to_markdown(TEAMS_SCHEDULED, None).expect("conversion should succeed");
    assert_eq!(
        markdown,
        "**(00:00:01) Alice**\nHello there second part\n\n**(00:00:04) Bob**\nReply\n"
    );
}

#[test]
fn teams_event_uses_first_segment_header() {
    let markdown = convert_text_to_markdown(TEAMS_EVENT, None).expect("conversion should succeed");
    assert_eq!(markdown, "**(00:00:01)**\nHello again\n");
}

#[test]
fn zoom_event_renders_one_block_per_cue() {
    let markdown = convert_text_to_markdown(ZOOM_EVENT, None).expect("conversion should succeed");
    assert_eq!(markdown, "**(00:00:01)**\nGood morning\n\n**(00:00:03)**\nWelcome all\n");
}

#[test]
fn meeting_blocks_of_one_speaker_are_stitched() {
    let markdown = convert_text_to_markdown(MEETING, None).expect("conversion should succeed");
    assert_eq!(markdown, "**(00:00:01) Alice**\nHi there how are you\n\n**(00:00:04) Bob**\nfine\n");
}

#[test]
fn generic_keeps_voice_markup_and_notes() {
    let markdown = convert_text_to_markdown(GENERIC, None).expect("conversion should succeed");
    assert_eq!(markdown, "**(00:00:01) Ann**\nHello **world**\n\n> kept as a quote\n");
}

#[test]
fn naming_the_detected_source_renders_the_same() {
    for text in [TEAMS_SCHEDULED, TEAMS_EVENT, ZOOM_EVENT, ZOOM_SCHEDULED, MEETING, GENERIC] {
        let source = detect(text);
        let named = convert_text_to_markdown(text, Some(source)).expect("conversion should succeed");
        let detected = transcript_to_markdown(text).expect("conversion should succeed");
        assert_eq!(named, detected);
    }
}

#[test]
fn forced_generic_source_does_not_reflow() {
    let markdown =
        convert_text_to_markdown(MEETING, Some("generic_webvtt")).expect("conversion should succeed");
    assert_eq!(
        markdown,
        "**(00:00:01)**\nAlice: Hi there\n\n**(00:00:02)**\nAlice: how are you\n\n**(00:00:04)**\nBob: fine\n"
    );
}

#[test]
fn unknown_source_is_refused() {
    let err = convert_text_to_markdown(ZOOM_EVENT, Some("nope")).expect_err("should be refused");
    match &err {
        ConverterError::UnsupportedGenerationSource(name) => assert_eq!(name, "nope"),
        other => panic!("unexpected error {other:?}"),
    }
    assert_eq!(err.message(), "Unsupported generation source: nope");
}

#[test]
fn style_only_transcript_renders_a_newline() {
    let markdown = convert_text_to_markdown("WEBVTT\n\nSTYLE\n::cue { color: red }\n", Some("generic_webvtt"))
        .expect("conversion should succeed");
    assert_eq!(markdown, "\n");
    let detected = transcript_to_markdown("").expect("conversion should succeed");
    assert_eq!(detected, "\n");
}

#[test]
fn scores_every_ruleset_in_order() {
    let document = parse_webvtt(ZOOM_SCHEDULED).expect("parse should succeed");
    let scores = score_generation_sources(&document);
    let summary: Vec<(&str, i32, i32, &str)> = scores
        .iter()
        .map(|m| (m.generation_source, m.confidence, m.importance, m.module_name))
        .collect();
    assert_eq!(
        summary,
        vec![
            ("generic_webvtt", 1, 100, "gen_src_generic_webvtt"),
            ("meeting_novoicetag", 0, 400, "gen_src_meeting_novoicetag"),
            ("ms_teams_event", 0, 650, "gen_src_ms_teams_event"),
            ("ms_teams_scheduled", 0, 700, "gen_src_ms_teams_scheduled"),
            ("zoom_event", 0, 500, "gen_src_zoom_event"),
            ("zoom_scheduled", 7, 600, "gen_src_zoom_scheduled"),
        ]
    );
    assert_eq!(compare_matches(&scores[5], &scores[0]), std::cmp::Ordering::Greater);
    assert_eq!(compare_matches(&scores[1], &scores[2]), std::cmp::Ordering::Less);
    assert_eq!(compare_matches(&scores[3], &scores[3]), std::cmp::Ordering::Equal);
}

#[test]
fn detection_looks_at_the_first_fifty_blocks() {
    let mut text = String::from("WEBVTT\n\n");
    for i in 1..=50 {
        text.push_str(&format!("{i}\n00:00:01.000 --> 00:00:02.000\nSpeaker {i}: words\n\n"));
    }
    text.push_str("51\n00:00:03.000 --> 00:00:04.000\nno speaker here\n");
    assert_eq!(detect(&text), "zoom_scheduled");
}

#[test]
fn long_documents_are_rendered_in_chunks() {
    let mut text = String::from("WEBVTT\n\n");
    let mut expected = Vec::new();
    for i in 1..=501 {
        text.push_str(&format!("{i}\n00:00:01.000 --> 00:00:02.000\nline {i}\n\n"));
        expected.push(format!("**(00:00:01)**\nline {i}"));
    }
    let markdown = convert_text_to_markdown(&text, None).expect("conversion should succeed");
    assert_eq!(markdown, format!("{}\n", expected.join("\n\n")));
}

#[test]
fn chunks_are_tidied_apart() {
    let mut text = String::from("WEBVTT\n\n");
    for i in 1..=501 {
        text.push_str(&format!("00:00:01.000 --> 00:00:02.000\nAnn: part {i}\n\n"));
    }
    let markdown = convert_text_to_markdown(&text, None).expect("conversion should succeed");
    let first: Vec<String> = (1..=500).map(|i| format!("part {i}")).collect();
    assert_eq!(
        markdown,
        format!("**(00:00:01) Ann**\n{}\n\n**(00:00:01) Ann**\npart 501\n", first.join(" "))
    );
}

#[test]
fn render_markdown_uses_the_named_ruleset() {
    let document = parse_webvtt(ZOOM_SCHEDULED).expect("parse should succeed");
    let markdown = render_markdown(&document, Some("zoom_event")).expect("render should succeed");
    assert_eq!(markdown, "**(00:00:01)**\nSpeaker 1: Hello\n\n**(00:00:02)**\nSpeaker 2: Hi\n");
}

#[test]
fn inline_tags_become_markdown() {
    assert_eq!(render_inline_tags("<b>bold</b> <i>it</i> <u>under</u>"), "**bold** *it* _under_");
    assert_eq!(render_inline_tags("<c.yellow>colored</c> <lang en>hello</lang>"), "colored hello");
    assert_eq!(render_inline_tags("<B>x</B>"), "**x**");
    assert_eq!(render_inline_tags("<b><i>x</i></b>"), "***x***");
    assert_eq!(render_inline_tags("a<00:00:01.000>b"), "ab");
    assert_eq!(render_inline_tags("&lt;b&gt;x&lt;/b&gt;"), "**x**");
    assert_eq!(render_inline_tags("\u{6f22}<ruby>kan</ruby>\u{5b57}"), "\u{6f22} (kan) \u{5b57}");
    assert_eq!(render_inline_tags("<ruby>kan</ruby>"), "(kan)");
    assert_eq!(render_inline_tags("<b>open only"), "<b>open only");
}

#[test]
fn plain_text_passes_unchanged() {
    assert_eq!(render_inline_tags("just words: 1, 2, 3"), "just words: 1, 2, 3");
    assert_eq!(render_inline_tags(""), "");
}

#[test]
fn tidying_empty_and_newline_markdown() {
    assert_eq!(postprocess_markdown("", None), "");
    assert_eq!(postprocess_markdown("\n", Some("zoom_event")), "\n");
}

#[test]
fn tidying_keeps_lists_and_raw_blocks() {
    let md = "**(00:00:01) A**\nx\n\n**(00:00:02) A**\n- item\n";
    assert_eq!(postprocess_markdown(md, Some("zoom_event")), md);
    assert_eq!(postprocess_markdown("plain text\n\n> note\n", None), "plain text\n\n> note\n");
}

#[test]
fn tidying_reflows_only_for_speaker_sources() {
    let md = "**(00:00:01) A**\nx\n  y\n";
    assert_eq!(postprocess_markdown(md, Some("generic_webvtt")), md);
    assert_eq!(postprocess_markdown(md, Some("zoom_event")), "**(00:00:01) A**\nx y\n");
}

#[test]
fn tidying_stitches_blocks_of_one_speaker() {
    let md = "**(00:00:01) A**\none\n\n**(00:00:05) A**\ntwo\n\n**(00:00:09) B**\nthree";
    assert_eq!(
        postprocess_markdown(md, None),
        "**(00:00:01) A**\none\ntwo\n\n**(00:00:09) B**\nthree\n"
    );
}

#[test]
fn every_forced_source_is_accepted() {
    let sources = [
        (Source::GenericWebvtt, "generic_webvtt"),
        (Source::MsTeamsScheduled, "ms_teams_scheduled"),
        (Source::MsTeamsEvent, "ms_teams_event"),
        (Source::ZoomScheduled, "zoom_scheduled"),
        (Source::ZoomEvent, "zoom_event"),
        (Source::MeetingNovoicetag, "meeting_novoicetag"),
    ];
    for (source, name) in sources {
        assert_eq!(source.as_generation_source(), name);
        assert!(convert_text_to_markdown(ZOOM_EVENT, Some(source.as_generation_source())).is_ok());
    }
}

#[test]
fn detected_source_has_the_strongest_claim() {
    for text in [TEAMS_SCHEDULED, TEAMS_EVENT, ZOOM_EVENT, ZOOM_SCHEDULED, MEETING, GENERIC] {
        let document = parse_webvtt(text).expect("parse should succeed");
        let scores = score_generation_sources(&document);
        let winner = detect_generation_source(&document).expect("detection should succeed");
        let best = scores.iter().find(|m| m.generation_source == winner).expect("winner is scored");
        for m in &scores {
            assert!((m.confidence, m.importance) <= (best.confidence, best.importance));
            assert!((0..=10).contains(&m.confidence));
        }
    }
}

#[test]
fn decoded_markup_is_rendered_without_decoding_references() {
    assert_eq!(render_decoded_markup("&lt;b&gt;x"), "&lt;b&gt;x");
    assert_eq!(render_decoded_markup("<i>a</i><00:00:01.000>"), "*a*");
}

#[test]
fn crlf_transcripts_parse_alike() {
    for text in [TEAMS_SCHEDULED, TEAMS_EVENT, ZOOM_EVENT, ZOOM_SCHEDULED, MEETING, GENERIC] {
        let lf = parse_webvtt(text).expect("parse should succeed");
        let crlf = parse_webvtt(&text.replace('\n', "\r\n")).expect("parse should succeed");
        assert_eq!(lf, crlf);
    }
}

#[test]
fn chunks_render_as_separate_documents() {
    let mut text = String::from("WEBVTT\n\n");
    for i in 1..=1001 {
        let speaker = if i % 7 == 0 { "Bo" } else { "Ann" };
        text.push_str(&format!("00:00:01.000 --> 00:00:02.000\n{speaker}: part {i}\n\n"));
    }
    let document = parse_webvtt(&text).expect("parse should succeed");
    let source = detect_generation_source(&document).expect("detection should succeed");
    let pieces: Vec<String> = document
        .blocks
        .chunks(500)
        .map(|chunk| {
            let part = WebVttDocument { blocks: chunk.to_vec() };
            render_markdown(&part, Some(source)).unwrap().trim_end_matches('\n').to_owned()
        })
        .filter(|piece| !piece.is_empty())
        .collect();
    let whole = render_markdown(&document, None).expect("render should succeed");
    assert_eq!(whole, format!("{}\n", pieces.join("\n\n")));
}
