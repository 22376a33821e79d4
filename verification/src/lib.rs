//! WebVTT transcripts to Markdown speaker blocks: decoding the bytes, parsing
//! the cues, detecting the program that wrote the transcript, and rendering.

pub mod text;
pub mod model;
pub mod escape;
pub mod patterns;
pub mod parse;
pub mod detect;
pub mod ranking;
pub mod inline;
pub mod render;
pub mod postprocess;
pub mod convert;
pub mod outside;
pub mod decode;
pub mod source;
pub mod laws;
pub mod rules;

pub use convert::{
    convert_bytes_to_markdown, convert_text_to_markdown, detect_generation_source_from_bytes,
    render_markdown, transcript_to_markdown,
};
pub use decode::{
    ENCODING_ERROR_MARKER, decode_transcript_bytes, decode_with_marker, mark_undecodable,
    strict_decoding_outcome,
};
pub use detect::score_generation_sources;
pub use inline::{render_decoded_markup, render_inline_tags};
pub use model::{
    ConverterError, CueBlock, GenerationSourceMatch, NoteBlock, StyleBlock, WebVttBlock,
    WebVttDocument,
};
pub use parse::parse_webvtt;
pub use postprocess::postprocess_markdown;
pub use ranking::detect_generation_source;
pub use source::Source;
