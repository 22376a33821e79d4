# webvtt_to_md

Converts WebVTT transcripts to Markdown speaker blocks, with the conversion
logic verified by Verus.

- `src/` is the verified library: decoding transcript bytes (byte order marks,
  UTF-16/UTF-32, UTF-8, detected and legacy encodings, strict or lazy with
  `[ENC?]` marking), parsing cues, scoring and detecting the program that wrote
  a transcript, rendering speaker blocks, and tidying the Markdown. Every
  public function states its result exactly over the spec functions beside it;
  `src/laws.rs` proves properties that span functions.
- `src/outside.rs` and `src/escape.rs` hold the trusted wrappers around
  `encoding_rs`, `chardetng`, `html-escape` and a few std conversions.
- `app/` is the `webvtt-to-md` command line (file I/O and argument parsing).
- `tests/` exercises the library on concrete transcripts and byte strings.
