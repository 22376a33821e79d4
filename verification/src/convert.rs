//! From a transcript to Markdown: parse, pick a ruleset, render, tidy.

use vstd::prelude::*;
use crate::decode::{decode_transcript_bytes, spec_decode_transcript};
use crate::detect::RuleSet;
use crate::outside::decodable_len;
use crate::ranking::{detect_generation_source, detected};
use crate::model::{ConverterError, SpecBlock, SpecError, WebVttDocument, opt_str_view, result_view};
use crate::parse::{join, join_chars, line_views, parse_webvtt, spec_parse_webvtt};
use crate::postprocess::{postprocess_markdown, spec_postprocess};
use crate::ranking::{get_ruleset, spec_get_ruleset};
use crate::text::{chars_of, eq_pred, rscan, string_of, sub_vec};

verus! {

/// How many blocks are rendered together.
pub open spec fn chunk_blocks() -> int {
    500
}

/// Drops every trailing `\n`.
pub open spec fn trim_end_newlines(s: Seq<char>) -> Seq<char> {
    s.subrange(0, rscan(s, s.len() as int, eq_pred('\n')))
}

pub open spec fn chunk_end(n: int, start: int) -> int {
    if n - start > chunk_blocks() {
        start + chunk_blocks()
    } else {
        n
    }
}

/// The non-empty Markdown of each chunk of blocks from `start` on.
pub open spec fn render_chunks(r: RuleSet, blocks: Seq<SpecBlock>, start: int) -> Seq<Seq<char>>
    decreases blocks.len() - start,
{
    if 0 <= start < blocks.len() {
        let end = chunk_end(blocks.len() as int, start);
        let md = trim_end_newlines(
            spec_postprocess(r.spec_render(blocks.subrange(start, end)), Some(r.source_name())),
        );
        let rest = render_chunks(r, blocks, end);
        if md.len() > 0 {
            seq![md] + rest
        } else {
            rest
        }
    } else {
        Seq::empty()
    }
}

/// The Markdown of a document with a ruleset; long documents in chunks of
/// 500 blocks, each rendered and tidied on its own.
pub open spec fn render_with(r: RuleSet, blocks: Seq<SpecBlock>) -> Seq<char> {
    if blocks.len() <= chunk_blocks() {
        spec_postprocess(r.spec_render(blocks), Some(r.source_name()))
    } else {
        let chunks = render_chunks(r, blocks, 0);
        if chunks.len() == 0 {
            seq!['\n']
        } else {
            join(chunks, seq!['\n', '\n']) + seq!['\n']
        }
    }
}

pub open spec fn spec_render_markdown(blocks: Seq<SpecBlock>, gs: Option<Seq<char>>) -> Result<
    Seq<char>,
    SpecError,
> {
    match spec_get_ruleset(gs, Some(blocks)) {
        Err(e) => Err(e),
        Ok(r) => Ok(render_with(r, blocks)),
    }
}

pub open spec fn spec_convert_text(text: Seq<char>, gs: Option<Seq<char>>) -> Result<
    Seq<char>,
    SpecError,
> {
    match spec_parse_webvtt(text) {
        Err(e) => Err(e),
        Ok(blocks) => spec_render_markdown(blocks, gs),
    }
}

fn trim_trailing_newlines(s: String) -> (res: Vec<char>)
    ensures
        res@ == trim_end_newlines(s@),
{
    let v = chars_of(s.as_str());
    let mut k = v.len();
    while k > 0 && v[k - 1] == '\n'
        invariant
            k <= v.len(),
            forall|m: int| k <= m < v.len() ==> #[trigger] eq_pred('\n')(v@[m]),
        decreases k,
    {
        k -= 1;
    }
    proof {
        crate::text::lemma_rscan_at(v@, v.len() as int, k as int, eq_pred('\n'));
    }
    sub_vec(&v, 0, k)
}

/// Markdown for a document, with the named ruleset or the detected one.
pub fn render_markdown(document: &WebVttDocument, generation_source: Option<&str>) -> (res: Result<
    String,
    ConverterError,
>)
    ensures
        result_view(res) == spec_render_markdown(document@, opt_str_view(generation_source)),
{
    let ruleset = match get_ruleset(generation_source, Some(document)) {
        Ok(r) => r,
        Err(e) => return Err(e),
    };
    assert(crate::ranking::opt_doc_view(Some(document)) == Some(document@));
    let name = ruleset.generation_source();
    let n = document.blocks.len();
    if n <= 500 {
        let md = ruleset.render(document);
        return Ok(postprocess_markdown(md.as_str(), Some(name)));
    }
    let ghost blocks = document@;
    let mut chunks: Vec<Vec<char>> = Vec::new();
    let mut start: usize = 0;
    while start < n
        invariant
            start <= n,
            n > 500,
            spec_get_ruleset(opt_str_view(generation_source), Some(document@)) == Ok::<
                RuleSet,
                SpecError,
            >(ruleset),
            n == document.blocks.len(),
            blocks == document@,
            name@ == ruleset.source_name(),
            render_chunks(ruleset, blocks, 0) == line_views(chunks@) + render_chunks(
                ruleset,
                blocks,
                start as int,
            ),
        decreases n - start,
    {
        let end = if n - start > 500 {
            start + 500
        } else {
            n
        };
        let chunk = document.copy_range(start, end);
        let md = ruleset.render(&chunk);
        let tidy = postprocess_markdown(md.as_str(), Some(name));
        let trimmed = trim_trailing_newlines(tidy);
        let ghost prev = chunks@;
        if trimmed.len() > 0 {
            chunks.push(trimmed);
            assert(line_views(chunks@) =~= line_views(prev).push(trimmed@));
        }
        assert(line_views(prev) + render_chunks(ruleset, blocks, start as int) =~= line_views(chunks@)
            + render_chunks(ruleset, blocks, end as int));
        start = end;
    }
    assert(line_views(chunks@) + render_chunks(ruleset, blocks, start as int) =~= line_views(chunks@));
    if chunks.len() == 0 {
        let mut out = String::new();
        out.append("\n");
        proof {
            reveal_strlit("\n");
        }
        assert(out@ =~= seq!['\n']);
        return Ok(out);
    }
    let sep = vec!['\n', '\n'];
    assert(sep@ =~= seq!['\n', '\n']);
    let mut out = join_chars(&chunks, &sep);
    out.push('\n');
    assert(render_chunks(ruleset, document@, 0) == line_views(chunks@));
    assert(document@.len() == n);
    assert(out@ =~= render_with(ruleset, document@));
    Ok(string_of(&out))
}

/// Parses a transcript and renders it with the named or the detected ruleset.
pub fn convert_text_to_markdown(transcript: &str, generation_source: Option<&str>) -> (res: Result<
    String,
    ConverterError,
>)
    ensures
        result_view(res) == spec_convert_text(transcript@, opt_str_view(generation_source)),
{
    let document = match parse_webvtt(transcript) {
        Ok(d) => d,
        Err(e) => return Err(e),
    };
    render_markdown(&document, generation_source)
}

/// Parses a transcript and renders it with the detected ruleset.
pub fn transcript_to_markdown(transcript: &str) -> (res: Result<String, ConverterError>)
    ensures
        result_view(res) == spec_convert_text(transcript@, None),
{
    convert_text_to_markdown(transcript, None)
}


pub open spec fn spec_convert_bytes(
    data: Seq<u8>,
    charset: Option<Seq<char>>,
    lazy: bool,
    gs: Option<Seq<char>>,
) -> Result<Seq<char>, SpecError> {
    match spec_decode_transcript(data, charset, lazy) {
        Err(e) => Err(e),
        Ok(text) => spec_convert_text(text, gs),
    }
}

pub open spec fn spec_detect_bytes(data: Seq<u8>, charset: Option<Seq<char>>, lazy: bool) -> Result<
    Seq<char>,
    SpecError,
> {
    match spec_decode_transcript(data, charset, lazy) {
        Err(e) => Err(e),
        Ok(text) => match spec_parse_webvtt(text) {
            Err(e) => Err(e),
            Ok(blocks) => Ok(detected(blocks).source_name()),
        },
    }
}

/// Decodes, parses and renders transcript bytes.
pub fn convert_bytes_to_markdown(
    data: &[u8],
    charset: Option<&str>,
    charset_lazy: bool,
    generation_source: Option<&str>,
) -> (res: Result<String, ConverterError>)
    requires
        decodable_len(data@),
    ensures
        result_view(res) == spec_convert_bytes(
            data@,
            opt_str_view(charset),
            charset_lazy,
            opt_str_view(generation_source),
        ),
{
    let transcript = match decode_transcript_bytes(data, charset, charset_lazy) {
        Ok(t) => t,
        Err(e) => return Err(e),
    };
    convert_text_to_markdown(transcript.as_str(), generation_source)
}

/// Decodes and parses transcript bytes and names the detected source.
pub fn detect_generation_source_from_bytes(data: &[u8], charset: Option<&str>, charset_lazy: bool) -> (res:
    Result<&'static str, ConverterError>)
    requires
        decodable_len(data@),
    ensures
        match res {
            Ok(s) => spec_detect_bytes(data@, opt_str_view(charset), charset_lazy) == Ok::<
                Seq<char>,
                SpecError,
            >(s@),
            Err(e) => spec_detect_bytes(data@, opt_str_view(charset), charset_lazy) == Err::<
                Seq<char>,
                SpecError,
            >(e@),
        },
{
    let transcript = match decode_transcript_bytes(data, charset, charset_lazy) {
        Ok(t) => t,
        Err(e) => return Err(e),
    };
    let document = match parse_webvtt(transcript.as_str()) {
        Ok(d) => d,
        Err(e) => return Err(e),
    };
    detect_generation_source(&document)
}

} // verus!
