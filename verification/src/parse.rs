//! Parsing a transcript into blocks: lines, blank-line separated groups, and
//! the cue, note and style blocks they form.

use vstd::prelude::*;
use crate::escape::{decode_html, debug_quote, debug_quoted, html_decoded};
use crate::model::{
    ConverterError, CueBlock, NoteBlock, SpecBlock, SpecCue, SpecError, StyleBlock, WebVttBlock,
    WebVttDocument, result_view,
};
use crate::patterns::{timing_match, timing_match_exec, voice_match, voice_match_exec};
use crate::text::{
    arrow, chars_eq, chars_of, contains_pat, extend_chars, find_char, has_substr, is_blank,
    is_blank_chars, lemma_scan, matches_at_exec, ne_pred, scan, skip_char,
    starts_with, string_of, sub_vec, trim_start, trim_start_char, trimmed_start,
};

verus! {

/// Drops one trailing `\r`.
pub open spec fn strip_cr(l: Seq<char>) -> Seq<char> {
    if l.len() > 0 && l.last() == '\r' {
        l.drop_last()
    } else {
        l
    }
}

/// `str::lines` on `s[p..]`: pieces between `\n`, a `\r` before a `\n` dropped,
/// no empty piece after a final `\n`.
pub open spec fn lines_from(s: Seq<char>, p: int) -> Seq<Seq<char>>
    decreases s.len() - p,
{
    if 0 <= p < s.len() {
        let k = scan(s, p, ne_pred('\n'));
        if k < s.len() {
            proof {
                lemma_scan(s, p, ne_pred('\n'));
            }
            seq![strip_cr(s.subrange(p, k))] + lines_from(s, k + 1)
        } else {
            seq![s.subrange(p, s.len() as int)]
        }
    } else {
        Seq::empty()
    }
}

pub open spec fn lines_of(s: Seq<char>) -> Seq<Seq<char>> {
    lines_from(s, 0)
}

/// `parts` joined with `sep` between neighbours.
pub open spec fn join(parts: Seq<Seq<char>>, sep: Seq<char>) -> Seq<char>
    decreases parts.len(),
{
    if parts.len() == 0 {
        Seq::empty()
    } else if parts.len() == 1 {
        parts[0]
    } else {
        join(parts.drop_last(), sep) + sep + parts.last()
    }
}

pub open spec fn line_views(v: Seq<Vec<char>>) -> Seq<Seq<char>> {
    v.map_values(|l: Vec<char>| l@)
}

pub open spec fn block_views(v: Seq<Vec<Vec<char>>>) -> Seq<Seq<Seq<char>>> {
    v.map_values(|b: Vec<Vec<char>>| line_views(b@))
}

/// One line of the grouping: a blank line closes the current group.
pub open spec fn group_step(
    acc: (Seq<Seq<Seq<char>>>, Seq<Seq<char>>),
    line: Seq<char>,
) -> (Seq<Seq<Seq<char>>>, Seq<Seq<char>>) {
    if is_blank(line) {
        if acc.1.len() > 0 {
            (acc.0.push(acc.1), Seq::empty())
        } else {
            acc
        }
    } else {
        (acc.0, acc.1.push(line))
    }
}

pub open spec fn group_fold(ls: Seq<Seq<char>>) -> (Seq<Seq<Seq<char>>>, Seq<Seq<char>>)
    decreases ls.len(),
{
    if ls.len() == 0 {
        (Seq::empty(), Seq::empty())
    } else {
        group_step(group_fold(ls.drop_last()), ls.last())
    }
}

/// The groups of non-blank lines that blank lines separate.
pub open spec fn raw_blocks(text: Seq<char>) -> Seq<Seq<Seq<char>>> {
    let acc = group_fold(lines_of(text));
    if acc.1.len() > 0 {
        acc.0.push(acc.1)
    } else {
        acc.0
    }
}

pub open spec fn webvtt_word() -> Seq<char> {
    seq!['W', 'E', 'B', 'V', 'T', 'T']
}

pub open spec fn webvtt_word_space() -> Seq<char> {
    seq!['W', 'E', 'B', 'V', 'T', 'T', ' ']
}

pub open spec fn note_word() -> Seq<char> {
    seq!['N', 'O', 'T', 'E']
}

pub open spec fn style_word() -> Seq<char> {
    seq!['S', 'T', 'Y', 'L', 'E']
}

/// The `WEBVTT` header: only as the first group.
pub open spec fn is_header_block(lines: Seq<Seq<char>>, is_first: bool) -> bool {
    is_first && lines.len() > 0 && {
        let first = trim_start_char(lines[0], '\u{feff}');
        first == webvtt_word() || starts_with(first, webvtt_word_space())
    }
}

/// The lines of a `NOTE` block: what follows `NOTE` on its line, if anything,
/// then the other lines.
pub open spec fn note_lines(lines: Seq<Seq<char>>) -> Seq<Seq<char>> {
    let rem = trim_start(lines[0].subrange(4, lines[0].len() as int));
    if rem.len() > 0 {
        seq![rem] + lines.subrange(1, lines.len() as int)
    } else {
        lines.subrange(1, lines.len() as int)
    }
}

/// `(voice, text)` of a cue's joined text lines: a whole-text voice span gives
/// its speaker and content; each part has its character references decoded.
pub open spec fn extract_voice(s: Seq<char>) -> (Option<Seq<char>>, Seq<char>) {
    match voice_match(s) {
        Some((a, b, c, d)) => (Some(html_decoded(s.subrange(a, b))), html_decoded(s.subrange(c, d))),
        None => (None, html_decoded(s)),
    }
}

/// `(voice, text)` of a cue's joined text lines before character references are
/// decoded: the parts that `extract_voice` decodes.
pub open spec fn undecoded_voice(s: Seq<char>) -> (Option<Seq<char>>, Seq<char>) {
    match voice_match(s) {
        Some((a, b, c, d)) => (Some(s.subrange(a, b)), s.subrange(c, d)),
        None => (None, s),
    }
}

/// A cue whose text lines hold no `&` keeps its speaker and text as written.
pub open spec fn written_as_is(c: SpecCue) -> bool {
    !join(c.raw_lines, newline()).contains('&') ==> (c.voice, c.text) == undecoded_voice(
        join(c.raw_lines, newline()),
    )
}

pub open spec fn newline() -> Seq<char> {
    seq!['\n']
}

/// A cue from its lines: an optional identifier line, the timing line, the text.
pub open spec fn cue_of(lines: Seq<Seq<char>>) -> Result<SpecCue, SpecError> {
    if lines.len() < 2 {
        Err(SpecError::Parse("Each cue block must contain at least timing and text."@))
    } else if !has_substr(lines[0], arrow()) && lines.len() < 3 {
        Err(SpecError::Parse("Cue blocks with identifier must contain timing and text."@))
    } else {
        let has_id = !has_substr(lines[0], arrow());
        let identifier = if has_id {
            Some(lines[0])
        } else {
            None
        };
        let timing = if has_id {
            lines[1]
        } else {
            lines[0]
        };
        let text_lines = if has_id {
            lines.subrange(2, lines.len() as int)
        } else {
            lines.subrange(1, lines.len() as int)
        };
        match timing_match(timing) {
            None => Err(SpecError::Parse("Invalid timing line: "@ + debug_quoted(timing))),
            Some((a, c, d)) => {
                let (voice, text) = extract_voice(join(text_lines, newline()));
                Ok(
                    SpecCue {
                        identifier,
                        start: timing.subrange(0, a),
                        end: timing.subrange(c, d),
                        text,
                        voice,
                        raw_lines: text_lines,
                    },
                )
            },
        }
    }
}

/// What one group contributes: nothing, a block, or an error.
pub open spec fn block_outcome(lines: Seq<Seq<char>>, is_first: bool) -> Result<
    Option<SpecBlock>,
    SpecError,
> {
    if is_header_block(lines, is_first) {
        Ok(None)
    } else if starts_with(lines[0], note_word()) {
        Ok(Some(SpecBlock::Note(note_lines(lines))))
    } else if lines[0] == style_word() {
        Ok(Some(SpecBlock::Style(lines.subrange(1, lines.len() as int))))
    } else if has_substr(lines[0], arrow()) && lines.len() == 1 {
        Ok(None)
    } else if !has_substr(lines[0], arrow()) && lines.len() == 2 && has_substr(lines[1], arrow()) {
        Ok(None)
    } else {
        match cue_of(lines) {
            Err(e) => Err(e),
            Ok(cue) => if is_blank(cue.text) {
                Ok(None)
            } else {
                Ok(Some(SpecBlock::Cue(cue)))
            },
        }
    }
}

pub open spec fn parse_fold(raws: Seq<Seq<Seq<char>>>) -> Result<Seq<SpecBlock>, SpecError>
    decreases raws.len(),
{
    if raws.len() == 0 {
        Ok(Seq::empty())
    } else {
        match parse_fold(raws.drop_last()) {
            Err(e) => Err(e),
            Ok(bs) => match block_outcome(raws.last(), raws.len() == 1) {
                Err(e) => Err(e),
                Ok(None) => Ok(bs),
                Ok(Some(b)) => Ok(bs.push(b)),
            },
        }
    }
}

/// The blocks of a transcript, or the first error.
pub open spec fn spec_parse_webvtt(text: Seq<char>) -> Result<Seq<SpecBlock>, SpecError> {
    parse_fold(raw_blocks(text))
}

proof fn lemma_parse_fold_err(raws: Seq<Seq<Seq<char>>>, i: int, e: SpecError)
    requires
        0 <= i <= raws.len(),
        parse_fold(raws.take(i)) == Err::<Seq<SpecBlock>, SpecError>(e),
    ensures
        parse_fold(raws) == Err::<Seq<SpecBlock>, SpecError>(e),
    decreases raws.len() - i,
{
    if i < raws.len() {
        assert(raws.take(i + 1).drop_last() =~= raws.take(i));
        lemma_parse_fold_err(raws, i + 1, e);
    } else {
        assert(raws.take(i) =~= raws);
    }
}

pub fn join_chars(parts: &Vec<Vec<char>>, sep: &Vec<char>) -> (res: Vec<char>)
    ensures
        res@ == join(line_views(parts@), sep@),
{
    let ghost pv = line_views(parts@);
    let mut out: Vec<char> = Vec::new();
    let mut i: usize = 0;
    while i < parts.len()
        invariant
            i <= parts.len(),
            pv == line_views(parts@),
            out@ == join(pv.take(i as int), sep@),
        decreases parts.len() - i,
    {
        assert(pv.take(i + 1).drop_last() =~= pv.take(i as int));
        if i > 0 {
            extend_chars(&mut out, sep);
        }
        extend_chars(&mut out, &parts[i]);
        i += 1;
        proof {
            if i == 1 {
                assert(out@ =~= pv.take(1)[0]);
            }
        }
    }
    assert(pv.take(parts.len() as int) =~= pv);
    out
}

fn strip_cr_exec(l: Vec<char>) -> (res: Vec<char>)
    ensures
        res@ == strip_cr(l@),
{
    let mut l = l;
    if l.len() > 0 && l[l.len() - 1] == '\r' {
        l.pop();
    }
    l
}

/// The lines of a text (`str::lines`).
pub fn split_lines(v: &Vec<char>) -> (res: Vec<Vec<char>>)
    ensures
        line_views(res@) == lines_of(v@),
{
    let mut out: Vec<Vec<char>> = Vec::new();
    let mut p: usize = 0;
    while p < v.len()
        invariant
            p <= v.len(),
            lines_of(v@) == line_views(out@) + lines_from(v@, p as int),
        decreases v.len() - p,
    {
        let k = find_char(v, p, '\n');
        let line = if k < v.len() {
            strip_cr_exec(sub_vec(v, p, k))
        } else {
            sub_vec(v, p, v.len())
        };
        proof {
            assert(lines_from(v@, p as int) =~= seq![line@] + lines_from(
                v@,
                if k < v.len() {
                    k + 1
                } else {
                    v.len() as int
                },
            ));
        }
        let ghost prev = out@;
        out.push(line);
        assert(line_views(out@) =~= line_views(prev).push(line@));
        p = if k < v.len() {
            k + 1
        } else {
            v.len()
        };
    }
    assert(line_views(out@) + lines_from(v@, p as int) =~= line_views(out@));
    out
}

/// The groups of non-blank lines of a transcript.
pub fn split_raw_blocks(v: &Vec<char>) -> (res: Vec<Vec<Vec<char>>>)
    ensures
        block_views(res@) == raw_blocks(v@),
        forall|i: int| 0 <= i < res@.len() ==> (#[trigger] res@[i])@.len() > 0,
{
    let mut blocks: Vec<Vec<Vec<char>>> = Vec::new();
    let mut current: Vec<Vec<char>> = Vec::new();
    let ghost mut produced: Seq<Seq<char>> = Seq::empty();
    let mut p: usize = 0;
    while p < v.len()
        invariant
            p <= v.len(),
            lines_of(v@) == produced + lines_from(v@, p as int),
            group_fold(produced) == (block_views(blocks@), line_views(current@)),
            forall|i: int| 0 <= i < blocks@.len() ==> (#[trigger] blocks@[i])@.len() > 0,
        decreases v.len() - p,
    {
        let k = find_char(v, p, '\n');
        let line = if k < v.len() {
            strip_cr_exec(sub_vec(v, p, k))
        } else {
            sub_vec(v, p, v.len())
        };
        let ghost old_blocks = blocks@;
        let ghost old_current = current@;
        if is_blank_chars(&line) {
            if current.len() > 0 {
                let mut done: Vec<Vec<char>> = Vec::new();
                std::mem::swap(&mut done, &mut current);
                blocks.push(done);
            }
        } else {
            current.push(line);
        }
        proof {
            assert(produced.push(line@).drop_last() =~= produced);
            assert(block_views(blocks@) =~= group_step(
                (block_views(old_blocks), line_views(old_current)),
                line@,
            ).0);
            assert(line_views(current@) =~= group_step(
                (block_views(old_blocks), line_views(old_current)),
                line@,
            ).1);
            assert(lines_from(v@, p as int) =~= seq![line@] + lines_from(
                v@,
                if k < v.len() {
                    k + 1
                } else {
                    v.len() as int
                },
            ));
            produced = produced.push(line@);
        }
        p = if k < v.len() {
            k + 1
        } else {
            v.len()
        };
    }
    assert(produced =~= lines_of(v@));
    if current.len() > 0 {
        blocks.push(current);
    }
    assert(block_views(blocks@) =~= raw_blocks(v@));
    blocks
}


/// Strings of `lines[from..]`.
fn lines_to_strings(lines: &Vec<Vec<char>>, from: usize) -> (res: Vec<String>)
    requires
        from <= lines.len(),
    ensures
        res.deep_view() == line_views(lines@).subrange(from as int, lines@.len() as int),
{
    let mut out: Vec<String> = Vec::new();
    let mut i = from;
    while i < lines.len()
        invariant
            from <= i <= lines.len(),
            out.deep_view() =~= line_views(lines@).subrange(from as int, i as int),
        decreases lines.len() - i,
    {
        let line = string_of(&lines[i]);
        let ghost prev = out.deep_view();
        out.push(line);
        assert(out.deep_view() =~= prev.push(line@));
        assert(line_views(lines@).subrange(from as int, i + 1) =~= line_views(lines@).subrange(
            from as int,
            i as int,
        ).push(lines@[i as int]@));
        i += 1;
    }
    out
}

fn is_webvtt_header_block(lines: &Vec<Vec<char>>, is_first_block: bool) -> (b: bool)
    ensures
        b == is_header_block(line_views(lines@), is_first_block),
{
    if !is_first_block || lines.len() == 0 {
        return false;
    }
    let s = skip_char(&lines[0], 0, '\u{feff}');
    let first = sub_vec(&lines[0], s, lines[0].len());
    let word = vec!['W', 'E', 'B', 'V', 'T', 'T'];
    let word_space = vec!['W', 'E', 'B', 'V', 'T', 'T', ' '];
    assert(word@ =~= webvtt_word());
    assert(word_space@ =~= webvtt_word_space());
    chars_eq(&first, &word) || matches_at_exec(&first, 0, &word_space)
}

fn parse_note_block(lines: &Vec<Vec<char>>) -> (res: NoteBlock)
    requires
        lines.len() > 0,
        lines@[0].len() >= 4,
    ensures
        res.lines.deep_view() == note_lines(line_views(lines@)),
{
    let rem = trimmed_start(&sub_vec(&lines[0], 4, lines[0].len()));
    let rest = lines_to_strings(lines, 1);
    let mut note: Vec<String> = Vec::new();
    if rem.len() > 0 {
        note.push(string_of(&rem));
    }
    let mut i: usize = 0;
    let ghost base = note.deep_view();
    while i < rest.len()
        invariant
            i <= rest.len(),
            note.deep_view() =~= base + rest.deep_view().subrange(0, i as int),
        decreases rest.len() - i,
    {
        let line = rest[i].clone();
        let ghost prev = note.deep_view();
        note.push(line);
        assert(note.deep_view() =~= prev.push(line@));
        assert(rest.deep_view().subrange(0, i + 1) =~= rest.deep_view().subrange(0, i as int).push(
            rest@[i as int]@,
        ));
        i += 1;
    }
    assert(rest.deep_view().subrange(0, rest.len() as int) =~= rest.deep_view());
    assert(note.deep_view() =~= note_lines(line_views(lines@)));
    NoteBlock { lines: note }
}

fn parse_style_block(lines: &Vec<Vec<char>>) -> (res: StyleBlock)
    requires
        lines.len() > 0,
    ensures
        res.lines.deep_view() == line_views(lines@).subrange(1, lines@.len() as int),
{
    StyleBlock { lines: lines_to_strings(lines, 1) }
}

fn extract_voice_span(text: &Vec<char>) -> (res: (Option<String>, String))
    ensures
        res.0.deep_view() == extract_voice(text@).0,
        res.1@ == extract_voice(text@).1,
        !text@.contains('&') ==> (res.0.deep_view(), res.1@) == undecoded_voice(text@),
{
    proof {
        if !text@.contains('&') {
            assert forall|a: int, b: int| 0 <= a <= b <= text@.len() implies !text@.subrange(
                a,
                b,
            ).contains('&') by {
                if text@.subrange(a, b).contains('&') {
                    let j = choose|j: int| 0 <= j < b - a && text@.subrange(a, b)[j] == '&';
                    assert(text@[a + j] == '&');
                }
            }
        }
    }
    match voice_match_exec(text) {
        Some((a, b, c, d)) => {
            let speaker = string_of(&sub_vec(text, a, b));
            let content = string_of(&sub_vec(text, c, d));
            (Some(decode_html(speaker.as_str())), decode_html(content.as_str()))
        },
        None => {
            let all = string_of(text);
            (None, decode_html(all.as_str()))
        },
    }
}

fn parse_cue_block(lines: &Vec<Vec<char>>) -> (res: Result<CueBlock, ConverterError>)
    ensures
        result_view(res) == cue_of(line_views(lines@)),
        res matches Ok(c) ==> written_as_is(c@),
{
    if lines.len() < 2 {
        return Err(
            ConverterError::Parse("Each cue block must contain at least timing and text.".to_owned()),
        );
    }
    let arrow_pat = vec!['-', '-', '>'];
    assert(arrow_pat@ =~= arrow());
    let has_id = !contains_pat(&lines[0], &arrow_pat);
    if has_id && lines.len() < 3 {
        return Err(
            ConverterError::Parse(
                "Cue blocks with identifier must contain timing and text.".to_owned(),
            ),
        );
    }
    let first_text: usize = if has_id {
        2
    } else {
        1
    };
    let timing = if has_id {
        &lines[1]
    } else {
        &lines[0]
    };
    let identifier = if has_id {
        Some(string_of(&lines[0]))
    } else {
        None
    };
    match timing_match_exec(timing) {
        None => {
            let timing_str = string_of(timing);
            let quoted = debug_quote(timing_str.as_str());
            let mut msg = "Invalid timing line: ".to_owned();
            msg.append(quoted.as_str());
            Err(ConverterError::Parse(msg))
        },
        Some((a, c, d)) => {
            let text_lines = sub_lines(lines, first_text);
            let nl = vec!['\n'];
            assert(nl@ =~= newline());
            let joined = join_chars(&text_lines, &nl);
            let (voice, text) = extract_voice_span(&joined);
            let start = string_of(&sub_vec(timing, 0, a));
            let end = string_of(&sub_vec(timing, c, d));
            let raw_lines = lines_to_strings(lines, first_text);
            let cue = CueBlock { identifier, start, end, text, voice, raw_lines };
            assert(line_views(text_lines@) =~= line_views(lines@).subrange(
                first_text as int,
                lines@.len() as int,
            ));
            assert(cue@ == cue_of(line_views(lines@))->Ok_0);
            assert(cue@.raw_lines == line_views(text_lines@));
            Ok(cue)
        },
    }
}

/// Copies of `lines[from..]`.
fn sub_lines(lines: &Vec<Vec<char>>, from: usize) -> (res: Vec<Vec<char>>)
    requires
        from <= lines.len(),
    ensures
        line_views(res@) =~= line_views(lines@).subrange(from as int, lines@.len() as int),
{
    let mut out: Vec<Vec<char>> = Vec::new();
    let mut i = from;
    while i < lines.len()
        invariant
            from <= i <= lines.len(),
            line_views(out@) =~= line_views(lines@).subrange(from as int, i as int),
        decreases lines.len() - i,
    {
        let line = sub_vec(&lines[i], 0, lines[i].len());
        assert(line@ =~= lines@[i as int]@);
        let ghost prev = out@;
        out.push(line);
        assert(line_views(out@) =~= line_views(prev).push(line@));
        assert(line_views(lines@).subrange(from as int, i + 1) =~= line_views(lines@).subrange(
            from as int,
            i as int,
        ).push(lines@[i as int]@));
        i += 1;
    }
    out
}

fn parse_block(lines: &Vec<Vec<char>>, is_first: bool) -> (res: Result<
    Option<WebVttBlock>,
    ConverterError,
>)
    requires
        lines.len() > 0,
    ensures
        match res {
            Ok(Some(b)) => block_outcome(line_views(lines@), is_first) == Ok::<
                Option<SpecBlock>,
                SpecError,
            >(Some(b@)),
            Ok(None) => block_outcome(line_views(lines@), is_first) == Ok::<
                Option<SpecBlock>,
                SpecError,
            >(None),
            Err(e) => block_outcome(line_views(lines@), is_first) == Err::<
                Option<SpecBlock>,
                SpecError,
            >(e@),
        },
        res matches Ok(Some(b)) ==> (b@ matches SpecBlock::Cue(c) ==> written_as_is(c)),
{
    let ghost lv = line_views(lines@);
    if is_webvtt_header_block(lines, is_first) {
        return Ok(None);
    }
    let note = vec!['N', 'O', 'T', 'E'];
    assert(note@ =~= note_word());
    if matches_at_exec(&lines[0], 0, &note) {
        return Ok(Some(WebVttBlock::Note(parse_note_block(lines))));
    }
    let style = vec!['S', 'T', 'Y', 'L', 'E'];
    assert(style@ =~= style_word());
    if chars_eq(&lines[0], &style) {
        return Ok(Some(WebVttBlock::Style(parse_style_block(lines))));
    }
    let arrow_pat = vec!['-', '-', '>'];
    assert(arrow_pat@ =~= arrow());
    let first_has_arrow = contains_pat(&lines[0], &arrow_pat);
    if first_has_arrow && lines.len() == 1 {
        return Ok(None);
    }
    if !first_has_arrow && lines.len() == 2 && contains_pat(&lines[1], &arrow_pat) {
        return Ok(None);
    }
    match parse_cue_block(lines) {
        Err(e) => Err(e),
        Ok(cue) => {
            let text = chars_of(cue.text.as_str());
            if is_blank_chars(&text) {
                Ok(None)
            } else {
                Ok(Some(WebVttBlock::Cue(cue)))
            }
        },
    }
}

/// Parses a transcript into its note, style and cue blocks. Character
/// references in a cue's speaker and text are decoded; a cue whose text lines
/// hold no `&` keeps its speaker and text as written.
pub fn parse_webvtt(transcript: &str) -> (res: Result<WebVttDocument, ConverterError>)
    ensures
        result_view(res) == spec_parse_webvtt(transcript@),
        res matches Ok(d) ==> forall|i: int|
            0 <= i < d@.len() ==> (#[trigger] d@[i] matches SpecBlock::Cue(c) ==> written_as_is(c)),
{
    let v = chars_of(transcript);
    let raws = split_raw_blocks(&v);
    let ghost rv = block_views(raws@);
    let mut blocks: Vec<WebVttBlock> = Vec::new();
    let mut idx: usize = 0;
    assert(rv.take(0) =~= Seq::<Seq<Seq<char>>>::empty());
    assert(blocks@.map_values(|b: WebVttBlock| b@) =~= Seq::<SpecBlock>::empty());
    while idx < raws.len()
        invariant
            idx <= raws.len(),
            rv == block_views(raws@),
            rv == raw_blocks(v@),
            v@ == transcript@,
            forall|i: int| 0 <= i < raws@.len() ==> (#[trigger] raws@[i])@.len() > 0,
            parse_fold(rv.take(idx as int)) == Ok::<Seq<SpecBlock>, SpecError>(
                blocks@.map_values(|b: WebVttBlock| b@),
            ),
            forall|i: int|
                0 <= i < blocks@.len() ==> (#[trigger] blocks@[i]@ matches SpecBlock::Cue(c)
                    ==> written_as_is(c)),
        decreases raws.len() - idx,
    {
        assert(rv.take(idx + 1).drop_last() =~= rv.take(idx as int));
        assert(rv.take(idx + 1).last() == line_views(raws@[idx as int]@));
        match parse_block(&raws[idx], idx == 0) {
            Err(e) => {
                proof {
                    assert(parse_fold(rv.take(idx + 1)) == Err::<Seq<SpecBlock>, SpecError>(e@));
                    lemma_parse_fold_err(rv, idx + 1, e@);
                    assert(result_view(Err::<WebVttDocument, ConverterError>(e)) == Err::<
                        Seq<SpecBlock>,
                        SpecError,
                    >(e@));
                }
                return Err(e);
            },
            Ok(None) => {},
            Ok(Some(b)) => {
                blocks.push(b);
                assert(blocks@.map_values(|b: WebVttBlock| b@) =~= parse_fold(
                    rv.take(idx + 1),
                )->Ok_0);
            },
        }
        idx += 1;
    }
    assert(rv.take(raws.len() as int) =~= rv);
    let doc = WebVttDocument { blocks };
    Ok(doc)
}

} // verus!
