//! Markdown for a document, one renderer per ruleset.

use vstd::prelude::*;
use crate::detect::{
    RuleSet, count_multi_colon, cues_of, empty_speaker, is_empty_textual_speaker,
    parse_ms_teams_scheduled_identifier, parse_teams_id, split_speaker, split_textual_speaker,
    use_last_colon_split,
};
use crate::inline::{render_inline_tags, spec_render_inline};
use crate::model::{CueBlock, SpecBlock, SpecCue, WebVttBlock, WebVttDocument};
use crate::parse::{join, join_chars, line_views};
use crate::text::{chars_of, extend_chars, find_char, ne_pred, scan, string_of, sub_vec};

verus! {

pub open spec fn nl() -> Seq<char> {
    seq!['\n']
}

pub open spec fn blank_line() -> Seq<char> {
    seq!['\n', '\n']
}

/// The part of a timestamp before its first `.`.
pub open spec fn normalized_start(start: Seq<char>) -> Seq<char> {
    start.subrange(0, scan(start, 0, ne_pred('.')))
}

/// `**(start)**`, or `**(start) speaker**` for a non-empty speaker.
pub open spec fn spec_format_header(start: Seq<char>, speaker: Option<Seq<char>>) -> Seq<char> {
    let ns = normalized_start(start);
    match speaker {
        Some(sp) => if sp.len() > 0 {
            seq!['*', '*', '('] + ns + seq![')', ' '] + sp + seq!['*', '*']
        } else {
            seq!['*', '*', '('] + ns + seq![')', '*', '*']
        },
        None => seq!['*', '*', '('] + ns + seq![')', '*', '*'],
    }
}

pub open spec fn quote_lines(lines: Seq<Seq<char>>) -> Seq<Seq<char>> {
    lines.map_values(|l: Seq<char>| seq!['>', ' '] + l)
}

/// A note as a Markdown quote.
pub open spec fn spec_render_note(lines: Seq<Seq<char>>) -> Seq<char> {
    join(quote_lines(lines), nl())
}

/// A header line and a body line.
pub open spec fn cue_piece(start: Seq<char>, speaker: Option<Seq<char>>, text: Seq<char>) -> Seq<char> {
    spec_format_header(start, speaker) + nl() + spec_render_inline(text)
}

/// The pieces separated by blank lines, with a final newline.
pub open spec fn finish(pieces: Seq<Seq<char>>) -> Seq<char> {
    join(pieces, blank_line()) + nl()
}

/// Pieces of the renderers that keep each cue as it is (generic, Zoom events).
pub open spec fn plain_pieces(blocks: Seq<SpecBlock>) -> Seq<Seq<char>>
    decreases blocks.len(),
{
    if blocks.len() == 0 {
        Seq::empty()
    } else {
        let rest = plain_pieces(blocks.drop_last());
        match blocks.last() {
            SpecBlock::Note(ls) => rest.push(spec_render_note(ls)),
            SpecBlock::Style(_) => rest,
            SpecBlock::Cue(c) => rest.push(cue_piece(c.start, c.voice, c.text)),
        }
    }
}

/// Pieces of the renderers that take `Speaker: text` apart.
pub open spec fn speaker_pieces(blocks: Seq<SpecBlock>, last: bool) -> Seq<Seq<char>>
    decreases blocks.len(),
{
    if blocks.len() == 0 {
        Seq::empty()
    } else {
        let rest = speaker_pieces(blocks.drop_last(), last);
        match blocks.last() {
            SpecBlock::Note(ls) => rest.push(spec_render_note(ls)),
            SpecBlock::Style(_) => rest,
            SpecBlock::Cue(c) => if empty_speaker(c.text) {
                rest
            } else {
                match split_speaker(c.text, last) {
                    Some((sp, st)) => rest.push(cue_piece(c.start, Some(sp), st)),
                    None => rest.push(cue_piece(c.start, c.voice, c.text)),
                }
            },
        }
    }
}

pub fn format_header(start: &str, speaker: Option<&Vec<char>>) -> (res: Vec<char>)
    ensures
        res@ == spec_format_header(
            start@,
            match speaker {
                Some(s) => Some(s@),
                None => None,
            },
        ),
{
    let st = chars_of(start);
    let dot = find_char(&st, 0, '.');
    let ns = sub_vec(&st, 0, dot);
    let mut out = vec!['*', '*', '('];
    extend_chars(&mut out, &ns);
    match speaker {
        Some(sp) => {
            if sp.len() > 0 {
                out.push(')');
                out.push(' ');
                extend_chars(&mut out, sp);
                out.push('*');
                out.push('*');
            } else {
                out.push(')');
                out.push('*');
                out.push('*');
            }
        },
        None => {
            out.push(')');
            out.push('*');
            out.push('*');
        },
    }
    assert(out@ =~= spec_format_header(
        start@,
        match speaker {
            Some(s) => Some(s@),
            None => None,
        },
    ));
    out
}

fn render_note_block(lines: &Vec<String>) -> (res: Vec<char>)
    ensures
        res@ == spec_render_note(lines.deep_view()),
{
    let mut quoted: Vec<Vec<char>> = Vec::new();
    let mut i: usize = 0;
    while i < lines.len()
        invariant
            i <= lines.len(),
            line_views(quoted@) =~= quote_lines(lines.deep_view().take(i as int)),
        decreases lines.len() - i,
    {
        let mut q = vec!['>', ' '];
        let l = chars_of(lines[i].as_str());
        extend_chars(&mut q, &l);
        let ghost prev = quoted@;
        quoted.push(q);
        assert(line_views(quoted@) =~= line_views(prev).push(q@));
        assert(lines.deep_view().take(i + 1) =~= lines.deep_view().take(i as int).push(
            lines@[i as int]@,
        ));
        i += 1;
    }
    assert(lines.deep_view().take(i as int) =~= lines.deep_view());
    let sep = vec!['\n'];
    assert(sep@ =~= nl());
    join_chars(&quoted, &sep)
}

fn opt_chars(o: &Option<String>) -> (res: Option<Vec<char>>)
    ensures
        match res {
            Some(v) => o.deep_view() == Some(v@),
            None => o.deep_view() is None,
        },
{
    match o {
        Some(s) => Some(chars_of(s.as_str())),
        None => None,
    }
}

fn cue_piece_exec(start: &str, speaker: Option<&Vec<char>>, text: &str) -> (res: Vec<char>)
    ensures
        res@ == cue_piece(
            start@,
            match speaker {
                Some(s) => Some(s@),
                None => None,
            },
            text@,
        ),
{
    let mut out = format_header(start, speaker);
    out.push('\n');
    let body = render_inline_tags(text);
    let b = chars_of(body.as_str());
    extend_chars(&mut out, &b);
    out
}

fn finish_exec(pieces: &Vec<Vec<char>>) -> (res: String)
    ensures
        res@ == finish(line_views(pieces@)),
{
    let sep = vec!['\n', '\n'];
    assert(sep@ =~= blank_line());
    let mut out = join_chars(pieces, &sep);
    out.push('\n');
    assert(out@ =~= finish(line_views(pieces@)));
    string_of(&out)
}

/// The plain pieces of a document: notes quoted, cues with header and text.
fn plain_pieces_exec(document: &WebVttDocument) -> (res: Vec<Vec<char>>)
    ensures
        line_views(res@) == plain_pieces(document@),
{
    let ghost bv = document@;
    let mut out: Vec<Vec<char>> = Vec::new();
    let mut i: usize = 0;
    while i < document.blocks.len()
        invariant
            i <= document.blocks.len(),
            bv == document@,
            line_views(out@) == plain_pieces(bv.take(i as int)),
        decreases document.blocks.len() - i,
    {
        assert(bv.take(i + 1).drop_last() =~= bv.take(i as int));
        assert(bv.take(i + 1).last() == document.blocks@[i as int]@);
        let ghost prev = out@;
        match &document.blocks[i] {
            WebVttBlock::Note(note) => {
                let p = render_note_block(&note.lines);
                out.push(p);
                assert(line_views(out@) =~= line_views(prev).push(p@));
            },
            WebVttBlock::Style(_) => {},
            WebVttBlock::Cue(cue) => {
                let voice = opt_chars(&cue.voice);
                let p = cue_piece_exec(cue.start.as_str(), voice.as_ref(), cue.text.as_str());
                out.push(p);
                assert(line_views(out@) =~= line_views(prev).push(p@));
            },
        }
        i += 1;
    }
    assert(bv.take(i as int) =~= bv);
    out
}

fn speaker_pieces_exec(document: &WebVttDocument, use_last_colon: bool) -> (res: Vec<Vec<char>>)
    ensures
        line_views(res@) == speaker_pieces(document@, use_last_colon),
{
    let ghost bv = document@;
    let mut out: Vec<Vec<char>> = Vec::new();
    let mut i: usize = 0;
    while i < document.blocks.len()
        invariant
            i <= document.blocks.len(),
            bv == document@,
            line_views(out@) == speaker_pieces(bv.take(i as int), use_last_colon),
        decreases document.blocks.len() - i,
    {
        assert(bv.take(i + 1).drop_last() =~= bv.take(i as int));
        assert(bv.take(i + 1).last() == document.blocks@[i as int]@);
        let ghost prev = out@;
        match &document.blocks[i] {
            WebVttBlock::Note(note) => {
                let p = render_note_block(&note.lines);
                out.push(p);
                assert(line_views(out@) =~= line_views(prev).push(p@));
            },
            WebVttBlock::Style(_) => {},
            WebVttBlock::Cue(cue) => {
                let text = chars_of(cue.text.as_str());
                if !is_empty_textual_speaker(&text) {
                    match split_textual_speaker(&text, use_last_colon) {
                        Some((speaker, spoken_text)) => {
                            let st = string_of(&spoken_text);
                            let p = cue_piece_exec(cue.start.as_str(), Some(&speaker), st.as_str());
                            out.push(p);
                            assert(line_views(out@) =~= line_views(prev).push(p@));
                        },
                        None => {
                            let voice = opt_chars(&cue.voice);
                            let p = cue_piece_exec(
                                cue.start.as_str(),
                                voice.as_ref(),
                                cue.text.as_str(),
                            );
                            out.push(p);
                            assert(line_views(out@) =~= line_views(prev).push(p@));
                        },
                    }
                }
            },
        }
        i += 1;
    }
    assert(bv.take(i as int) =~= bv);
    out
}

pub open spec fn spec_render_generic(blocks: Seq<SpecBlock>) -> Seq<char> {
    finish(plain_pieces(blocks))
}

pub open spec fn spec_render_zoom_scheduled(blocks: Seq<SpecBlock>) -> Seq<char> {
    finish(speaker_pieces(blocks, count_multi_colon(cues_of(blocks)) >= 3))
}

pub open spec fn spec_render_meeting(blocks: Seq<SpecBlock>) -> Seq<char> {
    finish(speaker_pieces(blocks, false))
}

fn render_generic_webvtt(document: &WebVttDocument) -> (res: String)
    ensures
        res@ == spec_render_generic(document@),
{
    let pieces = plain_pieces_exec(document);
    finish_exec(&pieces)
}

fn render_zoom_event(document: &WebVttDocument) -> (res: String)
    ensures
        res@ == spec_render_generic(document@),
{
    let pieces = plain_pieces_exec(document);
    finish_exec(&pieces)
}

fn render_zoom_scheduled(document: &WebVttDocument) -> (res: String)
    ensures
        res@ == spec_render_zoom_scheduled(document@),
{
    let use_last_colon = use_last_colon_split(document);
    let pieces = speaker_pieces_exec(document, use_last_colon);
    finish_exec(&pieces)
}

fn render_meeting_novoicetag(document: &WebVttDocument) -> (res: String)
    ensures
        res@ == spec_render_meeting(document@),
{
    let pieces = speaker_pieces_exec(document, false);
    finish_exec(&pieces)
}


/// Notes, and cues without a Teams identifier, in order.
pub open spec fn leading_pieces(blocks: Seq<SpecBlock>) -> Seq<Seq<char>>
    decreases blocks.len(),
{
    if blocks.len() == 0 {
        Seq::empty()
    } else {
        let rest = leading_pieces(blocks.drop_last());
        match blocks.last() {
            SpecBlock::Note(ls) => rest.push(spec_render_note(ls)),
            SpecBlock::Style(_) => rest,
            SpecBlock::Cue(c) => if parse_teams_id(c.identifier) is None {
                rest.push(cue_piece(c.start, c.voice, c.text))
            } else {
                rest
            },
        }
    }
}

/// The cues with a Teams identifier: `(group, segment, cue)`.
pub open spec fn teams_entries(blocks: Seq<SpecBlock>) -> Seq<(Seq<char>, nat, SpecCue)>
    decreases blocks.len(),
{
    if blocks.len() == 0 {
        Seq::empty()
    } else {
        let rest = teams_entries(blocks.drop_last());
        match blocks.last() {
            SpecBlock::Cue(c) => match parse_teams_id(c.identifier) {
                Some((k, n)) => rest.push((k, n, c)),
                None => rest,
            },
            _ => rest,
        }
    }
}

/// The groups, in the order in which they first occur.
pub open spec fn group_keys(es: Seq<(Seq<char>, nat, SpecCue)>) -> Seq<Seq<char>>
    decreases es.len(),
{
    if es.len() == 0 {
        Seq::empty()
    } else {
        let ks = group_keys(es.drop_last());
        if ks.contains(es.last().0) {
            ks
        } else {
            ks.push(es.last().0)
        }
    }
}

/// The `(segment, cue)` entries of one group, in order.
pub open spec fn with_key(es: Seq<(Seq<char>, nat, SpecCue)>, k: Seq<char>) -> Seq<(nat, SpecCue)>
    decreases es.len(),
{
    if es.len() == 0 {
        Seq::empty()
    } else {
        let rest = with_key(es.drop_last(), k);
        if es.last().0 == k {
            rest.push((es.last().1, es.last().2))
        } else {
            rest
        }
    }
}

pub open spec fn first_segment_from(es: Seq<(nat, SpecCue)>, n: nat, i: int) -> Option<int>
    decreases es.len() - i,
{
    if i < 0 || i >= es.len() {
        None
    } else if es[i].0 == n {
        Some(i)
    } else {
        first_segment_from(es, n, i + 1)
    }
}

/// The cue whose timestamp and voice head a group: segment 0, else 1, else the first.
pub open spec fn header_cue(es: Seq<(nat, SpecCue)>) -> SpecCue {
    match first_segment_from(es, 0, 0) {
        Some(i) => es[i].1,
        None => match first_segment_from(es, 1, 0) {
            Some(i) => es[i].1,
            None => es[0].1,
        },
    }
}

pub open spec fn group_piece(es: Seq<(nat, SpecCue)>) -> Seq<char> {
    let h = header_cue(es);
    spec_format_header(h.start, h.voice) + nl() + join(
        es.map_values(|e: (nat, SpecCue)| spec_render_inline(e.1.text)),
        nl(),
    )
}

/// Teams transcripts: loose blocks first, then one block per group with the
/// texts of its segments.
pub open spec fn spec_render_teams(blocks: Seq<SpecBlock>) -> Seq<char> {
    let es = teams_entries(blocks);
    finish(
        leading_pieces(blocks) + group_keys(es).map_values(
            |k: Seq<char>| group_piece(with_key(es, k)),
        ),
    )
}

pub open spec fn entry_views(v: Seq<(Vec<char>, usize, &CueBlock)>) -> Seq<(Seq<char>, nat, SpecCue)> {
    v.map_values(|e: (Vec<char>, usize, &CueBlock)| (e.0@, e.1 as nat, e.2@))
}

pub open spec fn group_views(v: Seq<(usize, &CueBlock)>) -> Seq<(nat, SpecCue)> {
    v.map_values(|e: (usize, &CueBlock)| (e.0 as nat, e.1@))
}

fn contains_line(lines: &Vec<Vec<char>>, k: &Vec<char>) -> (b: bool)
    ensures
        b == line_views(lines@).contains(k@),
{
    let mut i: usize = 0;
    while i < lines.len()
        invariant
            i <= lines.len(),
            forall|j: int| 0 <= j < i ==> lines@[j]@ != k@,
        decreases lines.len() - i,
    {
        if crate::text::chars_eq(&lines[i], k) {
            assert(line_views(lines@)[i as int] == k@);
            return true;
        }
        i += 1;
    }
    assert forall|j: int| 0 <= j < line_views(lines@).len() implies line_views(lines@)[j] != k@ by {
        assert(line_views(lines@)[j] == lines@[j]@);
    }
    false
}

fn first_segment(es: &Vec<(usize, &CueBlock)>, n: usize) -> (res: Option<usize>)
    ensures
        match res {
            Some(i) => first_segment_from(group_views(es@), n as nat, 0) == Some(i as int) && i < es.len(),
            None => first_segment_from(group_views(es@), n as nat, 0) is None,
        },
{
    let ghost gv = group_views(es@);
    let mut i: usize = 0;
    while i < es.len()
        invariant
            i <= es.len(),
            gv == group_views(es@),
            first_segment_from(gv, n as nat, 0) == first_segment_from(gv, n as nat, i as int),
        decreases es.len() - i,
    {
        assert(gv[i as int].0 == es@[i as int].0 as nat);
        if es[i].0 == n {
            return Some(i);
        }
        i += 1;
    }
    None
}

fn group_piece_exec(es: &Vec<(usize, &CueBlock)>) -> (res: Vec<char>)
    requires
        es.len() > 0,
    ensures
        res@ == group_piece(group_views(es@)),
{
    let ghost gv = group_views(es@);
    let h = match first_segment(es, 0) {
        Some(i) => i,
        None => match first_segment(es, 1) {
            Some(i) => i,
            None => 0,
        },
    };
    assert(gv[h as int].1 == es@[h as int].1@);
    let hc = es[h].1;
    let voice = opt_chars(&hc.voice);
    let mut out = format_header(hc.start.as_str(), voice.as_ref());
    out.push('\n');
    let mut bodies: Vec<Vec<char>> = Vec::new();
    let ghost texts = gv.map_values(|e: (nat, SpecCue)| spec_render_inline(e.1.text));
    let mut i: usize = 0;
    while i < es.len()
        invariant
            i <= es.len(),
            gv == group_views(es@),
            texts == gv.map_values(|e: (nat, SpecCue)| spec_render_inline(e.1.text)),
            line_views(bodies@) =~= texts.take(i as int),
        decreases es.len() - i,
    {
        let r = render_inline_tags(es[i].1.text.as_str());
        let rc = chars_of(r.as_str());
        assert(gv[i as int].1 == es@[i as int].1@);
        let ghost prev = bodies@;
        bodies.push(rc);
        assert(line_views(bodies@) =~= line_views(prev).push(rc@));
        assert(texts.take(i + 1) =~= texts.take(i as int).push(texts[i as int]));
        i += 1;
    }
    assert(texts.take(i as int) =~= texts);
    let sep = vec!['\n'];
    assert(sep@ =~= nl());
    let body = join_chars(&bodies, &sep);
    extend_chars(&mut out, &body);
    assert(out@ =~= group_piece(gv));
    out
}

fn render_ms_teams_like(document: &WebVttDocument) -> (res: String)
    ensures
        res@ == spec_render_teams(document@),
{
    let ghost bv = document@;
    let mut leading: Vec<Vec<char>> = Vec::new();
    let mut entries: Vec<(Vec<char>, usize, &CueBlock)> = Vec::new();
    let mut i: usize = 0;
    while i < document.blocks.len()
        invariant
            i <= document.blocks.len(),
            bv == document@,
            line_views(leading@) == leading_pieces(bv.take(i as int)),
            entry_views(entries@) == teams_entries(bv.take(i as int)),
        decreases document.blocks.len() - i,
    {
        assert(bv.take(i + 1).drop_last() =~= bv.take(i as int));
        assert(bv.take(i + 1).last() == document.blocks@[i as int]@);
        let ghost prev = leading@;
        let ghost prev_e = entries@;
        match &document.blocks[i] {
            WebVttBlock::Note(note) => {
                let p = render_note_block(&note.lines);
                leading.push(p);
                assert(line_views(leading@) =~= line_views(prev).push(p@));
            },
            WebVttBlock::Style(_) => {},
            WebVttBlock::Cue(cue) => {
                match parse_ms_teams_scheduled_identifier(&cue.identifier) {
                    Some((key, segment)) => {
                        let k = chars_of(key.as_str());
                        entries.push((k, segment, cue));
                        assert(entry_views(entries@) =~= entry_views(prev_e).push(
                            (k@, segment as nat, cue@),
                        ));
                    },
                    None => {
                        let voice = opt_chars(&cue.voice);
                        let p = cue_piece_exec(cue.start.as_str(), voice.as_ref(), cue.text.as_str());
                        leading.push(p);
                        assert(line_views(leading@) =~= line_views(prev).push(p@));
                    },
                }
            },
        }
        i += 1;
    }
    assert(bv.take(i as int) =~= bv);
    let ghost ev = entry_views(entries@);
    // the groups in order of first occurrence
    let mut keys: Vec<Vec<char>> = Vec::new();
    let mut j: usize = 0;
    while j < entries.len()
        invariant
            j <= entries.len(),
            ev == entry_views(entries@),
            line_views(keys@) == group_keys(ev.take(j as int)),
        decreases entries.len() - j,
    {
        assert(ev.take(j + 1).drop_last() =~= ev.take(j as int));
        assert(ev.take(j + 1).last().0 == entries@[j as int].0@);
        let ghost ks = group_keys(ev.take(j as int));
        let ghost x = ev.take(j + 1).last().0;
        assert(group_keys(ev.take(j + 1)) == if ks.contains(x) {
            ks
        } else {
            ks.push(x)
        });
        if !contains_line(&keys, &entries[j].0) {
            let k = sub_vec(&entries[j].0, 0, entries[j].0.len());
            assert(k@ =~= x);
            let ghost prev = keys@;
            keys.push(k);
            assert(line_views(keys@) =~= line_views(prev).push(k@));
        }
        j += 1;
    }
    assert(ev.take(j as int) =~= ev);
    let ghost kv = line_views(keys@);
    let ghost group_pieces = kv.map_values(|k: Seq<char>| group_piece(with_key(ev, k)));
    let mut pieces = leading;
    let ghost lead = line_views(pieces@);
    let mut g: usize = 0;
    while g < keys.len()
        invariant
            g <= keys.len(),
            ev == entry_views(entries@),
            kv == line_views(keys@),
            kv == group_keys(ev),
            group_pieces == kv.map_values(|k: Seq<char>| group_piece(with_key(ev, k))),
            line_views(pieces@) =~= lead + group_pieces.take(g as int),
        decreases keys.len() - g,
    {
        let mut members: Vec<(usize, &CueBlock)> = Vec::new();
        let mut m: usize = 0;
        while m < entries.len()
            invariant
                m <= entries.len(),
                g < keys.len(),
                ev == entry_views(entries@),
                group_views(members@) =~= with_key(ev.take(m as int), keys@[g as int]@),
            decreases entries.len() - m,
        {
            assert(ev.take(m + 1).drop_last() =~= ev.take(m as int));
            assert(ev.take(m + 1).last() == (entries@[m as int].0@, entries@[m as int].1 as nat, entries@[m as int].2@));
            if crate::text::chars_eq(&entries[m].0, &keys[g]) {
                let ghost prev = members@;
                members.push((entries[m].1, entries[m].2));
                assert(group_views(members@) =~= group_views(prev).push((entries@[m as int].1 as nat, entries@[m as int].2@)));
            }
            m += 1;
        }
        assert(ev.take(m as int) =~= ev);
        proof {
            lemma_key_has_members(ev, kv[g as int]);
        }
        let p = group_piece_exec(&members);
        let ghost prev = pieces@;
        pieces.push(p);
        assert(line_views(pieces@) =~= line_views(prev).push(p@));
        assert(group_pieces.take(g + 1) =~= group_pieces.take(g as int).push(group_pieces[g as int]));
        g += 1;
    }
    assert(group_pieces.take(g as int) =~= group_pieces);
    finish_exec(&pieces)
}

/// Every group has at least one member.
proof fn lemma_key_has_members(es: Seq<(Seq<char>, nat, SpecCue)>, k: Seq<char>)
    requires
        group_keys(es).contains(k),
    ensures
        with_key(es, k).len() > 0,
    decreases es.len(),
{
    if es.len() > 0 {
        if es.last().0 == k {
        } else {
            assert(group_keys(es.drop_last()).contains(k)) by {
                let ks = group_keys(es.drop_last());
                if !ks.contains(es.last().0) {
                    let i = choose|i: int| 0 <= i < ks.push(es.last().0).len() && ks.push(es.last().0)[i] == k;
                    assert(i < ks.len());
                    assert(ks[i] == k);
                }
            }
            lemma_key_has_members(es.drop_last(), k);
        }
    }
}


impl RuleSet {
    /// The Markdown that the ruleset's renderer writes for a document.
    pub open spec fn spec_render(self, blocks: Seq<SpecBlock>) -> Seq<char> {
        match self {
            RuleSet::GenericWebvtt => spec_render_generic(blocks),
            RuleSet::ZoomEvent => spec_render_generic(blocks),
            RuleSet::MeetingNovoicetag => spec_render_meeting(blocks),
            RuleSet::MsTeamsEvent => spec_render_teams(blocks),
            RuleSet::MsTeamsScheduled => spec_render_teams(blocks),
            RuleSet::ZoomScheduled => spec_render_zoom_scheduled(blocks),
        }
    }

    pub fn render(&self, document: &WebVttDocument) -> (res: String)
        ensures
            res@ == self.spec_render(document@),
    {
        match self {
            RuleSet::GenericWebvtt => render_generic_webvtt(document),
            RuleSet::ZoomEvent => render_zoom_event(document),
            RuleSet::MeetingNovoicetag => render_meeting_novoicetag(document),
            RuleSet::MsTeamsEvent => render_ms_teams_like(document),
            RuleSet::MsTeamsScheduled => render_ms_teams_like(document),
            RuleSet::ZoomScheduled => render_zoom_scheduled(document),
        }
    }
}

} // verus!
