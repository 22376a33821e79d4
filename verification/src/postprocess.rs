//! Tidying rendered Markdown: neighbouring blocks of one speaker are joined,
//! and the lines of a speaker block are reflowed into one.

use vstd::prelude::*;
use crate::detect::RuleSet;
use crate::model::opt_str_view;
use crate::parse::{join, join_chars, line_views, lines_of, split_lines};
use crate::text::{
    chars_eq, chars_of, decimal_pred, extend_chars, find_char, is_blank, is_blank_chars,
    is_ws, is_ws_char, lemma_scan, ne_pred, scan, scan_decimal, scan_ws,
    string_of, sub_vec, trim, trimmed, ws_pred,
};

verus! {

/// A block of rendered Markdown.
pub struct SpecMd {
    pub raw: Seq<char>,
    pub header: Option<Seq<char>>,
    pub speaker: Option<Seq<char>>,
    pub body: Seq<char>,
}

struct MarkdownBlock {
    raw_text: Vec<char>,
    header: Option<Vec<char>>,
    speaker: Option<Vec<char>>,
    body: Vec<char>,
}

pub open spec fn opt_view(o: Option<Vec<char>>) -> Option<Seq<char>> {
    match o {
        Some(v) => Some(v@),
        None => None,
    }
}

impl View for MarkdownBlock {
    type V = SpecMd;

    closed spec fn view(&self) -> SpecMd {
        SpecMd {
            raw: self.raw_text@,
            header: opt_view(self.header),
            speaker: opt_view(self.speaker),
            body: self.body@,
        }
    }
}

/// The first `\n\n` at or after `p`.
pub open spec fn find_blank_line(s: Seq<char>, p: int) -> Option<int>
    decreases s.len() - p,
{
    if p < 0 || p + 1 >= s.len() {
        None
    } else if s[p] == '\n' && s[p + 1] == '\n' {
        Some(p)
    } else {
        find_blank_line(s, p + 1)
    }
}

/// `str::split("\n\n")` on `s[p..]`.
pub open spec fn split_blocks_from(s: Seq<char>, p: int) -> Seq<Seq<char>>
    decreases s.len() - p,
{
    match find_blank_line(s, p) {
        Some(k) => if 0 <= p <= k && k + 2 <= s.len() {
            seq![s.subrange(p, k)] + split_blocks_from(s, k + 2)
        } else {
            Seq::empty()
        },
        None => seq![s.subrange(p, s.len() as int)],
    }
}

/// `^\*\*\(([^)]+)\)(?: (.+))?\*\*$`: `Some(speaker bounds)` when the header
/// line matches (the inner option is the speaker), `None` otherwise.
pub open spec fn header_match(l: Seq<char>) -> Option<Option<(int, int)>> {
    if l.len() >= 3 && l[0] == '*' && l[1] == '*' && l[2] == '(' {
        let p = scan(l, 3, ne_pred(')'));
        if p > 3 && p < l.len() {
            let n = l.len() - (p + 1);
            if n >= 4 && l[p + 1] == ' ' && l[l.len() - 2] == '*' && l[l.len() - 1] == '*'
                && !l.subrange(p + 2, l.len() - 2).contains('\n') {
                Some(Some((p + 2, l.len() - 2)))
            } else if n == 2 && l[p + 1] == '*' && l[p + 2] == '*' {
                Some(None)
            } else {
                None
            }
        } else {
            None
        }
    } else {
        None
    }
}

/// `^\s*(?:[-+*]|\d+[.)])\s+`: a list item.
pub open spec fn list_like(l: Seq<char>) -> bool {
    let w = scan(l, 0, ws_pred());
    w < l.len() && ((((l[w] == '-' || l[w] == '+' || l[w] == '*') && w + 1 < l.len() && is_ws(
        l[w + 1],
    ))) || {
        let d = scan(l, w, decimal_pred());
        d > w && d < l.len() && (l[d] == '.' || l[d] == ')') && d + 1 < l.len() && is_ws(l[d + 1])
    })
}

pub open spec fn has_list_line(body: Seq<char>) -> bool {
    exists|i: int| 0 <= i < lines_of(body).len() && list_like(#[trigger] lines_of(body)[i])
}

pub open spec fn parse_md(raw: Seq<char>) -> SpecMd {
    let lines = lines_of(raw);
    if lines.len() == 0 {
        SpecMd { raw, header: None, speaker: None, body: Seq::empty() }
    } else {
        let body = join(lines.subrange(1, lines.len() as int), seq!['\n']);
        match header_match(lines[0]) {
            Some(sp) => SpecMd {
                raw,
                header: Some(lines[0]),
                speaker: match sp {
                    Some((a, b)) => Some(lines[0].subrange(a, b)),
                    None => None,
                },
                body,
            },
            None => SpecMd { raw, header: None, speaker: None, body },
        }
    }
}

/// Two neighbouring speaker blocks of one speaker, neither holding a list.
pub open spec fn stitchable(prev: SpecMd, cur: SpecMd) -> bool {
    prev.header is Some && cur.header is Some && prev.speaker is Some && cur.speaker is Some
        && prev.speaker == cur.speaker && !has_list_line(prev.body) && !has_list_line(cur.body)
}

pub open spec fn merged_body(a: Seq<char>, b: Seq<char>) -> Seq<char> {
    if a.len() == 0 {
        b
    } else if b.len() == 0 {
        a
    } else {
        a + seq!['\n'] + b
    }
}

pub open spec fn merge_step(merged: Seq<SpecMd>, b: SpecMd) -> Seq<SpecMd> {
    if merged.len() == 0 {
        seq![b]
    } else {
        let prev = merged.last();
        if !stitchable(prev, b) {
            merged.push(b)
        } else {
            merged.drop_last().push(
                SpecMd {
                    raw: Seq::empty(),
                    header: prev.header,
                    speaker: prev.speaker,
                    body: merged_body(prev.body, b.body),
                },
            )
        }
    }
}

pub open spec fn merge_fold(bs: Seq<SpecMd>) -> Seq<SpecMd>
    decreases bs.len(),
{
    if bs.len() == 0 {
        Seq::empty()
    } else {
        merge_step(merge_fold(bs.drop_last()), bs.last())
    }
}

/// The sources whose speaker blocks are reflowed: all but the generic one.
pub open spec fn reflow_source(gs: Option<Seq<char>>) -> bool {
    match gs {
        Some(s) => s == RuleSet::MsTeamsScheduled.source_name() || s
            == RuleSet::MsTeamsEvent.source_name() || s == RuleSet::ZoomScheduled.source_name()
            || s == RuleSet::ZoomEvent.source_name() || s == RuleSet::MeetingNovoicetag.source_name(),
        None => false,
    }
}

pub open spec fn should_reflow(b: SpecMd, gs: Option<Seq<char>>) -> bool {
    reflow_source(gs) && b.header is Some && b.body.len() > 0 && !has_list_line(b.body) && !(
    exists|i: int| 0 <= i < lines_of(b.body).len() && is_blank(#[trigger] lines_of(b.body)[i]))
        && b.body.contains('\n')
}

pub open spec fn reflow(b: SpecMd) -> SpecMd {
    SpecMd {
        raw: Seq::empty(),
        header: b.header,
        speaker: b.speaker,
        body: join(lines_of(b.body).map_values(|l: Seq<char>| trim(l)), seq![' ']),
    }
}

pub open spec fn render_md(b: SpecMd) -> Seq<char> {
    match b.header {
        None => b.raw,
        Some(h) => if b.body.len() == 0 {
            h
        } else {
            h + seq!['\n'] + b.body
        },
    }
}

pub open spec fn maybe_reflow(b: SpecMd, gs: Option<Seq<char>>) -> SpecMd {
    if should_reflow(b, gs) {
        reflow(b)
    } else {
        b
    }
}

/// Rendered Markdown after joining and reflowing speaker blocks.
pub open spec fn spec_postprocess(md: Seq<char>, gs: Option<Seq<char>>) -> Seq<char> {
    if md.len() == 0 {
        Seq::empty()
    } else {
        let content = if md.last() == '\n' {
            md.drop_last()
        } else {
            md
        };
        if content.len() == 0 {
            seq!['\n']
        } else {
            let blocks = split_blocks_from(content, 0).map_values(|r: Seq<char>| parse_md(r));
            let merged = merge_fold(blocks);
            let reflowed = merged.map_values(|b: SpecMd| maybe_reflow(b, gs));
            join(reflowed.map_values(|b: SpecMd| render_md(b)), seq!['\n', '\n']) + seq!['\n']
        }
    }
}


fn find_blank_line_exec(s: &Vec<char>, p: usize) -> (res: Option<usize>)
    requires
        p <= s.len(),
    ensures
        match res {
            Some(k) => find_blank_line(s@, p as int) == Some(k as int) && p <= k && k + 2 <= s.len(),
            None => find_blank_line(s@, p as int) is None,
        },
{
    let mut k = p;
    while s.len() - k >= 2
        invariant
            p <= k <= s.len(),
            find_blank_line(s@, p as int) == find_blank_line(s@, k as int),
        decreases s.len() - k,
    {
        if s[k] == '\n' && s[k + 1] == '\n' {
            return Some(k);
        }
        k += 1;
    }
    None
}

fn split_markdown_blocks(s: &Vec<char>) -> (res: Vec<Vec<char>>)
    ensures
        line_views(res@) == split_blocks_from(s@, 0),
{
    let mut out: Vec<Vec<char>> = Vec::new();
    let mut p: usize = 0;
    loop
        invariant
            p <= s.len(),
            split_blocks_from(s@, 0) == line_views(out@) + split_blocks_from(s@, p as int),
        decreases s.len() - p,
    {
        let ghost prev = out@;
        match find_blank_line_exec(s, p) {
            Some(k) => {
                let piece = sub_vec(s, p, k);
                out.push(piece);
                assert(line_views(out@) =~= line_views(prev).push(piece@));
                assert(split_blocks_from(s@, p as int) =~= seq![piece@] + split_blocks_from(
                    s@,
                    k + 2,
                ));
                p = k + 2;
            },
            None => {
                let piece = sub_vec(s, p, s.len());
                out.push(piece);
                assert(line_views(out@) =~= line_views(prev).push(piece@));
                assert(line_views(out@) =~= line_views(prev) + split_blocks_from(s@, p as int));
                return out;
            },
        }
    }
}

fn header_match_exec(l: &Vec<char>) -> (res: Option<Option<(usize, usize)>>)
    ensures
        match res {
            Some(Some((a, b))) => header_match(l@) == Some(Some((a as int, b as int))) && a <= b
                <= l.len(),
            Some(None) => header_match(l@) == Some(None::<(int, int)>),
            None => header_match(l@) is None,
        },
{
    if !(l.len() >= 3 && l[0] == '*' && l[1] == '*' && l[2] == '(') {
        return None;
    }
    let p = find_char(l, 3, ')');
    if !(p > 3 && p < l.len()) {
        return None;
    }
    let n = l.len() - (p + 1);
    if n >= 4 && l[p + 1] == ' ' && l[l.len() - 2] == '*' && l[l.len() - 1] == '*' {
        let nl = find_char(l, p + 2, '\n');
        proof {
            lemma_scan(l@, p + 2, ne_pred('\n'));
        }
        if nl >= l.len() - 2 {
            let ghost mid = l@.subrange(p + 2, l.len() - 2);
            assert forall|j: int| 0 <= j < mid.len() implies #[trigger] mid[j] != '\n' by {
                assert(ne_pred('\n')(l@[p + 2 + j]));
            }
            return Some(Some((p + 2, l.len() - 2)));
        }
        assert(l@.subrange(p + 2, l.len() - 2)[nl - (p + 2)] == '\n');
    }
    if n == 2 && l[p + 1] == '*' && l[p + 2] == '*' {
        return Some(None);
    }
    None
}

fn list_like_exec(l: &Vec<char>) -> (b: bool)
    ensures
        b == list_like(l@),
{
    let w = scan_ws(l, 0);
    if w >= l.len() {
        return false;
    }
    if (l[w] == '-' || l[w] == '+' || l[w] == '*') && w + 1 < l.len() && is_ws_char(l[w + 1]) {
        return true;
    }
    let d = scan_decimal(l, w);
    d > w && d < l.len() && (l[d] == '.' || l[d] == ')') && d + 1 < l.len() && is_ws_char(l[d + 1])
}

fn contains_list_like_line(body: &Vec<char>) -> (b: bool)
    ensures
        b == has_list_line(body@),
{
    let lines = split_lines(body);
    let mut i: usize = 0;
    while i < lines.len()
        invariant
            i <= lines.len(),
            line_views(lines@) == lines_of(body@),
            forall|j: int| 0 <= j < i ==> !list_like(#[trigger] lines_of(body@)[j]),
        decreases lines.len() - i,
    {
        assert(lines_of(body@)[i as int] == lines@[i as int]@);
        if list_like_exec(&lines[i]) {
            return true;
        }
        i += 1;
    }
    false
}

fn has_blank_line(body: &Vec<char>) -> (b: bool)
    ensures
        b == exists|i: int| 0 <= i < lines_of(body@).len() && is_blank(#[trigger] lines_of(body@)[i]),
{
    let lines = split_lines(body);
    let mut i: usize = 0;
    while i < lines.len()
        invariant
            i <= lines.len(),
            line_views(lines@) == lines_of(body@),
            forall|j: int| 0 <= j < i ==> !is_blank(#[trigger] lines_of(body@)[j]),
        decreases lines.len() - i,
    {
        assert(lines_of(body@)[i as int] == lines@[i as int]@);
        if is_blank_chars(&lines[i]) {
            return true;
        }
        i += 1;
    }
    false
}

fn copy_chars(v: &Vec<char>) -> (res: Vec<char>)
    ensures
        res@ == v@,
{
    sub_vec(v, 0, v.len())
}

fn copy_opt_chars(o: &Option<Vec<char>>) -> (res: Option<Vec<char>>)
    ensures
        opt_view(res) == opt_view(*o),
{
    match o {
        Some(v) => Some(copy_chars(v)),
        None => None,
    }
}

fn parse_markdown_block(raw: &Vec<char>) -> (res: MarkdownBlock)
    ensures
        res@ == parse_md(raw@),
{
    let raw_block = copy_chars(raw);
    let lines = split_lines(&raw_block);
    if lines.len() == 0 {
        return MarkdownBlock { raw_text: raw_block, header: None, speaker: None, body: Vec::new() };
    }
    let mut rest: Vec<Vec<char>> = Vec::new();
    let mut i: usize = 1;
    while i < lines.len()
        invariant
            1 <= i <= lines.len(),
            line_views(rest@) =~= line_views(lines@).subrange(1, i as int),
        decreases lines.len() - i,
    {
        let c = copy_chars(&lines[i]);
        let ghost prev = rest@;
        rest.push(c);
        assert(line_views(rest@) =~= line_views(prev).push(c@));
        i += 1;
    }
    let sep = vec!['\n'];
    let body = join_chars(&rest, &sep);
    assert(sep@ =~= seq!['\n']);
    assert(line_views(lines@)[0] == lines@[0]@);
    match header_match_exec(&lines[0]) {
        Some(sp) => {
            let speaker = match sp {
                Some((a, b)) => Some(sub_vec(&lines[0], a, b)),
                None => None,
            };
            let header = copy_chars(&lines[0]);
            let res = MarkdownBlock { raw_text: raw_block, header: Some(header), speaker, body };
            assert(res@ == parse_md(raw_block@));
            res
        },
        None => {
            let res = MarkdownBlock { raw_text: raw_block, header: None, speaker: None, body };
            assert(res@ == parse_md(raw_block@));
            res
        },
    }
}

fn opt_chars_eq(a: &Option<Vec<char>>, b: &Option<Vec<char>>) -> (r: bool)
    ensures
        r == (opt_view(*a) == opt_view(*b)),
{
    match (a, b) {
        (Some(x), Some(y)) => chars_eq(x, y),
        (None, None) => true,
        _ => false,
    }
}

fn can_stitch(previous: &MarkdownBlock, current: &MarkdownBlock) -> (b: bool)
    ensures
        b == stitchable(previous@, current@),
{
    if previous.header.is_none() || current.header.is_none() {
        return false;
    }
    if previous.speaker.is_none() || current.speaker.is_none() {
        return false;
    }
    if !opt_chars_eq(&previous.speaker, &current.speaker) {
        return false;
    }
    if contains_list_like_line(&previous.body) || contains_list_like_line(&current.body) {
        return false;
    }
    true
}

spec fn md_views(v: Seq<MarkdownBlock>) -> Seq<SpecMd> {
    v.map_values(|b: MarkdownBlock| b@)
}

fn copy_block(b: &MarkdownBlock) -> (res: MarkdownBlock)
    ensures
        res@ == b@,
{
    MarkdownBlock {
        raw_text: copy_chars(&b.raw_text),
        header: copy_opt_chars(&b.header),
        speaker: copy_opt_chars(&b.speaker),
        body: copy_chars(&b.body),
    }
}

fn merge_blocks(blocks: &Vec<MarkdownBlock>) -> (res: Vec<MarkdownBlock>)
    ensures
        md_views(res@) == merge_fold(md_views(blocks@)),
{
    let ghost bv = md_views(blocks@);
    let mut merged: Vec<MarkdownBlock> = Vec::new();
    let mut i: usize = 0;
    while i < blocks.len()
        invariant
            i <= blocks.len(),
            bv == md_views(blocks@),
            md_views(merged@) == merge_fold(bv.take(i as int)),
        decreases blocks.len() - i,
    {
        let block = copy_block(&blocks[i]);
        assert(bv.take(i + 1).drop_last() =~= bv.take(i as int));
        assert(bv.take(i + 1).last() == block@);
        let ghost prev = merged@;
        if merged.len() == 0 {
            merged.push(block);
            assert(md_views(merged@) =~= seq![block@]);
        } else {
            let last = merged.pop().unwrap();
            assert(merged@ =~= prev.drop_last());
            assert(last@ == md_views(prev).last());
            if !can_stitch(&last, &block) {
                merged.push(last);
                merged.push(block);
                assert(md_views(merged@) =~= md_views(prev).push(block@));
            } else {
                let ghost lb = last.body@;
                let ghost bb = block.body@;
                let body = if last.body.len() == 0 {
                    block.body
                } else if block.body.len() == 0 {
                    last.body
                } else {
                    let mut b = last.body;
                    b.push('\n');
                    extend_chars(&mut b, &block.body);
                    b
                };
                assert(body@ =~= merged_body(lb, bb));
                let joined = MarkdownBlock {
                    raw_text: Vec::new(),
                    header: last.header,
                    speaker: last.speaker,
                    body,
                };
                merged.push(joined);
                assert(md_views(merged@) =~= merge_step(md_views(prev), block@));
            }
        }
        i += 1;
    }
    assert(bv.take(i as int) =~= bv);
    merged
}

fn reflow_source_exec(generation_source: Option<&str>) -> (b: bool)
    ensures
        b == reflow_source(opt_str_view(generation_source)),
{
    match generation_source {
        Some(src) => {
            let s = chars_of(src);
            let a = chars_of(RuleSet::MsTeamsScheduled.generation_source());
            let b = chars_of(RuleSet::MsTeamsEvent.generation_source());
            let c = chars_of(RuleSet::ZoomScheduled.generation_source());
            let d = chars_of(RuleSet::ZoomEvent.generation_source());
            let e = chars_of(RuleSet::MeetingNovoicetag.generation_source());
            chars_eq(&s, &a) || chars_eq(&s, &b) || chars_eq(&s, &c) || chars_eq(&s, &d)
                || chars_eq(&s, &e)
        },
        None => false,
    }
}

fn should_reflow_block(block: &MarkdownBlock, reflowing: bool) -> (b: bool)
    ensures
        b == (reflowing && block@.header is Some && block@.body.len() > 0 && !has_list_line(
            block@.body,
        ) && !(exists|i: int|
            0 <= i < lines_of(block@.body).len() && is_blank(#[trigger] lines_of(block@.body)[i]))
            && block@.body.contains('\n')),
{
    if !reflowing {
        return false;
    }
    if block.header.is_none() || block.body.len() == 0 {
        return false;
    }
    if contains_list_like_line(&block.body) {
        return false;
    }
    if has_blank_line(&block.body) {
        return false;
    }
    crate::text::contains_char(&block.body, '\n')
}

fn reflow_block(block: MarkdownBlock) -> (res: MarkdownBlock)
    ensures
        res@ == reflow(block@),
{
    let lines = split_lines(&block.body);
    let ghost tl = lines_of(block@.body).map_values(|l: Seq<char>| trim(l));
    let mut trimmed_lines: Vec<Vec<char>> = Vec::new();
    let mut i: usize = 0;
    while i < lines.len()
        invariant
            i <= lines.len(),
            line_views(lines@) == lines_of(block@.body),
            tl == lines_of(block@.body).map_values(|l: Seq<char>| trim(l)),
            line_views(trimmed_lines@) =~= tl.take(i as int),
        decreases lines.len() - i,
    {
        let t = trimmed(&lines[i]);
        let ghost prev = trimmed_lines@;
        trimmed_lines.push(t);
        assert(line_views(trimmed_lines@) =~= line_views(prev).push(t@));
        assert(tl.take(i + 1) =~= tl.take(i as int).push(tl[i as int]));
        i += 1;
    }
    assert(tl.take(i as int) =~= tl);
    let sep = vec![' '];
    assert(sep@ =~= seq![' ']);
    let body = join_chars(&trimmed_lines, &sep);
    MarkdownBlock { raw_text: Vec::new(), header: block.header, speaker: block.speaker, body }
}

fn render_markdown_block(block: &MarkdownBlock) -> (res: Vec<char>)
    ensures
        res@ == render_md(block@),
{
    match &block.header {
        None => copy_chars(&block.raw_text),
        Some(h) => {
            if block.body.len() == 0 {
                copy_chars(h)
            } else {
                let mut out = copy_chars(h);
                out.push('\n');
                extend_chars(&mut out, &block.body);
                out
            }
        },
    }
}

/// Joins neighbouring blocks of one speaker and, for the sources other than the
/// generic one, reflows the lines of each speaker block into one.
pub fn postprocess_markdown(markdown: &str, generation_source: Option<&str>) -> (res: String)
    ensures
        res@ == spec_postprocess(markdown@, opt_str_view(generation_source)),
{
    let md = chars_of(markdown);
    if md.len() == 0 {
        return String::new();
    }
    let content = if md[md.len() - 1] == '\n' {
        sub_vec(&md, 0, md.len() - 1)
    } else {
        md
    };
    assert(content@ == if markdown@.last() == '\n' {
        markdown@.drop_last()
    } else {
        markdown@
    });
    if content.len() == 0 {
        let mut out = String::new();
        out.append("\n");
        proof {
            reveal_strlit("\n");
        }
        assert(out@ =~= seq!['\n']);
        return out;
    }
    let ghost gs = opt_str_view(generation_source);
    let pieces = split_markdown_blocks(&content);
    let ghost pv = line_views(pieces@);
    let ghost parsed = pv.map_values(|r: Seq<char>| parse_md(r));
    let mut blocks: Vec<MarkdownBlock> = Vec::new();
    let mut i: usize = 0;
    while i < pieces.len()
        invariant
            i <= pieces.len(),
            pv == line_views(pieces@),
            parsed == pv.map_values(|r: Seq<char>| parse_md(r)),
            md_views(blocks@) =~= parsed.take(i as int),
        decreases pieces.len() - i,
    {
        let b = parse_markdown_block(&pieces[i]);
        let ghost prev = blocks@;
        blocks.push(b);
        assert(md_views(blocks@) =~= md_views(prev).push(b@));
        assert(parsed.take(i + 1) =~= parsed.take(i as int).push(parsed[i as int]));
        i += 1;
    }
    assert(parsed.take(i as int) =~= parsed);
    let merged = merge_blocks(&blocks);
    let ghost mv = md_views(merged@);
    let reflowing = reflow_source_exec(generation_source);
    let mut rendered: Vec<Vec<char>> = Vec::new();
    let ghost target = mv.map_values(|b: SpecMd| maybe_reflow(b, gs)).map_values(
        |b: SpecMd| render_md(b),
    );
    let mut j: usize = 0;
    while j < merged.len()
        invariant
            j <= merged.len(),
            mv == md_views(merged@),
            reflowing == reflow_source(gs),
            target == mv.map_values(|b: SpecMd| maybe_reflow(b, gs)).map_values(
                |b: SpecMd| render_md(b),
            ),
            line_views(rendered@) =~= target.take(j as int),
        decreases merged.len() - j,
    {
        let block = copy_block(&merged[j]);
        let r = if should_reflow_block(&block, reflowing) {
            let rb = reflow_block(block);
            render_markdown_block(&rb)
        } else {
            render_markdown_block(&block)
        };
        let ghost prev = rendered@;
        rendered.push(r);
        assert(line_views(rendered@) =~= line_views(prev).push(r@));
        assert(target.take(j + 1) =~= target.take(j as int).push(target[j as int]));
        j += 1;
    }
    assert(target.take(j as int) =~= target);
    let sep = vec!['\n', '\n'];
    assert(sep@ =~= seq!['\n', '\n']);
    let mut out = join_chars(&rendered, &sep);
    out.push('\n');
    string_of(&out)
}

} // verus!
