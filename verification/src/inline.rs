//! Cue text markup: character references, timestamp tags, and the paired
//! `b`, `i`, `u`, `c`, `lang` and `ruby` tags turned into Markdown.

use vstd::prelude::*;
use crate::escape::{decode_html, html_decoded};
use crate::patterns::{after_class, after_class_exec};
use crate::text::{
    chars_eq, chars_of, extend_chars, find_char, is_decimal, is_decimal_char, is_ws, is_ws_char,
    lemma_scan, ne_pred, scan, string_of, sub_vec,
};

verus! {

#[derive(Clone, Copy, PartialEq, Eq, Structural)]
pub enum Tag {
    Bold,
    Italic,
    Underline,
    Class,
    Lang,
    Ruby,
}

/// ASCII case-insensitive equality with a lower-case pattern character.
pub open spec fn ci_eq(c: char, p: char) -> bool {
    c == p || ('a' <= p && p <= 'z' && (c as int) + 32 == (p as int))
}

pub open spec fn ci_matches_at(s: Seq<char>, i: int, pat: Seq<char>) -> bool {
    0 <= i && i + pat.len() <= s.len() && forall|k: int|
        0 <= k < pat.len() ==> ci_eq(#[trigger] s[i + k], pat[k])
}

pub open spec fn tag_name(t: Tag) -> Seq<char> {
    match t {
        Tag::Bold => seq!['b'],
        Tag::Italic => seq!['i'],
        Tag::Underline => seq!['u'],
        Tag::Class => seq!['c'],
        Tag::Lang => seq!['l', 'a', 'n', 'g'],
        Tag::Ruby => seq!['r', 'u', 'b', 'y'],
    }
}

pub open spec fn open_prefix(t: Tag) -> Seq<char> {
    seq!['<'] + tag_name(t)
}

pub open spec fn close_tag(t: Tag) -> Seq<char> {
    seq!['<', '/'] + tag_name(t) + seq!['>']
}

/// The first position at or after `from` where `pat` occurs (ignoring ASCII case).
pub open spec fn find_ci(s: Seq<char>, from: int, pat: Seq<char>) -> Option<int>
    decreases s.len() - from,
{
    if from < 0 || from + pat.len() > s.len() {
        None
    } else if ci_matches_at(s, from, pat) {
        Some(from)
    } else {
        find_ci(s, from + 1, pat)
    }
}

/// Where the content of an opening tag at `p` starts:
/// `<b(?:\.[^>\s]+)?>` and the like, or `<lang(?:\.[^>\s]+)?\s+[^>]+>`.
pub open spec fn content_start(t: Tag, s: Seq<char>, p: int) -> Option<int> {
    if !ci_matches_at(s, p, open_prefix(t)) {
        None
    } else {
        match after_class(s, p + open_prefix(t).len()) {
            None => None,
            Some(q) => if t == Tag::Lang {
                if q < s.len() && is_ws(s[q]) {
                    let g = scan(s, q, ne_pred('>'));
                    if g < s.len() && g - q >= 2 {
                        Some(g + 1)
                    } else {
                        None
                    }
                } else {
                    None
                }
            } else {
                if q < s.len() && s[q] == '>' {
                    Some(q + 1)
                } else {
                    None
                }
            },
        }
    }
}

/// A tag pair at `p` with the shortest content: `(content_start, close_start)`.
pub open spec fn tag_match(t: Tag, s: Seq<char>, p: int) -> Option<(int, int)> {
    match content_start(t, s, p) {
        None => None,
        Some(cs) => match find_ci(s, cs, close_tag(t)) {
            None => None,
            Some(k) => Some((cs, k)),
        },
    }
}

pub open spec fn space_if(b: bool) -> Seq<char> {
    if b {
        seq![' ']
    } else {
        Seq::empty()
    }
}

/// What a matched pair becomes; ruby text is set in parentheses, apart from
/// neighbouring non-space characters.
pub open spec fn replacement(t: Tag, s: Seq<char>, p: int, cs: int, k: int) -> Seq<char> {
    let c = s.subrange(cs, k);
    let end = k + close_tag(t).len();
    match t {
        Tag::Bold => seq!['*', '*'] + c + seq!['*', '*'],
        Tag::Italic => seq!['*'] + c + seq!['*'],
        Tag::Underline => seq!['_'] + c + seq!['_'],
        Tag::Class => c,
        Tag::Lang => c,
        Tag::Ruby => space_if(p > 0 && !is_ws(s[p - 1])) + seq!['('] + c + seq![')'] + space_if(
            end < s.len() && !is_ws(s[end]),
        ),
    }
}

/// Every non-overlapping pair, leftmost first, from `p` on, replaced.
pub open spec fn replace_from(t: Tag, s: Seq<char>, p: int) -> Seq<char>
    decreases s.len() - p,
{
    if p < 0 || p >= s.len() {
        Seq::empty()
    } else {
        match tag_match(t, s, p) {
            Some((cs, k)) => {
                let end = k + close_tag(t).len();
                if p < end <= s.len() {
                    replacement(t, s, p, cs, k) + replace_from(t, s, end)
                } else {
                    Seq::empty()
                }
            },
            None => seq![s[p]] + replace_from(t, s, p + 1),
        }
    }
}

/// One round over all tag kinds, in their fixed order.
pub open spec fn tag_pass(s: Seq<char>) -> Seq<char> {
    let s1 = replace_from(Tag::Bold, s, 0);
    let s2 = replace_from(Tag::Italic, s1, 0);
    let s3 = replace_from(Tag::Underline, s2, 0);
    let s4 = replace_from(Tag::Class, s3, 0);
    let s5 = replace_from(Tag::Lang, s4, 0);
    replace_from(Tag::Ruby, s5, 0)
}

/// Rounds until nothing changes (each change shortens the text).
pub open spec fn tag_fixpoint(s: Seq<char>) -> Seq<char>
    decreases s.len(),
{
    let t = tag_pass(s);
    if t.len() < s.len() {
        tag_fixpoint(t)
    } else {
        t
    }
}

/// `<dd:dd:dd.ddd>` (decimal digits) at `p`.
pub open spec fn timestamp_at(s: Seq<char>, p: int) -> bool {
    0 <= p && p + 14 <= s.len() && s[p] == '<' && is_decimal(s[p + 1]) && is_decimal(s[p + 2])
        && s[p + 3] == ':' && is_decimal(s[p + 4]) && is_decimal(s[p + 5]) && s[p + 6] == ':'
        && is_decimal(s[p + 7]) && is_decimal(s[p + 8]) && s[p + 9] == '.' && is_decimal(s[p + 10])
        && is_decimal(s[p + 11]) && is_decimal(s[p + 12]) && s[p + 13] == '>'
}

pub open spec fn strip_timestamps_from(s: Seq<char>, p: int) -> Seq<char>
    decreases s.len() - p,
{
    if p < 0 || p >= s.len() {
        Seq::empty()
    } else if timestamp_at(s, p) {
        strip_timestamps_from(s, p + 14)
    } else {
        seq![s[p]] + strip_timestamps_from(s, p + 1)
    }
}

/// Markdown for a cue text: references decoded, timestamp tags removed, tag
/// pairs replaced until none is left.
pub open spec fn spec_render_inline(text: Seq<char>) -> Seq<char> {
    tag_fixpoint(strip_timestamps_from(html_decoded(text), 0))
}


pub(crate) fn ci_eq_exec(c: char, p: char) -> (b: bool)
    ensures
        b == ci_eq(c, p),
{
    c == p || ('a' <= p && p <= 'z' && (c as u32) + 32 == (p as u32))
}

fn ci_matches_at_exec(s: &Vec<char>, i: usize, pat: &Vec<char>) -> (b: bool)
    ensures
        b == ci_matches_at(s@, i as int, pat@),
{
    if i > s.len() || pat.len() > s.len() - i {
        return false;
    }
    let mut k: usize = 0;
    while k < pat.len()
        invariant
            i + pat.len() <= s.len(),
            k <= pat.len(),
            forall|m: int| 0 <= m < k ==> ci_eq(#[trigger] s@[i + m], pat@[m]),
        decreases pat.len() - k,
    {
        if !ci_eq_exec(s[i + k], pat[k]) {
            return false;
        }
        k += 1;
    }
    true
}

fn find_ci_exec(s: &Vec<char>, from: usize, pat: &Vec<char>) -> (res: Option<usize>)
    ensures
        match res {
            Some(k) => find_ci(s@, from as int, pat@) == Some(k as int) && from <= k && k + pat.len() <= s.len(),
            None => find_ci(s@, from as int, pat@) is None,
        },
{
    let mut j = from;
    while j <= s.len() && pat.len() <= s.len() - j
        invariant
            from <= j,
            find_ci(s@, from as int, pat@) == find_ci(s@, j as int, pat@),
        decreases s.len() + 1 - j,
    {
        if ci_matches_at_exec(s, j, pat) {
            return Some(j);
        }
        j += 1;
    }
    None
}

fn tag_name_exec(t: Tag) -> (v: Vec<char>)
    ensures
        v@ == tag_name(t),
{
    let v = match t {
        Tag::Bold => vec!['b'],
        Tag::Italic => vec!['i'],
        Tag::Underline => vec!['u'],
        Tag::Class => vec!['c'],
        Tag::Lang => vec!['l', 'a', 'n', 'g'],
        Tag::Ruby => vec!['r', 'u', 'b', 'y'],
    };
    assert(v@ =~= tag_name(t));
    v
}

fn open_prefix_exec(t: Tag) -> (v: Vec<char>)
    ensures
        v@ == open_prefix(t),
{
    let mut v = vec!['<'];
    let name = tag_name_exec(t);
    extend_chars(&mut v, &name);
    assert(v@ =~= open_prefix(t));
    v
}

fn close_tag_exec(t: Tag) -> (v: Vec<char>)
    ensures
        v@ == close_tag(t),
{
    let mut v = vec!['<', '/'];
    let name = tag_name_exec(t);
    extend_chars(&mut v, &name);
    v.push('>');
    assert(v@ =~= close_tag(t));
    v
}

proof fn lemma_after_class_bounds(s: Seq<char>, q: int)
    requires
        0 <= q <= s.len(),
    ensures
        after_class(s, q) matches Some(r) ==> q <= r <= s.len(),
{
    if q < s.len() && s[q] == '.' {
        lemma_scan(s, q + 1, crate::text::class_pred());
    }
}

fn content_start_exec(t: Tag, s: &Vec<char>, p: usize) -> (res: Option<usize>)
    ensures
        match res {
            Some(cs) => content_start(t, s@, p as int) == Some(cs as int) && cs <= s.len() && cs
                >= p + open_prefix(t).len() + 1,
            None => content_start(t, s@, p as int) is None,
        },
{
    let open = open_prefix_exec(t);
    if !ci_matches_at_exec(s, p, &open) {
        return None;
    }
    assert(p + open.len() <= s.len());
    let q0 = p + open.len();
    proof {
        lemma_after_class_bounds(s@, q0 as int);
    }
    let q = match after_class_exec(s, q0) {
        None => return None,
        Some(q) => q,
    };
    if t == Tag::Lang {
        if q < s.len() && is_ws_char(s[q]) {
            let g = find_char(s, q, '>');
            if g < s.len() && g - q >= 2 {
                Some(g + 1)
            } else {
                None
            }
        } else {
            None
        }
    } else {
        if q < s.len() && s[q] == '>' {
            Some(q + 1)
        } else {
            None
        }
    }
}

fn tag_match_exec(t: Tag, s: &Vec<char>, p: usize) -> (res: Option<(usize, usize)>)
    ensures
        match res {
            Some((cs, k)) => tag_match(t, s@, p as int) == Some((cs as int, k as int)) && p
                + open_prefix(t).len() + 1 <= cs <= k && k + close_tag(t).len() <= s.len(),
            None => tag_match(t, s@, p as int) is None,
        },
{
    match content_start_exec(t, s, p) {
        None => None,
        Some(cs) => {
            let close = close_tag_exec(t);
            match find_ci_exec(s, cs, &close) {
                None => None,
                Some(k) => Some((cs, k)),
            }
        },
    }
}

fn replacement_exec(t: Tag, s: &Vec<char>, p: usize, cs: usize, k: usize) -> (res: Vec<char>)
    requires
        p < cs <= k,
        k + close_tag(t).len() <= s.len(),
    ensures
        res@ == replacement(t, s@, p as int, cs as int, k as int),
{
    let c = sub_vec(s, cs, k);
    let end = k + if t == Tag::Lang || t == Tag::Ruby {
        7
    } else {
        4
    };
    assert(end == k + close_tag(t).len());
    let mut out: Vec<char> = Vec::new();
    match t {
        Tag::Bold => {
            out.push('*');
            out.push('*');
            extend_chars(&mut out, &c);
            out.push('*');
            out.push('*');
        },
        Tag::Italic => {
            out.push('*');
            extend_chars(&mut out, &c);
            out.push('*');
        },
        Tag::Underline => {
            out.push('_');
            extend_chars(&mut out, &c);
            out.push('_');
        },
        Tag::Class | Tag::Lang => {
            extend_chars(&mut out, &c);
        },
        Tag::Ruby => {
            if p > 0 && !is_ws_char(s[p - 1]) {
                out.push(' ');
            }
            out.push('(');
            extend_chars(&mut out, &c);
            out.push(')');
            if end < s.len() && !is_ws_char(s[end]) {
                out.push(' ');
            }
        },
    }
    assert(out@ =~= replacement(t, s@, p as int, cs as int, k as int));
    out
}

/// Replaces every pair of one tag kind.
fn replace_tag_all(t: Tag, s: &Vec<char>) -> (res: Vec<char>)
    ensures
        res@ == replace_from(t, s@, 0),
{
    let mut out: Vec<char> = Vec::new();
    let mut p: usize = 0;
    while p < s.len()
        invariant
            p <= s.len(),
            replace_from(t, s@, 0) == out@ + replace_from(t, s@, p as int),
        decreases s.len() - p,
    {
        match tag_match_exec(t, s, p) {
            Some((cs, k)) => {
                let r = replacement_exec(t, s, p, cs, k);
                let end = k + if t == Tag::Lang || t == Tag::Ruby {
                    7
                } else {
                    4
                };
                assert(end == k + close_tag(t).len());
                let ghost before = out@;
                extend_chars(&mut out, &r);
                assert(before + replace_from(t, s@, p as int) =~= out@ + replace_from(
                    t,
                    s@,
                    end as int,
                ));
                p = end;
            },
            None => {
                let ghost before = out@;
                out.push(s[p]);
                assert(before + replace_from(t, s@, p as int) =~= out@ + replace_from(
                    t,
                    s@,
                    p + 1,
                ));
                p += 1;
            },
        }
    }
    assert(out@ + replace_from(t, s@, p as int) =~= out@);
    out
}

fn tag_pass_exec(s: &Vec<char>) -> (res: Vec<char>)
    ensures
        res@ == tag_pass(s@),
{
    let s1 = replace_tag_all(Tag::Bold, s);
    let s2 = replace_tag_all(Tag::Italic, &s1);
    let s3 = replace_tag_all(Tag::Underline, &s2);
    let s4 = replace_tag_all(Tag::Class, &s3);
    let s5 = replace_tag_all(Tag::Lang, &s4);
    replace_tag_all(Tag::Ruby, &s5)
}

proof fn lemma_content_start_bounds(t: Tag, s: Seq<char>, p: int)
    requires
        0 <= p < s.len(),
    ensures
        content_start(t, s, p) matches Some(cs) ==> p + open_prefix(t).len() + 1 <= cs <= s.len(),
{
    let q0 = p + open_prefix(t).len();
    if ci_matches_at(s, p, open_prefix(t)) {
        lemma_after_class_bounds(s, q0);
        if let Some(q) = after_class(s, q0) {
            if t == Tag::Lang && q < s.len() && is_ws(s[q]) {
                lemma_scan(s, q, ne_pred('>'));
            }
        }
    }
}

proof fn lemma_find_ci_bounds(s: Seq<char>, from: int, pat: Seq<char>)
    ensures
        find_ci(s, from, pat) matches Some(k) ==> from <= k && k + pat.len() <= s.len(),
    decreases s.len() - from,
{
    if !(from < 0 || from + pat.len() > s.len()) && !ci_matches_at(s, from, pat) {
        lemma_find_ci_bounds(s, from + 1, pat);
    }
}

/// A pass of one tag kind never lengthens the text, and leaves it as it is
/// when it does not shorten it.
proof fn lemma_replace_shrinks(t: Tag, s: Seq<char>, p: int)
    requires
        0 <= p <= s.len(),
    ensures
        replace_from(t, s, p).len() <= s.len() - p,
        replace_from(t, s, p).len() == s.len() - p ==> replace_from(t, s, p) == s.subrange(
            p,
            s.len() as int,
        ),
    decreases s.len() - p,
{
    if p < s.len() {
        lemma_content_start_bounds(t, s, p);
        match tag_match(t, s, p) {
            Some((cs, k)) => {
                lemma_find_ci_bounds(s, cs, close_tag(t));
                let end = k + close_tag(t).len();
                lemma_replace_shrinks(t, s, end);
                let r = replacement(t, s, p, cs, k);
                assert(r.len() < end - p);
            },
            None => {
                lemma_replace_shrinks(t, s, p + 1);
                if replace_from(t, s, p).len() == s.len() - p {
                    assert(replace_from(t, s, p) =~= s.subrange(p, s.len() as int));
                }
            },
        }
    } else {
        assert(s.subrange(p, s.len() as int) =~= Seq::<char>::empty());
    }
}

proof fn lemma_pass_shrinks(s: Seq<char>)
    ensures
        tag_pass(s).len() <= s.len(),
        tag_pass(s) != s ==> tag_pass(s).len() < s.len(),
{
    let s1 = replace_from(Tag::Bold, s, 0);
    lemma_replace_shrinks(Tag::Bold, s, 0);
    let s2 = replace_from(Tag::Italic, s1, 0);
    lemma_replace_shrinks(Tag::Italic, s1, 0);
    let s3 = replace_from(Tag::Underline, s2, 0);
    lemma_replace_shrinks(Tag::Underline, s2, 0);
    let s4 = replace_from(Tag::Class, s3, 0);
    lemma_replace_shrinks(Tag::Class, s3, 0);
    let s5 = replace_from(Tag::Lang, s4, 0);
    lemma_replace_shrinks(Tag::Lang, s4, 0);
    lemma_replace_shrinks(Tag::Ruby, s5, 0);
    assert(s.subrange(0, s.len() as int) =~= s);
    assert(s1.subrange(0, s1.len() as int) =~= s1);
    assert(s2.subrange(0, s2.len() as int) =~= s2);
    assert(s3.subrange(0, s3.len() as int) =~= s3);
    assert(s4.subrange(0, s4.len() as int) =~= s4);
    assert(s5.subrange(0, s5.len() as int) =~= s5);
}

fn strip_timestamps(s: &Vec<char>) -> (res: Vec<char>)
    ensures
        res@ == strip_timestamps_from(s@, 0),
{
    let mut out: Vec<char> = Vec::new();
    let mut p: usize = 0;
    while p < s.len()
        invariant
            p <= s.len(),
            strip_timestamps_from(s@, 0) == out@ + strip_timestamps_from(s@, p as int),
        decreases s.len() - p,
    {
        if s.len() - p >= 14 && s[p] == '<' && is_decimal_char(s[p + 1]) && is_decimal_char(
            s[p + 2],
        ) && s[p + 3] == ':' && is_decimal_char(s[p + 4]) && is_decimal_char(s[p + 5]) && s[p
            + 6] == ':' && is_decimal_char(s[p + 7]) && is_decimal_char(s[p + 8]) && s[p + 9]
            == '.' && is_decimal_char(s[p + 10]) && is_decimal_char(s[p + 11]) && is_decimal_char(
            s[p + 12],
        ) && s[p + 13] == '>' {
            p += 14;
        } else {
            let ghost before = out@;
            out.push(s[p]);
            assert(before + strip_timestamps_from(s@, p as int) =~= out@ + strip_timestamps_from(
                s@,
                p + 1,
            ));
            p += 1;
        }
    }
    assert(out@ + strip_timestamps_from(s@, p as int) =~= out@);
    out
}

/// Markdown for cue text: decoded references, no timestamp tags, and the tag
/// pairs replaced (`**bold**`, `*italic*`, `_underline_`, class and language
/// spans unwrapped, `(ruby)`), repeated until nothing changes.
proof fn lemma_strip_plain(s: Seq<char>, p: int)
    requires
        0 <= p <= s.len(),
        !s.contains('<'),
    ensures
        strip_timestamps_from(s, p) == s.subrange(p, s.len() as int),
    decreases s.len() - p,
{
    if p < s.len() {
        assert(s[p] != '<');
        lemma_strip_plain(s, p + 1);
        assert(s.subrange(p, s.len() as int) =~= seq![s[p]] + s.subrange(p + 1, s.len() as int));
    } else {
        assert(s.subrange(p, s.len() as int) =~= Seq::<char>::empty());
    }
}

proof fn lemma_replace_plain(t: Tag, s: Seq<char>, p: int)
    requires
        0 <= p <= s.len(),
        !s.contains('<'),
    ensures
        replace_from(t, s, p) == s.subrange(p, s.len() as int),
    decreases s.len() - p,
{
    if p < s.len() {
        assert(s[p] != '<');
        assert(open_prefix(t)[0] == '<');
        if ci_matches_at(s, p, open_prefix(t)) {
            assert(ci_eq(s[p + 0], open_prefix(t)[0]));
        }
        lemma_replace_plain(t, s, p + 1);
        assert(s.subrange(p, s.len() as int) =~= seq![s[p]] + s.subrange(p + 1, s.len() as int));
    } else {
        assert(s.subrange(p, s.len() as int) =~= Seq::<char>::empty());
    }
}

/// Text without `<` holds no tag: rendering its markup changes nothing.
pub proof fn lemma_plain_text_has_no_markup(s: Seq<char>)
    requires
        !s.contains('<'),
    ensures
        tag_fixpoint(strip_timestamps_from(s, 0)) == s,
{
    lemma_strip_plain(s, 0);
    assert(s.subrange(0, s.len() as int) =~= s);
    lemma_replace_plain(Tag::Bold, s, 0);
    lemma_replace_plain(Tag::Italic, s, 0);
    lemma_replace_plain(Tag::Underline, s, 0);
    lemma_replace_plain(Tag::Class, s, 0);
    lemma_replace_plain(Tag::Lang, s, 0);
    lemma_replace_plain(Tag::Ruby, s, 0);
    assert(tag_pass(s) == s);
}

/// Renders the markup of a text whose character references are decoded:
/// timestamp tags removed, then tag pairs replaced until none is left.
pub fn render_decoded_markup(decoded: &str) -> (res: String)
    ensures
        res@ == tag_fixpoint(strip_timestamps_from(decoded@, 0)),
{
    let d = chars_of(decoded);
    let mut rendered = strip_timestamps(&d);
    let ghost target = tag_fixpoint(rendered@);
    loop
        invariant
            tag_fixpoint(rendered@) == target,
            target == tag_fixpoint(strip_timestamps_from(decoded@, 0)),
        decreases rendered.len(),
    {
        let next = tag_pass_exec(&rendered);
        proof {
            lemma_pass_shrinks(rendered@);
        }
        if chars_eq(&next, &rendered) {
            return string_of(&next);
        }
        rendered = next;
    }
}

/// Renders the markup of a cue text as Markdown. Text without `<` and `&`
/// comes back unchanged.
pub fn render_inline_tags(text: &str) -> (res: String)
    ensures
        res@ == spec_render_inline(text@),
        !text@.contains('<') && !text@.contains('&') ==> res@ == text@,
{
    let decoded = decode_html(text);
    proof {
        if !text@.contains('<') && !text@.contains('&') {
            lemma_plain_text_has_no_markup(text@);
        }
    }
    render_decoded_markup(decoded.as_str())
}

} // verus!
