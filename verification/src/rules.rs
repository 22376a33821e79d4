//! Laws on what the parser, the detectors, the renderers and the tidying step
//! recognise, stated over the characters of their input.

use vstd::prelude::*;
use crate::detect::{
    RuleSet, colon_index, count_char, count_multi_colon, cues_of, split_speaker,
};
use crate::model::{SpecBlock, SpecCue};
use crate::parse::{block_outcome, lines_of, parse_fold, strip_cr};
use crate::model::SpecError;
use crate::postprocess::{SpecMd, header_match, has_list_line, merge_fold, parse_md, stitchable};
use crate::render::{finish, speaker_pieces};
use crate::text::{
    eq_pred, is_blank, is_ws, lemma_rscan, lemma_rscan_at, lemma_scan, lemma_scan_at, ne_pred,
    rscan, scan, trim, ws_pred,
};

verus! {

/// The number of `:` in a text.
pub open spec fn colons(t: Seq<char>) -> nat {
    t.filter(eq_pred(':')).len()
}

/// A cue block whose text holds more than one `:`.
pub open spec fn many_colons() -> spec_fn(SpecBlock) -> bool {
    |b: SpecBlock| b matches SpecBlock::Cue(c) && colons(c.text) > 1
}

proof fn lemma_count_char_is_colons(s: Seq<char>)
    ensures
        count_char(s, ':') == colons(s),
    decreases s.len(),
{
    reveal(Seq::filter);
    if s.len() > 0 {
        lemma_count_char_is_colons(s.drop_last());
    }
}

proof fn lemma_multi_colon_cues(blocks: Seq<SpecBlock>)
    ensures
        count_multi_colon(cues_of(blocks)) == blocks.filter(many_colons()).len(),
    decreases blocks.len(),
{
    reveal(Seq::filter);
    if blocks.len() > 0 {
        let dl = blocks.drop_last();
        lemma_multi_colon_cues(dl);
        if let SpecBlock::Cue(c) = blocks.last() {
            lemma_count_char_is_colons(c.text);
            assert(cues_of(blocks).drop_last() =~= cues_of(dl));
        }
    }
}

/// Zoom-scheduled rendering takes the speaker up to the first `:` of a cue, as
/// meeting rendering does, unless at least three cues hold more than one `:`;
/// then it takes the speaker up to the last `:`.
pub proof fn zoom_speakers_end_at_the_first_colon_unless_three_cues_have_more(
    blocks: Seq<SpecBlock>,
)
    ensures
        blocks.filter(many_colons()).len() < 3 ==> RuleSet::ZoomScheduled.spec_render(blocks)
            == RuleSet::MeetingNovoicetag.spec_render(blocks),
        blocks.filter(many_colons()).len() >= 3 ==> RuleSet::ZoomScheduled.spec_render(blocks)
            == finish(speaker_pieces(blocks, true)),
{
    lemma_multi_colon_cues(blocks);
}

proof fn lemma_trim_blank(s: Seq<char>)
    ensures
        (trim(s).len() == 0) == is_blank(s),
{
    lemma_scan(s, 0, ws_pred());
    lemma_rscan(s, s.len() as int, ws_pred());
    let a = scan(s, 0, ws_pred());
    let b = rscan(s, s.len() as int, ws_pred());
    if a < b {
        assert(!is_ws(s[a]));
    } else {
        assert forall|i: int| 0 <= i < s.len() implies is_ws(#[trigger] s[i]) by {
            assert(ws_pred()(s[i]));
        }
    }
}

/// `k` is the position of the first `:` of `t`.
pub open spec fn first_colon_at(t: Seq<char>, k: int) -> bool {
    0 <= k < t.len() && t[k] == ':' && forall|j: int| 0 <= j < k ==> t[j] != ':'
}

/// `k` is the position of the last `:` of `t`.
pub open spec fn last_colon_at(t: Seq<char>, k: int) -> bool {
    0 <= k < t.len() && t[k] == ':' && forall|j: int| k < j < t.len() ==> t[j] != ':'
}

/// What a `Speaker: text` line splits into at the colon at `k`: the trimmed
/// speaker before it and the trimmed text after it, when neither is blank and
/// the colon does not open the line.
pub open spec fn split_at_colon(t: Seq<char>, k: int) -> Option<(Seq<char>, Seq<char>)> {
    if k > 0 && !is_blank(t.subrange(0, k)) && !is_blank(t.subrange(k + 1, t.len() as int)) {
        Some((trim(t.subrange(0, k)), trim(t.subrange(k + 1, t.len() as int))))
    } else {
        None
    }
}

/// A text with a speaker before its first `:` and text after it.
pub open spec fn speaker_line(t: Seq<char>) -> bool {
    exists|k: int| first_colon_at(t, k) && split_at_colon(t, k) is Some
}

/// A textual speaker ends at the first `:` of a line (at the last one when
/// asked); a line without `:` has none.
pub proof fn speakers_end_at_a_colon(t: Seq<char>, k: int)
    ensures
        first_colon_at(t, k) ==> split_speaker(t, false) == split_at_colon(t, k),
        last_colon_at(t, k) ==> split_speaker(t, true) == split_at_colon(t, k),
        !t.contains(':') ==> split_speaker(t, false) is None && split_speaker(t, true) is None,
{
    lemma_trim_blank(t.subrange(0, k));
    lemma_trim_blank(t.subrange(k + 1, t.len() as int));
    if first_colon_at(t, k) {
        lemma_scan_at(t, 0, k, ne_pred(':'));
        assert(colon_index(t, false) == Some(k));
    }
    if last_colon_at(t, k) {
        assert forall|m: int| k + 1 <= m < t.len() implies #[trigger] ne_pred(':')(t[m]) by {}
        lemma_rscan_at(t, t.len() as int, k + 1, ne_pred(':'));
        assert(colon_index(t, true) == Some(k));
    }
    if !t.contains(':') {
        lemma_scan(t, 0, ne_pred(':'));
        lemma_rscan(t, t.len() as int, ne_pred(':'));
        if scan(t, 0, ne_pred(':')) < t.len() {
            assert(t[scan(t, 0, ne_pred(':'))] == ':');
        }
        let r = rscan(t, t.len() as int, ne_pred(':'));
        if r > 0 {
            assert(t[r - 1] == ':');
        }
    }
}

proof fn lemma_speaker_line(t: Seq<char>)
    ensures
        speaker_line(t) == (split_speaker(t, false) is Some),
{
    let k = scan(t, 0, ne_pred(':'));
    lemma_scan(t, 0, ne_pred(':'));
    if k < t.len() {
        assert(first_colon_at(t, k));
        speakers_end_at_a_colon(t, k);
        if speaker_line(t) {
            let k2 = choose|k2: int| first_colon_at(t, k2) && split_at_colon(t, k2) is Some;
            assert(k2 == k) by {
                if k2 < k {
                    assert(ne_pred(':')(t[k2]));
                }
            }
        }
    } else {
        assert(!t.contains(':')) by {
            if t.contains(':') {
                let j = choose|j: int| 0 <= j < t.len() && t[j] == ':';
                assert(ne_pred(':')(t[j]));
            }
        }
        speakers_end_at_a_colon(t, 0);
    }
}

/// The cues of a document are the cue blocks, in order: each is one of them,
/// and each of them is one.
proof fn lemma_cues_of(blocks: Seq<SpecBlock>)
    ensures
        forall|i: int|
            0 <= i < cues_of(blocks).len() ==> exists|j: int|
                0 <= j < blocks.len() && #[trigger] blocks[j] == SpecBlock::Cue(
                    #[trigger] cues_of(blocks)[i],
                ),
        forall|j: int|
            0 <= j < blocks.len() && (#[trigger] blocks[j] is Cue) ==> exists|i: int|
                0 <= i < cues_of(blocks).len() && blocks[j] == SpecBlock::Cue(
                    #[trigger] cues_of(blocks)[i],
                ),
    decreases blocks.len(),
{
    if blocks.len() > 0 {
        let dl = blocks.drop_last();
        lemma_cues_of(dl);
        let cs = cues_of(blocks);
        let cd = cues_of(dl);
        assert forall|i: int| 0 <= i < cs.len() implies exists|j: int|
            0 <= j < blocks.len() && #[trigger] blocks[j] == SpecBlock::Cue(#[trigger] cs[i]) by {
            if i < cd.len() {
                assert(cs[i] == cd[i]);
                let j = choose|j: int| 0 <= j < dl.len() && #[trigger] dl[j] == SpecBlock::Cue(cd[i]);
                assert(blocks[j] == dl[j]);
            } else {
                assert(blocks[blocks.len() - 1] == SpecBlock::Cue(cs[i]));
            }
        }
        assert forall|j: int| 0 <= j < blocks.len() && (#[trigger] blocks[j] is Cue) implies exists|
            i: int,
        | 0 <= i < cs.len() && blocks[j] == SpecBlock::Cue(#[trigger] cs[i]) by {
            if j < dl.len() {
                assert(dl[j] == blocks[j]);
                let i = choose|i: int| 0 <= i < cd.len() && dl[j] == SpecBlock::Cue(#[trigger] cd[i]);
                assert(cs[i] == cd[i]);
            } else {
                assert(cs[cs.len() - 1] == blocks.last()->Cue_0);
            }
        }
    }
}

/// An identifier of ASCII digits only.
pub open spec fn digits_only(id: Seq<char>) -> bool {
    forall|j: int| 0 <= j < id.len() ==> '0' <= #[trigger] id[j] <= '9'
}

/// A cue as the meeting rules want it: no voice tag, no all-digit identifier,
/// and a speaker before the first `:` of its text.
pub open spec fn meeting_cue(c: SpecCue) -> bool {
    &&& c.voice is None
    &&& !(c.identifier matches Some(id) && digits_only(id))
    &&& speaker_line(c.text)
}

/// The meeting ruleset claims a document (confidence 5) exactly when it has a
/// cue and every cue has a textual speaker, no voice tag and no all-digit
/// identifier; otherwise its confidence is 0. One cue without `Speaker: text`
/// is enough to refuse the claim.
pub proof fn meeting_claim_needs_every_cue_to_name_a_speaker(blocks: Seq<SpecBlock>)
    ensures
        RuleSet::MeetingNovoicetag.confidence(blocks) == (if (exists|j: int|
            0 <= j < blocks.len() && (#[trigger] blocks[j] is Cue)) && (forall|j: int|
            0 <= j < blocks.len() ==> (#[trigger] blocks[j] matches SpecBlock::Cue(c)
                ==> meeting_cue(c))) {
            5int
        } else {
            0int
        }),
{
    lemma_cues_of(blocks);
    let cs = cues_of(blocks);
    assert forall|i: int| 0 <= i < cs.len() implies speaker_line(#[trigger] cs[i].text) == (split_speaker(
        cs[i].text,
        false,
    ) is Some) by {
        lemma_speaker_line(cs[i].text);
    }
    let some_cue = exists|j: int| 0 <= j < blocks.len() && (#[trigger] blocks[j] is Cue);
    let all_good = forall|j: int|
        0 <= j < blocks.len() ==> (#[trigger] blocks[j] matches SpecBlock::Cue(c) ==> meeting_cue(c));
    if some_cue {
        let j = choose|j: int| 0 <= j < blocks.len() && (#[trigger] blocks[j] is Cue);
        let i = choose|i: int| 0 <= i < cs.len() && blocks[j] == SpecBlock::Cue(#[trigger] cs[i]);
        assert(cs.len() > 0);
    }
    if cs.len() > 0 {
        let i = 0int;
        let j = choose|j: int| 0 <= j < blocks.len() && #[trigger] blocks[j] == SpecBlock::Cue(cs[i]);
        assert(blocks[j] is Cue);
    }
    if all_good {
        assert forall|i: int| 0 <= i < cs.len() implies meeting_cue(#[trigger] cs[i]) by {
            let j = choose|j: int| 0 <= j < blocks.len() && #[trigger] blocks[j] == SpecBlock::Cue(cs[i]);
            assert(blocks[j] matches SpecBlock::Cue(c) ==> meeting_cue(c));
        }
        assert(!crate::detect::any_voice(cs)) by {
            if crate::detect::any_voice(cs) {
                let i = choose|i: int| 0 <= i < cs.len() && (#[trigger] cs[i]).voice is Some;
                assert(meeting_cue(cs[i]));
            }
        }
        assert forall|i: int| 0 <= i < cs.len() implies !crate::detect::has_digit_id(#[trigger] cs[i]) by {
            assert(meeting_cue(cs[i]));
        }
        assert forall|i: int| 0 <= i < cs.len() implies (#[trigger] split_speaker(cs[i].text, false)) is Some by {
            assert(meeting_cue(cs[i]));
        }
    } else {
        let j = choose|j: int|
            0 <= j < blocks.len() && !(#[trigger] blocks[j] matches SpecBlock::Cue(c) ==> meeting_cue(c));
        let i = choose|i: int| 0 <= i < cs.len() && blocks[j] == SpecBlock::Cue(#[trigger] cs[i]);
        assert(!meeting_cue(cs[i]));
        if cs[i].voice is Some {
            assert(crate::detect::any_voice(cs));
        } else if cs[i].identifier matches Some(id) && digits_only(id) {
            assert(crate::detect::has_digit_id(cs[i]));
        } else {
            assert(!((split_speaker(cs[i].text, false)) is Some));
        }
    }
}

/// The header line of a speaker block: `**(time) speaker**`.
pub open spec fn header_line(time: Seq<char>, speaker: Seq<char>) -> Seq<char> {
    seq!['*', '*', '('] + time + seq![')', ' '] + speaker + seq!['*', '*']
}

/// A time fit for a header: not empty, without `)` or a line break.
pub open spec fn header_time(time: Seq<char>) -> bool {
    time.len() > 0 && !time.contains(')') && !time.contains('\n')
}

/// A header line names its speaker, whatever the speaker is (spaces,
/// punctuation and `*` included), as long as it is one non-empty line; a block
/// that starts with it has that header and that speaker.
pub proof fn headers_name_their_speaker(time: Seq<char>, speaker: Seq<char>, body: Seq<char>)
    requires
        header_time(time),
        speaker.len() > 0,
        !speaker.contains('\n'),
    ensures
        header_match(header_line(time, speaker)) == Some(
            Some((time.len() + 5int, time.len() + 5int + speaker.len())),
        ),
        parse_md(header_line(time, speaker) + seq!['\n'] + body).header == Some(
            header_line(time, speaker),
        ),
        parse_md(header_line(time, speaker) + seq!['\n'] + body).speaker == Some(speaker),
{
    let l = header_line(time, speaker);
    let t = time.len() as int;
    assert forall|j: int| 3 <= j < 3 + t implies #[trigger] ne_pred(')')(l[j]) by {
        assert(l[j] == time[j - 3]);
        if time[j - 3] == ')' {
            assert(time.contains(')'));
        }
    }
    assert(l[3 + t] == ')');
    lemma_scan_at(l, 3, 3 + t, ne_pred(')'));
    assert(l.subrange(t + 5, l.len() - 2) =~= speaker);
    assert(!l.contains('\n')) by {
        if l.contains('\n') {
            let j = choose|j: int| 0 <= j < l.len() && l[j] == '\n';
            if 3 <= j < 3 + t {
                assert(time[j - 3] == '\n');
                assert(time.contains('\n'));
            } else if t + 5 <= j < l.len() - 2 {
                assert(speaker[j - t - 5] == '\n');
                assert(speaker.contains('\n'));
            }
        }
    }
    let r = l + seq!['\n'] + body;
    assert forall|j: int| 0 <= j < l.len() implies #[trigger] ne_pred('\n')(r[j]) by {
        assert(r[j] == l[j]);
        if l[j] == '\n' {
            assert(l.contains('\n'));
        }
    }
    assert(r[l.len() as int] == '\n');
    lemma_scan_at(r, 0, l.len() as int, ne_pred('\n'));
    assert(r.subrange(0, l.len() as int) =~= l);
    assert(strip_cr(l) == l);
    assert(lines_of(r)[0] == l);
}

/// Two neighbouring blocks whose headers name one speaker, and whose bodies
/// hold no list, are joined into one.
pub proof fn blocks_of_one_speaker_are_joined(
    time1: Seq<char>,
    body1: Seq<char>,
    time2: Seq<char>,
    body2: Seq<char>,
    speaker: Seq<char>,
)
    requires
        header_time(time1),
        header_time(time2),
        speaker.len() > 0,
        !speaker.contains('\n'),
        !has_list_line(parse_md(header_line(time1, speaker) + seq!['\n'] + body1).body),
        !has_list_line(parse_md(header_line(time2, speaker) + seq!['\n'] + body2).body),
    ensures
        stitchable(
            parse_md(header_line(time1, speaker) + seq!['\n'] + body1),
            parse_md(header_line(time2, speaker) + seq!['\n'] + body2),
        ),
        merge_fold(
            seq![
                parse_md(header_line(time1, speaker) + seq!['\n'] + body1),
                parse_md(header_line(time2, speaker) + seq!['\n'] + body2),
            ],
        ).len() == 1,
{
    headers_name_their_speaker(time1, speaker, body1);
    headers_name_their_speaker(time2, speaker, body2);
    let a = parse_md(header_line(time1, speaker) + seq!['\n'] + body1);
    let b = parse_md(header_line(time2, speaker) + seq!['\n'] + body2);
    let two = seq![a, b];
    assert(two.drop_last() =~= seq![a]);
    assert(seq![a].drop_last() =~= Seq::<SpecMd>::empty());
    assert(merge_fold(Seq::<SpecMd>::empty()) == Seq::<SpecMd>::empty());
    assert(seq![a].last() == a);
    assert(merge_fold(seq![a]) == crate::postprocess::merge_step(Seq::<SpecMd>::empty(), a));
    assert(merge_fold(seq![a]) =~= seq![a]);
    assert(two.last() == b);
    assert(merge_fold(two) == crate::postprocess::merge_step(seq![a], b));
}

pub open spec fn webvtt_chars() -> Seq<char> {
    seq!['W', 'E', 'B', 'V', 'T', 'T']
}

/// The header line of a transcript: `WEBVTT`, alone or followed by a space and
/// more, after any number of U+FEFF (here the first `k` characters).
pub open spec fn webvtt_header_line(line: Seq<char>, k: int) -> bool {
    &&& 0 <= k <= line.len()
    &&& forall|j: int| 0 <= j < k ==> line[j] == '\u{feff}'
    &&& {
        let rest = line.subrange(k, line.len() as int);
        rest == webvtt_chars() || (rest.len() >= 7 && rest.subrange(0, 7) == webvtt_chars().push(
            ' ',
        ))
    }
}

/// The first group of lines, when its first line is the `WEBVTT` header, gives
/// no block and no error, however many metadata lines follow the header line.
pub proof fn header_groups_are_skipped(lines: Seq<Seq<char>>, k: int)
    requires
        lines.len() > 0,
        webvtt_header_line(lines[0], k),
    ensures
        block_outcome(lines, true) == Ok::<Option<SpecBlock>, SpecError>(None),
{
    let l = lines[0];
    assert forall|j: int| 0 <= j < k implies #[trigger] eq_pred('\u{feff}')(l[j]) by {}
    let rest = l.subrange(k, l.len() as int);
    if rest == webvtt_chars() {
        assert(rest[0] == 'W');
    } else {
        assert(rest[0] == rest.subrange(0, 7)[0]);
        assert(rest.subrange(0, 7)[0] == 'W');
    }
    assert(l[k] == rest[0]);
    lemma_scan_at(l, 0, k, eq_pred('\u{feff}'));
    if rest.len() >= 7 && rest.subrange(0, 7) == webvtt_chars().push(' ') {
        assert(rest.subrange(0, 7) =~= seq!['W', 'E', 'B', 'V', 'T', 'T', ' ']);
    }
}

proof fn lemma_fold_same_after_first(a: Seq<Seq<Seq<char>>>, b: Seq<Seq<Seq<char>>>, n: int)
    requires
        a.len() == b.len(),
        1 <= n <= a.len(),
        block_outcome(a[0], true) == block_outcome(b[0], true),
        forall|i: int| 1 <= i < a.len() ==> a[i] == b[i],
    ensures
        parse_fold(a.take(n)) == parse_fold(b.take(n)),
    decreases n,
{
    assert(a.take(n).drop_last() =~= a.take(n - 1));
    assert(b.take(n).drop_last() =~= b.take(n - 1));
    if n > 1 {
        lemma_fold_same_after_first(a, b, n - 1);
        assert(a.take(n).last() == b.take(n).last());
    } else {
        assert(a.take(0) =~= Seq::<Seq<Seq<char>>>::empty());
        assert(b.take(0) =~= Seq::<Seq<Seq<char>>>::empty());
    }
}

/// Metadata lines under a `WEBVTT` header line change nothing: a transcript's
/// groups parse as they do with the header group cut down to its first line.
pub proof fn header_metadata_changes_nothing(groups: Seq<Seq<Seq<char>>>, k: int)
    requires
        groups.len() > 0,
        groups[0].len() > 0,
        webvtt_header_line(groups[0][0], k),
    ensures
        parse_fold(groups) == parse_fold(groups.update(0, seq![groups[0][0]])),
{
    let b = groups.update(0, seq![groups[0][0]]);
    header_groups_are_skipped(groups[0], k);
    header_groups_are_skipped(b[0], k);
    lemma_fold_same_after_first(groups, b, groups.len() as int);
    assert(groups.take(groups.len() as int) =~= groups);
    assert(b.take(b.len() as int) =~= b);
}

} // verus!
