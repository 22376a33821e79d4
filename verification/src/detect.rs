//! Rulesets for the programs that produce transcripts, how strongly each one
//! matches a document, and which one wins.

use vstd::prelude::*;
use crate::model::{
    CueBlock, GenerationSourceMatch, SpecBlock, SpecCue, SpecMatch, WebVttBlock, WebVttDocument,
};
use crate::text::{
    chars_of, contains_char, decimal_pred, find_char, is_ascii_digit, ne_pred, rscan, rscan_ne,
    scan, scan_decimal, sub_vec, trim, trimmed,
};

verus! {

/// The cues of a document, in order.
pub open spec fn cues_of(blocks: Seq<SpecBlock>) -> Seq<SpecCue>
    decreases blocks.len(),
{
    if blocks.len() == 0 {
        Seq::empty()
    } else {
        let rest = cues_of(blocks.drop_last());
        match blocks.last() {
            SpecBlock::Cue(c) => rest.push(c),
            _ => rest,
        }
    }
}

pub open spec fn all_ascii_digits(d: Seq<char>) -> bool {
    forall|i: int| 0 <= i < d.len() ==> is_ascii_digit(#[trigger] d[i])
}

pub open spec fn digit_val(c: char) -> nat {
    ((c as int) - 48) as nat
}

/// The decimal value of a string of ASCII digits.
pub open spec fn digits_value(d: Seq<char>) -> nat
    decreases d.len(),
{
    if d.len() == 0 {
        0
    } else {
        digits_value(d.drop_last()) * 10 + digit_val(d.last())
    }
}

/// `str::parse::<usize>` on a string that holds no sign: ASCII digits whose
/// value fits.
pub open spec fn parse_usize(d: Seq<char>) -> Option<nat> {
    if d.len() > 0 && all_ascii_digits(d) && digits_value(d) <= usize::MAX {
        Some(digits_value(d))
    } else {
        None
    }
}

proof fn lemma_digits_value_prefix(d: Seq<char>, k: int)
    requires
        0 <= k <= d.len(),
    ensures
        digits_value(d.take(k)) <= digits_value(d),
    decreases d.len(),
{
    if k < d.len() {
        assert(d.drop_last().take(k) =~= d.take(k));
        lemma_digits_value_prefix(d.drop_last(), k);
    } else {
        assert(d.take(k) =~= d);
    }
}

/// Parses `d[from..]` as a `usize`.
pub fn parse_usize_exec(d: &Vec<char>, from: usize) -> (res: Option<usize>)
    requires
        from <= d.len(),
    ensures
        match res {
            Some(n) => parse_usize(d@.subrange(from as int, d@.len() as int)) == Some(n as nat),
            None => parse_usize(d@.subrange(from as int, d@.len() as int)) is None,
        },
{
    let ghost s = d@.subrange(from as int, d@.len() as int);
    if from == d.len() {
        return None;
    }
    let mut i = from;
    while i < d.len()
        invariant
            from <= i <= d.len(),
            s == d@.subrange(from as int, d@.len() as int),
            forall|j: int| from <= j < i ==> is_ascii_digit(#[trigger] d@[j]),
        decreases d.len() - i,
    {
        if !('0' <= d[i] && d[i] <= '9') {
            assert(!is_ascii_digit(s[i - from]));
            return None;
        }
        i += 1;
    }
    assert forall|j: int| 0 <= j < s.len() implies is_ascii_digit(#[trigger] s[j]) by {
        assert(s[j] == d@[from + j]);
    }
    let mut v: usize = 0;
    let mut i = from;
    assert(d@.subrange(from as int, from as int) =~= Seq::<char>::empty());
    while i < d.len()
        invariant
            from <= i <= d.len(),
            s == d@.subrange(from as int, d@.len() as int),
            all_ascii_digits(s),
            v as nat == digits_value(d@.subrange(from as int, i as int)),
        decreases d.len() - i,
    {
        assert(is_ascii_digit(s[i - from]));
        let dig = ((d[i] as u32) - 48) as usize;
        let ghost pre = d@.subrange(from as int, i + 1);
        assert(pre.drop_last() =~= d@.subrange(from as int, i as int));
        assert(pre =~= s.take(i + 1 - from));
        assert(digits_value(pre) == v * 10 + dig);
        if v > (usize::MAX - dig) / 10 {
            proof {
                assert(v * 10 + dig > usize::MAX) by (nonlinear_arith)
                    requires
                        v > (usize::MAX - dig) / 10,
                        dig <= 9,
                ;
                lemma_digits_value_prefix(s, i + 1 - from);
            }
            return None;
        }
        assert(v * 10 + dig <= usize::MAX) by (nonlinear_arith)
            requires
                v <= (usize::MAX - dig) / 10,
                dig <= 9,
        ;
        v = v * 10 + dig;
        i += 1;
    }
    assert(d@.subrange(from as int, i as int) =~= s);
    Some(v)
}


/// `^(.+?)(?:-|\.)(\d+)$` on a key: the end of the lazily matched group, when
/// the rest is a separator and a run of decimal digits to the end.
pub open spec fn teams_cond(key: Seq<char>, j: int) -> bool {
    (key[j] == '-' || key[j] == '.') && j + 1 < key.len() && scan(key, j + 1, decimal_pred())
        == key.len()
}

pub open spec fn teams_split_from(key: Seq<char>, j: int) -> Option<int>
    decreases key.len() - j,
{
    if 1 <= j < key.len() {
        if key[j - 1] == '\n' {
            None
        } else if teams_cond(key, j) {
            Some(j)
        } else {
            teams_split_from(key, j + 1)
        }
    } else {
        None
    }
}

/// What follows the last `/`.
pub open spec fn teams_key(id: Seq<char>) -> Seq<char> {
    id.subrange(rscan(id, id.len() as int, ne_pred('/')), id.len() as int)
}

/// A Teams cue identifier `.../<group>-<segment>` (or `.`): group and segment.
pub open spec fn parse_teams_id(identifier: Option<Seq<char>>) -> Option<(Seq<char>, nat)> {
    match identifier {
        None => None,
        Some(id) => if !id.contains('/') {
            None
        } else {
            let key = teams_key(id);
            match teams_split_from(key, 1) {
                None => None,
                Some(j) => match parse_usize(key.subrange(j + 1, key.len() as int)) {
                    None => None,
                    Some(n) => Some((key.subrange(0, j), n)),
                },
            }
        },
    }
}

fn teams_split(key: &Vec<char>) -> (res: Option<usize>)
    ensures
        match res {
            Some(j) => teams_split_from(key@, 1) == Some(j as int) && 1 <= j < key.len(),
            None => teams_split_from(key@, 1) is None,
        },
{
    let mut j: usize = 1;
    while j < key.len()
        invariant
            1 <= j,
            teams_split_from(key@, 1) == teams_split_from(key@, j as int),
        decreases key.len() - j,
    {
        if key[j - 1] == '\n' {
            return None;
        }
        if (key[j] == '-' || key[j] == '.') && j + 1 < key.len() && scan_decimal(key, j + 1)
            == key.len() {
            return Some(j);
        }
        j += 1;
    }
    None
}

pub(crate) fn parse_ms_teams_scheduled_identifier(identifier: &Option<String>) -> (res: Option<(String, usize)>)
    ensures
        match res {
            Some((g, n)) => parse_teams_id(identifier.deep_view()) == Some((g@, n as nat)),
            None => parse_teams_id(identifier.deep_view()) is None,
        },
{
    let id = match identifier {
        Some(s) => chars_of(s.as_str()),
        None => return None,
    };
    if !contains_char(&id, '/') {
        return None;
    }
    let start = rscan_ne(&id, id.len(), '/');
    let key = sub_vec(&id, start, id.len());
    match teams_split(&key) {
        None => None,
        Some(j) => match parse_usize_exec(&key, j + 1) {
            None => None,
            Some(n) => {
                let group = crate::text::string_of(&sub_vec(&key, 0, j));
                Some((group, n))
            },
        },
    }
}

/// The cues of a document.
pub fn cue_blocks(document: &WebVttDocument) -> (res: Vec<&CueBlock>)
    ensures
        res@.map_values(|c: &CueBlock| c@) == cues_of(document@),
{
    let ghost bv = document@;
    let mut out: Vec<&CueBlock> = Vec::new();
    let mut i: usize = 0;
    while i < document.blocks.len()
        invariant
            i <= document.blocks.len(),
            bv == document@,
            out@.map_values(|c: &CueBlock| c@) == cues_of(bv.take(i as int)),
        decreases document.blocks.len() - i,
    {
        assert(bv.take(i + 1).drop_last() =~= bv.take(i as int));
        assert(bv.take(i + 1).last() == document.blocks@[i as int]@);
        match &document.blocks[i] {
            WebVttBlock::Cue(c) => {
                out.push(c);
                assert(out@.map_values(|c: &CueBlock| c@) =~= cues_of(bv.take(i + 1)));
            },
            _ => {},
        }
        i += 1;
    }
    assert(bv.take(i as int) =~= bv);
    out
}

pub open spec fn any_voice(cues: Seq<SpecCue>) -> bool {
    exists|i: int| 0 <= i < cues.len() && (#[trigger] cues[i]).voice is Some
}

pub open spec fn count_teams(cues: Seq<SpecCue>) -> nat
    decreases cues.len(),
{
    if cues.len() == 0 {
        0
    } else {
        count_teams(cues.drop_last()) + if parse_teams_id(cues.last().identifier) is Some {
            1nat
        } else {
            0nat
        }
    }
}

pub open spec fn is_teams_header_segment(c: SpecCue) -> bool {
    match parse_teams_id(c.identifier) {
        Some((_, n)) => n == 0 || n == 1,
        None => false,
    }
}

pub open spec fn count_teams_headers(cues: Seq<SpecCue>) -> nat
    decreases cues.len(),
{
    if cues.len() == 0 {
        0
    } else {
        count_teams_headers(cues.drop_last()) + if is_teams_header_segment(cues.last()) {
            1nat
        } else {
            0nat
        }
    }
}

pub open spec fn conf_ms_teams_scheduled(blocks: Seq<SpecBlock>) -> int {
    let cues = cues_of(blocks);
    if !any_voice(cues) || count_teams(cues) == 0 {
        0
    } else if count_teams_headers(cues) > 0 {
        10
    } else if count_teams(cues) >= 2 {
        8
    } else {
        6
    }
}

pub open spec fn conf_ms_teams_event(blocks: Seq<SpecBlock>) -> int {
    let cues = cues_of(blocks);
    if any_voice(cues) {
        0
    } else if count_teams(cues) >= 2 {
        8
    } else if count_teams(cues) == 1 {
        6
    } else {
        0
    }
}

/// Teams voice count, Teams identifier count, Teams header-segment count.
fn teams_counts(cues: &Vec<&CueBlock>) -> (res: (bool, usize, usize))
    ensures
        res.0 == any_voice(cues@.map_values(|c: &CueBlock| c@)),
        res.1 as nat == count_teams(cues@.map_values(|c: &CueBlock| c@)),
        res.2 as nat == count_teams_headers(cues@.map_values(|c: &CueBlock| c@)),
{
    let ghost cv = cues@.map_values(|c: &CueBlock| c@);
    let mut has_voice = false;
    let mut matched: usize = 0;
    let mut headers: usize = 0;
    let mut i: usize = 0;
    while i < cues.len()
        invariant
            i <= cues.len(),
            cv == cues@.map_values(|c: &CueBlock| c@),
            has_voice == any_voice(cv.take(i as int)),
            matched as nat == count_teams(cv.take(i as int)),
            headers as nat == count_teams_headers(cv.take(i as int)),
            matched <= i,
            headers <= i,
        decreases cues.len() - i,
    {
        let ghost t = cv.take(i + 1);
        assert(t.drop_last() =~= cv.take(i as int));
        assert(t.last() == cues@[i as int]@);
        if cues[i].voice.is_some() {
            has_voice = true;
            assert(t[i as int].voice is Some);
        }
        proof {
            if !has_voice {
                assert forall|j: int| 0 <= j < t.len() implies !((#[trigger] t[j]).voice is Some) by {
                    if j < i {
                        assert(t[j] == cv.take(i as int)[j]);
                    }
                }
            } else if cues[i as int].voice.is_none() {
                let w = choose|j: int| 0 <= j < i && (#[trigger] cv.take(i as int)[j]).voice is Some;
                assert(t[w] == cv.take(i as int)[w]);
            }
        }
        match parse_ms_teams_scheduled_identifier(&cues[i].identifier) {
            Some((_, segment)) => {
                matched += 1;
                if segment == 0 || segment == 1 {
                    headers += 1;
                }
            },
            None => {},
        }
        i += 1;
    }
    assert(cv.take(i as int) =~= cv);
    (has_voice, matched, headers)
}

fn match_confidence_ms_teams_scheduled(document: &WebVttDocument) -> (res: i32)
    ensures
        res as int == conf_ms_teams_scheduled(document@),
{
    let cues = cue_blocks(document);
    let (has_voice, matched, headers) = teams_counts(&cues);
    if !has_voice || matched == 0 {
        return 0;
    }
    if headers > 0 {
        return 10;
    }
    if matched >= 2 {
        return 8;
    }
    6
}

fn match_confidence_ms_teams_event(document: &WebVttDocument) -> (res: i32)
    ensures
        res as int == conf_ms_teams_event(document@),
{
    let cues = cue_blocks(document);
    let (has_voice, matched, _) = teams_counts(&cues);
    if has_voice {
        return 0;
    }
    if matched >= 2 {
        return 8;
    }
    if matched == 1 {
        return 6;
    }
    0
}


/// The numeric value of an all-digit identifier.
pub open spec fn numeric_id(identifier: Option<Seq<char>>) -> Option<nat> {
    match identifier {
        Some(id) => if all_ascii_digits(id) {
            parse_usize(id)
        } else {
            None
        },
        None => None,
    }
}

pub open spec fn numeric_ids(cues: Seq<SpecCue>) -> Seq<nat>
    decreases cues.len(),
{
    if cues.len() == 0 {
        Seq::empty()
    } else {
        let rest = numeric_ids(cues.drop_last());
        match numeric_id(cues.last().identifier) {
            Some(n) => rest.push(n),
            None => rest,
        }
    }
}

/// Numeric identifiers exist, start at 1 and strictly increase.
pub open spec fn strict_numeric_sequence(cues: Seq<SpecCue>) -> bool {
    let ids = numeric_ids(cues);
    ids.len() > 0 && ids[0] == 1 && forall|i: int| 0 < i < ids.len() ==> #[trigger] ids[i - 1] < ids[i]
}

pub open spec fn all_single_line(cues: Seq<SpecCue>) -> bool {
    forall|i: int| 0 <= i < cues.len() ==> !(#[trigger] cues[i]).text.contains('\n')
}

/// Where a textual speaker ends: the first `:`, or with `last` the last one.
pub open spec fn colon_index(text: Seq<char>, last: bool) -> Option<int> {
    if last {
        let r = rscan(text, text.len() as int, ne_pred(':'));
        if r > 0 {
            Some(r - 1)
        } else {
            None
        }
    } else {
        let k = scan(text, 0, ne_pred(':'));
        if k < text.len() {
            Some(k)
        } else {
            None
        }
    }
}

/// `Speaker: text`, both sides trimmed and non-empty.
pub open spec fn split_speaker(text: Seq<char>, last: bool) -> Option<(Seq<char>, Seq<char>)> {
    match colon_index(text, last) {
        None => None,
        Some(i) => if i == 0 {
            None
        } else {
            let sp = trim(text.subrange(0, i));
            let st = trim(text.subrange(i + 1, text.len() as int));
            if sp.len() == 0 || st.len() == 0 {
                None
            } else {
                Some((sp, st))
            }
        },
    }
}

/// `Speaker:` with nothing after the first colon.
pub open spec fn empty_speaker(text: Seq<char>) -> bool {
    match colon_index(text, false) {
        None => false,
        Some(i) => trim(text.subrange(0, i)).len() > 0 && trim(
            text.subrange(i + 1, text.len() as int),
        ).len() == 0,
    }
}

pub open spec fn count_char(s: Seq<char>, c: char) -> nat
    decreases s.len(),
{
    if s.len() == 0 {
        0
    } else {
        count_char(s.drop_last(), c) + if s.last() == c {
            1nat
        } else {
            0nat
        }
    }
}

pub open spec fn count_multi_colon(cues: Seq<SpecCue>) -> nat
    decreases cues.len(),
{
    if cues.len() == 0 {
        0
    } else {
        count_multi_colon(cues.drop_last()) + if count_char(cues.last().text, ':') > 1 {
            1nat
        } else {
            0nat
        }
    }
}

pub open spec fn conf_zoom_scheduled(blocks: Seq<SpecBlock>) -> int {
    let cues = cues_of(blocks);
    if !strict_numeric_sequence(cues) {
        0
    } else if !all_single_line(cues) {
        0
    } else if cues.len() < 2 {
        0
    } else if forall|i: int| 0 <= i < cues.len() ==> (#[trigger] split_speaker(cues[i].text, false)) is Some {
        7
    } else {
        0
    }
}

pub open spec fn conf_zoom_event(blocks: Seq<SpecBlock>) -> int {
    let cues = cues_of(blocks);
    if cues.len() == 0 {
        0
    } else if !strict_numeric_sequence(cues) {
        0
    } else if !all_single_line(cues) {
        0
    } else if cues.len() == 1 {
        6
    } else if exists|i: int| 0 <= i < cues.len() && (#[trigger] split_speaker(cues[i].text, false)) is Some {
        0
    } else {
        6
    }
}

/// An identifier made of ASCII digits only (the empty one too).
pub open spec fn has_digit_id(c: SpecCue) -> bool {
    match c.identifier {
        Some(id) => all_ascii_digits(id),
        None => false,
    }
}

pub open spec fn conf_meeting_novoicetag(blocks: Seq<SpecBlock>) -> int {
    let cues = cues_of(blocks);
    if cues.len() == 0 {
        0
    } else if any_voice(cues) {
        0
    } else if exists|i: int| 0 <= i < cues.len() && has_digit_id(#[trigger] cues[i]) {
        0
    } else if forall|i: int| 0 <= i < cues.len() ==> (#[trigger] split_speaker(cues[i].text, false)) is Some {
        5
    } else {
        0
    }
}

fn all_ascii_digits_exec(v: &Vec<char>) -> (b: bool)
    ensures
        b == all_ascii_digits(v@),
{
    let mut i: usize = 0;
    while i < v.len()
        invariant
            i <= v.len(),
            forall|j: int| 0 <= j < i ==> is_ascii_digit(#[trigger] v@[j]),
        decreases v.len() - i,
    {
        if !('0' <= v[i] && v[i] <= '9') {
            return false;
        }
        i += 1;
    }
    true
}

fn numeric_identifiers_from_document(document: &WebVttDocument) -> (res: Vec<usize>)
    ensures
        res@.map_values(|n: usize| n as nat) == numeric_ids(cues_of(document@)),
{
    let cues = cue_blocks(document);
    let ghost cv = cues@.map_values(|c: &CueBlock| c@);
    let mut out: Vec<usize> = Vec::new();
    let mut i: usize = 0;
    while i < cues.len()
        invariant
            i <= cues.len(),
            cv == cues@.map_values(|c: &CueBlock| c@),
            cv == cues_of(document@),
            out@.map_values(|n: usize| n as nat) == numeric_ids(cv.take(i as int)),
        decreases cues.len() - i,
    {
        let ghost t = cv.take(i + 1);
        assert(t.drop_last() =~= cv.take(i as int));
        assert(t.last() == cues@[i as int]@);
        match &cues[i].identifier {
            Some(id) => {
                let chars = chars_of(id.as_str());
                if all_ascii_digits_exec(&chars) {
                    match parse_usize_exec(&chars, 0) {
                        Some(n) => {
                            assert(chars@.subrange(0, chars@.len() as int) =~= chars@);
                            out.push(n);
                            assert(out@.map_values(|n: usize| n as nat) =~= numeric_ids(t));
                        },
                        None => {
                            assert(chars@.subrange(0, chars@.len() as int) =~= chars@);
                        },
                    }
                }
            },
            None => {},
        }
        i += 1;
    }
    assert(cv.take(i as int) =~= cv);
    out
}

fn is_strict_zoom_numeric_sequence(document: &WebVttDocument) -> (b: bool)
    ensures
        b == strict_numeric_sequence(cues_of(document@)),
{
    let ids = numeric_identifiers_from_document(document);
    let ghost iv = ids@.map_values(|n: usize| n as nat);
    assert(iv.len() == ids@.len());
    if ids.len() == 0 || ids[0] != 1 {
        assert(ids.len() > 0 ==> iv[0] == ids@[0] as nat);
        return false;
    }
    let mut i: usize = 1;
    while i < ids.len()
        invariant
            1 <= i <= ids.len(),
            iv == ids@.map_values(|n: usize| n as nat),
            iv == numeric_ids(cues_of(document@)),
            iv.len() == ids@.len(),
            iv[0] == 1,
            forall|j: int| 0 < j < i ==> #[trigger] iv[j - 1] < iv[j],
        decreases ids.len() - i,
    {
        if !(ids[i] > ids[i - 1]) {
            assert(!(iv[i - 1] < iv[i as int]));
            return false;
        }
        i += 1;
    }
    true
}

fn all_cues_single_line(document: &WebVttDocument) -> (b: bool)
    ensures
        b == all_single_line(cues_of(document@)),
{
    let cues = cue_blocks(document);
    let ghost cv = cues@.map_values(|c: &CueBlock| c@);
    let mut i: usize = 0;
    while i < cues.len()
        invariant
            i <= cues.len(),
            cv == cues@.map_values(|c: &CueBlock| c@),
            cv == cues_of(document@),
            forall|j: int| 0 <= j < i ==> !(#[trigger] cv[j]).text.contains('\n'),
        decreases cues.len() - i,
    {
        let text = chars_of(cues[i].text.as_str());
        if contains_char(&text, '\n') {
            assert(cv[i as int].text.contains('\n'));
            return false;
        }
        i += 1;
    }
    true
}

fn colon_index_exec(text: &Vec<char>, use_last_colon: bool) -> (res: Option<usize>)
    ensures
        match res {
            Some(i) => colon_index(text@, use_last_colon) == Some(i as int) && i < text.len(),
            None => colon_index(text@, use_last_colon) is None,
        },
{
    if use_last_colon {
        let r = rscan_ne(text, text.len(), ':');
        if r > 0 {
            Some(r - 1)
        } else {
            None
        }
    } else {
        let k = find_char(text, 0, ':');
        if k < text.len() {
            Some(k)
        } else {
            None
        }
    }
}

pub(crate) fn split_textual_speaker(text: &Vec<char>, use_last_colon: bool) -> (res: Option<(Vec<char>, Vec<char>)>)
    ensures
        match res {
            Some((a, b)) => split_speaker(text@, use_last_colon) == Some((a@, b@)),
            None => split_speaker(text@, use_last_colon) is None,
        },
{
    let delimiter_index = match colon_index_exec(text, use_last_colon) {
        Some(i) => i,
        None => return None,
    };
    if delimiter_index == 0 {
        return None;
    }
    let speaker = trimmed(&sub_vec(text, 0, delimiter_index));
    let spoken_text = trimmed(&sub_vec(text, delimiter_index + 1, text.len()));
    if speaker.len() == 0 || spoken_text.len() == 0 {
        return None;
    }
    Some((speaker, spoken_text))
}

pub(crate) fn is_empty_textual_speaker(text: &Vec<char>) -> (b: bool)
    ensures
        b == empty_speaker(text@),
{
    let delimiter_index = match colon_index_exec(text, false) {
        Some(i) => i,
        None => return false,
    };
    let speaker = trimmed(&sub_vec(text, 0, delimiter_index));
    let spoken_text = trimmed(&sub_vec(text, delimiter_index + 1, text.len()));
    speaker.len() > 0 && spoken_text.len() == 0
}

fn has_textual_speaker(text: &Vec<char>) -> (b: bool)
    ensures
        b == split_speaker(text@, false) is Some,
{
    split_textual_speaker(text, false).is_some()
}

fn count_colons(text: &Vec<char>) -> (n: usize)
    ensures
        n as nat == count_char(text@, ':'),
{
    let mut n: usize = 0;
    let mut i: usize = 0;
    while i < text.len()
        invariant
            i <= text.len(),
            n <= i,
            n as nat == count_char(text@.take(i as int), ':'),
        decreases text.len() - i,
    {
        assert(text@.take(i + 1).drop_last() =~= text@.take(i as int));
        if text[i] == ':' {
            n += 1;
        }
        i += 1;
    }
    assert(text@.take(i as int) =~= text@);
    n
}

fn count_multi_colon_cues(document: &WebVttDocument) -> (n: usize)
    ensures
        n as nat == count_multi_colon(cues_of(document@)),
{
    let cues = cue_blocks(document);
    let ghost cv = cues@.map_values(|c: &CueBlock| c@);
    let mut n: usize = 0;
    let mut i: usize = 0;
    while i < cues.len()
        invariant
            i <= cues.len(),
            n <= i,
            cv == cues@.map_values(|c: &CueBlock| c@),
            n as nat == count_multi_colon(cv.take(i as int)),
        decreases cues.len() - i,
    {
        let ghost t = cv.take(i + 1);
        assert(t.drop_last() =~= cv.take(i as int));
        assert(t.last() == cues@[i as int]@);
        let text = chars_of(cues[i].text.as_str());
        if count_colons(&text) > 1 {
            n += 1;
        }
        i += 1;
    }
    assert(cv.take(i as int) =~= cv);
    n
}

pub(crate) fn use_last_colon_split(document: &WebVttDocument) -> (b: bool)
    ensures
        b == (count_multi_colon(cues_of(document@)) >= 3),
{
    count_multi_colon_cues(document) >= 3
}

/// Whether every cue (`all`), or some cue (`!all`), has a textual speaker.
fn speakers_quantified(cues: &Vec<&CueBlock>, all: bool) -> (b: bool)
    ensures
        all ==> b == forall|i: int| 0 <= i < cues@.len() ==> (#[trigger] split_speaker(cues@[i]@.text, false)) is Some,
        !all ==> b == exists|i: int| 0 <= i < cues@.len() && (#[trigger] split_speaker(cues@[i]@.text, false)) is Some,
{
    let mut i: usize = 0;
    while i < cues.len()
        invariant
            i <= cues.len(),
            forall|j: int| 0 <= j < i ==> ((#[trigger] split_speaker(cues@[j]@.text, false)) is Some) == all,
        decreases cues.len() - i,
    {
        let text = chars_of(cues[i].text.as_str());
        let has = has_textual_speaker(&text);
        if has != all {
            assert((split_speaker(cues@[i as int]@.text, false) is Some) == has);
            return !all;
        }
        i += 1;
    }
    proof {
        if !all {
            assert forall|j: int| 0 <= j < cues@.len() implies !((#[trigger] split_speaker(cues@[j]@.text, false)) is Some) by {}
        }
    }
    all
}

fn match_confidence_zoom_scheduled(document: &WebVttDocument) -> (res: i32)
    ensures
        res as int == conf_zoom_scheduled(document@),
{
    if !is_strict_zoom_numeric_sequence(document) {
        return 0;
    }
    if !all_cues_single_line(document) {
        return 0;
    }
    let cues = cue_blocks(document);
    let ghost cv = cues@.map_values(|c: &CueBlock| c@);
    if cues.len() < 2 {
        return 0;
    }
    if speakers_quantified(&cues, true) {
        assert forall|i: int| 0 <= i < cv.len() implies (#[trigger] split_speaker(cv[i].text, false)) is Some by {
            assert(cv[i] == cues@[i]@);
        }
        return 7;
    }
    proof {
        let w = choose|i: int| 0 <= i < cues@.len() && !((#[trigger] split_speaker(cues@[i]@.text, false)) is Some);
        assert(cv[w] == cues@[w]@);
    }
    0
}

fn match_confidence_zoom_event(document: &WebVttDocument) -> (res: i32)
    ensures
        res as int == conf_zoom_event(document@),
{
    let cues = cue_blocks(document);
    let ghost cv = cues@.map_values(|c: &CueBlock| c@);
    if cues.len() == 0 {
        return 0;
    }
    if !is_strict_zoom_numeric_sequence(document) {
        return 0;
    }
    if !all_cues_single_line(document) {
        return 0;
    }
    if cues.len() == 1 {
        return 6;
    }
    if speakers_quantified(&cues, false) {
        proof {
            let w = choose|i: int| 0 <= i < cues@.len() && (#[trigger] split_speaker(cues@[i]@.text, false)) is Some;
            assert(cv[w] == cues@[w]@);
        }
        return 0;
    }
    assert forall|i: int| 0 <= i < cv.len() implies !((#[trigger] split_speaker(cv[i].text, false)) is Some) by {
        assert(cv[i] == cues@[i]@);
    }
    6
}

fn match_confidence_meeting_novoicetag(document: &WebVttDocument) -> (res: i32)
    ensures
        res as int == conf_meeting_novoicetag(document@),
{
    let cues = cue_blocks(document);
    let ghost cv = cues@.map_values(|c: &CueBlock| c@);
    if cues.len() == 0 {
        return 0;
    }
    let (has_voice, _, _) = teams_counts(&cues);
    if has_voice {
        return 0;
    }
    let mut i: usize = 0;
    while i < cues.len()
        invariant
            i <= cues.len(),
            cv == cues@.map_values(|c: &CueBlock| c@),
            cv == cues_of(document@),
            !any_voice(cv),
            forall|j: int| 0 <= j < i ==> !has_digit_id(#[trigger] cv[j]),
        decreases cues.len() - i,
    {
        match &cues[i].identifier {
            Some(id) => {
                let chars = chars_of(id.as_str());
                if all_ascii_digits_exec(&chars) {
                    assert(has_digit_id(cv[i as int]));
                    return 0;
                }
            },
            None => {},
        }
        i += 1;
    }
    if speakers_quantified(&cues, true) {
        assert forall|i: int| 0 <= i < cv.len() implies (#[trigger] split_speaker(cv[i].text, false)) is Some by {
            assert(cv[i] == cues@[i]@);
        }
        return 5;
    }
    proof {
        let w = choose|i: int| 0 <= i < cues@.len() && !((#[trigger] split_speaker(cues@[i]@.text, false)) is Some);
        assert(cv[w] == cues@[w]@);
    }
    0
}


/// The rulesets, one per program that writes transcripts.
#[derive(Clone, Copy, Debug, PartialEq, Eq, Structural)]
pub enum RuleSet {
    GenericWebvtt,
    MeetingNovoicetag,
    MsTeamsEvent,
    MsTeamsScheduled,
    ZoomEvent,
    ZoomScheduled,
}

/// The rulesets in the order in which they are registered.
pub open spec fn rulesets() -> Seq<RuleSet> {
    seq![
        RuleSet::GenericWebvtt,
        RuleSet::MeetingNovoicetag,
        RuleSet::MsTeamsEvent,
        RuleSet::MsTeamsScheduled,
        RuleSet::ZoomEvent,
        RuleSet::ZoomScheduled,
    ]
}

/// The rulesets whose output gets its lines reflowed.
pub open spec fn reflows(r: RuleSet) -> bool {
    r != RuleSet::GenericWebvtt
}

impl RuleSet {
    pub open spec fn source_name(self) -> Seq<char> {
        match self {
            RuleSet::GenericWebvtt => "generic_webvtt"@,
            RuleSet::MeetingNovoicetag => "meeting_novoicetag"@,
            RuleSet::MsTeamsEvent => "ms_teams_event"@,
            RuleSet::MsTeamsScheduled => "ms_teams_scheduled"@,
            RuleSet::ZoomEvent => "zoom_event"@,
            RuleSet::ZoomScheduled => "zoom_scheduled"@,
        }
    }

    pub open spec fn module(self) -> Seq<char> {
        match self {
            RuleSet::GenericWebvtt => "gen_src_generic_webvtt"@,
            RuleSet::MeetingNovoicetag => "gen_src_meeting_novoicetag"@,
            RuleSet::MsTeamsEvent => "gen_src_ms_teams_event"@,
            RuleSet::MsTeamsScheduled => "gen_src_ms_teams_scheduled"@,
            RuleSet::ZoomEvent => "gen_src_zoom_event"@,
            RuleSet::ZoomScheduled => "gen_src_zoom_scheduled"@,
        }
    }

    pub open spec fn spec_importance(self) -> int {
        match self {
            RuleSet::GenericWebvtt => 100,
            RuleSet::MeetingNovoicetag => 400,
            RuleSet::MsTeamsEvent => 650,
            RuleSet::MsTeamsScheduled => 700,
            RuleSet::ZoomEvent => 500,
            RuleSet::ZoomScheduled => 600,
        }
    }

    /// How strongly the ruleset claims a document (0 to 10).
    pub open spec fn confidence(self, blocks: Seq<SpecBlock>) -> int {
        match self {
            RuleSet::GenericWebvtt => 1,
            RuleSet::MeetingNovoicetag => conf_meeting_novoicetag(blocks),
            RuleSet::MsTeamsEvent => conf_ms_teams_event(blocks),
            RuleSet::MsTeamsScheduled => conf_ms_teams_scheduled(blocks),
            RuleSet::ZoomEvent => conf_zoom_event(blocks),
            RuleSet::ZoomScheduled => conf_zoom_scheduled(blocks),
        }
    }

    pub fn generation_source(&self) -> (s: &'static str)
        ensures
            s@ == self.source_name(),
    {
        match self {
            RuleSet::GenericWebvtt => "generic_webvtt",
            RuleSet::MeetingNovoicetag => "meeting_novoicetag",
            RuleSet::MsTeamsEvent => "ms_teams_event",
            RuleSet::MsTeamsScheduled => "ms_teams_scheduled",
            RuleSet::ZoomEvent => "zoom_event",
            RuleSet::ZoomScheduled => "zoom_scheduled",
        }
    }

    pub fn module_name(&self) -> (s: &'static str)
        ensures
            s@ == self.module(),
    {
        match self {
            RuleSet::GenericWebvtt => "gen_src_generic_webvtt",
            RuleSet::MeetingNovoicetag => "gen_src_meeting_novoicetag",
            RuleSet::MsTeamsEvent => "gen_src_ms_teams_event",
            RuleSet::MsTeamsScheduled => "gen_src_ms_teams_scheduled",
            RuleSet::ZoomEvent => "gen_src_zoom_event",
            RuleSet::ZoomScheduled => "gen_src_zoom_scheduled",
        }
    }

    pub fn importance(&self) -> (i: i32)
        ensures
            i as int == self.spec_importance(),
    {
        match self {
            RuleSet::GenericWebvtt => 100,
            RuleSet::MeetingNovoicetag => 400,
            RuleSet::MsTeamsEvent => 650,
            RuleSet::MsTeamsScheduled => 700,
            RuleSet::ZoomEvent => 500,
            RuleSet::ZoomScheduled => 600,
        }
    }

    pub fn match_confidence(&self, document: &WebVttDocument) -> (c: i32)
        ensures
            c as int == self.confidence(document@),
    {
        match self {
            RuleSet::GenericWebvtt => match_confidence_generic_webvtt(document),
            RuleSet::MeetingNovoicetag => match_confidence_meeting_novoicetag(document),
            RuleSet::MsTeamsEvent => match_confidence_ms_teams_event(document),
            RuleSet::MsTeamsScheduled => match_confidence_ms_teams_scheduled(document),
            RuleSet::ZoomEvent => match_confidence_zoom_event(document),
            RuleSet::ZoomScheduled => match_confidence_zoom_scheduled(document),
        }
    }
}

fn match_confidence_generic_webvtt(_document: &WebVttDocument) -> (c: i32)
    ensures
        c == 1,
{
    1
}

/// At most the first 50 blocks: what detection looks at.
pub open spec fn sample(blocks: Seq<SpecBlock>) -> Seq<SpecBlock> {
    if blocks.len() <= 50 {
        blocks
    } else {
        blocks.take(50)
    }
}

pub open spec fn clamp_confidence(c: int) -> int {
    if c < 0 {
        0
    } else if c > 10 {
        10
    } else {
        c
    }
}

pub open spec fn score_of(r: RuleSet, blocks: Seq<SpecBlock>) -> SpecMatch {
    SpecMatch {
        source: r.source_name(),
        confidence: clamp_confidence(r.confidence(sample(blocks))),
        importance: r.spec_importance(),
        module: r.module(),
    }
}

/// One score per ruleset, in registration order.
pub open spec fn spec_scores(blocks: Seq<SpecBlock>) -> Seq<SpecMatch> {
    rulesets().map_values(|r: RuleSet| score_of(r, blocks))
}

fn score_one(r: RuleSet, sampled: &WebVttDocument) -> (m: GenerationSourceMatch)
    ensures
        m@ == (SpecMatch {
            source: r.source_name(),
            confidence: clamp_confidence(r.confidence(sampled@)),
            importance: r.spec_importance(),
            module: r.module(),
        }),
{
    let c = r.match_confidence(sampled);
    let confidence = if c < 0 {
        0
    } else if c > 10 {
        10
    } else {
        c
    };
    GenerationSourceMatch {
        generation_source: r.generation_source(),
        confidence,
        importance: r.importance(),
        module_name: r.module_name(),
    }
}

/// Scores every ruleset on the first 50 blocks of a document.
pub fn score_generation_sources(document: &WebVttDocument) -> (res: Vec<GenerationSourceMatch>)
    ensures
        res@.map_values(|m: GenerationSourceMatch| m@) == spec_scores(document@),
{
    let n = if document.blocks.len() <= 50 {
        document.blocks.len()
    } else {
        50
    };
    let sampled = document.copy_range(0, n);
    assert(sampled@ =~= sample(document@));
    let mut out: Vec<GenerationSourceMatch> = Vec::new();
    out.push(score_one(RuleSet::GenericWebvtt, &sampled));
    out.push(score_one(RuleSet::MeetingNovoicetag, &sampled));
    out.push(score_one(RuleSet::MsTeamsEvent, &sampled));
    out.push(score_one(RuleSet::MsTeamsScheduled, &sampled));
    out.push(score_one(RuleSet::ZoomEvent, &sampled));
    out.push(score_one(RuleSet::ZoomScheduled, &sampled));
    assert(out@.map_values(|m: GenerationSourceMatch| m@) =~= spec_scores(document@));
    out
}

} // verus!
