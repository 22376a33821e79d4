//! The line grammars of WebVTT cues and of the rendered Markdown, as matchers
//! with exact specifications (first-match semantics, Unicode `\s` and `\d`).

use vstd::prelude::*;
use crate::text::{
    arrow, class_pred, find_char, is_ws, is_ws_char, lemma_scan, matches_at, matches_at_exec, ne_pred,
    non_ws_pred, scan, scan_class, scan_non_ws, scan_ws, ws_pred,
};

verus! {

/// After a tag name ending at `q`: the optional `.class` suffix (`\.[^>\s]+`).
/// `Some(r)` is where the tag continues; `None` when a `.` opens an empty class.
pub open spec fn after_class(s: Seq<char>, q: int) -> Option<int> {
    if 0 <= q < s.len() && s[q] == '.' {
        let r = scan(s, q + 1, class_pred());
        if r > q + 1 {
            Some(r)
        } else {
            None
        }
    } else {
        Some(q)
    }
}

pub open spec fn close_voice() -> Seq<char> {
    seq!['<', '/', 'v', '>']
}

/// `^<v(?:\.[^>\s]+)?\s+([^>]+)>(.*)</v>$` (dot matches newlines): the bounds
/// `(speaker_start, speaker_end, content_start, content_end)` of the captures.
pub open spec fn voice_match(s: Seq<char>) -> Option<(int, int, int, int)> {
    if s.len() >= 2 && s[0] == '<' && s[1] == 'v' {
        match after_class(s, 2) {
            Some(q) => {
                if q < s.len() && is_ws(s[q]) {
                    let w = scan(s, q, ws_pred());
                    let g = scan(s, q, ne_pred('>'));
                    if g < s.len() && (w < g || w - q >= 2) && s.len() >= g + 5 && matches_at(
                        s,
                        s.len() - 4,
                        close_voice(),
                    ) {
                        let a = if w < g {
                            w
                        } else {
                            g - 1
                        };
                        Some((a, g, g + 1, s.len() - 4))
                    } else {
                        None
                    }
                } else {
                    None
                }
            },
            None => None,
        }
    } else {
        None
    }
}

/// `^(\S+)\s+-->\s+(\S+)(?:\s+.*)?$`: the bounds `(start_end, end_start, end_end)`
/// of the two timestamps (the first one starts at 0).
pub open spec fn timing_match(s: Seq<char>) -> Option<(int, int, int)> {
    let a = scan(s, 0, non_ws_pred());
    let b = scan(s, a, ws_pred());
    let c = scan(s, b + 3, ws_pred());
    let d = scan(s, c, non_ws_pred());
    if a > 0 && b > a && matches_at(s, b, arrow()) && c > b + 3 && d > c && (d == s.len()
        || !s.subrange(scan(s, d, ws_pred()), s.len() as int).contains('\n')) {
        Some((a, c, d))
    } else {
        None
    }
}

pub fn after_class_exec(v: &Vec<char>, q: usize) -> (res: Option<usize>)
    requires
        q <= v.len(),
    ensures
        res matches Some(r) ==> after_class(v@, q as int) == Some(r as int) && q <= r <= v.len(),
        res is None ==> after_class(v@, q as int) is None,
{
    if q < v.len() && v[q] == '.' {
        let r = scan_class(v, q + 1);
        if r > q + 1 {
            Some(r)
        } else {
            None
        }
    } else {
        Some(q)
    }
}

pub fn voice_match_exec(v: &Vec<char>) -> (res: Option<(usize, usize, usize, usize)>)
    ensures
        res matches Some(m) ==> voice_match(v@) == Some((m.0 as int, m.1 as int, m.2 as int, m.3 as int))
            && m.0 <= m.1 <= m.2 <= m.3 <= v.len(),
        res is None ==> voice_match(v@) is None,
{
    if !(v.len() >= 2 && v[0] == '<' && v[1] == 'v') {
        return None;
    }
    let q = match after_class_exec(v, 2) {
        Some(q) => q,
        None => return None,
    };
    if !(q < v.len() && is_ws_char(v[q])) {
        return None;
    }
    let w = scan_ws(v, q);
    let g = find_char(v, q, '>');
    proof {
        lemma_scan(v@, q as int, ws_pred());
        lemma_scan(v@, q as int, ne_pred('>'));
        if w > g {
            assert(ws_pred()(v@[g as int]));
        }
    }
    let close = vec!['<', '/', 'v', '>'];
    assert(close@ =~= close_voice());
    if g < v.len() && (w < g || w - q >= 2) && v.len() - g >= 5 && matches_at_exec(
        v,
        v.len() - 4,
        &close,
    ) {
        let a = if w < g {
            w
        } else {
            g - 1
        };
        Some((a, g, g + 1, v.len() - 4))
    } else {
        None
    }
}

pub fn timing_match_exec(v: &Vec<char>) -> (res: Option<(usize, usize, usize)>)
    ensures
        res matches Some(m) ==> timing_match(v@) == Some((m.0 as int, m.1 as int, m.2 as int))
            && 0 < m.0 <= m.1 <= m.2 <= v.len(),
        res is None ==> timing_match(v@) is None,
{
    let a = scan_non_ws(v, 0);
    let b = scan_ws(v, a);
    let arrow_pat = vec!['-', '-', '>'];
    assert(arrow_pat@ =~= arrow());
    if !(a > 0 && b > a && matches_at_exec(v, b, &arrow_pat)) {
        return None;
    }
    let c = scan_ws(v, b + 3);
    let d = scan_non_ws(v, c);
    if !(c > b + 3 && d > c) {
        return None;
    }
    if d == v.len() {
        return Some((a, c, d));
    }
    let e = scan_ws(v, d);
    let nl = find_char(v, e, '\n');
    proof {
        lemma_scan(v@, e as int, ne_pred('\n'));
        let rest = v@.subrange(e as int, v@.len() as int);
        if nl < v.len() {
            assert(rest[nl - e] == '\n');
        } else {
            assert forall|j: int| 0 <= j < rest.len() implies rest[j] != '\n' by {
                assert(ne_pred('\n')(v@[e + j]));
            }
        }
    }
    if nl < v.len() {
        None
    } else {
        Some((a, c, d))
    }
}

} // verus!
