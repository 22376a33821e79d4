//! Character classes and text primitives over `Seq<char>`, with executable
//! counterparts on `Vec<char>`.

use vstd::prelude::*;

verus! {

/// The Unicode `White_Space` property: the class used by `char::is_whitespace`,
/// by `str::trim` and by `\s` in WebVTT line syntax.
pub open spec fn is_ws(c: char) -> bool {
    let v = c as u32;
    (0x09 <= v && v <= 0x0D) || v == 0x20 || v == 0x85 || v == 0xA0 || v == 0x1680
        || (0x2000 <= v && v <= 0x200A) || v == 0x2028 || v == 0x2029 || v == 0x202F
        || v == 0x205F || v == 0x3000
}

pub fn is_ws_char(c: char) -> (b: bool)
    ensures
        b == is_ws(c),
{
    let v = c as u32;
    (0x09 <= v && v <= 0x0D) || v == 0x20 || v == 0x85 || v == 0xA0 || v == 0x1680
        || (0x2000 <= v && v <= 0x200A) || v == 0x2028 || v == 0x2029 || v == 0x202F
        || v == 0x205F || v == 0x3000
}

/// The Unicode `Decimal_Number` (Nd) category, Unicode 16.0: the class of `\d`.
pub open spec fn is_decimal(c: char) -> bool {
    let v = c as u32;
    (0x30 <= v && v <= 0x39) || (0x660 <= v && v <= 0x669) || (0x6F0 <= v && v <= 0x6F9)
        || (0x7C0 <= v && v <= 0x7C9) || (0x966 <= v && v <= 0x96F) || (0x9E6 <= v && v <= 0x9EF)
        || (0xA66 <= v && v <= 0xA6F) || (0xAE6 <= v && v <= 0xAEF) || (0xB66 <= v && v <= 0xB6F)
        || (0xBE6 <= v && v <= 0xBEF) || (0xC66 <= v && v <= 0xC6F) || (0xCE6 <= v && v <= 0xCEF)
        || (0xD66 <= v && v <= 0xD6F) || (0xDE6 <= v && v <= 0xDEF) || (0xE50 <= v && v <= 0xE59)
        || (0xED0 <= v && v <= 0xED9) || (0xF20 <= v && v <= 0xF29) || (0x1040 <= v && v <= 0x1049)
        || (0x1090 <= v && v <= 0x1099) || (0x17E0 <= v && v <= 0x17E9) || (0x1810 <= v && v <= 0x1819)
        || (0x1946 <= v && v <= 0x194F) || (0x19D0 <= v && v <= 0x19D9) || (0x1A80 <= v && v <= 0x1A89)
        || (0x1A90 <= v && v <= 0x1A99) || (0x1B50 <= v && v <= 0x1B59) || (0x1BB0 <= v && v <= 0x1BB9)
        || (0x1C40 <= v && v <= 0x1C49) || (0x1C50 <= v && v <= 0x1C59) || (0xA620 <= v && v <= 0xA629)
        || (0xA8D0 <= v && v <= 0xA8D9) || (0xA900 <= v && v <= 0xA909) || (0xA9D0 <= v && v <= 0xA9D9)
        || (0xA9F0 <= v && v <= 0xA9F9) || (0xAA50 <= v && v <= 0xAA59) || (0xABF0 <= v && v <= 0xABF9)
        || (0xFF10 <= v && v <= 0xFF19) || (0x104A0 <= v && v <= 0x104A9) || (0x10D30 <= v && v <= 0x10D39)
        || (0x10D40 <= v && v <= 0x10D49) || (0x11066 <= v && v <= 0x1106F) || (0x110F0 <= v && v <= 0x110F9)
        || (0x11136 <= v && v <= 0x1113F) || (0x111D0 <= v && v <= 0x111D9) || (0x112F0 <= v && v <= 0x112F9)
        || (0x11450 <= v && v <= 0x11459) || (0x114D0 <= v && v <= 0x114D9) || (0x11650 <= v && v <= 0x11659)
        || (0x116C0 <= v && v <= 0x116C9) || (0x116D0 <= v && v <= 0x116E3) || (0x11730 <= v && v <= 0x11739)
        || (0x118E0 <= v && v <= 0x118E9) || (0x11950 <= v && v <= 0x11959) || (0x11BF0 <= v && v <= 0x11BF9)
        || (0x11C50 <= v && v <= 0x11C59) || (0x11D50 <= v && v <= 0x11D59) || (0x11DA0 <= v && v <= 0x11DA9)
        || (0x11F50 <= v && v <= 0x11F59) || (0x16130 <= v && v <= 0x16139) || (0x16A60 <= v && v <= 0x16A69)
        || (0x16AC0 <= v && v <= 0x16AC9) || (0x16B50 <= v && v <= 0x16B59) || (0x16D70 <= v && v <= 0x16D79)
        || (0x1CCF0 <= v && v <= 0x1CCF9) || (0x1D7CE <= v && v <= 0x1D7FF) || (0x1E140 <= v && v <= 0x1E149)
        || (0x1E2F0 <= v && v <= 0x1E2F9) || (0x1E4F0 <= v && v <= 0x1E4F9) || (0x1E5F1 <= v && v <= 0x1E5FA)
        || (0x1E950 <= v && v <= 0x1E959) || (0x1FBF0 <= v && v <= 0x1FBF9)
}

pub fn is_decimal_char(c: char) -> (b: bool)
    ensures
        b == is_decimal(c),
{
    let v = c as u32;
    (0x30 <= v && v <= 0x39) || (0x660 <= v && v <= 0x669) || (0x6F0 <= v && v <= 0x6F9)
        || (0x7C0 <= v && v <= 0x7C9) || (0x966 <= v && v <= 0x96F) || (0x9E6 <= v && v <= 0x9EF)
        || (0xA66 <= v && v <= 0xA6F) || (0xAE6 <= v && v <= 0xAEF) || (0xB66 <= v && v <= 0xB6F)
        || (0xBE6 <= v && v <= 0xBEF) || (0xC66 <= v && v <= 0xC6F) || (0xCE6 <= v && v <= 0xCEF)
        || (0xD66 <= v && v <= 0xD6F) || (0xDE6 <= v && v <= 0xDEF) || (0xE50 <= v && v <= 0xE59)
        || (0xED0 <= v && v <= 0xED9) || (0xF20 <= v && v <= 0xF29) || (0x1040 <= v && v <= 0x1049)
        || (0x1090 <= v && v <= 0x1099) || (0x17E0 <= v && v <= 0x17E9) || (0x1810 <= v && v <= 0x1819)
        || (0x1946 <= v && v <= 0x194F) || (0x19D0 <= v && v <= 0x19D9) || (0x1A80 <= v && v <= 0x1A89)
        || (0x1A90 <= v && v <= 0x1A99) || (0x1B50 <= v && v <= 0x1B59) || (0x1BB0 <= v && v <= 0x1BB9)
        || (0x1C40 <= v && v <= 0x1C49) || (0x1C50 <= v && v <= 0x1C59) || (0xA620 <= v && v <= 0xA629)
        || (0xA8D0 <= v && v <= 0xA8D9) || (0xA900 <= v && v <= 0xA909) || (0xA9D0 <= v && v <= 0xA9D9)
        || (0xA9F0 <= v && v <= 0xA9F9) || (0xAA50 <= v && v <= 0xAA59) || (0xABF0 <= v && v <= 0xABF9)
        || (0xFF10 <= v && v <= 0xFF19) || (0x104A0 <= v && v <= 0x104A9) || (0x10D30 <= v && v <= 0x10D39)
        || (0x10D40 <= v && v <= 0x10D49) || (0x11066 <= v && v <= 0x1106F) || (0x110F0 <= v && v <= 0x110F9)
        || (0x11136 <= v && v <= 0x1113F) || (0x111D0 <= v && v <= 0x111D9) || (0x112F0 <= v && v <= 0x112F9)
        || (0x11450 <= v && v <= 0x11459) || (0x114D0 <= v && v <= 0x114D9) || (0x11650 <= v && v <= 0x11659)
        || (0x116C0 <= v && v <= 0x116C9) || (0x116D0 <= v && v <= 0x116E3) || (0x11730 <= v && v <= 0x11739)
        || (0x118E0 <= v && v <= 0x118E9) || (0x11950 <= v && v <= 0x11959) || (0x11BF0 <= v && v <= 0x11BF9)
        || (0x11C50 <= v && v <= 0x11C59) || (0x11D50 <= v && v <= 0x11D59) || (0x11DA0 <= v && v <= 0x11DA9)
        || (0x11F50 <= v && v <= 0x11F59) || (0x16130 <= v && v <= 0x16139) || (0x16A60 <= v && v <= 0x16A69)
        || (0x16AC0 <= v && v <= 0x16AC9) || (0x16B50 <= v && v <= 0x16B59) || (0x16D70 <= v && v <= 0x16D79)
        || (0x1CCF0 <= v && v <= 0x1CCF9) || (0x1D7CE <= v && v <= 0x1D7FF) || (0x1E140 <= v && v <= 0x1E149)
        || (0x1E2F0 <= v && v <= 0x1E2F9) || (0x1E4F0 <= v && v <= 0x1E4F9) || (0x1E5F1 <= v && v <= 0x1E5FA)
        || (0x1E950 <= v && v <= 0x1E959) || (0x1FBF0 <= v && v <= 0x1FBF9)
}

pub open spec fn is_ascii_digit(c: char) -> bool {
    '0' <= c && c <= '9'
}

/// Index of the first position at or after `i` whose character fails `p`
/// (or the length, when there is none).
pub open spec fn scan(s: Seq<char>, i: int, p: spec_fn(char) -> bool) -> int
    decreases s.len() - i,
{
    if 0 <= i < s.len() && p(s[i]) {
        scan(s, i + 1, p)
    } else {
        i
    }
}

/// Index just after the last position before `j` whose character fails `p`.
pub open spec fn rscan(s: Seq<char>, j: int, p: spec_fn(char) -> bool) -> int
    decreases j,
{
    if 0 < j <= s.len() && p(s[j - 1]) {
        rscan(s, j - 1, p)
    } else {
        j
    }
}

pub open spec fn ws_pred() -> spec_fn(char) -> bool {
    |c: char| is_ws(c)
}

pub open spec fn non_ws_pred() -> spec_fn(char) -> bool {
    |c: char| !is_ws(c)
}

/// Characters of the class `[^>\s]`.
pub open spec fn class_pred() -> spec_fn(char) -> bool {
    |c: char| c != '>' && !is_ws(c)
}

pub open spec fn ne_pred(x: char) -> spec_fn(char) -> bool {
    |c: char| c != x
}

pub open spec fn eq_pred(x: char) -> spec_fn(char) -> bool {
    |c: char| c == x
}

pub open spec fn decimal_pred() -> spec_fn(char) -> bool {
    |c: char| is_decimal(c)
}

pub proof fn lemma_scan(s: Seq<char>, i: int, p: spec_fn(char) -> bool)
    requires
        0 <= i <= s.len(),
    ensures
        i <= scan(s, i, p) <= s.len(),
        forall|j: int| i <= j < scan(s, i, p) ==> #[trigger] p(s[j]),
        scan(s, i, p) < s.len() ==> !p(s[scan(s, i, p)]),
    decreases s.len() - i,
{
    if i < s.len() && p(s[i]) {
        lemma_scan(s, i + 1, p);
    }
}

pub proof fn lemma_scan_at(s: Seq<char>, i: int, k: int, p: spec_fn(char) -> bool)
    requires
        0 <= i <= k <= s.len(),
        forall|j: int| i <= j < k ==> #[trigger] p(s[j]),
        k == s.len() || !p(s[k]),
    ensures
        scan(s, i, p) == k,
    decreases k - i,
{
    if i < k {
        lemma_scan_at(s, i + 1, k, p);
    }
}

pub proof fn lemma_rscan(s: Seq<char>, j: int, p: spec_fn(char) -> bool)
    requires
        0 <= j <= s.len(),
    ensures
        0 <= rscan(s, j, p) <= j,
        forall|k: int| rscan(s, j, p) <= k < j ==> #[trigger] p(s[k]),
        rscan(s, j, p) > 0 ==> !p(s[rscan(s, j, p) - 1]),
    decreases j,
{
    if j > 0 && p(s[j - 1]) {
        lemma_rscan(s, j - 1, p);
    }
}

pub proof fn lemma_rscan_at(s: Seq<char>, j: int, k: int, p: spec_fn(char) -> bool)
    requires
        0 <= k <= j <= s.len(),
        forall|m: int| k <= m < j ==> #[trigger] p(s[m]),
        k == 0 || !p(s[k - 1]),
    ensures
        rscan(s, j, p) == k,
    decreases j - k,
{
    if k < j {
        lemma_rscan_at(s, j - 1, k, p);
    }
}

/// `str::trim_start` (White_Space).
pub open spec fn trim_start(s: Seq<char>) -> Seq<char> {
    s.subrange(scan(s, 0, ws_pred()), s.len() as int)
}

/// `str::trim` (White_Space on both ends).
pub open spec fn trim(s: Seq<char>) -> Seq<char> {
    let a = scan(s, 0, ws_pred());
    let b = rscan(s, s.len() as int, ws_pred());
    if a < b {
        s.subrange(a, b)
    } else {
        Seq::empty()
    }
}

/// Every character is White_Space (so `trim` gives the empty string).
pub open spec fn is_blank(s: Seq<char>) -> bool {
    forall|i: int| 0 <= i < s.len() ==> is_ws(#[trigger] s[i])
}

/// The pattern `pat` occurs in `s` at position `i`.
pub open spec fn matches_at(s: Seq<char>, i: int, pat: Seq<char>) -> bool {
    0 <= i && i + pat.len() <= s.len() && s.subrange(i, i + pat.len()) == pat
}

pub open spec fn has_substr(s: Seq<char>, pat: Seq<char>) -> bool {
    exists|i: int| matches_at(s, i, pat)
}

pub open spec fn starts_with(s: Seq<char>, pat: Seq<char>) -> bool {
    matches_at(s, 0, pat)
}

pub open spec fn arrow() -> Seq<char> {
    seq!['-', '-', '>']
}

/// Drops every leading copy of `c` (`str::trim_start_matches` with one char).
pub open spec fn trim_start_char(s: Seq<char>, c: char) -> Seq<char> {
    s.subrange(scan(s, 0, eq_pred(c)), s.len() as int)
}


pub fn scan_ws(v: &Vec<char>, i: usize) -> (k: usize)
    requires
        i <= v.len(),
    ensures
        k == scan(v@, i as int, ws_pred()),
        i <= k <= v.len(),
{
    let mut k = i;
    while k < v.len() && is_ws_char(v[k])
        invariant
            i <= k <= v.len(),
            forall|j: int| i <= j < k ==> #[trigger] ws_pred()(v@[j]),
        decreases v.len() - k,
    {
        k += 1;
    }
    proof {
        lemma_scan_at(v@, i as int, k as int, ws_pred());
    }
    k
}

pub fn scan_non_ws(v: &Vec<char>, i: usize) -> (k: usize)
    requires
        i <= v.len(),
    ensures
        k == scan(v@, i as int, non_ws_pred()),
        i <= k <= v.len(),
{
    let mut k = i;
    while k < v.len() && !is_ws_char(v[k])
        invariant
            i <= k <= v.len(),
            forall|j: int| i <= j < k ==> #[trigger] non_ws_pred()(v@[j]),
        decreases v.len() - k,
    {
        k += 1;
    }
    proof {
        lemma_scan_at(v@, i as int, k as int, non_ws_pred());
    }
    k
}

pub fn scan_class(v: &Vec<char>, i: usize) -> (k: usize)
    requires
        i <= v.len(),
    ensures
        k == scan(v@, i as int, class_pred()),
        i <= k <= v.len(),
{
    let mut k = i;
    while k < v.len() && v[k] != '>' && !is_ws_char(v[k])
        invariant
            i <= k <= v.len(),
            forall|j: int| i <= j < k ==> #[trigger] class_pred()(v@[j]),
        decreases v.len() - k,
    {
        k += 1;
    }
    proof {
        lemma_scan_at(v@, i as int, k as int, class_pred());
    }
    k
}

pub fn scan_decimal(v: &Vec<char>, i: usize) -> (k: usize)
    requires
        i <= v.len(),
    ensures
        k == scan(v@, i as int, decimal_pred()),
        i <= k <= v.len(),
{
    let mut k = i;
    while k < v.len() && is_decimal_char(v[k])
        invariant
            i <= k <= v.len(),
            forall|j: int| i <= j < k ==> #[trigger] decimal_pred()(v@[j]),
        decreases v.len() - k,
    {
        k += 1;
    }
    proof {
        lemma_scan_at(v@, i as int, k as int, decimal_pred());
    }
    k
}

/// Position of the first `c` at or after `i`, or the length.
pub fn find_char(v: &Vec<char>, i: usize, c: char) -> (k: usize)
    requires
        i <= v.len(),
    ensures
        k == scan(v@, i as int, ne_pred(c)),
        i <= k <= v.len(),
{
    let mut k = i;
    while k < v.len() && v[k] != c
        invariant
            i <= k <= v.len(),
            forall|j: int| i <= j < k ==> #[trigger] ne_pred(c)(v@[j]),
        decreases v.len() - k,
    {
        k += 1;
    }
    proof {
        lemma_scan_at(v@, i as int, k as int, ne_pred(c));
    }
    k
}

/// End of the run of `c` starting at `i`.
pub fn skip_char(v: &Vec<char>, i: usize, c: char) -> (k: usize)
    requires
        i <= v.len(),
    ensures
        k == scan(v@, i as int, eq_pred(c)),
        i <= k <= v.len(),
{
    let mut k = i;
    while k < v.len() && v[k] == c
        invariant
            i <= k <= v.len(),
            forall|j: int| i <= j < k ==> #[trigger] eq_pred(c)(v@[j]),
        decreases v.len() - k,
    {
        k += 1;
    }
    proof {
        lemma_scan_at(v@, i as int, k as int, eq_pred(c));
    }
    k
}

pub fn rscan_ws(v: &Vec<char>, j: usize) -> (k: usize)
    requires
        j <= v.len(),
    ensures
        k == rscan(v@, j as int, ws_pred()),
        k <= j,
{
    let mut k = j;
    while k > 0 && is_ws_char(v[k - 1])
        invariant
            k <= j <= v.len(),
            forall|m: int| k <= m < j ==> #[trigger] ws_pred()(v@[m]),
        decreases k,
    {
        k -= 1;
    }
    proof {
        lemma_rscan_at(v@, j as int, k as int, ws_pred());
    }
    k
}

/// Position just after the last `c` before `j`, or 0.
pub fn rscan_ne(v: &Vec<char>, j: usize, c: char) -> (k: usize)
    requires
        j <= v.len(),
    ensures
        k == rscan(v@, j as int, ne_pred(c)),
        k <= j,
{
    let mut k = j;
    while k > 0 && v[k - 1] != c
        invariant
            k <= j <= v.len(),
            forall|m: int| k <= m < j ==> #[trigger] ne_pred(c)(v@[m]),
        decreases k,
    {
        k -= 1;
    }
    proof {
        lemma_rscan_at(v@, j as int, k as int, ne_pred(c));
    }
    k
}

/// Copies `v[a..b]`.
pub fn sub_vec(v: &Vec<char>, a: usize, b: usize) -> (res: Vec<char>)
    requires
        a <= b <= v.len(),
    ensures
        res@ == v@.subrange(a as int, b as int),
{
    let mut res: Vec<char> = Vec::new();
    let mut i = a;
    while i < b
        invariant
            a <= i <= b <= v.len(),
            res@ == v@.subrange(a as int, i as int),
        decreases b - i,
    {
        res.push(v[i]);
        i += 1;
    }
    res
}

/// Appends `src` to `out`.
pub fn extend_chars(out: &mut Vec<char>, src: &Vec<char>)
    ensures
        final(out)@ == old(out)@ + src@,
{
    let mut i: usize = 0;
    while i < src.len()
        invariant
            i <= src.len(),
            out@ == old(out)@ + src@.subrange(0, i as int),
        decreases src.len() - i,
    {
        out.push(src[i]);
        i += 1;
        assert(src@.subrange(0, i as int) == src@.subrange(0, i - 1 as int).push(src@[i - 1]));
    }
    assert(src@.subrange(0, src.len() as int) == src@);
}

pub fn trimmed(v: &Vec<char>) -> (res: Vec<char>)
    ensures
        res@ == trim(v@),
{
    let a = scan_ws(v, 0);
    let b = rscan_ws(v, v.len());
    if a < b {
        sub_vec(v, a, b)
    } else {
        Vec::new()
    }
}

pub fn trimmed_start(v: &Vec<char>) -> (res: Vec<char>)
    ensures
        res@ == trim_start(v@),
{
    let a = scan_ws(v, 0);
    sub_vec(v, a, v.len())
}

pub fn is_blank_chars(v: &Vec<char>) -> (b: bool)
    ensures
        b == is_blank(v@),
{
    let a = scan_ws(v, 0);
    proof {
        lemma_scan(v@, 0, ws_pred());
        if a < v.len() {
            assert(!is_ws(v@[a as int]));
        } else {
            assert forall|i: int| 0 <= i < v@.len() implies is_ws(#[trigger] v@[i]) by {
                assert(ws_pred()(v@[i]));
            }
        }
    }
    a == v.len()
}

pub fn matches_at_exec(v: &Vec<char>, i: usize, pat: &Vec<char>) -> (b: bool)
    ensures
        b == matches_at(v@, i as int, pat@),
{
    if i > v.len() || pat.len() > v.len() - i {
        return false;
    }
    let mut k: usize = 0;
    while k < pat.len()
        invariant
            i + pat.len() <= v.len(),
            k <= pat.len(),
            forall|m: int| 0 <= m < k ==> v@[i + m] == pat@[m],
        decreases pat.len() - k,
    {
        if v[i + k] != pat[k] {
            assert(v@.subrange(i as int, i + pat.len())[k as int] != pat@[k as int]);
            return false;
        }
        k += 1;
    }
    assert(v@.subrange(i as int, i + pat.len()) =~= pat@);
    true
}

pub fn contains_pat(v: &Vec<char>, pat: &Vec<char>) -> (b: bool)
    ensures
        b == has_substr(v@, pat@),
{
    let mut i: usize = 0;
    while i < v.len()
        invariant
            i <= v.len(),
            forall|j: int| 0 <= j < i ==> !matches_at(v@, j, pat@),
        decreases v.len() - i,
    {
        if matches_at_exec(v, i, pat) {
            return true;
        }
        i += 1;
    }
    if matches_at_exec(v, v.len(), pat) {
        return true;
    }
    assert forall|j: int| !matches_at(v@, j, pat@) by {
        if 0 <= j < v.len() {
        } else if j == v.len() {
        }
    }
    false
}

pub fn contains_char(v: &Vec<char>, c: char) -> (b: bool)
    ensures
        b == v@.contains(c),
{
    let k = find_char(v, 0, c);
    proof {
        lemma_scan(v@, 0, ne_pred(c));
        if k < v.len() {
            assert(v@[k as int] == c);
        } else {
            assert forall|j: int| 0 <= j < v@.len() implies v@[j] != c by {
                assert(ne_pred(c)(v@[j]));
            }
        }
    }
    k < v.len()
}

pub fn chars_eq(a: &Vec<char>, b: &Vec<char>) -> (r: bool)
    ensures
        r == (a@ == b@),
{
    if a.len() != b.len() {
        return false;
    }
    let mut i: usize = 0;
    while i < a.len()
        invariant
            a.len() == b.len(),
            i <= a.len(),
            forall|j: int| 0 <= j < i ==> a@[j] == b@[j],
        decreases a.len() - i,
    {
        if a[i] != b[i] {
            return false;
        }
        i += 1;
    }
    assert(a@ =~= b@);
    true
}

/// The characters of a string.
pub fn chars_of(s: &str) -> (res: Vec<char>)
    ensures
        res@ == s@,
{
    let mut v: Vec<char> = Vec::new();
    for c in it: s.chars()
        invariant
            v@ == it.seq().take(it.index() as int),
    {
        v.push(c);
    }
    v
}

/// Appends one character to a `String` (`String::push`).
#[verifier::external_body]
fn string_push(s: &mut String, c: char)
    ensures
        final(s)@ == old(s)@.push(c),
{
    s.push(c);
}

/// Builds a `String` from characters.
pub fn string_of(v: &Vec<char>) -> (res: String)
    ensures
        res@ == v@,
{
    let mut s = String::new();
    let mut i: usize = 0;
    while i < v.len()
        invariant
            i <= v.len(),
            s@ == v@.subrange(0, i as int),
        decreases v.len() - i,
    {
        string_push(&mut s, v[i]);
        i += 1;
        assert(v@.subrange(0, i as int) == v@.subrange(0, i - 1 as int).push(v@[i - 1]));
    }
    assert(v@.subrange(0, v.len() as int) == v@);
    s
}

} // verus!
