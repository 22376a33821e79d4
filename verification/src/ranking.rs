//! Choosing the ruleset that claims a document most strongly.

use std::cmp::Ordering;
use vstd::prelude::*;
use crate::detect::{RuleSet, rulesets, score_generation_sources, spec_scores};
use crate::model::{
    ConverterError, GenerationSourceMatch, SpecBlock, SpecError, SpecMatch, WebVttDocument,
    opt_str_view,
};
use crate::text::{chars_eq, chars_of};

verus! {

/// Lexicographic order of two character sequences (byte order of their UTF-8).
pub open spec fn char_seq_order(a: Seq<char>, b: Seq<char>) -> Ordering
    decreases a.len(),
{
    if a.len() == 0 {
        if b.len() == 0 {
            Ordering::Equal
        } else {
            Ordering::Less
        }
    } else if b.len() == 0 {
        Ordering::Greater
    } else if a[0] < b[0] {
        Ordering::Less
    } else if a[0] > b[0] {
        Ordering::Greater
    } else {
        char_seq_order(a.drop_first(), b.drop_first())
    }
}

/// Scores ordered by confidence, then importance, then module name.
pub open spec fn match_order(a: SpecMatch, b: SpecMatch) -> Ordering {
    if a.confidence < b.confidence {
        Ordering::Less
    } else if a.confidence > b.confidence {
        Ordering::Greater
    } else if a.importance < b.importance {
        Ordering::Less
    } else if a.importance > b.importance {
        Ordering::Greater
    } else {
        char_seq_order(a.module, b.module)
    }
}

/// The position of the greatest score; the last one among equals.
pub open spec fn best_index(ms: Seq<SpecMatch>) -> int
    decreases ms.len(),
{
    if ms.len() <= 1 {
        0
    } else {
        let b = best_index(ms.drop_last());
        if match_order(ms[b], ms.last()) == Ordering::Greater {
            b
        } else {
            ms.len() - 1
        }
    }
}

/// The ruleset that detection picks for a document.
pub open spec fn detected(blocks: Seq<SpecBlock>) -> RuleSet {
    rulesets()[best_index(spec_scores(blocks))]
}

fn compare_names(a: &str, b: &str) -> (o: Ordering)
    ensures
        o == char_seq_order(a@, b@),
{
    let x = chars_of(a);
    let y = chars_of(b);
    let mut i: usize = 0;
    let ghost mut gi: int = 0;
    assert(x@.skip(0) =~= x@);
    assert(y@.skip(0) =~= y@);
    while i < x.len() && i < y.len() && x[i] == y[i]
        invariant
            i <= x.len(),
            i <= y.len(),
            gi == i,
            x@ == a@,
            y@ == b@,
            char_seq_order(a@, b@) == char_seq_order(x@.skip(gi), y@.skip(gi)),
        decreases x.len() - i,
    {
        assert(x@.skip(gi).drop_first() =~= x@.skip(gi + 1));
        assert(y@.skip(gi).drop_first() =~= y@.skip(gi + 1));
        i += 1;
        proof {
            gi = gi + 1;
        }
    }
    if i == x.len() {
        if i == y.len() {
            Ordering::Equal
        } else {
            Ordering::Less
        }
    } else if i == y.len() {
        Ordering::Greater
    } else if x[i] < y[i] {
        Ordering::Less
    } else {
        Ordering::Greater
    }
}

/// Orders two scores by confidence, importance and module name.
pub fn compare_matches(a: &GenerationSourceMatch, b: &GenerationSourceMatch) -> (o: Ordering)
    ensures
        o == match_order(a@, b@),
{
    if a.confidence < b.confidence {
        Ordering::Less
    } else if a.confidence > b.confidence {
        Ordering::Greater
    } else if a.importance < b.importance {
        Ordering::Less
    } else if a.importance > b.importance {
        Ordering::Greater
    } else {
        compare_names(a.module_name, b.module_name)
    }
}

/// The position of the winning score (the last greatest one).
fn best_position(scores: &Vec<GenerationSourceMatch>) -> (i: usize)
    requires
        scores.len() > 0,
    ensures
        i < scores.len(),
        i == best_index(scores@.map_values(|m: GenerationSourceMatch| m@)),
{
    let ghost mv = scores@.map_values(|m: GenerationSourceMatch| m@);
    let mut best: usize = 0;
    let mut i: usize = 1;
    let ghost mut gi: int = 1;
    let ghost mut gb: int = 0;
    assert(mv.take(1).len() == 1);
    while i < scores.len()
        invariant
            1 <= i <= scores.len(),
            best < i,
            gi == i,
            gb == best,
            mv == scores@.map_values(|m: GenerationSourceMatch| m@),
            gb == best_index(mv.take(gi)),
        decreases scores.len() - i,
    {
        let ghost t = mv.take(gi + 1);
        assert(t.drop_last() =~= mv.take(gi));
        assert(t[gb] == scores@[gb]@);
        assert(t.last() == scores@[gi]@);
        match compare_matches(&scores[best], &scores[i]) {
            Ordering::Greater => {},
            _ => {
                best = i;
                proof {
                    gb = gi;
                }
            },
        }
        i += 1;
        proof {
            gi = gi + 1;
        }
    }
    assert(mv.take(gi) =~= mv);
    best
}

pub fn detect_ruleset(document: &WebVttDocument) -> (r: RuleSet)
    ensures
        r == detected(document@),
{
    let scores = score_generation_sources(document);
    let ghost mv = scores@.map_values(|m: GenerationSourceMatch| m@);
    assert(mv.len() == 6);
    let i = best_position(&scores);
    let rs = [
        RuleSet::GenericWebvtt,
        RuleSet::MeetingNovoicetag,
        RuleSet::MsTeamsEvent,
        RuleSet::MsTeamsScheduled,
        RuleSet::ZoomEvent,
        RuleSet::ZoomScheduled,
    ];
    assert(rs@ =~= rulesets());
    rs[i]
}

/// The name of the ruleset that claims the document most strongly.
pub fn detect_generation_source(document: &WebVttDocument) -> (res: Result<&'static str, ConverterError>)
    ensures
        res matches Ok(s) && s@ == detected(document@).source_name(),
{
    let r = detect_ruleset(document);
    Ok(r.generation_source())
}

pub open spec fn opt_doc_view(o: Option<&WebVttDocument>) -> Option<Seq<SpecBlock>> {
    match o {
        Some(d) => Some(d@),
        None => None,
    }
}

/// The ruleset of a name, if it names one.
pub open spec fn ruleset_named(name: Seq<char>) -> Option<RuleSet> {
    if name == RuleSet::GenericWebvtt.source_name() {
        Some(RuleSet::GenericWebvtt)
    } else if name == RuleSet::MeetingNovoicetag.source_name() {
        Some(RuleSet::MeetingNovoicetag)
    } else if name == RuleSet::MsTeamsEvent.source_name() {
        Some(RuleSet::MsTeamsEvent)
    } else if name == RuleSet::MsTeamsScheduled.source_name() {
        Some(RuleSet::MsTeamsScheduled)
    } else if name == RuleSet::ZoomEvent.source_name() {
        Some(RuleSet::ZoomEvent)
    } else if name == RuleSet::ZoomScheduled.source_name() {
        Some(RuleSet::ZoomScheduled)
    } else {
        None
    }
}

/// The ruleset to render with: the one named, or the detected one.
pub open spec fn spec_get_ruleset(
    generation_source: Option<Seq<char>>,
    document: Option<Seq<SpecBlock>>,
) -> Result<RuleSet, SpecError> {
    match generation_source {
        Some(src) => match ruleset_named(src) {
            Some(r) => Ok(r),
            None => Err(SpecError::Unsupported(src)),
        },
        None => match document {
            None => Err(
                SpecError::Parse("document is required when generation_source is not provided."@),
            ),
            Some(d) => Ok(detected(d)),
        },
    }
}

fn named(name: &Vec<char>, r: RuleSet) -> (b: bool)
    ensures
        b == (name@ == r.source_name()),
{
    let n = chars_of(r.generation_source());
    chars_eq(name, &n)
}

pub fn get_ruleset(generation_source: Option<&str>, document: Option<&WebVttDocument>) -> (res: Result<
    RuleSet,
    ConverterError,
>)
    ensures
        match res {
            Ok(r) => spec_get_ruleset(opt_str_view(generation_source), opt_doc_view(document))
                == Ok::<RuleSet, SpecError>(r),
            Err(e) => spec_get_ruleset(opt_str_view(generation_source), opt_doc_view(document))
                == Err::<RuleSet, SpecError>(e@),
        },
{
    match generation_source {
        Some(source) => {
            let name = chars_of(source);
            if named(&name, RuleSet::GenericWebvtt) {
                Ok(RuleSet::GenericWebvtt)
            } else if named(&name, RuleSet::MeetingNovoicetag) {
                Ok(RuleSet::MeetingNovoicetag)
            } else if named(&name, RuleSet::MsTeamsEvent) {
                Ok(RuleSet::MsTeamsEvent)
            } else if named(&name, RuleSet::MsTeamsScheduled) {
                Ok(RuleSet::MsTeamsScheduled)
            } else if named(&name, RuleSet::ZoomEvent) {
                Ok(RuleSet::ZoomEvent)
            } else if named(&name, RuleSet::ZoomScheduled) {
                Ok(RuleSet::ZoomScheduled)
            } else {
                Err(ConverterError::UnsupportedGenerationSource(source.to_owned()))
            }
        },
        None => match document {
            None => Err(
                ConverterError::Parse(
                    "document is required when generation_source is not provided.".to_owned(),
                ),
            ),
            Some(d) => Ok(detect_ruleset(d)),
        },
    }
}

} // verus!
