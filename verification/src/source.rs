//! The generation sources that a caller can force instead of detection.

use vstd::prelude::*;
use crate::detect::RuleSet;
use crate::ranking::ruleset_named;

verus! {

/// A generation source named on the command line.
#[derive(Debug, Clone, Copy, PartialEq, Eq, Structural)]
pub enum Source {
    GenericWebvtt,
    MsTeamsScheduled,
    MsTeamsEvent,
    ZoomScheduled,
    ZoomEvent,
    MeetingNovoicetag,
}

impl Source {
    /// The ruleset that the source stands for.
    pub open spec fn ruleset(self) -> RuleSet {
        match self {
            Source::GenericWebvtt => RuleSet::GenericWebvtt,
            Source::MsTeamsScheduled => RuleSet::MsTeamsScheduled,
            Source::MsTeamsEvent => RuleSet::MsTeamsEvent,
            Source::ZoomScheduled => RuleSet::ZoomScheduled,
            Source::ZoomEvent => RuleSet::ZoomEvent,
            Source::MeetingNovoicetag => RuleSet::MeetingNovoicetag,
        }
    }

    /// The generation source name, which selects the source's ruleset.
    pub fn as_generation_source(&self) -> (s: &'static str)
        ensures
            s@ == self.ruleset().source_name(),
            ruleset_named(s@) == Some(self.ruleset()),
    {
        proof {
            crate::laws::each_ruleset_is_found_by_its_name(self.ruleset());
        }
        match self {
            Source::GenericWebvtt => "generic_webvtt",
            Source::MsTeamsScheduled => "ms_teams_scheduled",
            Source::MsTeamsEvent => "ms_teams_event",
            Source::ZoomScheduled => "zoom_scheduled",
            Source::ZoomEvent => "zoom_event",
            Source::MeetingNovoicetag => "meeting_novoicetag",
        }
    }
}

} // verus!
