//! The document model of a parsed transcript, the error type, and their views.

use vstd::prelude::*;

verus! {

/// One timed cue.
#[derive(Debug, Clone, PartialEq, Eq)]
pub struct CueBlock {
    pub identifier: Option<String>,
    pub start: String,
    pub end: String,
    pub text: String,
    pub voice: Option<String>,
    pub raw_lines: Vec<String>,
}

/// A `NOTE` block.
#[derive(Debug, Clone, PartialEq, Eq)]
pub struct NoteBlock {
    pub lines: Vec<String>,
}

/// A `STYLE` block.
#[derive(Debug, Clone, PartialEq, Eq)]
pub struct StyleBlock {
    pub lines: Vec<String>,
}

#[derive(Debug, Clone, PartialEq, Eq)]
pub enum WebVttBlock {
    Cue(CueBlock),
    Note(NoteBlock),
    Style(StyleBlock),
}

#[derive(Debug, Clone, PartialEq, Eq)]
pub struct WebVttDocument {
    pub blocks: Vec<WebVttBlock>,
}

/// The score that one ruleset gives a document.
#[derive(Debug, Clone, PartialEq, Eq)]
pub struct GenerationSourceMatch {
    pub generation_source: &'static str,
    pub confidence: i32,
    pub importance: i32,
    pub module_name: &'static str,
}

#[derive(Debug, Clone)]
pub enum ConverterError {
    Parse(String),
    UnsupportedGenerationSource(String),
    Decode(String),
}

pub struct SpecCue {
    pub identifier: Option<Seq<char>>,
    pub start: Seq<char>,
    pub end: Seq<char>,
    pub text: Seq<char>,
    pub voice: Option<Seq<char>>,
    pub raw_lines: Seq<Seq<char>>,
}

pub enum SpecBlock {
    Cue(SpecCue),
    Note(Seq<Seq<char>>),
    Style(Seq<Seq<char>>),
}

pub enum SpecError {
    Parse(Seq<char>),
    Unsupported(Seq<char>),
    Decode(Seq<char>),
}

pub struct SpecMatch {
    pub source: Seq<char>,
    pub confidence: int,
    pub importance: int,
    pub module: Seq<char>,
}

impl View for CueBlock {
    type V = SpecCue;

    open spec fn view(&self) -> SpecCue {
        SpecCue {
            identifier: self.identifier.deep_view(),
            start: self.start@,
            end: self.end@,
            text: self.text@,
            voice: self.voice.deep_view(),
            raw_lines: self.raw_lines.deep_view(),
        }
    }
}

impl View for WebVttBlock {
    type V = SpecBlock;

    open spec fn view(&self) -> SpecBlock {
        match self {
            WebVttBlock::Cue(c) => SpecBlock::Cue(c@),
            WebVttBlock::Note(n) => SpecBlock::Note(n.lines.deep_view()),
            WebVttBlock::Style(s) => SpecBlock::Style(s.lines.deep_view()),
        }
    }
}

impl View for WebVttDocument {
    type V = Seq<SpecBlock>;

    open spec fn view(&self) -> Seq<SpecBlock> {
        self.blocks@.map_values(|b: WebVttBlock| b@)
    }
}

impl View for ConverterError {
    type V = SpecError;

    open spec fn view(&self) -> SpecError {
        match self {
            ConverterError::Parse(m) => SpecError::Parse(m@),
            ConverterError::UnsupportedGenerationSource(m) => SpecError::Unsupported(m@),
            ConverterError::Decode(m) => SpecError::Decode(m@),
        }
    }
}

impl View for GenerationSourceMatch {
    type V = SpecMatch;

    open spec fn view(&self) -> SpecMatch {
        SpecMatch {
            source: self.generation_source@,
            confidence: self.confidence as int,
            importance: self.importance as int,
            module: self.module_name@,
        }
    }
}

/// The view of a `Result` whose success value and error have views.
pub open spec fn result_view<T: View, E: View>(r: Result<T, E>) -> Result<T::V, E::V> {
    match r {
        Ok(t) => Ok(t@),
        Err(e) => Err(e@),
    }
}

pub open spec fn opt_str_view(o: Option<&str>) -> Option<Seq<char>> {
    match o {
        Some(s) => Some(s@),
        None => None,
    }
}

pub open spec fn error_message(e: SpecError) -> Seq<char> {
    match e {
        SpecError::Parse(m) => m,
        SpecError::Unsupported(s) => "Unsupported generation source: "@ + s,
        SpecError::Decode(m) => m,
    }
}

impl ConverterError {
    /// The text that the error displays.
    pub fn message(&self) -> (res: String)
        ensures
            res@ == error_message(self@),
    {
        match self {
            ConverterError::Parse(m) => m.clone(),
            ConverterError::UnsupportedGenerationSource(s) => {
                let mut out = "Unsupported generation source: ".to_owned();
                out.append(s.as_str());
                out
            },
            ConverterError::Decode(m) => m.clone(),
        }
    }
}


fn copy_strings(v: &Vec<String>) -> (res: Vec<String>)
    ensures
        res.deep_view() == v.deep_view(),
{
    let mut out: Vec<String> = Vec::new();
    let mut i: usize = 0;
    while i < v.len()
        invariant
            i <= v.len(),
            out.deep_view() =~= v.deep_view().take(i as int),
        decreases v.len() - i,
    {
        let s = v[i].clone();
        let ghost prev = out.deep_view();
        out.push(s);
        assert(out.deep_view() =~= prev.push(s@));
        assert(v.deep_view().take(i + 1) =~= v.deep_view().take(i as int).push(v@[i as int]@));
        i += 1;
    }
    assert(v.deep_view().take(i as int) =~= v.deep_view());
    out
}

fn copy_opt(o: &Option<String>) -> (res: Option<String>)
    ensures
        res.deep_view() == o.deep_view(),
{
    match o {
        Some(s) => Some(s.clone()),
        None => None,
    }
}

impl WebVttBlock {
    /// A copy with the same view.
    pub fn copy(&self) -> (res: WebVttBlock)
        ensures
            res@ == self@,
    {
        match self {
            WebVttBlock::Cue(c) => WebVttBlock::Cue(
                CueBlock {
                    identifier: copy_opt(&c.identifier),
                    start: c.start.clone(),
                    end: c.end.clone(),
                    text: c.text.clone(),
                    voice: copy_opt(&c.voice),
                    raw_lines: copy_strings(&c.raw_lines),
                },
            ),
            WebVttBlock::Note(n) => WebVttBlock::Note(NoteBlock { lines: copy_strings(&n.lines) }),
            WebVttBlock::Style(s) => WebVttBlock::Style(StyleBlock { lines: copy_strings(&s.lines) }),
        }
    }
}

impl WebVttDocument {
    /// A document of copies of `blocks[start..end]`.
    pub fn copy_range(&self, start: usize, end: usize) -> (res: WebVttDocument)
        requires
            start <= end <= self.blocks.len(),
        ensures
            res@ == self@.subrange(start as int, end as int),
    {
        let mut out: Vec<WebVttBlock> = Vec::new();
        let mut i = start;
        while i < end
            invariant
                start <= i <= end <= self.blocks.len(),
                out@.map_values(|b: WebVttBlock| b@) =~= self@.subrange(start as int, i as int),
            decreases end - i,
        {
            let b = self.blocks[i].copy();
            let ghost prev = out@;
            out.push(b);
            assert(out@.map_values(|b: WebVttBlock| b@) =~= prev.map_values(|b: WebVttBlock| b@).push(b@));
            assert(self@.subrange(start as int, i + 1) =~= self@.subrange(start as int, i as int).push(self@[i as int]));
            i += 1;
        }
        WebVttDocument { blocks: out }
    }
}

} // verus!
