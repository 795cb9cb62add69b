//! Labelled text annotations: the grammar of a text run and the map that
//! gathers the annotations of a document.
//!
//! A run such as `Difficulty: Hard` carries a label before its first colon and
//! a value after the colon and the one character that follows it. Only the
//! known labels are kept, each under its key.

use crate::error::ConversionError;
use crate::text::{chars_of, find_char, first_index_of, trim_bounds, trimmed};
use vstd::prelude::*;

verus! {

/// A label that an annotation may carry.
#[derive(Clone, Copy, Debug, PartialEq, Eq, Structural)]
pub enum Label {
    Difficulty,
    Name,
}

impl Label {
    /// The label that a text names, if it names one. The text is matched as it
    /// stands, capitals included.
    pub open spec fn of_text(text: Seq<char>) -> Option<Label> {
        if text == "Difficulty"@ {
            Some(Label::Difficulty)
        } else if text == "Name"@ {
            Some(Label::Name)
        } else {
            None
        }
    }

    /// The key under which annotations with this label are handed on.
    pub open spec fn key_text(self) -> Seq<char> {
        match self {
            Label::Difficulty => "difficulty"@,
            Label::Name => "name"@,
        }
    }

    /// Computes [`Label::of_text`].
    pub fn from_text(text: &str) -> (r: Option<Label>)
        ensures
            r == Label::of_text(text@),
    {
        let owned = String::from_str(text);
        if owned == String::from_str("Difficulty") {
            Some(Label::Difficulty)
        } else if owned == String::from_str("Name") {
            Some(Label::Name)
        } else {
            None
        }
    }

    /// Computes [`Label::key_text`].
    pub fn key(&self) -> (r: &'static str)
        ensures
            r@ == self.key_text(),
    {
        match self {
            Label::Difficulty => "difficulty",
            Label::Name => "name",
        }
    }
}

/// One annotation: a known label and its value.
#[derive(Clone, Debug, PartialEq, Eq)]
pub struct Annotation {
    pub label: Label,
    pub value: String,
}

impl View for Annotation {
    type V = (Label, Seq<char>);

    open spec fn view(&self) -> (Label, Seq<char>) {
        (self.label, self.value@)
    }
}

/// What a text run holds.
///
/// A run without a colon is no annotation: `Ok(None)`. The label is the text
/// before the first colon, the value the text after the colon and the one
/// character behind it; a run that ends before the value could start is
/// malformed. The label, without the white space around it, must be a known
/// one; an empty label is none of them. A value that is empty once the white
/// space around it is gone makes no annotation: `Ok(None)`.
pub open spec fn run_annotation(text: Seq<char>) -> Result<
    Option<(Label, Seq<char>)>,
    ConversionError,
> {
    let colon = first_index_of(text, ':');
    if colon >= text.len() {
        Ok(None)
    } else if colon + 2 > text.len() {
        Err(ConversionError::MalformedAnnotation)
    } else {
        match Label::of_text(trimmed(text.subrange(0, colon))) {
            None => Err(ConversionError::UnknownAnnotationLabel),
            Some(label) => {
                let value = trimmed(text.subrange(colon + 2, text.len() as int));
                if value.len() == 0 {
                    Ok(None)
                } else {
                    Ok(Some((label, value)))
                }
            },
        }
    }
}

/// The outcome of reading a run, with the annotation taken by its view.
pub open spec fn outcome_view(outcome: Result<Option<Annotation>, ConversionError>) -> Result<
    Option<(Label, Seq<char>)>,
    ConversionError,
> {
    match outcome {
        Ok(Some(annotation)) => Ok(Some(annotation@)),
        Ok(None) => Ok(None),
        Err(e) => Err(e),
    }
}

/// Reads one text run: its annotation, nothing, or the reason why the run is
/// left out.
pub fn parse_run(text: &str) -> (r: Result<Option<Annotation>, ConversionError>)
    ensures
        outcome_view(r) == run_annotation(text@),
{
    let chars = chars_of(text);
    let len = chars.len();
    let colon = find_char(&chars, ':');
    if colon >= len {
        return Ok(None);
    }
    if len - colon < 2 {
        return Err(ConversionError::MalformedAnnotation);
    }
    let (label_start, label_end) = trim_bounds(&chars, 0, colon);
    let label = match Label::from_text(text.substring_char(label_start, label_end)) {
        Some(label) => label,
        None => {
            return Err(ConversionError::UnknownAnnotationLabel);
        },
    };
    let (value_start, value_end) = trim_bounds(&chars, colon + 2, len);
    if value_start == value_end {
        return Ok(None);
    }
    let value = String::from_str(text.substring_char(value_start, value_end));
    Ok(Some(Annotation { label, value }))
}

/// The annotations of a document: at most one value for each label.
#[derive(Clone, Debug, PartialEq, Eq)]
pub struct AnnotationMap {
    difficulty: Option<String>,
    name: Option<String>,
}

impl View for AnnotationMap {
    type V = Map<Label, Seq<char>>;

    closed spec fn view(&self) -> Map<Label, Seq<char>> {
        let none: Map<Label, Seq<char>> = Map::empty();
        let first = match self.difficulty {
            Some(value) => none.insert(Label::Difficulty, value@),
            None => none,
        };
        match self.name {
            Some(value) => first.insert(Label::Name, value@),
            None => first,
        }
    }
}

/// The map after a run has been read into it: with the annotation of the run,
/// which replaces an earlier value of its label, or unchanged when the run
/// holds none or is left out.
pub open spec fn with_run(map: Map<Label, Seq<char>>, text: Seq<char>) -> Map<Label, Seq<char>> {
    match run_annotation(text) {
        Ok(Some((label, value))) => map.insert(label, value),
        _ => map,
    }
}

/// The map after the runs have been read into it, one after the other.
pub open spec fn with_runs(map: Map<Label, Seq<char>>, runs: Seq<Seq<char>>) -> Map<
    Label,
    Seq<char>,
>
    decreases runs.len(),
{
    if runs.len() == 0 {
        map
    } else {
        with_run(with_runs(map, runs.drop_last()), runs.last())
    }
}

/// Reading two stretches of runs one after the other is reading them as one.
pub proof fn lemma_with_runs_concat(map: Map<Label, Seq<char>>, a: Seq<Seq<char>>, b: Seq<Seq<char>>)
    ensures
        with_runs(map, a + b) == with_runs(with_runs(map, a), b),
    decreases b.len(),
{
    if b.len() == 0 {
        assert(a + b =~= a);
    } else {
        assert((a + b).drop_last() =~= a + b.drop_last());
        assert((a + b).last() == b.last());
        lemma_with_runs_concat(map, a, b.drop_last());
    }
}

/// The entries of a map in the order of the labels.
pub open spec fn entries_of(map: Map<Label, Seq<char>>) -> Seq<(Label, Seq<char>)> {
    let first = if map.contains_key(Label::Difficulty) {
        seq![(Label::Difficulty, map[Label::Difficulty])]
    } else {
        Seq::empty()
    };
    if map.contains_key(Label::Name) {
        first.push((Label::Name, map[Label::Name]))
    } else {
        first
    }
}

/// The views of a sequence of annotations.
pub open spec fn views_of(annotations: Seq<Annotation>) -> Seq<(Label, Seq<char>)> {
    Seq::new(annotations.len(), |i: int| annotations[i]@)
}

/// The texts of a sequence of strings.
pub open spec fn texts_of(runs: Seq<String>) -> Seq<Seq<char>> {
    Seq::new(runs.len(), |i: int| runs[i]@)
}

impl AnnotationMap {
    /// The map without annotations.
    pub fn new() -> (r: AnnotationMap)
        ensures
            r@ == Map::<Label, Seq<char>>::empty(),
    {
        AnnotationMap { difficulty: None, name: None }
    }

    /// Sets the value of a label; an earlier value of the label is replaced.
    pub fn insert(&mut self, label: Label, value: String)
        ensures
            final(self)@ == old(self)@.insert(label, value@),
    {
        match label {
            Label::Difficulty => {
                self.difficulty = Some(value);
            },
            Label::Name => {
                self.name = Some(value);
            },
        }
        assert(self@ =~= old(self)@.insert(label, value@));
    }

    /// The value of a label, if the map holds one.
    pub fn get(&self, label: Label) -> (r: Option<&String>)
        ensures
            match r {
                Some(value) => self@.contains_key(label) && self@[label] == value@,
                None => !self@.contains_key(label),
            },
    {
        match label {
            Label::Difficulty => self.difficulty.as_ref(),
            Label::Name => self.name.as_ref(),
        }
    }

    /// The annotations that the map holds, in the order of the labels.
    pub fn entries(&self) -> (r: Vec<Annotation>)
        ensures
            views_of(r@) == entries_of(self@),
    {
        let mut out: Vec<Annotation> = Vec::new();
        if let Some(value) = &self.difficulty {
            out.push(Annotation { label: Label::Difficulty, value: value.clone() });
        }
        if let Some(value) = &self.name {
            out.push(Annotation { label: Label::Name, value: value.clone() });
        }
        assert(views_of(out@) =~= entries_of(self@));
        out
    }

    /// Reads one text run into the map. Says whether the run held an
    /// annotation, or why it was left out; the map changes only in the first
    /// case.
    pub fn read_run(&mut self, text: &str) -> (r: Result<bool, ConversionError>)
        ensures
            final(self)@ == with_run(old(self)@, text@),
            r == match run_annotation(text@) {
                Ok(Some(_)) => Ok::<bool, ConversionError>(true),
                Ok(None) => Ok(false),
                Err(e) => Err(e),
            },
    {
        match parse_run(text) {
            Ok(Some(annotation)) => {
                self.insert(annotation.label, annotation.value);
                Ok(true)
            },
            Ok(None) => Ok(false),
            Err(e) => Err(e),
        }
    }

    /// Reads the text runs into the map, in order. A run that is malformed or
    /// has an unknown label is passed over.
    pub fn read_runs(&mut self, runs: &Vec<String>)
        ensures
            final(self)@ == with_runs(old(self)@, texts_of(runs@)),
    {
        let ghost texts = texts_of(runs@);
        let mut i: usize = 0;
        while i < runs.len()
            invariant
                i <= runs.len(),
                texts == texts_of(runs@),
                self@ == with_runs(old(self)@, texts.take(i as int)),
            decreases runs.len() - i,
        {
            assert(texts.take(i + 1).drop_last() =~= texts.take(i as int));
            assert(texts.take(i + 1).last() == runs@[i as int]@);
            let _ = self.read_run(runs[i].as_str());
            i = i + 1;
        }
        assert(texts.take(i as int) =~= texts);
    }
}

} // verus!
