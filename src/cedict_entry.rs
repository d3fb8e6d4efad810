//! A single dictionary entry.
use vstd::prelude::*;

use crate::errors::CedictEntryError;
use crate::parsers::{line_result, parse_line};
use crate::syllable::{Syllable, SyllableView};

verus! {

/// One line of the dictionary, parsed: the two head words, the pronunciations
/// and the definitions.
#[derive(Debug, Clone, Default, PartialEq, Eq)]
pub struct CedictEntry {
    pub traditional: String,
    pub simplified: String,
    pub pinyin: Option<Vec<Syllable>>,
    pub jyutping: Option<Vec<Syllable>>,
    pub definitions: Option<Vec<String>>,
}

/// The mathematical value of a `CedictEntry`.
pub struct EntryView {
    pub traditional: Seq<char>,
    pub simplified: Seq<char>,
    pub pinyin: Option<Seq<SyllableView>>,
    pub jyutping: Option<Seq<SyllableView>>,
    pub definitions: Option<Seq<Seq<char>>>,
}

pub open spec fn syllables_view(v: Seq<Syllable>) -> Seq<SyllableView> {
    v.map_values(|x: Syllable| x@)
}

pub open spec fn opt_syllables_view(o: Option<Vec<Syllable>>) -> Option<Seq<SyllableView>> {
    match o {
        Some(v) => Some(syllables_view(v@)),
        None => None,
    }
}

pub open spec fn strings_view(v: Seq<String>) -> Seq<Seq<char>> {
    v.map_values(|x: String| x@)
}

pub open spec fn opt_strings_view(o: Option<Vec<String>>) -> Option<Seq<Seq<char>>> {
    match o {
        Some(v) => Some(strings_view(v@)),
        None => None,
    }
}

impl View for CedictEntry {
    type V = EntryView;

    open spec fn view(&self) -> EntryView {
        EntryView {
            traditional: self.traditional@,
            simplified: self.simplified@,
            pinyin: opt_syllables_view(self.pinyin),
            jyutping: opt_syllables_view(self.jyutping),
            definitions: opt_strings_view(self.definitions),
        }
    }
}

impl CedictEntry {
    /// Parses one line that must hold an entry: a blank line, a comment line
    /// and a malformed line are all errors.
    pub fn new(input: &str) -> (r: Result<CedictEntry, CedictEntryError>)
        ensures
            match line_result(input@) {
                Ok(Some(e)) => r matches Ok(x) && x@ == e,
                _ => r is Err,
            },
    {
        match parse_line(input) {
            Ok(Some(entry)) => Ok(entry),
            _ => Err(CedictEntryError),
        }
    }
}

} // verus!
