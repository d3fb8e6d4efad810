//! A whole dictionary: the entries of its lines, in order.
use vstd::prelude::*;

use crate::cedict_entry::{CedictEntry, EntryView};
use crate::errors::CedictError;
use crate::parsers::{line_result, read_line};
use crate::text::{chars_of, copy_range, lemma_span_bounds, lines_from, lines_of, skip, Class};

verus! {

/// The entries that a sequence of lines yields, in order: lines that are
/// blank, comments or not entries yield nothing.
pub open spec fn entries_of(lines: Seq<Seq<char>>) -> Seq<EntryView>
    decreases lines.len(),
{
    if lines.len() == 0 {
        seq![]
    } else {
        let rest = entries_of(lines.drop_first());
        match line_result(lines[0]) {
            Ok(Some(e)) => seq![e] + rest,
            _ => rest,
        }
    }
}

/// A dictionary.
#[derive(Debug, Clone, Default, PartialEq, Eq)]
pub struct Cedict {
    pub entries: Vec<CedictEntry>,
}

pub open spec fn entries_view(v: Seq<CedictEntry>) -> Seq<EntryView> {
    v.map_values(|e: CedictEntry| e@)
}

impl View for Cedict {
    type V = Seq<EntryView>;

    open spec fn view(&self) -> Seq<EntryView> {
        entries_view(self.entries@)
    }
}

impl Cedict {
    /// Reads a dictionary from its text: every line that holds an entry gives
    /// one, in the order of the lines; every other line is passed over.
    pub fn from_text(text: &str) -> (r: Cedict)
        ensures
            r@ == entries_of(lines_of(text@)),
    {
        let s = chars_of(text);
        let mut entries: Vec<CedictEntry> = Vec::new();
        let mut i: usize = 0;
        while i < s.len()
            invariant
                i <= s.len(),
                entries_view(entries@) + entries_of(lines_from(s@, i as int)) == entries_of(
                    lines_of(s@),
                ),
            decreases s.len() - i,
        {
            let j = skip(&s, i, Class::Except('\n'));
            proof {
                lemma_span_bounds(s@, i as int, Class::Except('\n'));
            }
            let e = if i < j && j < s.len() && s[j - 1] == '\r' {
                j - 1
            } else {
                j
            };
            let line = copy_range(&s, i, e);
            let ghost rest = if j >= s.len() {
                seq![]
            } else {
                lines_from(s@, j + 1)
            };
            assert(lines_from(s@, i as int) =~= seq![line@] + rest);
            assert((seq![line@] + rest).drop_first() =~= rest);
            let parsed = read_line(&line);
            match parsed {
                Ok(Some(x)) => {
                    proof {
                        assert(entries_view(entries@.push(x)) =~= entries_view(entries@).push(x@));
                        assert(entries_view(entries@).push(x@) + entries_of(rest) =~= entries_view(
                            entries@,
                        ) + (seq![x@] + entries_of(rest)));
                    }
                    entries.push(x);
                },
                _ => {},
            }
            if j >= s.len() {
                assert(entries_view(entries@) + entries_of(rest) =~= entries_view(entries@));
                assert(entries_of(lines_from(s@, s.len() as int)) =~= seq![]);
                i = s.len();
            } else {
                i = j + 1;
            }
        }
        Cedict { entries }
    }
}

impl std::str::FromStr for Cedict {
    type Err = CedictError;

    fn from_str(text: &str) -> (r: Result<Cedict, CedictError>)
        ensures
            r matches Ok(c) && c@ == entries_of(lines_of(text@)),
    {
        Ok(Cedict::from_text(text))
    }
}

} // verus!
