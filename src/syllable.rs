use vstd::prelude::*;
use vstd::string::StringExecFns;

verus! {

/// One syllable of a pronunciation: its letters and its tone digits.
#[derive(Debug, Clone, Default, PartialEq, Eq)]
pub struct Syllable {
    pub pronunciation: String,
    /// Tones are kept as text: no arithmetic is ever done on them.
    pub tone: String,
}

/// The mathematical value of a `Syllable`.
pub struct SyllableView {
    pub pronunciation: Seq<char>,
    pub tone: Seq<char>,
}

impl View for Syllable {
    type V = SyllableView;

    open spec fn view(&self) -> SyllableView {
        SyllableView { pronunciation: self.pronunciation@, tone: self.tone@ }
    }
}

impl Syllable {
    pub fn new(pronunciation: &str, tone: &str) -> (r: Syllable)
        ensures
            r.pronunciation@ == pronunciation@,
            r.tone@ == tone@,
    {
        Syllable { pronunciation: String::from_str(pronunciation), tone: String::from_str(tone) }
    }
}

} // verus!
