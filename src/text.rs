//! Characters and runs of characters: the vocabulary the line grammar is
//! written in.
use vstd::prelude::*;
use vstd::std_specs::iter::IteratorSpec;

verus! {

/// A class of characters, as a run of the grammar needs it.
#[derive(Clone, Copy, Debug, PartialEq, Eq)]
pub enum Class {
    /// A space or a tab: the field separators.
    Blank,
    /// Anything but a space or a tab: head-word characters.
    NonBlank,
    /// An ASCII letter.
    Letter,
    /// An ASCII decimal digit.
    Digit,
    /// Anything but the given character.
    Except(char),
    /// A character with the Unicode `White_Space` property.
    White,
    /// Anything but `\r` and `\n`.
    InLine,
}

pub open spec fn is_blank(c: char) -> bool {
    c == ' ' || c == '\t'
}

pub open spec fn is_letter(c: char) -> bool {
    ('a' <= c && c <= 'z') || ('A' <= c && c <= 'Z')
}

pub open spec fn is_digit(c: char) -> bool {
    '0' <= c && c <= '9'
}

/// The Unicode `White_Space` property, which `char::is_whitespace` tests.
pub open spec fn is_white(c: char) -> bool {
    ('\t' <= c && c <= '\r') || c == ' ' || c == '\u{85}' || c == '\u{a0}' || c == '\u{1680}'
        || ('\u{2000}' <= c && c <= '\u{200a}') || c == '\u{2028}' || c == '\u{2029}'
        || c == '\u{202f}' || c == '\u{205f}' || c == '\u{3000}'
}

/// The characters of each class.
pub open spec fn in_class(c: char, k: Class) -> bool {
    match k {
        Class::Blank => is_blank(c),
        Class::NonBlank => !is_blank(c),
        Class::Letter => is_letter(c),
        Class::Digit => is_digit(c),
        Class::Except(x) => c != x,
        Class::White => is_white(c),
        Class::InLine => c != '\r' && c != '\n',
    }
}

/// The end of the longest run of characters of class `k` that starts at `i`.
pub open spec fn span(s: Seq<char>, i: int, k: Class) -> int
    decreases s.len() - i,
{
    if 0 <= i < s.len() && in_class(s[i], k) {
        span(s, i + 1, k)
    } else {
        i
    }
}

/// The start of the longest run of characters of class `k` that ends at `j`
/// and does not reach below `lo`.
pub open spec fn rspan(s: Seq<char>, lo: int, j: int, k: Class) -> int
    decreases j - lo,
{
    if lo < j && in_class(s[j - 1], k) {
        rspan(s, lo, j - 1, k)
    } else {
        j
    }
}

/// `s` without white space at either end, as `str::trim` leaves it.
pub open spec fn trim(s: Seq<char>) -> Seq<char> {
    let a = span(s, 0, Class::White);
    s.subrange(a, rspan(s, a, s.len() as int, Class::White))
}

/// The lines of `s` from `i` on, as `str::lines` splits them: at each `\n`,
/// dropping one `\r` just before it; a final `\n` starts no further line.
pub open spec fn lines_from(s: Seq<char>, i: int) -> Seq<Seq<char>>
    decreases s.len() - i,
{
    if 0 <= i < s.len() {
        let j = span(s, i, Class::Except('\n'));
        if j >= s.len() {
            seq![s.subrange(i, s.len() as int)]
        } else {
            proof {
                lemma_span_bounds(s, i, Class::Except('\n'));
            }
            let e = if i < j && s[j - 1] == '\r' {
                j - 1
            } else {
                j
            };
            seq![s.subrange(i, e)] + lines_from(s, j + 1)
        }
    } else {
        seq![]
    }
}

/// The lines of a whole text.
pub open spec fn lines_of(s: Seq<char>) -> Seq<Seq<char>> {
    lines_from(s, 0)
}

pub proof fn lemma_span_bounds(s: Seq<char>, i: int, k: Class)
    requires
        0 <= i <= s.len(),
    ensures
        i <= span(s, i, k) <= s.len(),
        forall|m: int| i <= m < span(s, i, k) ==> in_class(#[trigger] s[m], k),
        span(s, i, k) < s.len() ==> !in_class(s[span(s, i, k)], k),
    decreases s.len() - i,
{
    if i < s.len() && in_class(s[i], k) {
        lemma_span_bounds(s, i + 1, k);
    }
}

/// Whether `c` is of class `k`.
pub fn class_has(c: char, k: Class) -> (r: bool)
    ensures
        r == in_class(c, k),
{
    match k {
        Class::Blank => c == ' ' || c == '\t',
        Class::NonBlank => !(c == ' ' || c == '\t'),
        Class::Letter => ('a' <= c && c <= 'z') || ('A' <= c && c <= 'Z'),
        Class::Digit => '0' <= c && c <= '9',
        Class::Except(x) => c != x,
        Class::White => ('\t' <= c && c <= '\r') || c == ' ' || c == '\u{85}' || c == '\u{a0}'
            || c == '\u{1680}' || ('\u{2000}' <= c && c <= '\u{200a}') || c == '\u{2028}'
            || c == '\u{2029}' || c == '\u{202f}' || c == '\u{205f}' || c == '\u{3000}',
        Class::InLine => c != '\r' && c != '\n',
    }
}

/// Skips the run of class `k` that starts at `i`.
pub fn skip(s: &Vec<char>, i: usize, k: Class) -> (j: usize)
    requires
        i <= s.len(),
    ensures
        j == span(s@, i as int, k),
        i <= j <= s.len(),
{
    let mut j = i;
    while j < s.len() && class_has(s[j], k)
        invariant
            i <= j <= s.len(),
            span(s@, i as int, k) == span(s@, j as int, k),
        decreases s.len() - j,
    {
        j = j + 1;
    }
    j
}

/// Skips, backwards, the run of class `k` that ends at `j`, down to `lo`.
pub fn skip_back(s: &Vec<char>, lo: usize, j: usize, k: Class) -> (i: usize)
    requires
        lo <= j <= s.len(),
    ensures
        i == rspan(s@, lo as int, j as int, k),
        lo <= i <= j,
{
    let mut i = j;
    while lo < i && class_has(s[i - 1], k)
        invariant
            lo <= i <= j <= s.len(),
            rspan(s@, lo as int, j as int, k) == rspan(s@, lo as int, i as int, k),
        decreases i - lo,
    {
        i = i - 1;
    }
    i
}

/// Relies on `String::push`: the character is appended at the end.
#[verifier::external_body]
fn push_char(s: &mut String, c: char)
    ensures
        final(s)@ == old(s)@.push(c),
{
    s.push(c);
}

/// The characters of `s`, in order.
pub fn chars_of(s: &str) -> (r: Vec<char>)
    ensures
        r@ == s@,
{
    broadcast use vstd::string::group_string_axioms;

    let mut it = s.chars();
    let mut r: Vec<char> = Vec::new();
    loop
        invariant
            it.obeys_prophetic_iter_laws(),
            it.decrease() is Some,
            r@ + it.remaining() == s@,
        decreases it.decrease()->0,
    {
        match it.next() {
            Some(c) => {
                r.push(c);
            },
            None => {
                return r;
            },
        }
    }
}

/// The characters `s[a..b]` as a `String`.
pub fn string_of(s: &Vec<char>, a: usize, b: usize) -> (r: String)
    requires
        a <= b <= s.len(),
    ensures
        r@ == s@.subrange(a as int, b as int),
{
    let mut r = String::new();
    let mut i = a;
    while i < b
        invariant
            a <= i <= b <= s.len(),
            r@ == s@.subrange(a as int, i as int),
        decreases b - i,
    {
        push_char(&mut r, s[i]);
        assert(s@.subrange(a as int, i + 1) == s@.subrange(a as int, i as int).push(s@[i as int]));
        i = i + 1;
    }
    r
}

/// A copy of `s[a..b]`.
pub fn copy_range(s: &Vec<char>, a: usize, b: usize) -> (r: Vec<char>)
    requires
        a <= b <= s.len(),
    ensures
        r@ == s@.subrange(a as int, b as int),
{
    let mut r: Vec<char> = Vec::new();
    let mut i = a;
    while i < b
        invariant
            a <= i <= b <= s.len(),
            r@ == s@.subrange(a as int, i as int),
        decreases b - i,
    {
        r.push(s[i]);
        assert(s@.subrange(a as int, i + 1) == s@.subrange(a as int, i as int).push(s@[i as int]));
        i = i + 1;
    }
    r
}

/// The characters `s[a..b]` as a `String`, without white space at either end.
pub fn trimmed_string_of(s: &Vec<char>, a: usize, b: usize) -> (r: String)
    requires
        a <= b <= s.len(),
    ensures
        r@ == trim(s@.subrange(a as int, b as int)),
{
    let d = copy_range(s, a, b);
    let i = skip(&d, 0, Class::White);
    let j = skip_back(&d, i, d.len(), Class::White);
    string_of(&d, i, j)
}

} // verus!
