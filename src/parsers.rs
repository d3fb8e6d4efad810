//! The line grammar: its meaning as spec functions over the characters of a
//! line, and the parsers that are proved to follow it.
//!
//! A line is `TRAD SIMP [PINYIN] {JYUTPING} /def 1/def 2/ # comment`, where
//! the jyutping block and the comment are optional.
use vstd::prelude::*;

use crate::cedict_entry::{
    opt_strings_view, opt_syllables_view, strings_view, syllables_view, CedictEntry, EntryView,
};
use crate::errors::CedictEntryError;
use crate::syllable::{Syllable, SyllableView};
use crate::text::{
    chars_of, copy_range, lemma_span_bounds, skip, span, string_of, trim, trimmed_string_of, Class,
};

verus! {

// ---------------------------------------------------------------------------
// The grammar
// ---------------------------------------------------------------------------

/// One syllable at `i`: optional blanks, one or more letters, then zero or
/// more digits; with the position after it.
pub open spec fn syllable_at(s: Seq<char>, i: int) -> Option<(SyllableView, int)> {
    let j = span(s, i, Class::Blank);
    let k = span(s, j, Class::Letter);
    if k == j {
        None
    } else {
        let t = span(s, k, Class::Digit);
        Some((SyllableView { pronunciation: s.subrange(j, k), tone: s.subrange(k, t) }, t))
    }
}

/// The syllables read one after another from `i`, up to the first place where
/// no syllable starts.
pub open spec fn syllables_from(s: Seq<char>, i: int) -> Seq<SyllableView>
    decreases s.len() - i,
{
    if 0 <= i <= s.len() {
        match syllable_at(s, i) {
            Some((v, t)) => {
                proof {
                    lemma_syllable_at(s, i);
                }
                seq![v] + syllables_from(s, t)
            },
            None => seq![],
        }
    } else {
        seq![]
    }
}

/// Where the syllables read from `i` end.
pub open spec fn syllables_end(s: Seq<char>, i: int) -> int
    decreases s.len() - i,
{
    if 0 <= i <= s.len() {
        match syllable_at(s, i) {
            Some((v, t)) => {
                proof {
                    lemma_syllable_at(s, i);
                }
                syllables_end(s, t)
            },
            None => i,
        }
    } else {
        i
    }
}

/// The tokenization of a whole pronunciation text.
pub open spec fn syllables_of(s: Seq<char>) -> Seq<SyllableView> {
    syllables_from(s, 0)
}

/// A block `open interior close` at `i`, whose interior holds no `close`:
/// the position of its `close`.
pub open spec fn block_at(s: Seq<char>, i: int, open: char, close: char) -> Option<int> {
    if 0 <= i < s.len() && s[i] == open {
        let k = span(s, i + 1, Class::Except(close));
        if k < s.len() {
            Some(k)
        } else {
            None
        }
    } else {
        None
    }
}

/// The pinyin block at `i`: `None` inside for an empty `[]`.
pub open spec fn pinyin_at(s: Seq<char>, i: int) -> Option<(Option<Seq<SyllableView>>, int)> {
    match block_at(s, i, '[', ']') {
        Some(k) => Some(
            (
                if k == i + 1 {
                    None
                } else {
                    Some(syllables_of(s.subrange(i + 1, k)))
                },
                k + 1,
            ),
        ),
        None => None,
    }
}

/// The jyutping block at `i`. Unlike `[]`, an empty `{}` is no block at all:
/// it is then left where the definitions must start, and the line is no entry.
pub open spec fn jyutping_at(s: Seq<char>, i: int) -> Option<(Seq<SyllableView>, int)> {
    match block_at(s, i, '{', '}') {
        Some(k) => if k == i + 1 {
            None
        } else {
            Some((syllables_of(s.subrange(i + 1, k)), k + 1))
        },
        None => None,
    }
}

/// The last position in `[i, j)` that holds `c`.
pub open spec fn last_index(s: Seq<char>, i: int, j: int, c: char) -> Option<int>
    decreases j - i,
{
    if j <= i {
        None
    } else if s[j - 1] == c {
        Some(j - 1)
    } else {
        last_index(s, i, j - 1, c)
    }
}

/// The definitions of a block `d` that starts and ends with `/`, read from
/// `i`, just after a slash: the text up to each next slash, trimmed. Every
/// slash inside the block separates two definitions, empty ones included.
pub open spec fn definition_items(d: Seq<char>, i: int) -> Seq<Seq<char>>
    decreases d.len() - i,
{
    if 0 <= i < d.len() {
        let j = span(d, i, Class::Except('/'));
        if j < d.len() {
            proof {
                lemma_span_bounds(d, i, Class::Except('/'));
            }
            seq![trim(d.subrange(i, j))] + if j + 1 < d.len() {
                definition_items(d, j + 1)
            } else {
                seq![]
            }
        } else {
            seq![]
        }
    } else {
        seq![]
    }
}

/// The definitions block at `i`: it runs up to the last slash of the line.
/// A line without a slash from `i` on has no definitions, and nothing is read;
/// so has a block `//` with nothing inside.
pub open spec fn definitions_at(s: Seq<char>, i: int) -> Option<(Option<Seq<Seq<char>>>, int)> {
    match last_index(s, i, s.len() as int, '/') {
        None => Some((None, i)),
        Some(l) => if i < l && s[i] == '/' {
            if l == i + 1 {
                Some((None, l + 1))
            } else {
                Some((Some(definition_items(s.subrange(i, l + 1), 1)), l + 1))
            }
        } else {
            None
        },
    }
}

/// A comment at `i`: `#` and the rest of the line, up to a line ending
/// (`\n` or `\r\n`); a lone `\r` is no line ending, and fails. Gives the
/// position where the comment text ends.
pub open spec fn comment_at(s: Seq<char>, i: int) -> Option<int> {
    if 0 <= i < s.len() && s[i] == '#' {
        let e = span(s, i + 1, Class::InLine);
        if e < s.len() && s[e] == '\r' && (e + 1 == s.len() || s[e + 1] != '\n') {
            None
        } else {
            Some(e)
        }
    } else {
        None
    }
}

/// What may follow an entry, or make up a line that holds none: blanks, then
/// an optional comment, then the end of the line.
pub open spec fn tail_ok(s: Seq<char>, i: int) -> bool {
    let j = span(s, i, Class::Blank);
    match comment_at(s, j) {
        Some(e) => e == s.len(),
        None => j == s.len(),
    }
}

/// An entry at the start of `s`, with the position after its definitions.
pub open spec fn entry_at(s: Seq<char>) -> Option<(EntryView, int)> {
    let a = span(s, 0, Class::NonBlank);
    let b = span(s, a, Class::Blank);
    let c = span(s, b, Class::NonBlank);
    let d = span(s, c, Class::Blank);
    if a == 0 || b == a || c == b || d == c {
        None
    } else {
        match pinyin_at(s, d) {
            None => None,
            Some((pinyin, e)) => {
                let f = span(s, e, Class::Blank);
                if f == e {
                    None
                } else {
                    let (jyutping, g) = match jyutping_at(s, f) {
                        Some((v, g)) => (Some(v), g),
                        None => (None, f),
                    };
                    match definitions_at(s, span(s, g, Class::Blank)) {
                        None => None,
                        Some((definitions, m)) => Some(
                            (
                                EntryView {
                                    traditional: s.subrange(0, a),
                                    simplified: s.subrange(b, c),
                                    pinyin,
                                    jyutping,
                                    definitions,
                                },
                                m,
                            ),
                        ),
                    }
                }
            },
        }
    }
}

/// The meaning of a line. A blank line or a comment line (blanks, `#` and
/// the rest of the line) gives no entry. Any other line must be an entry,
/// followed by nothing but blanks and a comment; else it is an error.
pub open spec fn line_result(s: Seq<char>) -> Result<Option<EntryView>, CedictEntryError> {
    if tail_ok(s, 0) {
        Ok(None)
    } else {
        match entry_at(s) {
            Some((e, m)) => if tail_ok(s, m) {
                Ok(Some(e))
            } else {
                Err(CedictEntryError)
            },
            None => Err(CedictEntryError),
        }
    }
}

pub proof fn lemma_syllable_at(s: Seq<char>, i: int)
    requires
        0 <= i <= s.len(),
    ensures
        syllable_at(s, i) matches Some((v, t)) ==> i < t <= s.len(),
{
    let j = span(s, i, Class::Blank);
    lemma_span_bounds(s, i, Class::Blank);
    let k = span(s, j, Class::Letter);
    lemma_span_bounds(s, j, Class::Letter);
    lemma_span_bounds(s, k, Class::Digit);
}

// ---------------------------------------------------------------------------
// Parsers over a buffer of characters
// ---------------------------------------------------------------------------

/// Reads one syllable at `i`.
pub fn read_syllable(s: &Vec<char>, i: usize) -> (r: Option<(Syllable, usize)>)
    requires
        i <= s.len(),
    ensures
        match syllable_at(s@, i as int) {
            Some((v, t)) => r matches Some((x, u)) && x@ == v && u == t,
            None => r is None,
        },
        r matches Some((x, u)) ==> i < u <= s.len(),
{
    let j = skip(s, i, Class::Blank);
    let k = skip(s, j, Class::Letter);
    if k == j {
        None
    } else {
        let t = skip(s, k, Class::Digit);
        let x = Syllable { pronunciation: string_of(s, j, k), tone: string_of(s, k, t) };
        Some((x, t))
    }
}

/// Reads all the syllables from the start of `s`, and where they end.
pub fn read_syllables(s: &Vec<char>) -> (r: (Vec<Syllable>, usize))
    ensures
        syllables_view(r.0@) == syllables_of(s@),
        r.1 == syllables_end(s@, 0),
        r.1 <= s.len(),
{
    let mut r: Vec<Syllable> = Vec::new();
    let mut i: usize = 0;
    loop
        invariant
            i <= s.len(),
            syllables_view(r@) + syllables_from(s@, i as int) == syllables_of(s@),
            syllables_end(s@, i as int) == syllables_end(s@, 0),
        decreases s.len() - i,
    {
        proof {
            lemma_syllable_at(s@, i as int);
        }
        match read_syllable(s, i) {
            Some((x, t)) => {
                proof {
                    assert(syllables_view(r@.push(x)) =~= syllables_view(r@).push(x@));
                    assert(syllables_view(r@).push(x@) + syllables_from(s@, t as int)
                        =~= syllables_view(r@) + syllables_from(s@, i as int));
                }
                r.push(x);
                i = t;
            },
            None => {
                assert(syllables_view(r@) + syllables_from(s@, i as int) =~= syllables_view(r@));
                return (r, i);
            },
        }
    }
}

/// Finds the block `open interior close` at `i`.
pub fn read_block(s: &Vec<char>, i: usize, open: char, close: char) -> (r: Option<usize>)
    requires
        i <= s.len(),
    ensures
        match block_at(s@, i as int, open, close) {
            Some(k) => r == Some(k as usize) && i < k < s.len(),
            None => r is None,
        },
{
    if i < s.len() && s[i] == open {
        let k = skip(s, i + 1, Class::Except(close));
        if k < s.len() {
            Some(k)
        } else {
            None
        }
    } else {
        None
    }
}

/// Reads the pinyin block at `i`.
pub fn read_pinyin(s: &Vec<char>, i: usize) -> (r: Option<(Option<Vec<Syllable>>, usize)>)
    requires
        i <= s.len(),
    ensures
        match pinyin_at(s@, i as int) {
            Some((v, t)) => r matches Some((x, u)) && opt_syllables_view(x) == v && u == t,
            None => r is None,
        },
        r matches Some((x, u)) ==> i < u <= s.len(),
{
    match read_block(s, i, '[', ']') {
        Some(k) => if k == i + 1 {
            Some((None, k + 1))
        } else {
            let interior = copy_range(s, i + 1, k);
            Some((Some(read_syllables(&interior).0), k + 1))
        },
        None => None,
    }
}

/// Reads the jyutping block at `i`.
pub fn read_jyutping(s: &Vec<char>, i: usize) -> (r: Option<(Vec<Syllable>, usize)>)
    requires
        i <= s.len(),
    ensures
        match jyutping_at(s@, i as int) {
            Some((v, t)) => r matches Some((x, u)) && syllables_view(x@) == v && u == t,
            None => r is None,
        },
        r matches Some((x, u)) ==> i < u <= s.len(),
{
    match read_block(s, i, '{', '}') {
        Some(k) => if k == i + 1 {
            None
        } else {
            let interior = copy_range(s, i + 1, k);
            Some((read_syllables(&interior).0, k + 1))
        },
        None => None,
    }
}

/// Finds the last `c` in `s[i..j]`.
pub fn find_last(s: &Vec<char>, i: usize, j: usize, c: char) -> (r: Option<usize>)
    requires
        i <= j <= s.len(),
    ensures
        match last_index(s@, i as int, j as int, c) {
            Some(l) => r == Some(l as usize) && i <= l < j,
            None => r is None,
        },
{
    let mut k = j;
    while i < k && s[k - 1] != c
        invariant
            i <= k <= j <= s.len(),
            last_index(s@, i as int, j as int, c) == last_index(s@, i as int, k as int, c),
        decreases k - i,
    {
        k = k - 1;
    }
    if i < k {
        Some(k - 1)
    } else {
        None
    }
}

/// Reads the definitions of a block `d`, from just after its first slash.
fn read_definition_items(d: &Vec<char>) -> (r: Vec<String>)
    ensures
        strings_view(r@) == definition_items(d@, 1),
{
    let mut r: Vec<String> = Vec::new();
    let mut i: usize = 1;
    loop
        invariant
            1 <= i,
            strings_view(r@) + definition_items(d@, i as int) == definition_items(d@, 1),
        decreases d.len() - i,
    {
        if i >= d.len() {
            assert(strings_view(r@) + definition_items(d@, i as int) =~= strings_view(r@));
            return r;
        }
        let j = skip(d, i, Class::Except('/'));
        if j >= d.len() {
            assert(strings_view(r@) + definition_items(d@, i as int) =~= strings_view(r@));
            return r;
        }
        let x = trimmed_string_of(d, i, j);
        let ghost next = if j + 1 < d.len() {
            definition_items(d@, j + 1)
        } else {
            seq![]
        };
        proof {
            assert(strings_view(r@.push(x)) =~= strings_view(r@).push(x@));
            assert(strings_view(r@).push(x@) + next =~= strings_view(r@) + definition_items(
                d@,
                i as int,
            ));
        }
        r.push(x);
        if j + 1 >= d.len() {
            assert(strings_view(r@) + next =~= strings_view(r@));
            return r;
        }
        i = j + 1;
    }
}

/// Reads the definitions block at `i`.
pub fn read_definitions(s: &Vec<char>, i: usize) -> (r: Option<(Option<Vec<String>>, usize)>)
    requires
        i <= s.len(),
    ensures
        match definitions_at(s@, i as int) {
            Some((v, t)) => r matches Some((x, u)) && opt_strings_view(x) == v && u == t,
            None => r is None,
        },
        r matches Some((x, u)) ==> i <= u <= s.len(),
{
    match find_last(s, i, s.len(), '/') {
        None => Some((None, i)),
        Some(l) => if i < l && s[i] == '/' {
            if l == i + 1 {
                Some((None, l + 1))
            } else {
                let block = copy_range(s, i, l + 1);
                Some((Some(read_definition_items(&block)), l + 1))
            }
        } else {
            None
        },
    }
}

/// Reads a comment at `i`.
pub fn read_comment(s: &Vec<char>, i: usize) -> (r: Option<usize>)
    requires
        i <= s.len(),
    ensures
        match comment_at(s@, i as int) {
            Some(e) => r == Some(e as usize) && i < e <= s.len(),
            None => r is None,
        },
{
    if i < s.len() && s[i] == '#' {
        let e = skip(s, i + 1, Class::InLine);
        if e < s.len() && s[e] == '\r' && (e + 1 == s.len() || s[e + 1] != '\n') {
            None
        } else {
            Some(e)
        }
    } else {
        None
    }
}

/// Checks that only blanks and a comment follow `i`.
pub fn check_tail(s: &Vec<char>, i: usize) -> (r: bool)
    requires
        i <= s.len(),
    ensures
        r == tail_ok(s@, i as int),
{
    let j = skip(s, i, Class::Blank);
    match read_comment(s, j) {
        Some(e) => e == s.len(),
        None => j == s.len(),
    }
}

/// Reads an entry at the start of `s`.
pub fn read_entry(s: &Vec<char>) -> (r: Option<(CedictEntry, usize)>)
    ensures
        match entry_at(s@) {
            Some((v, t)) => r matches Some((x, u)) && x@ == v && u == t,
            None => r is None,
        },
        r matches Some((x, u)) ==> u <= s.len(),
{
    let a = skip(s, 0, Class::NonBlank);
    let b = skip(s, a, Class::Blank);
    let c = skip(s, b, Class::NonBlank);
    let d = skip(s, c, Class::Blank);
    if a == 0 || b == a || c == b || d == c {
        return None;
    }
    let (pinyin, e) = match read_pinyin(s, d) {
        None => return None,
        Some(p) => p,
    };
    let f = skip(s, e, Class::Blank);
    if f == e {
        return None;
    }
    let (jyutping, g) = match read_jyutping(s, f) {
        Some((v, g)) => (Some(v), g),
        None => (None, f),
    };
    let h = skip(s, g, Class::Blank);
    let (definitions, m) = match read_definitions(s, h) {
        None => return None,
        Some(p) => p,
    };
    let entry = CedictEntry {
        traditional: string_of(s, 0, a),
        simplified: string_of(s, b, c),
        pinyin,
        jyutping,
        definitions,
    };
    Some((entry, m))
}

pub open spec fn result_view(r: Result<Option<CedictEntry>, CedictEntryError>) -> Result<
    Option<EntryView>,
    CedictEntryError,
> {
    match r {
        Ok(Some(e)) => Ok(Some(e@)),
        Ok(None) => Ok(None),
        Err(x) => Err(x),
    }
}

/// Reads a whole line.
pub fn read_line(s: &Vec<char>) -> (r: Result<Option<CedictEntry>, CedictEntryError>)
    ensures
        result_view(r) == line_result(s@),
{
    if check_tail(s, 0) {
        return Ok(None);
    }
    match read_entry(s) {
        Some((e, m)) => if check_tail(s, m) {
            Ok(Some(e))
        } else {
            Err(CedictEntryError)
        },
        None => Err(CedictEntryError),
    }
}

// ---------------------------------------------------------------------------
// Parsers over text: each reads from the start of its input and gives back
// what it leaves unread.
// ---------------------------------------------------------------------------

/// The rest of `s` from `t` on, as a `String`.
pub open spec fn rest_from(s: Seq<char>, t: int) -> Seq<char> {
    s.subrange(t, s.len() as int)
}

/// Reads a head word: one or more characters other than spaces and tabs.
pub fn not_whitespace(i: &str) -> (r: Result<(String, String), CedictEntryError>)
    ensures
        span(i@, 0, Class::NonBlank) > 0 ==> (r matches Ok((rest, word)) && word@ == i@.subrange(
            0,
            span(i@, 0, Class::NonBlank),
        ) && rest@ == rest_from(i@, span(i@, 0, Class::NonBlank))),
        span(i@, 0, Class::NonBlank) == 0 ==> r is Err,
{
    let s = chars_of(i);
    let a = skip(&s, 0, Class::NonBlank);
    if a == 0 {
        Err(CedictEntryError)
    } else {
        Ok((string_of(&s, a, s.len()), string_of(&s, 0, a)))
    }
}

/// Reads one syllable.
pub fn syllable(i: &str) -> (r: Result<(String, Syllable), CedictEntryError>)
    ensures
        match syllable_at(i@, 0) {
            Some((v, t)) => r matches Ok((rest, x)) && x@ == v && rest@ == rest_from(i@, t),
            None => r is Err,
        },
{
    let s = chars_of(i);
    match read_syllable(&s, 0) {
        Some((x, t)) => Ok((string_of(&s, t, s.len()), x)),
        None => Err(CedictEntryError),
    }
}

/// Reads syllables one after another, with or without blanks between them,
/// for as long as one starts.
pub fn syllables(i: &str) -> (r: Result<(String, Vec<Syllable>), CedictEntryError>)
    ensures
        r matches Ok((rest, x)) && syllables_view(x@) == syllables_of(i@) && rest@ == rest_from(
            i@,
            syllables_end(i@, 0),
        ),
{
    let s = chars_of(i);
    let (x, t) = read_syllables(&s);
    Ok((string_of(&s, t, s.len()), x))
}

/// Reads a pinyin block `[...]`.
pub fn pinyin(i: &str) -> (r: Result<(String, Option<Vec<Syllable>>), CedictEntryError>)
    ensures
        match pinyin_at(i@, 0) {
            Some((v, t)) => r matches Ok((rest, x)) && opt_syllables_view(x) == v && rest@
                == rest_from(i@, t),
            None => r is Err,
        },
{
    let s = chars_of(i);
    match read_pinyin(&s, 0) {
        Some((x, t)) => Ok((string_of(&s, t, s.len()), x)),
        None => Err(CedictEntryError),
    }
}

/// Reads a jyutping block `{...}`.
pub fn jyutping(i: &str) -> (r: Result<(String, Vec<Syllable>), CedictEntryError>)
    ensures
        match jyutping_at(i@, 0) {
            Some((v, t)) => r matches Ok((rest, x)) && syllables_view(x@) == v && rest@
                == rest_from(i@, t),
            None => r is Err,
        },
{
    let s = chars_of(i);
    match read_jyutping(&s, 0) {
        Some((x, t)) => Ok((string_of(&s, t, s.len()), x)),
        None => Err(CedictEntryError),
    }
}

/// Reads a definitions block `/.../.../`, up to the last slash.
pub fn definitions(i: &str) -> (r: Result<(String, Option<Vec<String>>), CedictEntryError>)
    ensures
        match definitions_at(i@, 0) {
            Some((v, t)) => r matches Ok((rest, x)) && opt_strings_view(x) == v && rest@
                == rest_from(i@, t),
            None => r is Err,
        },
{
    let s = chars_of(i);
    match read_definitions(&s, 0) {
        Some((x, t)) => Ok((string_of(&s, t, s.len()), x)),
        None => Err(CedictEntryError),
    }
}

/// Reads a comment: the `#` and the text after it, up to a line ending.
pub fn comment(i: &str) -> (r: Result<(String, (String, String)), CedictEntryError>)
    ensures
        match comment_at(i@, 0) {
            Some(e) => r matches Ok((rest, (mark, text))) && mark@ == seq!['#'] && text@
                == i@.subrange(1, e) && rest@ == rest_from(i@, e),
            None => r is Err,
        },
{
    let s = chars_of(i);
    match read_comment(&s, 0) {
        Some(e) => Ok((string_of(&s, e, s.len()), (string_of(&s, 0, 1), string_of(&s, 1, e)))),
        None => Err(CedictEntryError),
    }
}

/// Reads an entry from the start of the input, leaving what follows its
/// definitions.
pub fn cedict_entry(i: &str) -> (r: Result<(String, CedictEntry), CedictEntryError>)
    ensures
        match entry_at(i@) {
            Some((v, t)) => r matches Ok((rest, x)) && x@ == v && rest@ == rest_from(i@, t),
            None => r is Err,
        },
{
    let s = chars_of(i);
    match read_entry(&s) {
        Some((x, t)) => Ok((string_of(&s, t, s.len()), x)),
        None => Err(CedictEntryError),
    }
}

/// Parses one line of a dictionary: `Ok(Some(entry))` for an entry,
/// `Ok(None)` for a blank or comment line, and an error for anything else.
pub fn parse_line(line: &str) -> (r: Result<Option<CedictEntry>, CedictEntryError>)
    ensures
        result_view(r) == line_result(line@),
{
    let s = chars_of(line);
    read_line(&s)
}

} // verus!
