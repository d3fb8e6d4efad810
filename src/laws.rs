//! Laws of the line grammar, proved over its spec functions.
use vstd::prelude::*;

use crate::cedict::entries_of;
use crate::cedict_entry::EntryView;
use crate::errors::CedictEntryError;
use crate::syllable::SyllableView;
use crate::parsers::{
    block_at, definition_items, definitions_at, entry_at, jyutping_at, last_index, line_result,
    pinyin_at, syllable_at, syllables_from, syllables_of, tail_ok, comment_at,
};
use crate::text::{in_class, is_blank, is_letter, lemma_span_bounds, span, trim, Class};

verus! {

/// A run that ends where its class stops is what `span` finds.
pub proof fn lemma_span_exact(s: Seq<char>, i: int, j: int, k: Class)
    requires
        0 <= i <= j <= s.len(),
        forall|m: int| i <= m < j ==> in_class(#[trigger] s[m], k),
        j == s.len() || !in_class(s[j], k),
    ensures
        span(s, i, k) == j,
    decreases j - i,
{
    if i < j {
        lemma_span_exact(s, i + 1, j, k);
    }
}

/// `p` followed by the run `q` and then `r`: the run of `q`'s class at the
/// end of `p` is `q`, when `r` does not go on with it.
pub proof fn lemma_span_segment(p: Seq<char>, q: Seq<char>, r: Seq<char>, k: Class)
    requires
        forall|m: int| 0 <= m < q.len() ==> in_class(#[trigger] q[m], k),
        r.len() == 0 || !in_class(r[0], k),
    ensures
        span(p + q + r, p.len() as int, k) == p.len() + q.len(),
{
    let s = p + q + r;
    assert forall|m: int| p.len() <= m < p.len() + q.len() implies in_class(#[trigger] s[m], k) by {
        assert(s[m] == q[m - p.len()]);
    }
    if r.len() > 0 {
        assert(s[(p.len() + q.len()) as int] == r[0]);
    }
    lemma_span_exact(s, p.len() as int, (p.len() + q.len()) as int, k);
}


/// Each text of `ds` followed by a slash.
pub open spec fn slashed(ds: Seq<Seq<char>>) -> Seq<char>
    decreases ds.len(),
{
    if ds.len() == 0 {
        seq![]
    } else {
        ds[0] + seq!['/'] + slashed(ds.drop_first())
    }
}

pub open spec fn trim_each(ds: Seq<Seq<char>>) -> Seq<Seq<char>> {
    ds.map_values(|d: Seq<char>| trim(d))
}

/// A definition that a block can hold: text without a slash.
pub open spec fn definition_ok(d: Seq<char>) -> bool {
    forall|m: int| 0 <= m < d.len() ==> d[m] != '/'
}

/// What a block `/D1/D2/.../` gives: no definitions for `//`, else each
/// definition, trimmed.
pub open spec fn definitions_value(ds: Seq<Seq<char>>) -> Option<Seq<Seq<char>>> {
    if ds.len() == 1 && ds[0].len() == 0 {
        None
    } else {
        Some(trim_each(ds))
    }
}

pub open spec fn definitions_ok(ds: Seq<Seq<char>>) -> bool {
    forall|k: int| 0 <= k < ds.len() ==> definition_ok(#[trigger] ds[k])
}

pub proof fn lemma_slashed_last(ds: Seq<Seq<char>>)
    requires
        ds.len() > 0,
    ensures
        slashed(ds).len() > 0,
        slashed(ds).last() == '/',
    decreases ds.len(),
{
    let rest = ds.drop_first();
    let head = ds[0] + seq!['/'];
    if rest.len() > 0 {
        lemma_slashed_last(rest);
    } else {
        assert(slashed(rest) =~= seq![]);
    }
    assert(slashed(ds) == head + slashed(rest));
    assert((head + slashed(rest)).last() == (if rest.len() > 0 { slashed(rest).last() } else { head.last() }));
}

/// The definitions read after `p` from a list of slash-ended definitions are
/// those definitions, trimmed.
pub proof fn lemma_definition_items(p: Seq<char>, ds: Seq<Seq<char>>)
    requires
        definitions_ok(ds),
    ensures
        definition_items(p + slashed(ds), p.len() as int) == trim_each(ds),
    decreases ds.len(),
{
    let d = p + slashed(ds);
    if ds.len() == 0 {
        assert(trim_each(ds) =~= seq![]);
    } else {
        let rest = ds.drop_first();
        assert(definition_ok(ds[0]));
        assert(d =~= p + ds[0] + (seq!['/'] + slashed(rest)));
        lemma_span_segment(p, ds[0], seq!['/'] + slashed(rest), Class::Except('/'));
        let next = p + ds[0] + seq!['/'];
        assert(d =~= next + slashed(rest));
        assert(definitions_ok(rest)) by {
            assert forall|k: int| 0 <= k < rest.len() implies definition_ok(#[trigger] rest[k]) by {
                assert(rest[k] == ds[k + 1]);
            }
        }
        lemma_definition_items(next, rest);
        assert(d.subrange(p.len() as int, (p.len() + ds[0].len()) as int) =~= ds[0]);
        assert(trim_each(ds) =~= seq![trim(ds[0])] + trim_each(rest));
    }
}

/// The jyutping block of a line, with the blanks `w` after it, if there is one.
pub open spec fn jyutping_part(jp: Option<Seq<char>>, w: Seq<char>) -> Seq<char> {
    match jp {
        Some(x) => seq!['{'] + x + seq!['}'] + w,
        None => seq![],
    }
}

/// The line `T S [PY] {JP} /D1/D2/.../`, with the runs of blanks `w1`, `w2`,
/// `w3` and `w4` after its first four fields; the jyutping block, and `w4`
/// with it, is left out for `None`.
pub open spec fn entry_line(
    t: Seq<char>,
    w1: Seq<char>,
    sm: Seq<char>,
    w2: Seq<char>,
    py: Seq<char>,
    w3: Seq<char>,
    jp: Option<Seq<char>>,
    w4: Seq<char>,
    ds: Seq<Seq<char>>,
) -> Seq<char> {
    t + w1 + sm + w2 + seq!['['] + py + seq![']'] + w3 + jyutping_part(jp, w4) + seq!['/']
        + slashed(ds)
}

/// Spaces and tabs only.
pub open spec fn blanks(w: Seq<char>) -> bool {
    forall|m: int| 0 <= m < w.len() ==> is_blank(#[trigger] w[m])
}

/// A field separator: one or more spaces and tabs.
pub open spec fn separator(w: Seq<char>) -> bool {
    w.len() > 0 && blanks(w)
}

pub open spec fn head_word_ok(w: Seq<char>) -> bool {
    w.len() > 0 && forall|m: int| 0 <= m < w.len() ==> !is_blank(#[trigger] w[m])
}

pub open spec fn free_of(x: Seq<char>, c: char) -> bool {
    forall|m: int| 0 <= m < x.len() ==> x[m] != c
}

pub open spec fn pinyin_value(py: Seq<char>) -> Option<Seq<SyllableView>> {
    if py.len() == 0 {
        None
    } else {
        Some(syllables_of(py))
    }
}

pub open spec fn jyutping_value(jp: Option<Seq<char>>) -> Option<Seq<SyllableView>> {
    match jp {
        Some(x) => Some(syllables_of(x)),
        None => None,
    }
}

/// A run of blanks between `p` and `r`, where `r` does not start with one.
proof fn lemma_blank_run(p: Seq<char>, w: Seq<char>, r: Seq<char>)
    requires
        blanks(w),
        r.len() > 0,
        !is_blank(r[0]),
    ensures
        span(p + w + r, p.len() as int, Class::Blank) == p.len() + w.len(),
{
    lemma_span_segment(p, w, r, Class::Blank);
}

proof fn lemma_head_words(
    s: Seq<char>,
    t: Seq<char>,
    w1: Seq<char>,
    sm: Seq<char>,
    w2: Seq<char>,
    r: Seq<char>,
)
    requires
        s == t + w1 + sm + w2 + r,
        head_word_ok(t),
        separator(w1),
        head_word_ok(sm),
        separator(w2),
        r.len() > 0,
        !is_blank(r[0]),
    ensures
        ({
            let a = t.len() as int;
            let b = a + w1.len();
            let c = b + sm.len();
            &&& span(s, 0, Class::NonBlank) == a
            &&& span(s, a, Class::Blank) == b
            &&& span(s, b, Class::NonBlank) == c
            &&& span(s, c, Class::Blank) == c + w2.len()
            &&& s.subrange(0, a) == t
            &&& s.subrange(b, c) == sm
        }),
{
    let a = t.len() as int;
    let b = a + w1.len();
    let c = b + sm.len();
    assert(s =~= seq![] + t + (w1 + sm + w2 + r));
    assert((w1 + sm + w2 + r)[0] == w1[0]);
    lemma_span_segment(seq![], t, w1 + sm + w2 + r, Class::NonBlank);
    assert(s =~= t + w1 + (sm + w2 + r));
    assert((sm + w2 + r)[0] == sm[0]);
    lemma_blank_run(t, w1, sm + w2 + r);
    assert(s =~= (t + w1) + sm + (w2 + r));
    assert((w2 + r)[0] == w2[0]);
    lemma_span_segment(t + w1, sm, w2 + r, Class::NonBlank);
    assert(s =~= (t + w1 + sm) + w2 + r);
    lemma_blank_run(t + w1 + sm, w2, r);
    assert(s.subrange(0, a) =~= t);
    assert(s.subrange(b, c) =~= sm);
}

proof fn lemma_pinyin_block(s: Seq<char>, p: Seq<char>, py: Seq<char>, r: Seq<char>)
    requires
        s == p + seq!['['] + py + seq![']'] + r,
        free_of(py, ']'),
    ensures
        pinyin_at(s, p.len() as int) == Some(
            (pinyin_value(py), (p.len() + py.len() + 2) as int),
        ),
{
    let d = p.len() as int;
    assert(s =~= (p + seq!['[']) + py + (seq![']'] + r));
    lemma_span_segment(p + seq!['['], py, seq![']'] + r, Class::Except(']'));
    let k = d + 1 + py.len();
    assert(s[d] == '[');
    assert(s[k] == ']');
    assert(s.subrange(d + 1, k) =~= py);
}

proof fn lemma_jyutping_block(
    s: Seq<char>,
    p: Seq<char>,
    jp: Option<Seq<char>>,
    w4: Seq<char>,
    r: Seq<char>,
)
    requires
        s == p + jyutping_part(jp, w4) + r,
        jp matches Some(x) ==> x.len() > 0 && free_of(x, '}'),
        blanks(w4),
        r.len() > 0,
        r[0] == '/',
    ensures
        ({
            let f = p.len() as int;
            let h = f + jyutping_part(jp, w4).len();
            match jyutping_at(s, f) {
                Some((v, g)) => jp matches Some(x) && v == syllables_of(x) && span(
                    s,
                    g,
                    Class::Blank,
                ) == h,
                None => jp is None && span(s, f, Class::Blank) == h,
            }
        }),
{
    let f = p.len() as int;
    match jp {
        Some(x) => {
            assert(s =~= (p + seq!['{']) + x + (seq!['}'] + w4 + r));
            lemma_span_segment(p + seq!['{'], x, seq!['}'] + w4 + r, Class::Except('}'));
            let k = f + 1 + x.len();
            assert(s[f] == '{');
            assert(s[k] == '}');
            assert(s.subrange(f + 1, k) =~= x);
            assert(s =~= (p + seq!['{'] + x + seq!['}']) + w4 + r);
            lemma_blank_run(p + seq!['{'] + x + seq!['}'], w4, r);
        },
        None => {
            assert(s =~= p + seq![] + r);
            assert(s[f] == '/');
            lemma_span_segment(p, seq![], r, Class::Blank);
        },
    }
}

proof fn lemma_definitions_block(s: Seq<char>, p: Seq<char>, ds: Seq<Seq<char>>)
    requires
        s == p + seq!['/'] + slashed(ds),
        ds.len() > 0,
        definitions_ok(ds),
    ensures
        definitions_at(s, p.len() as int) == Some((definitions_value(ds), s.len() as int)),
        tail_ok(s, s.len() as int),
{
    let h = p.len() as int;
    lemma_slashed_last(ds);
    let rest = ds.drop_first();
    if rest.len() > 0 {
        assert(slashed(rest) == rest[0] + seq!['/'] + slashed(rest.drop_first()));
    }
    assert(slashed(ds) == ds[0] + seq!['/'] + slashed(rest));
    assert(s[s.len() - 1] == '/');
    assert(last_index(s, h, s.len() as int, '/') == Some(s.len() - 1));
    assert(s[h] == '/');
    assert(s.subrange(h, s.len() as int) =~= seq!['/'] + slashed(ds));
    lemma_definition_items(seq!['/'], ds);
    assert(span(s, s.len() as int, Class::Blank) == s.len());
    assert(comment_at(s, s.len() as int) is None);
}

proof fn lemma_line_shapes(
    t: Seq<char>,
    w1: Seq<char>,
    sm: Seq<char>,
    w2: Seq<char>,
    py: Seq<char>,
    w3: Seq<char>,
    jp: Option<Seq<char>>,
    w4: Seq<char>,
    ds: Seq<Seq<char>>,
)
    ensures
        ({
            let s = entry_line(t, w1, sm, w2, py, w3, jp, w4, ds);
            let defs = seq!['/'] + slashed(ds);
            let jpart = jyutping_part(jp, w4);
            let words = t + w1 + sm + w2;
            let through_pinyin = words + seq!['['] + py + seq![']'];
            let before_jyutping = through_pinyin + w3;
            &&& s == t + w1 + sm + w2 + (seq!['['] + py + seq![']'] + w3 + jpart + defs)
            &&& s == words + seq!['['] + py + seq![']'] + (w3 + jpart + defs)
            &&& s == through_pinyin + w3 + (jpart + defs)
            &&& s == before_jyutping + jpart + defs
            &&& s == before_jyutping + jpart + seq!['/'] + slashed(ds)
        }),
{
    let s = entry_line(t, w1, sm, w2, py, w3, jp, w4, ds);
    let defs = seq!['/'] + slashed(ds);
    let jpart = jyutping_part(jp, w4);
    let words = t + w1 + sm + w2;
    let through_pinyin = words + seq!['['] + py + seq![']'];
    let before_jyutping = through_pinyin + w3;
    assert(s =~= t + w1 + sm + w2 + (seq!['['] + py + seq![']'] + w3 + jpart + defs));
    assert(s =~= words + seq!['['] + py + seq![']'] + (w3 + jpart + defs));
    assert(s =~= through_pinyin + w3 + (jpart + defs));
    assert(s =~= before_jyutping + jpart + defs);
    assert(s =~= before_jyutping + jpart + seq!['/'] + slashed(ds));
}

/// A well-formed line parses to the entry it spells out: its two head words,
/// the tokenized pinyin (none for an empty `[]`), the tokenized jyutping (none
/// when the block is absent), and its definitions, trimmed (none for `//`).
/// The traditional head word must not start with `#`: such a line is a
/// comment.
pub proof fn law_well_formed_line(
    t: Seq<char>,
    w1: Seq<char>,
    sm: Seq<char>,
    w2: Seq<char>,
    py: Seq<char>,
    w3: Seq<char>,
    jp: Option<Seq<char>>,
    w4: Seq<char>,
    ds: Seq<Seq<char>>,
)
    requires
        head_word_ok(t),
        t[0] != '#',
        separator(w1),
        head_word_ok(sm),
        separator(w2),
        free_of(py, ']'),
        separator(w3),
        jp matches Some(x) ==> x.len() > 0 && free_of(x, '}'),
        blanks(w4),
        ds.len() > 0,
        definitions_ok(ds),
    ensures
        line_result(entry_line(t, w1, sm, w2, py, w3, jp, w4, ds)) == Ok::<_, CedictEntryError>(
            Some(
                EntryView {
                    traditional: t,
                    simplified: sm,
                    pinyin: pinyin_value(py),
                    jyutping: jyutping_value(jp),
                    definitions: definitions_value(ds),
                },
            ),
        ),
{
    let s = entry_line(t, w1, sm, w2, py, w3, jp, w4, ds);
    let defs = seq!['/'] + slashed(ds);
    let jpart = jyutping_part(jp, w4);
    let r = seq!['['] + py + seq![']'] + w3 + jpart + defs;
    lemma_line_shapes(t, w1, sm, w2, py, w3, jp, w4, ds);
    assert(r[0] == '[');
    lemma_head_words(s, t, w1, sm, w2, r);
    let words = t + w1 + sm + w2;
    let after = w3 + jpart + defs;
    lemma_pinyin_block(s, words, py, after);
    let through_pinyin = words + seq!['['] + py + seq![']'];
    assert((jpart + defs)[0] == (if jp is Some { '{' } else { '/' }));
    lemma_blank_run(through_pinyin, w3, jpart + defs);
    let before_jyutping = through_pinyin + w3;
    assert(defs[0] == '/');
    lemma_jyutping_block(s, before_jyutping, jp, w4, defs);
    lemma_definitions_block(s, before_jyutping + jpart, ds);
    assert(s[0] == t[0]);
    assert(span(s, 0, Class::Blank) == 0);
    assert(comment_at(s, 0) is None);
}

/// The pinyin block `[PY]` gives no syllable sequence at all when it is empty,
/// and the tokenization of `PY` when it is not; that tokenization is not empty
/// when the first character of `PY` other than a blank is a letter.
pub proof fn law_pinyin_block(p: Seq<char>, py: Seq<char>, r: Seq<char>)
    requires
        free_of(py, ']'),
    ensures
        py.len() == 0 ==> pinyin_at(p + seq!['['] + py + seq![']'] + r, p.len() as int) == Some(
            (None::<Seq<SyllableView>>, (p.len() + 2) as int),
        ),
        py.len() > 0 ==> pinyin_at(p + seq!['['] + py + seq![']'] + r, p.len() as int) == Some(
            (Some(syllables_of(py)), (p.len() + py.len() + 2) as int),
        ),
        span(py, 0, Class::Blank) < py.len() && is_letter(py[span(py, 0, Class::Blank)])
            ==> syllables_of(py).len() > 0,
{
    lemma_pinyin_block(p + seq!['['] + py + seq![']'] + r, p, py, r);
    lemma_span_bounds(py, 0, Class::Blank);
    let j = span(py, 0, Class::Blank);
    if j < py.len() && is_letter(py[j]) {
        lemma_span_bounds(py, j, Class::Letter);
        if let Some((v, t)) = syllable_at(py, 0) {
            assert(syllables_of(py) == seq![v] + syllables_from(py, t));
        }
        assert(syllable_at(py, 0) is Some);
    }
}

/// A line without a `{` has no jyutping block: when it holds an entry, the
/// entry has no jyutping.
pub proof fn law_absent_jyutping(s: Seq<char>)
    requires
        free_of(s, '{'),
    ensures
        line_result(s) matches Ok(Some(e)) ==> e.jyutping is None,
{
    let a = span(s, 0, Class::NonBlank);
    let b = span(s, a, Class::Blank);
    let c = span(s, b, Class::NonBlank);
    let d = span(s, c, Class::Blank);
    lemma_span_bounds(s, 0, Class::NonBlank);
    lemma_span_bounds(s, a, Class::Blank);
    lemma_span_bounds(s, b, Class::NonBlank);
    lemma_span_bounds(s, c, Class::Blank);
    if let Some((_, e)) = pinyin_at(s, d) {
        let f = span(s, e, Class::Blank);
        if 0 <= f < s.len() {
            assert(s[f] != '{');
        }
        assert(jyutping_at(s, f) is None);
    }
}

/// Parsing is a function of the line alone: equal lines give equal results.
pub proof fn law_parse_is_deterministic(a: Seq<char>, b: Seq<char>)
    requires
        a == b,
    ensures
        line_result(a) == line_result(b),
{
}

/// A run that stops inside `s` stops at the same place once `s` is extended.
proof fn lemma_span_extend(s: Seq<char>, t: Seq<char>, i: int, k: Class)
    requires
        0 <= i <= s.len(),
        span(s, i, k) < s.len(),
    ensures
        span(s + t, i, k) == span(s, i, k),
    decreases s.len() - i,
{
    let u = s + t;
    assert(u[i] == s[i]);
    if in_class(s[i], k) {
        lemma_span_extend(s, t, i + 1, k);
    }
}

/// Text without `c` added at the end leaves the last `c` where it was.
proof fn lemma_last_index_extend(s: Seq<char>, t: Seq<char>, i: int, j: int, c: char)
    requires
        0 <= i <= s.len() <= j <= s.len() + t.len(),
        free_of(t, c),
    ensures
        last_index(s + t, i, j, c) == last_index(s, i, s.len() as int, c),
    decreases j - i,
{
    let u = s + t;
    if j > s.len() {
        assert(u[j - 1] == t[j - 1 - s.len()]);
        lemma_last_index_extend(s, t, i, j - 1, c);
    } else if j > i {
        assert(u[j - 1] == s[j - 1]);
        lemma_last_index_same(s, t, i, j - 1, c);
    }
}

proof fn lemma_last_index_same(s: Seq<char>, t: Seq<char>, i: int, j: int, c: char)
    requires
        0 <= i <= j <= s.len(),
    ensures
        last_index(s + t, i, j, c) == last_index(s, i, j, c),
    decreases j - i,
{
    if j > i {
        assert((s + t)[j - 1] == s[j - 1]);
        lemma_last_index_same(s, t, i, j - 1, c);
    }
}

/// An entry whose definitions close with the last character of `s` reads
/// the same once text without a slash follows.
proof fn lemma_entry_extend(s: Seq<char>, t: Seq<char>)
    requires
        entry_at(s) is Some,
        s.len() > 0,
        s.last() == '/',
        free_of(t, '/'),
    ensures
        entry_at(s + t) == entry_at(s),
        entry_at(s) matches Some((_, m)) && m == s.len(),
{
    let u = s + t;
    let n = s.len() as int;
    let a = span(s, 0, Class::NonBlank);
    let b = span(s, a, Class::Blank);
    let c = span(s, b, Class::NonBlank);
    let d = span(s, c, Class::Blank);
    lemma_span_bounds(s, 0, Class::NonBlank);
    lemma_span_bounds(s, a, Class::Blank);
    lemma_span_bounds(s, b, Class::NonBlank);
    lemma_span_bounds(s, c, Class::Blank);
    let k = span(s, d + 1, Class::Except(']'));
    assert(block_at(s, d, '[', ']') == Some(k));
    lemma_span_bounds(s, d + 1, Class::Except(']'));
    let e = k + 1;
    let f = span(s, e, Class::Blank);
    lemma_span_bounds(s, e, Class::Blank);
    assert(s[n - 1] == '/');
    let k2 = span(s, f + 1, Class::Except('}'));
    if f < n && s[f] == '{' {
        lemma_span_bounds(s, f + 1, Class::Except('}'));
    }
    let g = match jyutping_at(s, f) {
        Some((_, g)) => g,
        None => f,
    };
    let h = span(s, g, Class::Blank);
    lemma_span_bounds(s, g, Class::Blank);
    if h == n {
        if h > g {
            assert(is_blank(s[h - 1]));
        } else if g > f {
            assert(s[g - 1] == '}');
        } else {
            assert(is_blank(s[f - 1]));
        }
        assert(false);
    }
    assert(last_index(s, h, n, '/') == Some(n - 1));
    assert(h < n - 1 && s[h] == '/');
    // every run before the definitions stops inside `s`
    lemma_span_extend(s, t, 0, Class::NonBlank);
    lemma_span_extend(s, t, a, Class::Blank);
    lemma_span_extend(s, t, b, Class::NonBlank);
    lemma_span_extend(s, t, c, Class::Blank);
    lemma_span_extend(s, t, d + 1, Class::Except(']'));
    assert(u[d] == s[d]);
    assert(u.subrange(d + 1, k) =~= s.subrange(d + 1, k));
    assert(pinyin_at(u, d) == pinyin_at(s, d));
    lemma_span_extend(s, t, e, Class::Blank);
    assert(u[f] == s[f]);
    if s[f] == '{' {
        lemma_span_extend(s, t, f + 1, Class::Except('}'));
        assert(u.subrange(f + 1, k2) =~= s.subrange(f + 1, k2));
    }
    assert(jyutping_at(u, f) == jyutping_at(s, f));
    lemma_span_extend(s, t, g, Class::Blank);
    lemma_last_index_extend(s, t, h, u.len() as int, '/');
    assert(u[h] == s[h]);
    assert(u.subrange(h, n) =~= s.subrange(h, n));
    assert(definitions_at(u, h) == definitions_at(s, h));
    assert(u.subrange(0, a) =~= s.subrange(0, a));
    assert(u.subrange(b, c) =~= s.subrange(b, c));
}

/// Blanks, then `#` and a note without a line ending, are a valid end of line.
proof fn lemma_comment_tail(s: Seq<char>, w: Seq<char>, note: Seq<char>)
    requires
        blanks(w),
        free_of(note, '\r'),
        free_of(note, '\n'),
    ensures
        tail_ok(s + comment_tail(w, note), s.len() as int),
{
    let u = s + comment_tail(w, note);
    assert(u =~= s + w + (seq!['#'] + note));
    lemma_span_segment(s, w, seq!['#'] + note, Class::Blank);
    let q = (s.len() + w.len()) as int;
    assert(u[q] == '#');
    assert(u =~= (s + w + seq!['#']) + note + seq![]);
    assert forall|m: int| 0 <= m < note.len() implies in_class(#[trigger] note[m], Class::InLine) by {
    }
    lemma_span_segment(s + w + seq!['#'], note, seq![], Class::InLine);
    assert(comment_at(u, q) == Some(u.len() as int));
}

/// A line that is no comment line, and starts with an entry, stays no
/// comment line when text that starts without a line ending is added.
proof fn lemma_still_no_comment_line(s: Seq<char>, t: Seq<char>)
    requires
        !tail_ok(s, 0),
        entry_at(s) is Some,
        t.len() > 0,
        t[0] != '\n',
    ensures
        !tail_ok(s + t, 0),
{
    let u = s + t;
    lemma_span_bounds(s, 0, Class::NonBlank);
    assert(s.len() > 0 && !is_blank(s[0]));
    assert(u[0] == s[0]);
    assert(span(s, 0, Class::Blank) == 0);
    assert(span(u, 0, Class::Blank) == 0);
    if s[0] == '#' {
        let e = span(s, 1, Class::InLine);
        lemma_span_bounds(s, 1, Class::InLine);
        assert(e < s.len());
        lemma_span_extend(s, t, 1, Class::InLine);
        assert(u[e] == s[e]);
        if e + 1 < s.len() {
            assert(u[e + 1] == s[e + 1]);
        } else {
            assert(u[e + 1] == t[0]);
        }
    }
}

/// The blanks and comment that end a line: `w` blanks, `#` and `note`.
pub open spec fn comment_tail(w: Seq<char>, note: Seq<char>) -> Seq<char> {
    w + seq!['#'] + note
}

/// A comment after an entry that ends with its definitions' closing slash is
/// not part of the entry: the line parses as it does without it. The comment
/// must hold no slash (the definitions end at the last one) and no line ending.
pub proof fn law_trailing_comment(s: Seq<char>, w: Seq<char>, note: Seq<char>)
    requires
        line_result(s) matches Ok(Some(_)),
        s.len() > 0,
        s.last() == '/',
        blanks(w),
        free_of(note, '/'),
        free_of(note, '\r'),
        free_of(note, '\n'),
    ensures
        line_result(s + comment_tail(w, note)) == line_result(s),
{
    let t = comment_tail(w, note);
    assert(free_of(t, '/')) by {
        assert forall|m: int| 0 <= m < t.len() implies t[m] != '/' by {
            if m > w.len() {
                assert(t[m] == note[m - w.len() - 1]);
            } else if m < w.len() {
                assert(t[m] == w[m]);
            }
        }
    }
    lemma_entry_extend(s, t);
    lemma_comment_tail(s, w, note);
    assert(t[0] != '\n') by {
        if w.len() > 0 {
            assert(t[0] == w[0]);
        } else {
            assert(t[0] == '#');
        }
    }
    lemma_still_no_comment_line(s, t);
}

/// Reading a dictionary keeps the order of its lines: the entries of two runs
/// of lines are those of the first run followed by those of the second.
pub proof fn law_entries_concat(x: Seq<Seq<char>>, y: Seq<Seq<char>>)
    ensures
        entries_of(x + y) == entries_of(x) + entries_of(y),
    decreases x.len(),
{
    if x.len() == 0 {
        assert(x + y =~= y);
        assert(entries_of(x) + entries_of(y) =~= entries_of(y));
    } else {
        assert((x + y).drop_first() =~= x.drop_first() + y);
        assert((x + y)[0] == x[0]);
        law_entries_concat(x.drop_first(), y);
        assert(entries_of(x) + entries_of(y) =~= match line_result(x[0]) {
            Ok(Some(e)) => seq![e] + (entries_of(x.drop_first()) + entries_of(y)),
            _ => entries_of(x.drop_first()) + entries_of(y),
        });
    }
}

} // verus!
