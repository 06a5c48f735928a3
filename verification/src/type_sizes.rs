//! Reading the type sizes that `rustc -Z print-type-sizes` reports.
//!
//! A report line looks like
//! ```text
//! print-type-size type: `std::vec::Vec<u8>`: 24 bytes, alignment: 8 bytes
//! ```
//! Every line that holds `type:` is read: its words from the third on, up to
//! the first word that is a `u32` number, form the quoted name; that number is
//! the size, and the word three further on is the alignment. The name loses
//! its first byte and its last two, the quotes and the colon.

use vstd::prelude::*;
use vstd::string::*;

use crate::replace::{occurs_at, occurs_at_exec};
use crate::text::{chars_of, first_newline, lemma_first_newline, slice_string};

verus! {

/// `char::is_whitespace`: the characters with the Unicode `White_Space` property.
pub open spec fn is_whitespace(c: char) -> bool {
    ||| ('\u{9}' <= c && c <= '\u{d}')
    ||| c == ' '
    ||| c == '\u{85}'
    ||| c == '\u{a0}'
    ||| c == '\u{1680}'
    ||| ('\u{2000}' <= c && c <= '\u{200a}')
    ||| c == '\u{2028}'
    ||| c == '\u{2029}'
    ||| c == '\u{202f}'
    ||| c == '\u{205f}'
    ||| c == '\u{3000}'
}

/// The first position at or after `i` that holds no whitespace (or `s.len()`).
pub open spec fn skip_space(s: Seq<char>, i: int) -> int
    decreases s.len() - i,
{
    if 0 <= i < s.len() && is_whitespace(s[i]) {
        skip_space(s, i + 1)
    } else {
        i
    }
}

/// The first position at or after `i` that holds whitespace (or `s.len()`).
pub open spec fn word_end(s: Seq<char>, i: int) -> int
    decreases s.len() - i,
{
    if 0 <= i < s.len() && !is_whitespace(s[i]) {
        word_end(s, i + 1)
    } else {
        i
    }
}

pub proof fn lemma_skip_space(s: Seq<char>, i: int)
    requires
        0 <= i <= s.len(),
    ensures
        i <= skip_space(s, i) <= s.len(),
        skip_space(s, i) < s.len() ==> !is_whitespace(s[skip_space(s, i)]),
    decreases s.len() - i,
{
    if i < s.len() && is_whitespace(s[i]) {
        lemma_skip_space(s, i + 1);
    }
}

pub proof fn lemma_word_end(s: Seq<char>, i: int)
    requires
        0 <= i <= s.len(),
    ensures
        i <= word_end(s, i) <= s.len(),
        i < s.len() && !is_whitespace(s[i]) ==> i < word_end(s, i),
    decreases s.len() - i,
{
    if i < s.len() && !is_whitespace(s[i]) {
        lemma_word_end(s, i + 1);
    }
}

/// The words of `s` from position `i` on, as `str::split_whitespace` gives them.
pub open spec fn words_from(s: Seq<char>, i: int) -> Seq<Seq<char>>
    decreases s.len() - i,
{
    if i < 0 || i >= s.len() {
        Seq::empty()
    } else {
        let j = skip_space(s, i);
        proof {
            lemma_skip_space(s, i);
        }
        if j >= s.len() {
            Seq::empty()
        } else {
            let k = word_end(s, j);
            proof {
                lemma_word_end(s, j);
            }
            seq![s.subrange(j, k)] + words_from(s, k)
        }
    }
}

pub open spec fn is_digit(c: char) -> bool {
    '0' <= c && c <= '9'
}

pub open spec fn digit_value(c: char) -> int {
    c as int - '0' as int
}

/// The number that the decimal digits `d` write.
pub open spec fn decimal_value(d: Seq<char>) -> int
    decreases d.len(),
{
    if d.len() == 0 {
        0
    } else {
        decimal_value(d.drop_last()) * 10 + digit_value(d.last())
    }
}

/// A word without the `+` it may start with.
pub open spec fn unsigned_digits(t: Seq<char>) -> Seq<char> {
    if t.len() > 0 && t[0] == '+' {
        t.drop_first()
    } else {
        t
    }
}

/// The number a word gives as an unsigned integer type with largest value
/// `max` reads it (`str::parse`): an optional `+`, then one or more decimal
/// digits, of value at most `max`.
pub open spec fn unsigned_value(t: Seq<char>, max: int) -> Option<int> {
    let d = unsigned_digits(t);
    if d.len() > 0 && (forall|k: int| 0 <= k < d.len() ==> is_digit(#[trigger] d[k]))
        && decimal_value(d) <= max {
        Some(decimal_value(d))
    } else {
        None
    }
}

proof fn lemma_decimal_prefix(d: Seq<char>, k: int)
    requires
        0 <= k <= d.len(),
        forall|j: int| 0 <= j < d.len() ==> is_digit(#[trigger] d[j]),
    ensures
        0 <= decimal_value(d.take(k)) <= decimal_value(d),
    decreases d.len() - k,
{
    if k < d.len() {
        lemma_decimal_prefix(d, k + 1);
        let t = d.take(k + 1);
        assert(t.drop_last() =~= d.take(k));
        assert(t.last() == d[k]);
        assert(is_digit(d[k]));
    } else {
        assert(d.take(k) =~= d);
        lemma_decimal_nonneg(d);
    }
}

proof fn lemma_decimal_nonneg(d: Seq<char>)
    requires
        forall|j: int| 0 <= j < d.len() ==> is_digit(#[trigger] d[j]),
    ensures
        0 <= decimal_value(d),
    decreases d.len(),
{
    if d.len() > 0 {
        assert(is_digit(d[d.len() - 1]));
        lemma_decimal_nonneg(d.drop_last());
    }
}

/// The word `cs[a..b]` read as an unsigned number of largest value `max`.
fn parse_unsigned(cs: &Vec<char>, a: usize, b: usize, max: usize) -> (res: Option<usize>)
    requires
        a <= b <= cs.len(),
        max >= 9,
    ensures
        match unsigned_value(cs@.subrange(a as int, b as int), max as int) {
            Some(v) => res matches Some(r) && r as int == v,
            None => res is None,
        },
{
    let ghost t = cs@.subrange(a as int, b as int);
    let start = if a < b && cs[a] == '+' {
        a + 1
    } else {
        a
    };
    let ghost d = cs@.subrange(start as int, b as int);
    assert(d =~= unsigned_digits(t));
    if start == b {
        return None;
    }
    let mut v: usize = 0;
    let mut i = start;
    while i < b
        invariant
            start <= i <= b <= cs.len(),
            max >= 9,
            d == cs@.subrange(start as int, b as int),
            t == cs@.subrange(a as int, b as int),
            d == unsigned_digits(t),
            forall|j: int| 0 <= j < i - start ==> is_digit(#[trigger] d[j]),
            v == decimal_value(d.take(i - start)),
            v <= max,
        decreases b - i,
    {
        let c = cs[i];
        if !('0' <= c && c <= '9') {
            assert(!is_digit(d[i - start]));
            assert(!(forall|k: int| 0 <= k < d.len() ==> is_digit(#[trigger] d[k])));
            assert(unsigned_value(t, max as int) is None);
            return None;
        }
        let dv = (c as u32 - '0' as u32) as usize;
        let ghost t2 = d.take(i - start + 1);
        assert(t2.drop_last() =~= d.take(i - start));
        assert(t2.last() == c);
        assert(dv == digit_value(c));
        assert(decimal_value(t2) == v * 10 + dv);
        if v > (max - dv) / 10 {
            assert(v * 10 + dv > max) by (nonlinear_arith)
                requires
                    v > (max - dv) / 10,
                    dv <= 9,
                    max >= 9,
            ;
            proof {
                if forall|j: int| 0 <= j < d.len() ==> is_digit(#[trigger] d[j]) {
                    lemma_decimal_prefix(d, i - start + 1);
                }
            }
            assert(unsigned_value(t, max as int) is None);
            return None;
        }
        assert(v * 10 + dv <= max) by (nonlinear_arith)
            requires
                v <= (max - dv) / 10,
                dv <= 9,
                max >= 9,
        ;
        v = v * 10 + dv;
        i = i + 1;
    }
    assert(d.take(b - start) =~= d);
    Some(v)
}

/// Word `k` of `words` is a `u32` number.
pub open spec fn is_u32_word(w: Seq<char>) -> bool {
    unsigned_value(w, u32::MAX as int) is Some
}

/// The first position at or after `i` whose word is a `u32` number (or `words.len()`).
pub open spec fn name_end(words: Seq<Seq<char>>, i: int) -> int
    decreases words.len() - i,
{
    if i < 0 || i >= words.len() {
        words.len() as int
    } else if is_u32_word(words[i]) {
        i
    } else {
        name_end(words, i + 1)
    }
}

/// Words joined by single spaces.
pub open spec fn join_words(ws: Seq<Seq<char>>) -> Seq<char>
    decreases ws.len(),
{
    if ws.len() == 0 {
        Seq::empty()
    } else if ws.len() == 1 {
        ws[0]
    } else {
        join_words(ws.drop_last()) + seq![' '] + ws.last()
    }
}

/// The number of bytes UTF-8 takes for `c`.
pub open spec fn utf8_len(c: char) -> int {
    if (c as u32) < 0x80 {
        1
    } else if (c as u32) < 0x800 {
        2
    } else if (c as u32) < 0x10000 {
        3
    } else {
        4
    }
}

/// The name without its first byte and its last two, where those bytes
/// are whole characters and the first comes before the last two.
pub open spec fn strip_quotes(name: Seq<char>) -> Option<Seq<char>> {
    let n = name.len();
    if n >= 1 && utf8_len(name[0]) == 1 {
        if n >= 2 && utf8_len(name[n - 1]) == 2 {
            Some(name.subrange(1, n - 1))
        } else if n >= 3 && utf8_len(name[n - 1]) == 1 && utf8_len(name[n - 2]) == 1 {
            Some(name.subrange(1, n - 2))
        } else {
            None
        }
    } else {
        None
    }
}

/// What a report line says: the type's name, its size and its alignment;
/// `None` where the line is not in the shape the reader needs.
pub open spec fn line_entry(line: Seq<char>) -> Option<(Seq<char>, int, int)> {
    let w = words_from(line, 0);
    if w.len() < 3 {
        None
    } else {
        let m = name_end(w, 3);
        if m + 3 >= w.len() {
            None
        } else {
            match (
                unsigned_value(w[m], usize::MAX as int),
                unsigned_value(w[m + 3], usize::MAX as int),
                strip_quotes(join_words(w.subrange(2, m))),
            ) {
                (Some(size), Some(align), Some(name)) => Some((name, size, align)),
                _ => None,
            }
        }
    }
}

/// `type:` occurs in the line.
pub open spec fn mentions_type(line: Seq<char>) -> bool {
    exists|k: int| occurs_at(line, seq!['t', 'y', 'p', 'e', ':'], k)
}

/// The pieces of `s` from `i` on between line feeds, as `str::split_terminator`
/// gives them: a line feed at the very end does not start another piece.
pub open spec fn pieces_from(s: Seq<char>, i: int) -> Seq<Seq<char>>
    decreases s.len() - i,
{
    if i < 0 || i >= s.len() {
        Seq::empty()
    } else {
        let e = first_newline(s, i);
        proof {
            lemma_first_newline(s, i);
        }
        if e >= s.len() {
            seq![s.subrange(i, s.len() as int)]
        } else {
            seq![s.subrange(i, e)] + pieces_from(s, e + 1)
        }
    }
}

/// What the lines that mention `type:` say, in the order of the lines.
pub open spec fn entries_of(lines: Seq<Seq<char>>) -> Seq<(Seq<char>, int, int)>
    decreases lines.len(),
{
    if lines.len() == 0 {
        Seq::empty()
    } else if mentions_type(lines.last()) {
        entries_of(lines.drop_last()).push(line_entry(lines.last()).unwrap())
    } else {
        entries_of(lines.drop_last())
    }
}

/// The map from names to size and alignment that the entries make, a later
/// entry for a name taking the place of an earlier one.
pub open spec fn entries_map(es: Seq<(Seq<char>, int, int)>) -> Map<Seq<char>, (int, int)>
    decreases es.len(),
{
    if es.len() == 0 {
        Map::empty()
    } else {
        entries_map(es.drop_last()).insert(es.last().0, (es.last().1, es.last().2))
    }
}

/// Every line of the report that mentions `type:` is in the shape the reader needs.
pub open spec fn report_readable(s: Seq<char>) -> bool {
    forall|k: int|
        0 <= k < pieces_from(s, 0).len() && mentions_type(#[trigger] pieces_from(s, 0)[k])
            ==> line_entry(pieces_from(s, 0)[k]) is Some
}

/// The type sizes the report gives.
pub open spec fn report_sizes(s: Seq<char>) -> Map<Seq<char>, (int, int)> {
    entries_map(entries_of(pieces_from(s, 0)))
}

/// The size and alignment of one type.
#[derive(Debug, PartialEq, Eq)]
pub struct TypeSize {
    pub name: String,
    pub size: usize,
    pub align: usize,
}

/// `sizes` lists the map `m`: one entry per name of `m`, each with the size
/// and alignment that `m` gives the name, and no name twice.
pub open spec fn lists_map(sizes: Seq<TypeSize>, m: Map<Seq<char>, (int, int)>) -> bool {
    &&& forall|a: int, b: int|
        0 <= a < b < sizes.len() ==> #[trigger] sizes[a].name@ != #[trigger] sizes[b].name@
    &&& forall|a: int|
        0 <= a < sizes.len() ==> m.contains_key(#[trigger] sizes[a].name@) && m[sizes[a].name@] == (
            sizes[a].size as int,
            sizes[a].align as int,
        )
    &&& forall|key: Seq<char>|
        m.contains_key(key) ==> exists|a: int| 0 <= a < sizes.len() && #[trigger] sizes[a].name@ == key
}

/// The texts that the spans of `s` cover.
pub open spec fn spans_text(s: Seq<char>, spans: Seq<(usize, usize)>) -> Seq<Seq<char>> {
    spans.map_values(|p: (usize, usize)| s.subrange(p.0 as int, p.1 as int))
}

pub open spec fn spans_valid(len: int, spans: Seq<(usize, usize)>) -> bool {
    forall|k: int| 0 <= k < spans.len() ==> #[trigger] spans[k].0 <= spans[k].1 <= len
}

fn is_whitespace_exec(c: char) -> (res: bool)
    ensures
        res == is_whitespace(c),
{
    ('\u{9}' <= c && c <= '\u{d}') || c == ' ' || c == '\u{85}' || c == '\u{a0}' || c == '\u{1680}'
        || ('\u{2000}' <= c && c <= '\u{200a}') || c == '\u{2028}' || c == '\u{2029}' || c
        == '\u{202f}' || c == '\u{205f}' || c == '\u{3000}'
}

/// Where the words of `cs` start and end.
fn word_spans(cs: &Vec<char>) -> (res: Vec<(usize, usize)>)
    ensures
        spans_valid(cs@.len() as int, res@),
        spans_text(cs@, res@) == words_from(cs@, 0),
{
    let mut res: Vec<(usize, usize)> = Vec::new();
    let mut i: usize = 0;
    while i < cs.len()
        invariant
            i <= cs.len(),
            spans_valid(cs@.len() as int, res@),
            spans_text(cs@, res@) + words_from(cs@, i as int) == words_from(cs@, 0),
        decreases cs.len() - i,
    {
        let mut j = i;
        proof {
            lemma_skip_space(cs@, i as int);
        }
        while j < cs.len() && is_whitespace_exec(cs[j])
            invariant
                i <= j <= cs.len(),
                skip_space(cs@, i as int) == skip_space(cs@, j as int),
            decreases cs.len() - j,
        {
            j = j + 1;
        }
        if j == cs.len() {
            assert(words_from(cs@, i as int) =~= Seq::<Seq<char>>::empty());
            assert(words_from(cs@, cs.len() as int) =~= Seq::<Seq<char>>::empty());
            i = j;
        } else {
            let mut k = j;
            proof {
                lemma_word_end(cs@, j as int);
            }
            while k < cs.len() && !is_whitespace_exec(cs[k])
                invariant
                    j <= k <= cs.len(),
                    word_end(cs@, j as int) == word_end(cs@, k as int),
                decreases cs.len() - k,
            {
                k = k + 1;
            }
            let ghost before = res@;
            res.push((j, k));
            assert(spans_text(cs@, res@) =~= spans_text(cs@, before) + seq![
                cs@.subrange(j as int, k as int),
            ]);
            i = k;
        }
    }
    assert(words_from(cs@, i as int) =~= Seq::<Seq<char>>::empty());
    assert(spans_text(cs@, res@) =~= spans_text(cs@, res@) + Seq::<Seq<char>>::empty());
    res
}

fn utf8_len_exec(c: char) -> (res: usize)
    ensures
        res == utf8_len(c),
{
    let u = c as u32;
    if u < 0x80 {
        1
    } else if u < 0x800 {
        2
    } else if u < 0x10000 {
        3
    } else {
        4
    }
}

fn strip_quotes_exec(name: &str) -> (res: Option<String>)
    ensures
        match strip_quotes(name@) {
            Some(k) => res matches Some(r) && r@ == k,
            None => res is None,
        },
{
    let nc = chars_of(name);
    let n = nc.len();
    if n >= 1 && utf8_len_exec(nc[0]) == 1 {
        if n >= 2 && utf8_len_exec(nc[n - 1]) == 2 {
            Some(slice_string(name, 1, n - 1))
        } else if n >= 3 && utf8_len_exec(nc[n - 1]) == 1 && utf8_len_exec(nc[n - 2]) == 1 {
            Some(slice_string(name, 1, n - 2))
        } else {
            None
        }
    } else {
        None
    }
}

/// What a report line says, where it is in the shape the reader needs.
fn read_line(line: &str) -> (res: Option<TypeSize>)
    ensures
        match line_entry(line@) {
            Some((name, size, align)) => res matches Some(t) && t.name@ == name && t.size == size
                && t.align == align,
            None => res is None,
        },
{
    let lc = chars_of(line);
    let ws = word_spans(&lc);
    let ghost w = words_from(lc@, 0);
    assert(w.len() == ws@.len());
    if ws.len() < 3 {
        return None;
    }
    let u32_max = u32::MAX as usize;
    let mut m: usize = 3;
    while m < ws.len() && parse_unsigned(&lc, ws[m].0, ws[m].1, u32_max).is_none()
        invariant
            3 <= m <= ws@.len(),
            w == words_from(lc@, 0),
            w == spans_text(lc@, ws@),
            spans_valid(lc@.len() as int, ws@),
            u32_max == u32::MAX,
            name_end(w, 3) == name_end(w, m as int),
        decreases ws.len() - m,
    {
        assert(w[m as int] == lc@.subrange(ws@[m as int].0 as int, ws@[m as int].1 as int));
        m = m + 1;
    }
    if m < ws.len() {
        assert(w[m as int] == lc@.subrange(ws@[m as int].0 as int, ws@[m as int].1 as int));
    }
    assert(name_end(w, m as int) == m);
    if ws.len() - m <= 3 {
        return None;
    }
    let mut name = String::new();
    let mut k: usize = 2;
    while k < m
        invariant
            2 <= k <= m < ws@.len(),
            w == spans_text(lc@, ws@),
            spans_valid(lc@.len() as int, ws@),
            lc@ == line@,
            w == words_from(lc@, 0),
            name_end(w, 3) == m,
            name@ == join_words(w.subrange(2, k as int)),
        decreases m - k,
    {
        let ghost before = name@;
        if k > 2 {
            name.append(" ");
            proof {
                reveal_strlit(" ");
            }
        }
        let word = slice_string(line, ws[k].0, ws[k].1);
        name.append(word.as_str());
        proof {
            let ws2 = w.subrange(2, k + 1);
            assert(ws2.drop_last() =~= w.subrange(2, k as int));
            assert(ws2.last() == w[k as int]);
            if k == 2 {
                assert(before =~= Seq::<char>::empty());
            }
            assert(name@ =~= join_words(ws2));
        }
        k = k + 1;
    }
    let size = parse_unsigned(&lc, ws[m].0, ws[m].1, usize::MAX);
    let align = parse_unsigned(&lc, ws[m + 3].0, ws[m + 3].1, usize::MAX);
    assert(w[m as int] == lc@.subrange(ws@[m as int].0 as int, ws@[m as int].1 as int));
    assert(w[m + 3] == lc@.subrange(ws@[m + 3].0 as int, ws@[m + 3].1 as int));
    let key = strip_quotes_exec(name.as_str());
    match (size, align, key) {
        (Some(size), Some(align), Some(key)) => Some(TypeSize { name: key, size, align }),
        _ => None,
    }
}

fn mentions_type_exec(line: &str) -> (res: bool)
    ensures
        res == mentions_type(line@),
{
    let lc = chars_of(line);
    let pat = chars_of("type:");
    proof {
        reveal_strlit("type:");
        assert(pat@ =~= seq!['t', 'y', 'p', 'e', ':']);
    }
    let mut i: usize = 0;
    while i < lc.len()
        invariant
            i <= lc.len(),
            lc@ == line@,
            pat@ == seq!['t', 'y', 'p', 'e', ':'],
            forall|k: int| 0 <= k < i ==> !occurs_at(lc@, pat@, k),
        decreases lc.len() - i,
    {
        if occurs_at_exec(&lc, &pat, i) {
            assert(occurs_at(lc@, seq!['t', 'y', 'p', 'e', ':'], i as int));
            return true;
        }
        i = i + 1;
    }
    assert forall|k: int| !occurs_at(lc@, pat@, k) by {
        if 0 <= k < i {
        }
    }
    false
}

/// Where the pieces of `cs` between line feeds start and end.
fn piece_spans(cs: &Vec<char>) -> (res: Vec<(usize, usize)>)
    ensures
        spans_valid(cs@.len() as int, res@),
        spans_text(cs@, res@) == pieces_from(cs@, 0),
{
    let mut res: Vec<(usize, usize)> = Vec::new();
    let mut start: usize = 0;
    while start < cs.len()
        invariant
            start <= cs.len(),
            spans_valid(cs@.len() as int, res@),
            spans_text(cs@, res@) + pieces_from(cs@, start as int) == pieces_from(cs@, 0),
        decreases cs.len() - start,
    {
        let mut e = start;
        proof {
            lemma_first_newline(cs@, start as int);
        }
        while e < cs.len() && cs[e] != '\n'
            invariant
                start <= e <= cs.len(),
                first_newline(cs@, start as int) == first_newline(cs@, e as int),
            decreases cs.len() - e,
        {
            e = e + 1;
        }
        let ghost before = res@;
        res.push((start, e));
        assert(spans_text(cs@, res@) =~= spans_text(cs@, before) + seq![
            cs@.subrange(start as int, e as int),
        ]);
        if e == cs.len() {
            assert(pieces_from(cs@, cs.len() as int) =~= Seq::<Seq<char>>::empty());
            start = e;
        } else {
            start = e + 1;
        }
    }
    assert(pieces_from(cs@, start as int) =~= Seq::<Seq<char>>::empty());
    assert(spans_text(cs@, res@) =~= spans_text(cs@, res@) + Seq::<Seq<char>>::empty());
    res
}

/// Every line of the report that mentions `type:` is in the shape the reader needs.
pub fn report_is_readable(input: &str) -> (res: bool)
    ensures
        res == report_readable(input@),
{
    let cs = chars_of(input);
    let ps = piece_spans(&cs);
    let ghost pieces = pieces_from(cs@, 0);
    for k in 0..ps.len()
        invariant
            cs@ == input@,
            pieces == pieces_from(cs@, 0),
            pieces == spans_text(cs@, ps@),
            spans_valid(cs@.len() as int, ps@),
            forall|j: int|
                0 <= j < k && mentions_type(#[trigger] pieces[j]) ==> line_entry(pieces[j]) is Some,
    {
        let line = input.substring_char(ps[k].0, ps[k].1);
        assert(line@ == pieces[k as int]);
        if mentions_type_exec(line) && read_line(line).is_none() {
            return false;
        }
    }
    true
}

/// The size and alignment of each type that the report names; a later line
/// for a type takes the place of an earlier one.
pub fn str_to_typesizes(input: &str) -> (res: Vec<TypeSize>)
    requires
        report_readable(input@),
    ensures
        lists_map(res@, report_sizes(input@)),
{
    let cs = chars_of(input);
    let ps = piece_spans(&cs);
    let ghost pieces = pieces_from(cs@, 0);
    let mut res: Vec<TypeSize> = Vec::new();
    assert(pieces.take(0) =~= Seq::<Seq<char>>::empty());
    for k in 0..ps.len()
        invariant
            cs@ == input@,
            pieces == pieces_from(cs@, 0),
            pieces == spans_text(cs@, ps@),
            spans_valid(cs@.len() as int, ps@),
            report_readable(input@),
            lists_map(res@, entries_map(entries_of(pieces.take(k as int)))),
    {
        let line = input.substring_char(ps[k].0, ps[k].1);
        assert(line@ == pieces[k as int]);
        let ghost lines = pieces.take(k + 1);
        assert(lines.drop_last() =~= pieces.take(k as int));
        assert(lines.last() == pieces[k as int]);
        let ghost m = entries_map(entries_of(pieces.take(k as int)));
        if mentions_type_exec(line) {
            assert(line_entry(pieces[k as int]) is Some);
            match read_line(line) {
                Some(entry) => {
                    let ghost es = entries_of(lines);
                    assert(es.drop_last() =~= entries_of(pieces.take(k as int)));
                    let ghost m2 = m.insert(entry.name@, (entry.size as int, entry.align as int));
                    assert(entries_map(es) == m2);
                    let mut j: usize = 0;
                    while j < res.len() && !(res[j].name == entry.name)
                        invariant
                            j <= res@.len(),
                            forall|a: int| 0 <= a < j ==> #[trigger] res@[a].name@ != entry.name@,
                        decreases res.len() - j,
                    {
                        j = j + 1;
                    }
                    let ghost old_res = res@;
                    if j < res.len() {
                        assert(res@[j as int].name@ == entry.name@);
                        res.set(j, entry);
                        assert forall|key: Seq<char>| m2.contains_key(key) implies exists|a: int|
                            0 <= a < res@.len() && #[trigger] res@[a].name@ == key by {
                            if key != entry.name@ {
                                let a = choose|a: int|
                                    0 <= a < old_res.len() && #[trigger] old_res[a].name@ == key;
                                assert(res@[a].name@ == key);
                            } else {
                                assert(res@[j as int].name@ == key);
                            }
                        }
                    } else {
                        res.push(entry);
                        assert forall|key: Seq<char>| m2.contains_key(key) implies exists|a: int|
                            0 <= a < res@.len() && #[trigger] res@[a].name@ == key by {
                            if key != entry.name@ {
                                let a = choose|a: int|
                                    0 <= a < old_res.len() && #[trigger] old_res[a].name@ == key;
                                assert(res@[a].name@ == key);
                            } else {
                                assert(res@[old_res.len() as int].name@ == key);
                            }
                        }
                    }
                },
                None => {},
            }
        } else {
            assert(entries_of(lines) =~= entries_of(pieces.take(k as int)));
        }
    }
    assert(pieces.take(ps.len() as int) =~= pieces);
    res
}

} // verus!
