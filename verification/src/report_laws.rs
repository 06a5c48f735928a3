//! What reading a type-size report gives, stated on the shape of its lines.
//!
//! A report line has the shape
//! ```text
//! p type: `N`: S b c A r
//! ```
//! with words `p`, `b`, `c`, a name `N` of words separated by single spaces,
//! decimal numbers `S` and `A`, and a rest `r` that starts with whitespace.
//! The line gives the type `N` the size `S` and the alignment `A`, whatever
//! they are (zero included) and however many words `N` has.

use vstd::prelude::*;

use crate::replace::occurs_at;
use crate::line_laws::lemma_first_newline_skips;
use crate::text::{first_newline, lemma_first_newline};
use crate::type_sizes::{
    decimal_value, entries_map, entries_of, is_digit, is_u32_word, is_whitespace, join_words,
    lemma_skip_space, lemma_word_end, line_entry, mentions_type, name_end, pieces_from,
    report_readable, report_sizes, skip_space, strip_quotes, unsigned_digits, unsigned_value,
    utf8_len, word_end, words_from,
};

verus! {

proof fn lemma_skip_space_shift(x: Seq<char>, y: Seq<char>, j: int)
    requires
        0 <= j <= y.len(),
    ensures
        skip_space(x + y, x.len() + j) == x.len() + skip_space(y, j),
    decreases y.len() - j,
{
    if j < y.len() {
        assert((x + y)[x.len() + j] == y[j]);
        if is_whitespace(y[j]) {
            lemma_skip_space_shift(x, y, j + 1);
        }
    }
}

proof fn lemma_word_end_shift(x: Seq<char>, y: Seq<char>, j: int)
    requires
        0 <= j <= y.len(),
    ensures
        word_end(x + y, x.len() + j) == x.len() + word_end(y, j),
    decreases y.len() - j,
{
    if j < y.len() {
        assert((x + y)[x.len() + j] == y[j]);
        if !is_whitespace(y[j]) {
            lemma_word_end_shift(x, y, j + 1);
        }
    }
}

proof fn lemma_words_shift(x: Seq<char>, y: Seq<char>, j: int)
    requires
        0 <= j <= y.len(),
    ensures
        words_from(x + y, x.len() + j) == words_from(y, j),
    decreases y.len() - j,
{
    let p = x + y;
    if j < y.len() {
        lemma_skip_space_shift(x, y, j);
        lemma_skip_space(y, j);
        let jj = skip_space(y, j);
        if jj < y.len() {
            lemma_word_end_shift(x, y, jj);
            lemma_word_end(y, jj);
            let k = word_end(y, jj);
            assert(p.subrange(x.len() + jj, x.len() + k) =~= y.subrange(jj, k));
            lemma_words_shift(x, y, k);
        }
    }
}

proof fn lemma_word_end_of_word(w: Seq<char>, r: Seq<char>, j: int)
    requires
        0 <= j <= w.len(),
        forall|k: int| 0 <= k < w.len() ==> !is_whitespace(#[trigger] w[k]),
        r.len() == 0 || is_whitespace(r[0]),
    ensures
        word_end(w + r, j) == w.len(),
    decreases w.len() - j,
{
    if j < w.len() {
        assert((w + r)[j] == w[j]);
        lemma_word_end_of_word(w, r, j + 1);
    } else if r.len() > 0 {
        assert((w + r)[j] == r[0]);
    }
}

/// A word followed by whitespace or by nothing is the first word.
proof fn lemma_word_then(w: Seq<char>, r: Seq<char>)
    requires
        w.len() > 0,
        forall|k: int| 0 <= k < w.len() ==> !is_whitespace(#[trigger] w[k]),
        r.len() == 0 || is_whitespace(r[0]),
    ensures
        words_from(w + r, 0) == seq![w] + words_from(r, 0),
{
    let p = w + r;
    assert(p[0] == w[0]);
    assert(!is_whitespace(w[0]));
    assert(skip_space(p, 0) == 0);
    lemma_word_end_of_word(w, r, 0);
    assert(p.subrange(0, w.len() as int) =~= w);
    lemma_words_shift(w, r, 0);
}

/// A word, one space and the rest.
proof fn lemma_word_space(w: Seq<char>, rest: Seq<char>)
    requires
        w.len() > 0,
        forall|k: int| 0 <= k < w.len() ==> !is_whitespace(#[trigger] w[k]),
    ensures
        words_from(w + (seq![' '] + rest), 0) == seq![w] + words_from(rest, 0),
{
    let sr = seq![' '] + rest;
    lemma_word_then(w, sr);
    // the space is skipped
    assert(is_whitespace(sr[0]));
    assert(skip_space(sr, 0) == skip_space(sr, 1));
    assert(words_from(sr, 0) == words_from(sr, 1));
    lemma_words_shift(seq![' '], rest, 0);
}

pub proof fn lemma_join_words_cons(w: Seq<char>, ws: Seq<Seq<char>>)
    requires
        ws.len() > 0,
    ensures
        join_words(seq![w] + ws) == w + seq![' '] + join_words(ws),
    decreases ws.len(),
{
    let g = seq![w] + ws;
    assert(g.drop_last() =~= seq![w] + ws.drop_last());
    assert(g.last() == ws.last());
    assert(join_words(g) == join_words(g.drop_last()) + seq![' '] + g.last());
    if ws.len() == 1 {
        assert(g.drop_last() =~= seq![w]);
        assert(join_words(g.drop_last()) == w);
        assert(join_words(ws) == ws[0]);
    } else {
        lemma_join_words_cons(w, ws.drop_last());
        assert(join_words(ws) == join_words(ws.drop_last()) + seq![' '] + ws.last());
    }
    assert(join_words(g) =~= w + seq![' '] + join_words(ws));
}

/// Words separated by single spaces: no other whitespace, no space at either
/// end, no two spaces in a row.
pub open spec fn single_spaced(t: Seq<char>) -> bool {
    &&& t.len() > 0
    &&& t[0] != ' '
    &&& t.last() != ' '
    &&& forall|k: int| 0 <= k < t.len() ==> #[trigger] t[k] == ' ' || !is_whitespace(t[k])
    &&& forall|k: int| 0 <= k < t.len() - 1 && #[trigger] t[k] == ' ' ==> t[k + 1] != ' '
}

/// No word after the first starts with a digit or `+`.
pub open spec fn no_number_after_space(t: Seq<char>) -> bool {
    forall|k: int|
        0 <= k < t.len() - 1 && #[trigger] t[k] == ' ' ==> !is_digit(t[k + 1]) && t[k + 1] != '+'
}

proof fn lemma_word_end_facts(s: Seq<char>, i: int)
    requires
        0 <= i <= s.len(),
    ensures
        forall|j: int| i <= j < word_end(s, i) ==> !is_whitespace(#[trigger] s[j]),
        word_end(s, i) < s.len() ==> is_whitespace(s[word_end(s, i)]),
    decreases s.len() - i,
{
    lemma_word_end(s, i);
    if i < s.len() && !is_whitespace(s[i]) {
        lemma_word_end_facts(s, i + 1);
    }
}

proof fn lemma_single_spaced_words(t: Seq<char>, rest: Seq<char>)
    requires
        single_spaced(t),
        no_number_after_space(t),
    ensures
        words_from(t + (seq![' '] + rest), 0) == words_from(t, 0) + words_from(rest, 0),
        join_words(words_from(t, 0)) == t,
        words_from(t, 0).len() > 0,
        words_from(t, 0)[0].len() > 0 && words_from(t, 0)[0][0] == t[0],
        forall|i: int|
            1 <= i < words_from(t, 0).len() ==> (#[trigger] words_from(t, 0)[i]).len() > 0
                && !is_digit(words_from(t, 0)[i][0]) && words_from(t, 0)[i][0] != '+',
    decreases t.len(),
{
    lemma_word_end_facts(t, 0);
    lemma_word_end(t, 0);
    let e = word_end(t, 0);
    let w = t.take(e);
    assert(!is_whitespace(t[0]));
    assert(e > 0);
    assert forall|k: int| 0 <= k < w.len() implies !is_whitespace(#[trigger] w[k]) by {
        assert(w[k] == t[k]);
    }
    if e == t.len() {
        assert(w =~= t);
        lemma_word_then(t, Seq::<char>::empty());
        assert(t + Seq::<char>::empty() =~= t);
        assert(words_from(Seq::<char>::empty(), 0) =~= Seq::<Seq<char>>::empty());
        assert(words_from(t, 0) =~= seq![t]);
        lemma_word_space(t, rest);
    } else {
        assert(t[e] == ' ');
        assert(e != t.len() - 1);
        let t2 = t.skip(e + 1);
        assert(t =~= w + (seq![' '] + t2));
        assert(t2[0] == t[e + 1]);
        assert(t2[0] != ' ');
        assert(t2.last() == t.last());
        assert forall|k: int| 0 <= k < t2.len() implies #[trigger] t2[k] == ' ' || !is_whitespace(
            t2[k],
        ) by {
            assert(t2[k] == t[e + 1 + k]);
        }
        assert forall|k: int| 0 <= k < t2.len() - 1 && #[trigger] t2[k] == ' ' implies t2[k + 1]
            != ' ' by {
            assert(t2[k] == t[e + 1 + k]);
            assert(t2[k + 1] == t[e + 1 + k + 1]);
        }
        assert forall|k: int| 0 <= k < t2.len() - 1 && #[trigger] t2[k] == ' ' implies !is_digit(
            t2[k + 1],
        ) && t2[k + 1] != '+' by {
            assert(t2[k] == t[e + 1 + k]);
            assert(t2[k + 1] == t[e + 1 + k + 1]);
        }
        lemma_single_spaced_words(t2, rest);
        lemma_word_space(w, t2);
        lemma_word_space(w, t2 + (seq![' '] + rest));
        assert(t + (seq![' '] + rest) =~= w + (seq![' '] + (t2 + (seq![' '] + rest))));
        let w2 = words_from(t2, 0);
        lemma_join_words_cons(w, w2);
        assert(words_from(t, 0) == seq![w] + w2);
        assert(w + seq![' '] + t2 =~= t);
        assert(w[0] == t[0]);
        assert forall|i: int| 1 <= i < words_from(t, 0).len() implies (#[trigger] words_from(
            t,
            0,
        )[i]).len() > 0 && !is_digit(words_from(t, 0)[i][0]) && words_from(t, 0)[i][0] != '+' by {
            assert(words_from(t, 0)[i] == w2[i - 1]);
            if i == 1 {
                assert(t[e] == ' ');
            }
        }
        assert(words_from(t, 0) + words_from(rest, 0) =~= seq![w] + (w2 + words_from(rest, 0)));
    }
}

/// A non-empty run of characters that are not whitespace.
pub open spec fn is_word(w: Seq<char>) -> bool {
    w.len() > 0 && forall|k: int| 0 <= k < w.len() ==> !is_whitespace(#[trigger] w[k])
}

/// A non-empty run of decimal digits.
pub open spec fn is_digits(d: Seq<char>) -> bool {
    d.len() > 0 && forall|k: int| 0 <= k < d.len() ==> is_digit(#[trigger] d[k])
}

/// The report line `p type: `name`: size b c align` followed by `r`.
pub open spec fn report_line(
    p: Seq<char>,
    name: Seq<char>,
    size: Seq<char>,
    b: Seq<char>,
    c: Seq<char>,
    align: Seq<char>,
    r: Seq<char>,
) -> Seq<char> {
    p + seq![' ', 't', 'y', 'p', 'e', ':', ' ', '`'] + name + seq!['`', ':', ' '] + size + seq![' ']
        + b + seq![' '] + c + seq![' '] + align + r
}

/// The parts of a report line are in the shape the report writes: words,
/// a name of words separated by single spaces none of which after the
/// first is a number, two decimal numbers, and a rest that starts with
/// whitespace or is empty.
pub open spec fn report_line_parts(
    p: Seq<char>,
    name: Seq<char>,
    size: Seq<char>,
    b: Seq<char>,
    c: Seq<char>,
    align: Seq<char>,
    r: Seq<char>,
) -> bool {
    &&& is_word(p)
    &&& is_word(b)
    &&& is_word(c)
    &&& single_spaced(name)
    &&& no_number_after_space(name)
    &&& is_digits(size)
    &&& decimal_value(size) <= u32::MAX
    &&& is_digits(align)
    &&& decimal_value(align) <= usize::MAX
    &&& (r.len() == 0 || is_whitespace(r[0]))
}

proof fn lemma_name_end_at(words: Seq<Seq<char>>, i: int, m: int)
    requires
        0 <= i <= m < words.len(),
        forall|j: int| i <= j < m ==> !is_u32_word(#[trigger] words[j]),
        is_u32_word(words[m]),
    ensures
        name_end(words, i) == m,
    decreases m - i,
{
    if i < m {
        lemma_name_end_at(words, i + 1, m);
    }
}

proof fn lemma_digits_value(d: Seq<char>, max: int)
    requires
        is_digits(d),
        decimal_value(d) <= max,
    ensures
        unsigned_value(d, max) == Some(decimal_value(d)),
{
    assert(is_digit(d[0]));
    assert(unsigned_digits(d) == d);
}

proof fn lemma_quoted_name(name: Seq<char>)
    requires
        single_spaced(name),
        no_number_after_space(name),
    ensures
        single_spaced(seq!['`'] + name + seq!['`', ':']),
        no_number_after_space(seq!['`'] + name + seq!['`', ':']),
        strip_quotes(seq!['`'] + name + seq!['`', ':']) == Some(name),
{
    let q = seq!['`'] + name + seq!['`', ':'];
    let n = name.len();
    assert(q[0] == '`');
    assert(q[q.len() - 1] == ':');
    assert(q[q.len() - 2] == '`');
    assert forall|k: int| 0 <= k < q.len() implies #[trigger] q[k] == ' ' || !is_whitespace(q[k]) by {
        if 1 <= k <= n {
            assert(q[k] == name[k - 1]);
        }
    }
    assert forall|k: int| 0 <= k < q.len() - 1 && #[trigger] q[k] == ' ' implies q[k + 1] != ' '
        && !is_digit(q[k + 1]) && q[k + 1] != '+' by {
        assert(1 <= k <= n);
        assert(q[k] == name[k - 1]);
        if k < n {
            assert(q[k + 1] == name[k]);
        } else {
            assert(name[n - 1] == name.last());
        }
    }
    assert(utf8_len('`') == 1);
    assert(utf8_len(':') == 1);
    assert(q.subrange(1, q.len() - 2) =~= name);
}

proof fn lemma_report_line_words(
    p: Seq<char>,
    name: Seq<char>,
    size: Seq<char>,
    b: Seq<char>,
    c: Seq<char>,
    align: Seq<char>,
    r: Seq<char>,
)
    requires
        report_line_parts(p, name, size, b, c, align, r),
    ensures
        words_from(report_line(p, name, size, b, c, align, r), 0) == seq![
            p,
            seq!['t', 'y', 'p', 'e', ':'],
        ] + words_from(seq!['`'] + name + seq!['`', ':'], 0) + seq![size, b, c, align]
            + words_from(r, 0),
{
    let sp = seq![' '];
    let t = seq!['t', 'y', 'p', 'e', ':'];
    let q = seq!['`'] + name + seq!['`', ':'];
    lemma_quoted_name(name);
    assert forall|k: int| 0 <= k < t.len() implies !is_whitespace(#[trigger] t[k]) by {
    }
    assert forall|k: int| 0 <= k < size.len() implies !is_whitespace(#[trigger] size[k]) by {
        assert(is_digit(size[k]));
    }
    assert forall|k: int| 0 <= k < align.len() implies !is_whitespace(#[trigger] align[k]) by {
        assert(is_digit(align[k]));
    }
    let x5 = align + r;
    let x4 = c + (sp + x5);
    let x3 = b + (sp + x4);
    let x2 = size + (sp + x3);
    let x1 = q + (sp + x2);
    let x0 = t + (sp + x1);
    assert(report_line(p, name, size, b, c, align, r) =~= p + (sp + x0));
    lemma_word_then(align, r);
    lemma_word_space(c, x5);
    lemma_word_space(b, x4);
    lemma_word_space(size, x3);
    lemma_single_spaced_words(q, x2);
    lemma_word_space(t, x1);
    lemma_word_space(p, x0);
    assert(words_from(report_line(p, name, size, b, c, align, r), 0) =~= seq![p, t] + words_from(
        q,
        0,
    ) + seq![size, b, c, align] + words_from(r, 0));
}

/// A report line gives its name, its size and its alignment: the name is all
/// the words between `type:` and the size, joined by single spaces, without
/// the quotes and the colon, however many words it has; the size and the
/// alignment are the numbers written, zero included. The line mentions
/// `type:`, so it is read.
pub proof fn law_report_line_gives_its_entry(
    p: Seq<char>,
    name: Seq<char>,
    size: Seq<char>,
    b: Seq<char>,
    c: Seq<char>,
    align: Seq<char>,
    r: Seq<char>,
)
    requires
        report_line_parts(p, name, size, b, c, align, r),
    ensures
        mentions_type(report_line(p, name, size, b, c, align, r)),
        line_entry(report_line(p, name, size, b, c, align, r)) == Some(
            (name, decimal_value(size), decimal_value(align)),
        ),
{
    let line = report_line(p, name, size, b, c, align, r);
    let t = seq!['t', 'y', 'p', 'e', ':'];
    let q = seq!['`'] + name + seq!['`', ':'];
    assert(line.subrange(p.len() + 1int, p.len() + 6int) =~= t);
    assert(occurs_at(line, t, p.len() + 1int));
    lemma_report_line_words(p, name, size, b, c, align, r);
    lemma_quoted_name(name);
    lemma_single_spaced_words(q, Seq::<char>::empty());
    let qw = words_from(q, 0);
    let w = words_from(line, 0);
    let k = qw.len() as int;
    let m = 2 + k;
    assert(w[m] == size);
    assert(w[m + 3] == align);
    assert forall|j: int| 3 <= j < m implies !is_u32_word(#[trigger] w[j]) by {
        assert(w[j] == qw[j - 2]);
        let x = qw[j - 2];
        assert(x.len() > 0 && !is_digit(x[0]) && x[0] != '+');
        assert(unsigned_digits(x) == x);
    }
    assert(u32::MAX <= usize::MAX);
    lemma_digits_value(size, u32::MAX as int);
    lemma_digits_value(size, usize::MAX as int);
    lemma_digits_value(align, usize::MAX as int);
    lemma_name_end_at(w, 3, m);
    assert(w.subrange(2, m) =~= qw);
}

proof fn lemma_no_newline_pieces(s: Seq<char>)
    requires
        s.len() > 0,
        forall|k: int| 0 <= k < s.len() ==> #[trigger] s[k] != '\n',
    ensures
        pieces_from(s, 0) == seq![s],
        pieces_from(s + seq!['\n'], 0) == seq![s],
{
    lemma_first_newline(s, 0);
    assert(s.subrange(0, s.len() as int) =~= s);
    let t = s + seq!['\n'];
    lemma_first_newline(t, 0);
    assert forall|k: int| 0 <= k < s.len() implies #[trigger] t[k] != '\n' by {
        assert(t[k] == s[k]);
    }
    assert(t[s.len() as int] == '\n');
    assert(first_newline(t, 0) == s.len());
    assert(t.subrange(0, s.len() as int) =~= s);
    assert(pieces_from(t, s.len() + 1int) =~= Seq::<Seq<char>>::empty());
}

/// A report of one such line, with or without a line feed after it, is
/// readable and gives exactly one type size: its name, with the size and
/// alignment written, zero included.
pub proof fn law_one_line_report(
    p: Seq<char>,
    name: Seq<char>,
    size: Seq<char>,
    b: Seq<char>,
    c: Seq<char>,
    align: Seq<char>,
    r: Seq<char>,
)
    requires
        report_line_parts(p, name, size, b, c, align, r),
        forall|k: int| 0 <= k < r.len() ==> #[trigger] r[k] != '\n',
    ensures
        report_readable(report_line(p, name, size, b, c, align, r)),
        report_sizes(report_line(p, name, size, b, c, align, r)) == map![
            name => (decimal_value(size), decimal_value(align)),
        ],
        report_readable(report_line(p, name, size, b, c, align, r) + seq!['\n']),
        report_sizes(report_line(p, name, size, b, c, align, r) + seq!['\n']) == map![
            name => (decimal_value(size), decimal_value(align)),
        ],
{
    let line = report_line(p, name, size, b, c, align, r);
    law_report_line_gives_its_entry(p, name, size, b, c, align, r);
    assert forall|k: int| 0 <= k < line.len() implies #[trigger] line[k] != '\n' by {
        let a0 = p.len() as int;
        let a1 = a0 + 8;
        let a2 = a1 + name.len();
        let a3 = a2 + 3;
        let a4 = a3 + size.len();
        let a5 = a4 + 1;
        let a6 = a5 + b.len();
        let a7 = a6 + 1;
        let a8 = a7 + c.len();
        let a9 = a8 + 1;
        let a10 = a9 + align.len();
        if k < a0 {
            assert(line[k] == p[k]);
            assert(!is_whitespace(p[k]));
        } else if a1 <= k < a2 {
            assert(line[k] == name[k - a1]);
        } else if a3 <= k < a4 {
            assert(line[k] == size[k - a3]);
            assert(is_digit(size[k - a3]));
        } else if a5 <= k < a6 {
            assert(line[k] == b[k - a5]);
            assert(!is_whitespace(b[k - a5]));
        } else if a7 <= k < a8 {
            assert(line[k] == c[k - a7]);
            assert(!is_whitespace(c[k - a7]));
        } else if a9 <= k < a10 {
            assert(line[k] == align[k - a9]);
            assert(is_digit(align[k - a9]));
        } else if k >= a10 {
            assert(line[k] == r[k - a10]);
        }
    }
    lemma_no_newline_pieces(line);
    let e = (name, decimal_value(size), decimal_value(align));
    let ls = seq![line];
    assert(ls.last() == line);
    assert(ls.drop_last() =~= Seq::<Seq<char>>::empty());
    assert(entries_of(ls.drop_last()) =~= Seq::<(Seq<char>, int, int)>::empty());
    assert(mentions_type(ls.last()));
    assert(entries_of(ls) =~= seq![e]);
    assert(seq![e].drop_last() =~= Seq::<(Seq<char>, int, int)>::empty());
    assert(entries_map(seq![e].drop_last()) =~= Map::<Seq<char>, (int, int)>::empty());
    assert(entries_map(seq![e]) =~= map![name => (decimal_value(size), decimal_value(align))]);
}

#[verifier::rlimit(30)]
proof fn lemma_entries_of_lines(lines: Seq<Seq<char>>)
    ensures
        forall|k: int|
            0 <= k < lines.len() && mentions_type(#[trigger] lines[k]) ==> entries_map(
                entries_of(lines),
            ).contains_key(line_entry(lines[k]).unwrap().0) && ((forall|j: int|
                k < j < lines.len() && mentions_type(#[trigger] lines[j]) ==> line_entry(
                    lines[j],
                ).unwrap().0 != line_entry(lines[k]).unwrap().0) ==> entries_map(
                entries_of(lines),
            )[line_entry(lines[k]).unwrap().0] == (
                line_entry(lines[k]).unwrap().1,
                line_entry(lines[k]).unwrap().2,
            )),
        forall|key: Seq<char>|
            #[trigger] entries_map(entries_of(lines)).contains_key(key) ==> exists|k: int|
                0 <= k < lines.len() && mentions_type(#[trigger] lines[k]) && line_entry(
                    lines[k],
                ).unwrap().0 == key,
    decreases lines.len(),
{
    if lines.len() > 0 {
        let init = lines.drop_last();
        lemma_entries_of_lines(init);
        let mi = entries_map(entries_of(init));
        let m = entries_map(entries_of(lines));
        let n = lines.len() - 1;
        assert forall|k: int| 0 <= k < n implies lines[k] == #[trigger] init[k] by {}
        if mentions_type(lines.last()) {
            let e = line_entry(lines.last()).unwrap();
            let es = entries_of(lines);
            assert(es.drop_last() =~= entries_of(init));
            assert(es.last() == e);
            assert(m == mi.insert(e.0, (e.1, e.2)));
            assert forall|k: int|
                0 <= k < lines.len() && mentions_type(#[trigger] lines[k]) implies m.contains_key(
                line_entry(lines[k]).unwrap().0,
            ) && ((forall|j: int|
                k < j < lines.len() && mentions_type(#[trigger] lines[j]) ==> line_entry(
                    lines[j],
                ).unwrap().0 != line_entry(lines[k]).unwrap().0) ==> m[line_entry(
                lines[k],
            ).unwrap().0] == (line_entry(lines[k]).unwrap().1, line_entry(lines[k]).unwrap().2)) by {
                if k < n {
                    assert(mentions_type(init[k]));
                    if forall|j: int|
                        k < j < lines.len() && mentions_type(#[trigger] lines[j]) ==> line_entry(
                            lines[j],
                        ).unwrap().0 != line_entry(lines[k]).unwrap().0 {
                        assert(mentions_type(lines[n]));
                        assert forall|j: int|
                            k < j < init.len() && mentions_type(#[trigger] init[j]) implies line_entry(
                                init[j],
                            ).unwrap().0 != line_entry(init[k]).unwrap().0 by {
                            assert(lines[j] == init[j]);
                        }
                    }
                }
            }
            assert forall|key: Seq<char>| #[trigger] m.contains_key(key) implies exists|k: int|
                0 <= k < lines.len() && mentions_type(#[trigger] lines[k]) && line_entry(
                    lines[k],
                ).unwrap().0 == key by {
                if key == e.0 {
                    assert(mentions_type(lines[n]));
                } else {
                    assert(mi.contains_key(key));
                    let k = choose|k: int|
                        0 <= k < init.len() && mentions_type(#[trigger] init[k]) && line_entry(
                            init[k],
                        ).unwrap().0 == key;
                    assert(lines[k] == init[k]);
                }
            }
        } else {
            assert(entries_of(lines) == entries_of(init));
            assert forall|k: int|
                0 <= k < lines.len() && mentions_type(#[trigger] lines[k]) implies m.contains_key(
                line_entry(lines[k]).unwrap().0,
            ) && ((forall|j: int|
                k < j < lines.len() && mentions_type(#[trigger] lines[j]) ==> line_entry(
                    lines[j],
                ).unwrap().0 != line_entry(lines[k]).unwrap().0) ==> m[line_entry(
                lines[k],
            ).unwrap().0] == (line_entry(lines[k]).unwrap().1, line_entry(lines[k]).unwrap().2)) by {
                assert(k < n);
                assert(mentions_type(init[k]));
                if forall|j: int|
                    k < j < lines.len() && mentions_type(#[trigger] lines[j]) ==> line_entry(
                        lines[j],
                    ).unwrap().0 != line_entry(lines[k]).unwrap().0 {
                    assert forall|j: int|
                        k < j < init.len() && mentions_type(#[trigger] init[j]) implies line_entry(
                            init[j],
                        ).unwrap().0 != line_entry(init[k]).unwrap().0 by {
                        assert(lines[j] == init[j]);
                    }
                }
            }
            assert forall|key: Seq<char>| #[trigger] m.contains_key(key) implies exists|k: int|
                0 <= k < lines.len() && mentions_type(#[trigger] lines[k]) && line_entry(
                    lines[k],
                ).unwrap().0 == key by {
                let k = choose|k: int|
                    0 <= k < init.len() && mentions_type(#[trigger] init[k]) && line_entry(
                        init[k],
                    ).unwrap().0 == key;
                assert(lines[k] == init[k]);
            }
        }
    }
}

/// Every line of a readable report that mentions `type:` contributes its
/// entry, whatever its size: its name is among the type sizes, with that
/// line's size and alignment unless a later line names the same type; and
/// every name among the type sizes comes from such a line.
pub proof fn law_each_type_line_gives_its_entry(s: Seq<char>)
    requires
        report_readable(s),
    ensures
        forall|k: int|
            0 <= k < pieces_from(s, 0).len() && mentions_type(#[trigger] pieces_from(s, 0)[k])
                ==> (line_entry(pieces_from(s, 0)[k]) matches Some((name, size, align))
                && report_sizes(s).contains_key(name) && ((forall|j: int|
                k < j < pieces_from(s, 0).len() && mentions_type(#[trigger] pieces_from(s, 0)[j])
                    ==> line_entry(pieces_from(s, 0)[j]).unwrap().0 != name) ==> report_sizes(
                s,
            )[name] == (size, align))),
        forall|key: Seq<char>|
            #[trigger] report_sizes(s).contains_key(key) ==> exists|k: int|
                0 <= k < pieces_from(s, 0).len() && mentions_type(#[trigger] pieces_from(s, 0)[k])
                    && line_entry(pieces_from(s, 0)[k]) is Some && line_entry(
                    pieces_from(s, 0)[k],
                ).unwrap().0 == key,
{
    let ls = pieces_from(s, 0);
    lemma_entries_of_lines(ls);
    assert forall|key: Seq<char>| #[trigger] report_sizes(s).contains_key(key) implies exists|k: int|
        0 <= k < ls.len() && mentions_type(#[trigger] ls[k]) && line_entry(ls[k]) is Some
            && line_entry(ls[k]).unwrap().0 == key by {
        let k = choose|k: int|
            0 <= k < ls.len() && mentions_type(#[trigger] ls[k]) && line_entry(ls[k]).unwrap().0
                == key;
        assert(line_entry(ls[k]) is Some);
    }
}

proof fn lemma_pieces_shift(x: Seq<char>, y: Seq<char>, j: int)
    requires
        0 <= j <= y.len(),
    ensures
        pieces_from(x + y, x.len() + j) == pieces_from(y, j),
    decreases y.len() - j,
{
    let p = x + y;
    if j < y.len() {
        crate::line_laws::lemma_first_newline_shift(x, y, j);
        lemma_first_newline(y, j);
        let e = first_newline(y, j);
        assert(p.subrange(x.len() + j, x.len() + e) =~= y.subrange(j, e));
        if e < y.len() {
            lemma_pieces_shift(x, y, e + 1);
        } else {
            assert(p.subrange(x.len() + j, p.len() as int) =~= y.subrange(j, y.len() as int));
        }
    }
}

/// A report is read line by line: a line without a line feed, then a line
/// feed, is the first line, and the lines of the rest follow it.
pub proof fn law_report_lines(l: Seq<char>, rest: Seq<char>)
    requires
        forall|k: int| 0 <= k < l.len() ==> #[trigger] l[k] != '\n',
    ensures
        pieces_from(l + seq!['\n'] + rest, 0) == seq![l] + pieces_from(rest, 0),
{
    let nb = seq!['\n'] + rest;
    let p = l + seq!['\n'] + rest;
    assert(p =~= l + nb);
    lemma_first_newline_skips(l, nb, 0);
    assert(first_newline(nb, 0) == 0);
    assert(p.subrange(0, l.len() as int) =~= l);
    assert(p =~= (l + seq!['\n']) + rest);
    lemma_pieces_shift(l + seq!['\n'], rest, 0);
}

} // verus!
