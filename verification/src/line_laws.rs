//! What splitting a text into lines does not see: a line feed at the very end
//! of the text, and a carriage return before each line feed.
//!
//! `RdepParser::new` keeps exactly `text_lines` of its input as the lines to
//! read, so two texts with the same lines give readers with the same pending
//! lines, and reading them gives the same type descriptions.

use vstd::prelude::*;

use crate::replace::{occurs_at, replace_all, replaced_from};
use crate::text::{first_newline, lemma_first_newline, lines_from, strip_cr, text_lines};

verus! {

pub proof fn lemma_first_newline_shift(x: Seq<char>, y: Seq<char>, j: int)
    requires
        0 <= j <= y.len(),
    ensures
        first_newline(x + y, x.len() + j) == x.len() + first_newline(y, j),
    decreases y.len() - j,
{
    let p = x + y;
    if j < y.len() {
        assert(p[x.len() + j] == y[j]);
        if y[j] != '\n' {
            lemma_first_newline_shift(x, y, j + 1);
        }
    }
}

proof fn lemma_lines_from_shift(x: Seq<char>, y: Seq<char>, j: int)
    requires
        0 <= j <= y.len(),
    ensures
        lines_from(x + y, x.len() + j) == lines_from(y, j),
    decreases y.len() - j,
{
    let p = x + y;
    if j < y.len() {
        lemma_first_newline_shift(x, y, j);
        lemma_first_newline(y, j);
        let e = first_newline(y, j);
        assert(p.subrange(x.len() + j, x.len() + e) =~= y.subrange(j, e));
        if e < y.len() {
            lemma_lines_from_shift(x, y, e + 1);
        } else {
            assert(p.subrange(x.len() + j, p.len() as int) =~= y.subrange(j, y.len() as int));
        }
    }
}

pub proof fn lemma_first_newline_skips(a: Seq<char>, b: Seq<char>, j: int)
    requires
        0 <= j <= a.len(),
        forall|k: int| 0 <= k < a.len() ==> a[k] != '\n',
    ensures
        first_newline(a + b, j) == a.len() + first_newline(b, 0),
    decreases a.len() - j,
{
    if j < a.len() {
        assert((a + b)[j] == a[j]);
        lemma_first_newline_skips(a, b, j + 1);
    } else {
        lemma_first_newline_shift(a, b, 0);
    }
}

/// A text made of a line `a`, a line feed and the rest `b` has the line `a`
/// (without a final carriage return) and then the lines of `b`.
proof fn lemma_lines_of_first_line(a: Seq<char>, b: Seq<char>)
    requires
        forall|k: int| 0 <= k < a.len() ==> a[k] != '\n',
    ensures
        text_lines(a + seq!['\n'] + b) == seq![strip_cr(a)] + text_lines(b),
{
    let nb = seq!['\n'] + b;
    let p = a + seq!['\n'] + b;
    assert(p =~= a + nb);
    lemma_first_newline_skips(a, nb, 0);
    assert(first_newline(nb, 0) == 0);
    assert(p.subrange(0, a.len() as int) =~= a);
    lemma_lines_from_shift(a + seq!['\n'], b, 0);
}

/// A text without a line feed is one line, or none where it is empty.
proof fn lemma_lines_of_last_line(a: Seq<char>)
    requires
        forall|k: int| 0 <= k < a.len() ==> a[k] != '\n',
    ensures
        text_lines(a) == (if a.len() == 0 {
            Seq::<Seq<char>>::empty()
        } else {
            seq![a]
        }),
{
    if a.len() > 0 {
        lemma_first_newline_skips(a, Seq::<char>::empty(), 0);
        assert(a + Seq::<char>::empty() =~= a);
        assert(a.subrange(0, a.len() as int) =~= a);
    }
}

proof fn lemma_replaced_from_shift(x: Seq<char>, y: Seq<char>, pat: Seq<char>, to: Seq<char>, j: int)
    requires
        0 <= j <= y.len(),
        pat.len() > 0,
    ensures
        replaced_from(x + y, pat, to, x.len() + j) == replaced_from(y, pat, to, j),
    decreases y.len() - j,
{
    let p = x + y;
    if j < y.len() {
        assert(occurs_at(p, pat, x.len() + j) == occurs_at(y, pat, j)) by {
            if x.len() + j + pat.len() <= p.len() {
                assert(p.subrange(x.len() + j, x.len() + j + pat.len()) =~= y.subrange(
                    j,
                    j + pat.len(),
                ));
            }
        }
        assert(p[x.len() + j] == y[j]);
        if occurs_at(y, pat, j) {
            lemma_replaced_from_shift(x, y, pat, to, j + pat.len());
        } else {
            lemma_replaced_from_shift(x, y, pat, to, j + 1);
        }
    }
}

/// Replacing each line feed by a carriage return and a line feed leaves a
/// line without a line feed as it is.
proof fn lemma_crlf_line(a: Seq<char>, b: Seq<char>, j: int)
    requires
        0 <= j <= a.len(),
        forall|k: int| 0 <= k < a.len() ==> a[k] != '\n',
    ensures
        replaced_from(a + b, seq!['\n'], seq!['\r', '\n'], j) == a.subrange(j, a.len() as int)
            + replace_all(b, seq!['\n'], seq!['\r', '\n']),
    decreases a.len() - j,
{
    let p = a + b;
    if j < a.len() {
        assert(p[j] == a[j]);
        assert(!occurs_at(p, seq!['\n'], j)) by {
            if occurs_at(p, seq!['\n'], j) {
                assert(p.subrange(j, j + 1)[0] == p[j]);
            }
        }
        lemma_crlf_line(a, b, j + 1);
        assert(a.subrange(j, a.len() as int) =~= seq![a[j]] + a.subrange(j + 1, a.len() as int));
    } else {
        lemma_replaced_from_shift(a, b, seq!['\n'], seq!['\r', '\n'], 0);
        assert(a.subrange(j, a.len() as int) =~= Seq::<char>::empty());
    }
}

/// A line feed added at the end of a non-empty text that ends in neither a
/// line feed nor a carriage return adds no line: the text has the same lines
/// with it as without it.
pub proof fn law_final_newline_adds_no_line(s: Seq<char>)
    requires
        s.len() > 0,
        s.last() != '\n',
        s.last() != '\r',
    ensures
        text_lines(s + seq!['\n']) == text_lines(s),
    decreases s.len(),
{
    lemma_first_newline(s, 0);
    let e = first_newline(s, 0);
    let a = s.take(e);
    assert forall|k: int| 0 <= k < a.len() implies a[k] != '\n' by {
        assert(a[k] == s[k]);
    }
    if e == s.len() {
        assert(a =~= s);
        lemma_lines_of_last_line(s);
        lemma_lines_of_first_line(s, Seq::<char>::empty());
        assert(s + seq!['\n'] =~= s + seq!['\n'] + Seq::<char>::empty());
        lemma_lines_of_last_line(Seq::<char>::empty());
        assert(seq![strip_cr(s)] + Seq::<Seq<char>>::empty() =~= seq![s]);
    } else {
        let b = s.skip(e + 1);
        assert(s =~= a + seq!['\n'] + b);
        assert(e != s.len() - 1);
        assert(b.last() == s.last());
        law_final_newline_adds_no_line(b);
        lemma_lines_of_first_line(a, b);
        lemma_lines_of_first_line(a, b + seq!['\n']);
        assert(s + seq!['\n'] =~= a + seq!['\n'] + (b + seq!['\n']));
    }
}

/// A text without carriage returns has the same lines when each of its line
/// feeds is written as a carriage return and a line feed.
pub proof fn law_crlf_reads_like_lf(s: Seq<char>)
    requires
        forall|k: int| 0 <= k < s.len() ==> s[k] != '\r',
    ensures
        text_lines(replace_all(s, seq!['\n'], seq!['\r', '\n'])) == text_lines(s),
    decreases s.len(),
{
    let pat = seq!['\n'];
    let to = seq!['\r', '\n'];
    lemma_first_newline(s, 0);
    let e = first_newline(s, 0);
    let a = s.take(e);
    assert forall|k: int| 0 <= k < a.len() implies a[k] != '\n' && a[k] != '\r' by {
        assert(a[k] == s[k]);
    }
    if e == s.len() {
        assert(a =~= s);
        lemma_crlf_line(s, Seq::<char>::empty(), 0);
        assert(replace_all(Seq::<char>::empty(), pat, to) =~= Seq::<char>::empty());
        assert(s + Seq::<char>::empty() =~= s);
        assert(s.subrange(0, s.len() as int) =~= s);
        assert(replace_all(s, pat, to) == s);
    } else {
        let b = s.skip(e + 1);
        let nb = seq!['\n'] + b;
        assert(s =~= a + nb);
        lemma_crlf_line(a, nb, 0);
        assert(occurs_at(nb, pat, 0)) by {
            assert(nb.subrange(0, 1) =~= pat);
        }
        lemma_replaced_from_shift(seq!['\n'], b, pat, to, 0);
        let rb = replace_all(b, pat, to);
        assert(replace_all(nb, pat, to) == to + rb);
        assert(a.subrange(0, a.len() as int) =~= a);
        let ar = a + seq!['\r'];
        assert(replace_all(s, pat, to) =~= ar + seq!['\n'] + rb);
        assert forall|k: int| 0 <= k < b.len() implies b[k] != '\r' by {
            assert(b[k] == s[e + 1 + k]);
        }
        law_crlf_reads_like_lf(b);
        assert forall|k: int| 0 <= k < ar.len() implies ar[k] != '\n' by {
            if k < a.len() {
                assert(ar[k] == a[k]);
            }
        }
        lemma_lines_of_first_line(ar, rb);
        lemma_lines_of_first_line(a, b);
        assert(s =~= a + seq!['\n'] + b);
        assert(ar.drop_last() =~= a);
        assert(strip_cr(a) == a) by {
            if a.len() > 0 {
                assert(a.last() == a[a.len() - 1]);
            }
        }
        assert(strip_cr(ar) == a);
        assert(text_lines(replace_all(s, pat, to)) == seq![a] + text_lines(rb));
        assert(text_lines(s) == seq![a] + text_lines(b));
    }
}

} // verus!
