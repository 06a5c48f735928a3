//! Replacing every occurrence of a pattern in a text.

use vstd::prelude::*;

use crate::text::{chars_of, slice_string};

verus! {

/// `pat` occurs in `s` at `i`.
pub open spec fn occurs_at(s: Seq<char>, pat: Seq<char>, i: int) -> bool {
    0 <= i && i + pat.len() <= s.len() && s.subrange(i, i + pat.len()) == pat
}

/// `s` from position `i` on, with every occurrence of `pat` replaced by `to`,
/// scanning from the left and not letting two occurrences overlap.
pub open spec fn replaced_from(s: Seq<char>, pat: Seq<char>, to: Seq<char>, i: int) -> Seq<char>
    recommends
        pat.len() > 0,
    decreases s.len() - i,
{
    if i < 0 || i >= s.len() || pat.len() == 0 {
        Seq::empty()
    } else if occurs_at(s, pat, i) {
        to + replaced_from(s, pat, to, i + pat.len())
    } else {
        seq![s[i]] + replaced_from(s, pat, to, i + 1)
    }
}

/// `s` with every occurrence of the non-empty `pat` replaced by `to`, as `str::replace` does.
pub open spec fn replace_all(s: Seq<char>, pat: Seq<char>, to: Seq<char>) -> Seq<char> {
    replaced_from(s, pat, to, 0)
}

pub fn occurs_at_exec(cs: &Vec<char>, ps: &Vec<char>, i: usize) -> (res: bool)
    requires
        i <= cs.len(),
    ensures
        res == occurs_at(cs@, ps@, i as int),
{
    if ps.len() > cs.len() - i {
        return false;
    }
    let mut k: usize = 0;
    while k < ps.len()
        invariant
            k <= ps.len(),
            i + ps.len() <= cs.len(),
            forall|j: int| 0 <= j < k ==> cs@[i + j] == ps@[j],
        decreases ps.len() - k,
    {
        if cs[i + k] != ps[k] {
            assert(cs@.subrange(i as int, i + ps.len())[k as int] != ps@[k as int]);
            return false;
        }
        k = k + 1;
    }
    assert(cs@.subrange(i as int, i + ps.len()) =~= ps@);
    true
}

/// `s` with every occurrence of `pat` replaced by `to`.
pub fn replace_all_exec(s: &str, pat: &str, to: &str) -> (res: String)
    requires
        pat@.len() > 0,
    ensures
        res@ == replace_all(s@, pat@, to@),
{
    let cs = chars_of(s);
    let ps = chars_of(pat);
    let mut res = String::new();
    let mut run_start: usize = 0;
    let mut i: usize = 0;
    while i < cs.len()
        invariant
            cs@ == s@,
            ps@ == pat@,
            ps@.len() > 0,
            run_start <= i <= cs.len(),
            res@ + cs@.subrange(run_start as int, i as int) + replaced_from(cs@, ps@, to@, i as int)
                == replace_all(cs@, ps@, to@),
        decreases cs.len() - i,
    {
        if occurs_at_exec(&cs, &ps, i) {
            let run = slice_string(s, run_start, i);
            let ghost before = res@;
            res.append(run.as_str());
            res.append(to);
            assert(res@ + cs@.subrange((i + ps.len()) as int, (i + ps.len()) as int)
                + replaced_from(cs@, ps@, to@, i + ps.len()) =~= before + cs@.subrange(
                run_start as int,
                i as int,
            ) + replaced_from(cs@, ps@, to@, i as int));
            i = i + ps.len();
            run_start = i;
        } else {
            assert(cs@.subrange(run_start as int, i + 1) =~= cs@.subrange(run_start as int, i as int)
                + seq![cs@[i as int]]);
            i = i + 1;
        }
    }
    let run = slice_string(s, run_start, i);
    res.append(run.as_str());
    assert(replaced_from(cs@, ps@, to@, i as int) =~= Seq::<char>::empty());
    res
}

proof fn lemma_replaced_by_itself(s: Seq<char>, pat: Seq<char>, i: int)
    requires
        pat.len() > 0,
        0 <= i <= s.len(),
    ensures
        replaced_from(s, pat, pat, i) == s.subrange(i, s.len() as int),
    decreases s.len() - i,
{
    if i < s.len() {
        if occurs_at(s, pat, i) {
            lemma_replaced_by_itself(s, pat, i + pat.len());
            assert(s.subrange(i, s.len() as int) =~= s.subrange(i, i + pat.len()) + s.subrange(
                i + pat.len(),
                s.len() as int,
            ));
        } else {
            lemma_replaced_by_itself(s, pat, i + 1);
            assert(s.subrange(i, s.len() as int) =~= seq![s[i]] + s.subrange(i + 1, s.len() as int));
        }
    } else {
        assert(s.subrange(i, s.len() as int) =~= Seq::<char>::empty());
    }
}

/// Replacing a pattern by itself leaves a text as it was.
pub proof fn law_replacing_by_itself_changes_nothing(s: Seq<char>, pat: Seq<char>)
    requires
        pat.len() > 0,
    ensures
        replace_all(s, pat, pat) == s,
{
    lemma_replaced_by_itself(s, pat, 0);
    assert(s.subrange(0, s.len() as int) =~= s);
}

proof fn lemma_replaced_from_shift(x: Seq<char>, y: Seq<char>, pat: Seq<char>, to: Seq<char>, j: int)
    requires
        0 <= j <= y.len(),
        pat.len() > 0,
    ensures
        replaced_from(x + y, pat, to, x.len() + j) == replaced_from(y, pat, to, j),
    decreases y.len() - j,
{
    let p = x + y;
    if j < y.len() {
        assert(occurs_at(p, pat, x.len() + j) == occurs_at(y, pat, j)) by {
            if x.len() + j + pat.len() <= p.len() {
                assert(p.subrange(x.len() + j, x.len() + j + pat.len()) =~= y.subrange(
                    j,
                    j + pat.len(),
                ));
            }
        }
        assert(p[x.len() + j] == y[j]);
        if occurs_at(y, pat, j) {
            lemma_replaced_from_shift(x, y, pat, to, j + pat.len());
        } else {
            lemma_replaced_from_shift(x, y, pat, to, j + 1);
        }
    }
}

proof fn lemma_replaced_before_first(
    a: Seq<char>,
    b: Seq<char>,
    pat: Seq<char>,
    to: Seq<char>,
    j: int,
)
    requires
        pat.len() > 0,
        0 <= j <= a.len(),
        forall|k: int| 0 <= k < a.len() ==> !#[trigger] occurs_at(a + pat, pat, k),
    ensures
        replaced_from(a + pat + b, pat, to, j) == a.subrange(j, a.len() as int) + to + replace_all(
            b,
            pat,
            to,
        ),
    decreases a.len() - j,
{
    let p = a + pat + b;
    if j < a.len() {
        assert(p[j] == a[j]);
        assert(!occurs_at(p, pat, j)) by {
            assert(!occurs_at(a + pat, pat, j));
            assert(p.subrange(j, j + pat.len()) =~= (a + pat).subrange(j, j + pat.len()));
        }
        lemma_replaced_before_first(a, b, pat, to, j + 1);
        assert(a.subrange(j, a.len() as int) =~= seq![a[j]] + a.subrange(j + 1, a.len() as int));
    } else {
        assert(occurs_at(p, pat, j)) by {
            assert(p.subrange(j, j + pat.len()) =~= pat);
        }
        assert(p =~= (a + pat) + b);
        lemma_replaced_from_shift(a + pat, b, pat, to, 0);
        assert(a.subrange(j, a.len() as int) =~= Seq::<char>::empty());
    }
}

proof fn lemma_replaced_without_pattern(s: Seq<char>, pat: Seq<char>, to: Seq<char>, j: int)
    requires
        pat.len() > 0,
        0 <= j <= s.len(),
        forall|k: int| !#[trigger] occurs_at(s, pat, k),
    ensures
        replaced_from(s, pat, to, j) == s.subrange(j, s.len() as int),
    decreases s.len() - j,
{
    if j < s.len() {
        assert(!occurs_at(s, pat, j));
        lemma_replaced_without_pattern(s, pat, to, j + 1);
        assert(s.subrange(j, s.len() as int) =~= seq![s[j]] + s.subrange(j + 1, s.len() as int));
    } else {
        assert(s.subrange(j, s.len() as int) =~= Seq::<char>::empty());
    }
}

/// A text in which the pattern does not occur is left as it is.
pub proof fn law_replace_without_pattern(s: Seq<char>, pat: Seq<char>, to: Seq<char>)
    requires
        pat.len() > 0,
        forall|k: int| !#[trigger] occurs_at(s, pat, k),
    ensures
        replace_all(s, pat, to) == s,
{
    lemma_replaced_without_pattern(s, pat, to, 0);
    assert(s.subrange(0, s.len() as int) =~= s);
}

/// The first occurrence of the pattern, wherever it stands, is replaced, and
/// replacing goes on after it: the text before it is kept, the occurrence
/// becomes `to`, and the rest is replaced in the same way.
pub proof fn law_replace_first_occurrence(a: Seq<char>, b: Seq<char>, pat: Seq<char>, to: Seq<char>)
    requires
        pat.len() > 0,
        forall|k: int| 0 <= k < a.len() ==> !#[trigger] occurs_at(a + pat, pat, k),
    ensures
        replace_all(a + pat + b, pat, to) == a + to + replace_all(b, pat, to),
{
    lemma_replaced_before_first(a, b, pat, to, 0);
    assert(a.subrange(0, a.len() as int) =~= a);
}

} // verus!
