//! What reading a type description and writing it out again have to do with
//! each other.

use vstd::prelude::*;

use crate::grammar::{
    is_func_char, is_type_char, char_at, func_item_at, func_list_at, func_run, funcs_at, generics_at, lemma_func_run_bound,
    lemma_type_run_bound, sep_at, ty_at, ty_list_at, type_run,
};
use crate::rtype::{
    crate_of, lemma_first_path_sep, path_sep_at, func_list_text, source_list_text, source_text, type_list_text, type_text, SpecRtype,
};

verus! {

pub proof fn lemma_func_list_text_cons(f: Seq<char>, fs: Seq<Seq<char>>)
    requires
        fs.len() > 0,
    ensures
        func_list_text(seq![f] + fs) == f + seq![',', ' '] + func_list_text(fs),
    decreases fs.len(),
{
    let g = seq![f] + fs;
    assert(g.drop_last() =~= seq![f] + fs.drop_last());
    assert(g.last() == fs.last());
    assert(func_list_text(g) == func_list_text(g.drop_last()) + seq![',', ' '] + g.last());
    if fs.len() == 1 {
        assert(g.drop_last() =~= seq![f]);
        assert(func_list_text(g.drop_last()) == f);
        assert(func_list_text(fs) == fs[0]);
    } else {
        lemma_func_list_text_cons(f, fs.drop_last());
        assert(func_list_text(fs) == func_list_text(fs.drop_last()) + seq![',', ' '] + fs.last());
    }
    assert(func_list_text(g) =~= f + seq![',', ' '] + func_list_text(fs));
}

pub proof fn lemma_source_list_text_cons(t: SpecRtype, ts: Seq<SpecRtype>)
    requires
        ts.len() > 0,
    ensures
        source_list_text(seq![t] + ts) == source_text(t) + seq![',', ' '] + source_list_text(ts),
    decreases ts.len(),
{
    let g = seq![t] + ts;
    assert(g.drop_last() =~= seq![t] + ts.drop_last());
    assert(g.last() == ts.last());
    assert(source_list_text(g) == source_list_text(g.drop_last()) + seq![',', ' '] + source_text(g.last()));
    if ts.len() == 1 {
        assert(g.drop_last() =~= seq![t]);
        assert(source_list_text(g.drop_last()) == source_text(t));
        assert(source_list_text(ts) == source_text(ts[0]));
    } else {
        lemma_source_list_text_cons(t, ts.drop_last());
        assert(source_list_text(ts) == source_list_text(ts.drop_last()) + seq![',', ' '] + source_text(ts.last()));
    }
    assert(source_list_text(g) =~= source_text(t) + seq![',', ' '] + source_list_text(ts));
}

pub proof fn lemma_type_list_text_cons(t: SpecRtype, ts: Seq<SpecRtype>)
    requires
        ts.len() > 0,
    ensures
        type_list_text(seq![t] + ts) == type_text(t) + seq![',', ' '] + type_list_text(ts),
    decreases ts.len(),
{
    let g = seq![t] + ts;
    assert(g.drop_last() =~= seq![t] + ts.drop_last());
    assert(g.last() == ts.last());
    assert(type_list_text(g) == type_list_text(g.drop_last()) + seq![',', ' '] + type_text(g.last()));
    if ts.len() == 1 {
        assert(g.drop_last() =~= seq![t]);
        assert(type_list_text(g.drop_last()) == type_text(t));
        assert(type_list_text(ts) == type_text(ts[0]));
    } else {
        lemma_type_list_text_cons(t, ts.drop_last());
        assert(type_list_text(ts) == type_list_text(ts.drop_last()) + seq![',', ' '] + type_text(ts.last()));
    }
    assert(type_list_text(g) =~= type_text(t) + seq![',', ' '] + type_list_text(ts));
}

proof fn lemma_func_item_text(s: Seq<char>, i: int)
    requires
        0 <= i <= s.len(),
    ensures
        func_item_at(s, i) matches Some((f, e)) ==> i < e <= s.len() && s.subrange(i, e) == f,
{
    lemma_func_run_bound(s, i);
    if func_run(s, i) == 0 && char_at(s, i, '*') {
        assert(s.subrange(i, i + 1) =~= seq!['*']);
    }
}

proof fn lemma_func_list_text(s: Seq<char>, i: int)
    requires
        0 <= i <= s.len(),
    ensures
        func_list_at(s, i) matches Some((fs, e)) ==> i < e <= s.len() && fs.len() > 0
            && s.subrange(i, e) == func_list_text(fs),
    decreases s.len() - i,
{
    lemma_func_item_text(s, i);
    if let Some((f, e)) = func_item_at(s, i) {
        if sep_at(s, e) && i < e {
            lemma_func_list_text(s, e + 2);
            if let Some((fs, e2)) = func_list_at(s, e + 2) {
                lemma_func_list_text_cons(f, fs);
                assert(s.subrange(i, e2) =~= s.subrange(i, e) + s.subrange(e, e + 2) + s.subrange(
                    e + 2,
                    e2,
                ));
                assert(s.subrange(e, e + 2) =~= seq![',', ' ']);
            }
        }
    }
}

proof fn lemma_funcs_text(s: Seq<char>, i: int)
    requires
        0 <= i <= s.len(),
    ensures
        funcs_at(s, i) matches Some((fs, e)) ==> i < e <= s.len() && s.subrange(i, e) == seq![
            '(',
        ] + func_list_text(fs) + seq![')'],
{
    if char_at(s, i, '(') {
        lemma_func_list_text(s, i + 1);
        if let Some((fs, e)) = funcs_at(s, i) {
            assert(s.subrange(i, e) =~= s.subrange(i, i + 1) + s.subrange(i + 1, e - 1)
                + s.subrange(e - 1, e));
        }
    }
}

proof fn lemma_ty_text(s: Seq<char>, i: int)
    requires
        0 <= i <= s.len(),
    ensures
        ty_at(s, i) matches Some((t, e)) ==> i < e <= s.len() && s.subrange(i, e) == source_text(
            t,
        ),
    decreases s.len() - i, 1int,
{
    lemma_type_run_bound(s, i);
    let k = type_run(s, i);
    if k > 0 {
        let b = i + k;
        lemma_generics_text(s, b);
        let g_end = match generics_at(s, b) {
            Some((ts, e)) => e,
            None => b,
        };
        lemma_funcs_text(s, g_end);
        let (t, end) = ty_at(s, i).unwrap();
        assert(s.subrange(i, end) =~= s.subrange(i, b) + s.subrange(b, g_end) + s.subrange(
            g_end,
            end,
        ));
        if let Some((ts, e)) = generics_at(s, b) {
            assert(s.subrange(i, g_end) =~= s.subrange(i, b) + s.subrange(b, g_end));
        }
    }
}

proof fn lemma_ty_list_text(s: Seq<char>, i: int)
    requires
        0 <= i <= s.len(),
    ensures
        ty_list_at(s, i) matches Some((ts, e)) ==> i < e <= s.len() && ts.len() > 0
            && s.subrange(i, e) == source_list_text(ts),
    decreases s.len() - i, 2int,
{
    lemma_ty_text(s, i);
    if let Some((t, e)) = ty_at(s, i) {
        if sep_at(s, e) && i < e {
            lemma_ty_list_text(s, e + 2);
            if let Some((ts, e2)) = ty_list_at(s, e + 2) {
                lemma_source_list_text_cons(t, ts);
                assert(s.subrange(i, e2) =~= s.subrange(i, e) + s.subrange(e, e + 2) + s.subrange(
                    e + 2,
                    e2,
                ));
                assert(s.subrange(e, e + 2) =~= seq![',', ' ']);
            }
        }
    }
}

proof fn lemma_generics_text(s: Seq<char>, i: int)
    requires
        0 <= i <= s.len(),
    ensures
        generics_at(s, i) matches Some((ts, e)) ==> i < e <= s.len() && ts.len() > 0
            && s.subrange(i, e) == seq!['<'] + source_list_text(ts) + seq!['>'],
    decreases s.len() - i, 0int,
{
    if char_at(s, i, '<') {
        lemma_ty_list_text(s, i + 1);
        if let Some((ts, e)) = generics_at(s, i) {
            assert(s.subrange(i, e) =~= s.subrange(i, i + 1) + s.subrange(i + 1, e - 1)
                + s.subrange(e - 1, e));
        }
    }
}

/// Reading a type description fails exactly where the text does not start
/// with a type character.
pub proof fn law_reading_fails_only_without_a_type_character(s: Seq<char>)
    ensures
        ty_at(s, 0) is None <==> !(s.len() > 0 && is_type_char(s[0])),
{
}

/// A type description is read from exactly its own full text: the characters
/// that reading consumes are the path, the generic arguments and the function
/// lists of the value read, written out again; and it always consumes at least
/// one character.
pub proof fn law_reading_consumes_the_text_read(s: Seq<char>, i: int)
    requires
        0 <= i <= s.len(),
    ensures
        ty_at(s, i) matches Some((t, e)) ==> i < e <= s.len() && s.subrange(i, e) == source_text(
            t,
        ),
{
    lemma_ty_text(s, i);
}

/// A function name as a function list may hold it: `*`, or a non-empty run of
/// letters, digits and `_`.
pub open spec fn is_func_name(f: Seq<char>) -> bool {
    ||| f == seq!['*']
    ||| f.len() > 0 && forall|k: int| 0 <= k < f.len() ==> is_func_char(#[trigger] f[k])
}

/// A type description that its own text describes: a non-empty path of type
/// characters, non-empty lists of generic arguments and of function names, at
/// every level.
pub open spec fn wf_type(t: SpecRtype) -> bool
    decreases t,
{
    &&& t.base.len() > 0
    &&& forall|k: int| 0 <= k < t.base.len() ==> is_type_char(#[trigger] t.base[k])
    &&& match t.generics {
        None => true,
        Some(g) => g.len() > 0 && wf_types(g),
    }
    &&& match t.funcs {
        None => true,
        Some(fs) => fs.len() > 0 && forall|k: int| 0 <= k < fs.len() ==> is_func_name(#[trigger] fs[k]),
    }
}

pub open spec fn wf_types(g: Seq<SpecRtype>) -> bool
    decreases g,
{
    g.len() == 0 || (wf_type(g[0]) && wf_types(g.drop_first()))
}

/// A type description with no function list at any level.
pub open spec fn funcs_free(t: SpecRtype) -> bool
    decreases t,
{
    &&& t.funcs is None
    &&& match t.generics {
        None => true,
        Some(g) => all_funcs_free(g),
    }
}

pub open spec fn all_funcs_free(g: Seq<SpecRtype>) -> bool
    decreases g,
{
    g.len() == 0 || (funcs_free(g[0]) && all_funcs_free(g.drop_first()))
}

/// Position `j` ends a type description inside a list or at the end of the text.
pub open spec fn item_end(s: Seq<char>, j: int) -> bool {
    j == s.len() || char_at(s, j, ',') || char_at(s, j, '>')
}

proof fn lemma_type_run_exact(s: Seq<char>, i: int, n: int)
    requires
        0 <= i,
        0 <= n,
        i + n <= s.len(),
        forall|k: int| i <= k < i + n ==> is_type_char(#[trigger] s[k]),
        i + n == s.len() || !is_type_char(s[i + n]),
    ensures
        type_run(s, i) == n,
    decreases n,
{
    if n > 0 {
        lemma_type_run_exact(s, i + 1, n - 1);
    }
}

proof fn lemma_func_run_exact(s: Seq<char>, i: int, n: int)
    requires
        0 <= i,
        0 <= n,
        i + n <= s.len(),
        forall|k: int| i <= k < i + n ==> is_func_char(#[trigger] s[k]),
        i + n == s.len() || !is_func_char(s[i + n]),
    ensures
        func_run(s, i) == n,
    decreases n,
{
    if n > 0 {
        lemma_func_run_exact(s, i + 1, n - 1);
    }
}

proof fn lemma_func_list_parses(s: Seq<char>, i: int, fs: Seq<Seq<char>>)
    requires
        0 <= i,
        fs.len() > 0,
        forall|k: int| 0 <= k < fs.len() ==> is_func_name(#[trigger] fs[k]),
        i + func_list_text(fs).len() <= s.len(),
        s.subrange(i, i + func_list_text(fs).len()) == func_list_text(fs),
        char_at(s, i + func_list_text(fs).len(), ')'),
    ensures
        func_list_at(s, i) == Some((fs, i + func_list_text(fs).len())),
    decreases fs.len(),
{
    let f = fs[0];
    let rest = fs.drop_first();
    assert(fs =~= seq![f] + rest);
    let text = func_list_text(fs);
    let e = i + f.len();
    if rest.len() > 0 {
        lemma_func_list_text_cons(f, rest);
    } else {
        assert(text == f);
    }
    assert(text.subrange(0, f.len() as int) =~= f);
    assert(forall|k: int| 0 <= k < f.len() ==> s[i + k] == #[trigger] f[k]) by {
        assert forall|k: int| 0 <= k < f.len() implies s[i + k] == #[trigger] f[k] by {
            assert(s.subrange(i, i + text.len())[k] == text[k]);
        }
    }
    // the character after the name is ',' or ')'
    assert(char_at(s, e, ',') || char_at(s, e, ')')) by {
        if rest.len() > 0 {
            assert(s.subrange(i, i + text.len())[f.len() as int] == text[f.len() as int]);
        }
    }
    assert(is_func_name(fs[0]));
    if f == seq!['*'] {
        assert(f[0] == '*');
        assert(s[i + 0] == f[0]);
        assert(!is_func_char(s[i]));
        assert(func_run(s, i) == 0);
    } else {
        assert forall|k: int| i <= k < i + f.len() implies is_func_char(#[trigger] s[k]) by {
            assert(s[i + (k - i)] == f[k - i]);
        }
        lemma_func_run_exact(s, i, f.len() as int);
        assert(s.subrange(i, e) =~= f);
    }
    assert(func_item_at(s, i) == Some((f, e)));
    if rest.len() > 0 {
        assert(sep_at(s, e)) by {
            assert(s.subrange(i, i + text.len())[f.len() + 1int] == text[f.len() + 1int]);
        }
        assert forall|k: int| 0 <= k < rest.len() implies is_func_name(#[trigger] rest[k]) by {
            assert(rest[k] == fs[k + 1]);
        }
        let rt = func_list_text(rest);
        assert(s.subrange(e + 2, e + 2 + rt.len()) =~= rt) by {
            assert forall|k: int| 0 <= k < rt.len() implies s.subrange(
                e + 2,
                e + 2 + rt.len(),
            )[k] == rt[k] by {
                assert(s.subrange(i, i + text.len())[f.len() + 2 + k] == text[f.len() + 2 + k]);
            }
        }
        lemma_func_list_parses(s, e + 2, rest);
    } else {
        assert(!sep_at(s, e));
    }
}

proof fn lemma_ty_parses(s: Seq<char>, i: int, t: SpecRtype)
    requires
        0 <= i,
        wf_type(t),
        i + source_text(t).len() <= s.len(),
        s.subrange(i, i + source_text(t).len()) == source_text(t),
        item_end(s, i + source_text(t).len()),
    ensures
        ty_at(s, i) == Some((t, i + source_text(t).len())),
    decreases t,
{
    let text = source_text(t);
    let n = t.base.len() as int;
    let b = i + n;
    let head = match t.generics {
        None => t.base,
        Some(g) => t.base + seq!['<'] + source_list_text(g) + seq!['>'],
    };
    let g_end = i + head.len();
    let end = i + text.len();
    assert(text.subrange(0, head.len() as int) =~= head);
    assert(head.subrange(0, n) =~= t.base);
    assert forall|k: int| 0 <= k < text.len() implies s[i + k] == #[trigger] text[k] by {
        assert(s.subrange(i, i + text.len())[k] == text[k]);
    }
    // the path
    assert forall|k: int| i <= k < b implies is_type_char(#[trigger] s[k]) by {
        assert(s[i + (k - i)] == text[k - i]);
        assert(text[k - i] == head[k - i]);
        assert(head[k - i] == t.base[k - i]);
    }
    assert(b == s.len() || !is_type_char(s[b])) by {
        if b < end {
            assert(s[i + n] == text[n]);
            if t.generics is Some {
                assert(text[n] == head[n]);
            } else {
                assert(t.funcs is Some);
                assert(text[n] == '(');
            }
        }
    }
    lemma_type_run_exact(s, i, n);
    assert(s.subrange(i, b) =~= t.base) by {
        assert forall|k: int| 0 <= k < n implies s.subrange(i, b)[k] == t.base[k] by {
            assert(s[i + k] == text[k]);
            assert(text[k] == head[k]);
        }
    }
    // the generic arguments
    match t.generics {
        Some(g) => {
            let lt = source_list_text(g);
            assert(s[b] == '<') by {
                assert(s[i + n] == text[n]);
                assert(text[n] == head[n]);
            }
            assert(s.subrange(b + 1, b + 1 + lt.len()) =~= lt) by {
                assert forall|k: int| 0 <= k < lt.len() implies s.subrange(
                    b + 1,
                    b + 1 + lt.len(),
                )[k] == lt[k] by {
                    assert(s[i + (n + 1 + k)] == text[n + 1 + k]);
                    assert(text[n + 1 + k] == head[n + 1 + k]);
                }
            }
            assert(char_at(s, b + 1 + lt.len(), '>')) by {
                assert(s[i + (n + 1 + lt.len())] == text[n + 1 + lt.len()]);
                assert(text[n + 1 + lt.len()] == head[n + 1 + lt.len()]);
            }
            assert(decreases_to!(t => t.generics));
            assert(decreases_to!(t.generics => t.generics->0));
            lemma_ty_list_parses(s, b + 1, g);
            assert(generics_at(s, b) == Some((g, g_end)));
        },
        None => {
            assert(!char_at(s, b, '<')) by {
                if b < end {
                    assert(s[i + n] == text[n]);
                }
            }
            assert(generics_at(s, b) is None);
        },
    }
    // the function list
    match t.funcs {
        Some(fs) => {
            let ft = func_list_text(fs);
            assert(text =~= head + seq!['('] + ft + seq![')']);
            assert(s[g_end] == '(') by {
                assert(s[i + head.len()] == text[head.len() as int]);
            }
            assert(s.subrange(g_end + 1, g_end + 1 + ft.len()) =~= ft) by {
                assert forall|k: int| 0 <= k < ft.len() implies s.subrange(
                    g_end + 1,
                    g_end + 1 + ft.len(),
                )[k] == ft[k] by {
                    assert(s[i + (head.len() + 1 + k)] == text[head.len() + 1 + k]);
                }
            }
            assert(char_at(s, g_end + 1 + ft.len(), ')')) by {
                assert(s[i + (head.len() + 1 + ft.len())] == text[head.len() + 1int + ft.len()]);
            }
            lemma_func_list_parses(s, g_end + 1, fs);
            assert(funcs_at(s, g_end) == Some((fs, end)));
        },
        None => {
            assert(text == head);
            assert(!char_at(s, g_end, '('));
            assert(funcs_at(s, g_end) is None);
        },
    }
}

proof fn lemma_ty_list_parses(s: Seq<char>, i: int, g: Seq<SpecRtype>)
    requires
        0 <= i,
        g.len() > 0,
        wf_types(g),
        i + source_list_text(g).len() <= s.len(),
        s.subrange(i, i + source_list_text(g).len()) == source_list_text(g),
        char_at(s, i + source_list_text(g).len(), '>'),
    ensures
        ty_list_at(s, i) == Some((g, i + source_list_text(g).len())),
    decreases g,
{
    let t = g[0];
    let rest = g.drop_first();
    assert(g =~= seq![t] + rest);
    let text = source_list_text(g);
    let tt = source_text(t);
    let e = i + tt.len();
    if rest.len() > 0 {
        lemma_source_list_text_cons(t, rest);
    } else {
        assert(text == tt);
    }
    assert forall|k: int| 0 <= k < text.len() implies s[i + k] == #[trigger] text[k] by {
        assert(s.subrange(i, i + text.len())[k] == text[k]);
    }
    assert(s.subrange(i, e) =~= tt) by {
        assert forall|k: int| 0 <= k < tt.len() implies s.subrange(i, e)[k] == tt[k] by {
            assert(s[i + k] == text[k]);
        }
    }
    assert(item_end(s, e)) by {
        if rest.len() > 0 {
            assert(s[i + tt.len()] == text[tt.len() as int]);
        }
    }
    assert(decreases_to!(g => g[0]));
    lemma_ty_parses(s, i, t);
    if rest.len() > 0 {
        let rt = source_list_text(rest);
        assert(sep_at(s, e)) by {
            assert(s[i + tt.len()] == text[tt.len() as int]);
            assert(s[i + (tt.len() + 1)] == text[tt.len() + 1int]);
        }
        assert(s.subrange(e + 2, e + 2 + rt.len()) =~= rt) by {
            assert forall|k: int| 0 <= k < rt.len() implies s.subrange(e + 2, e + 2 + rt.len())[k]
                == rt[k] by {
                assert(s[i + (tt.len() + 2 + k)] == text[tt.len() + 2 + k]);
            }
        }
        assert(decreases_to!(g => g.drop_first()));
        lemma_ty_list_parses(s, e + 2, rest);
    } else {
        assert(!sep_at(s, e));
    }
}

/// Writing a well-formed type description out in full and reading the text
/// back gives the same description, and reading consumes the whole text.
pub proof fn law_written_text_reads_back(t: SpecRtype)
    requires
        wf_type(t),
    ensures
        ty_at(source_text(t), 0) == Some((t, source_text(t).len() as int)),
{
    let s = source_text(t);
    assert(s.subrange(0, s.len() as int) =~= s);
    lemma_ty_parses(s, 0, t);
}

proof fn lemma_funcs_free_text(t: SpecRtype)
    requires
        funcs_free(t),
    ensures
        source_text(t) == type_text(t),
    decreases t,
{
    if let Some(g) = t.generics {
        assert(decreases_to!(t => t.generics));
        assert(decreases_to!(t.generics => t.generics->0));
        lemma_all_funcs_free_text(g);
    }
}

proof fn lemma_all_funcs_free_text(g: Seq<SpecRtype>)
    requires
        all_funcs_free(g),
    ensures
        source_list_text(g) == type_list_text(g),
    decreases g,
{
    if g.len() > 0 {
        let t = g[0];
        let rest = g.drop_first();
        assert(g =~= seq![t] + rest);
        assert(decreases_to!(g => g[0]));
        lemma_funcs_free_text(t);
        if rest.len() > 0 {
            assert(decreases_to!(g => g.drop_first()));
            lemma_all_funcs_free_text(rest);
            lemma_source_list_text_cons(t, rest);
            lemma_type_list_text_cons(t, rest);
        }
    }
}

/// What `string_output` prints of a type read from a line is where the line
/// starts, as long as the generic arguments read carry no function list: the
/// printed text leaves out only the function list at the end.
pub proof fn law_printed_type_starts_the_line(s: Seq<char>)
    ensures
        ty_at(s, 0) matches Some((t, e)) ==> (match t.generics {
            Some(g) => all_funcs_free(g),
            None => true,
        }) ==> type_text(t).len() <= e && s.take(type_text(t).len() as int) == type_text(t),
{
    lemma_ty_text(s, 0);
    if let Some((t, e)) = ty_at(s, 0) {
        let ok = match t.generics {
            Some(g) => all_funcs_free(g),
            None => true,
        };
        if ok {
            if let Some(g) = t.generics {
                lemma_all_funcs_free_text(g);
            }
            let head = type_text(t);
            let full = source_text(t);
            let head2 = match t.generics {
                None => t.base,
                Some(g) => t.base + seq!['<'] + source_list_text(g) + seq!['>'],
            };
            assert(head2 == head);
            match t.funcs {
                None => assert(full == head2),
                Some(fs) => assert(full == head2 + seq!['('] + func_list_text(fs) + seq![')']),
            }
            assert(full.subrange(0, head.len() as int) =~= head);
            assert(s.take(head.len() as int) =~= s.subrange(0, e).subrange(0, head.len() as int));
        }
    }
}

/// Printing a well-formed type description without function lists with
/// `string_output` and reading the text back gives the same description, and
/// reading consumes the whole text.
pub proof fn law_printed_type_reads_back(t: SpecRtype)
    requires
        wf_type(t),
        funcs_free(t),
    ensures
        ty_at(type_text(t), 0) == Some((t, type_text(t).len() as int)),
{
    lemma_funcs_free_text(t);
    law_written_text_reads_back(t);
}

/// The crate of a path is the part before its first `::`: a prefix of the
/// path with no `::` in it, which is the whole path or is followed by `::`.
pub proof fn law_crate_is_first_path_segment(base: Seq<char>)
    ensures
        crate_of(base).len() <= base.len(),
        base.take(crate_of(base).len() as int) == crate_of(base),
        forall|j: int| 0 <= j < crate_of(base).len() ==> !path_sep_at(crate_of(base), j),
        crate_of(base).len() < base.len() ==> path_sep_at(base, crate_of(base).len() as int),
{
    lemma_first_path_sep(base, 0);
    let c = crate_of(base);
    assert forall|j: int| 0 <= j < c.len() implies !path_sep_at(c, j) by {
        assert(!path_sep_at(base, j));
        if path_sep_at(c, j) {
            assert(c[j] == base[j] && c[j + 1] == base[j + 1]);
        }
    }
}

proof fn lemma_func_list_wf(s: Seq<char>, i: int)
    requires
        0 <= i <= s.len(),
    ensures
        func_list_at(s, i) matches Some((fs, e)) ==> fs.len() > 0 && forall|k: int|
            0 <= k < fs.len() ==> is_func_name(#[trigger] fs[k]),
    decreases s.len() - i,
{
    lemma_func_run_bound(s, i);
    lemma_func_item_text(s, i);
    if let Some((f, e)) = func_item_at(s, i) {
        if func_run(s, i) > 0 {
            assert forall|k: int| 0 <= k < f.len() implies is_func_char(#[trigger] f[k]) by {
                assert(f[k] == s[i + k]);
            }
        }
        assert(is_func_name(f));
        if sep_at(s, e) && i < e {
            lemma_func_list_wf(s, e + 2);
            if let Some((fs, e2)) = func_list_at(s, e + 2) {
                let all = seq![f] + fs;
                assert forall|k: int| 0 <= k < all.len() implies is_func_name(#[trigger] all[k]) by {
                    if k > 0 {
                        assert(all[k] == fs[k - 1]);
                    }
                }
            }
        }
    }
}

proof fn lemma_ty_wf(s: Seq<char>, i: int)
    requires
        0 <= i <= s.len(),
    ensures
        ty_at(s, i) matches Some((t, e)) ==> wf_type(t),
    decreases s.len() - i, 1int,
{
    lemma_type_run_bound(s, i);
    let k = type_run(s, i);
    if k > 0 {
        let b = i + k;
        lemma_generics_wf(s, b);
        lemma_generics_text(s, b);
        let g_end = match generics_at(s, b) {
            Some((ts, e)) => e,
            None => b,
        };
        if char_at(s, g_end, '(') {
            lemma_func_list_wf(s, g_end + 1);
        }
        let t = ty_at(s, i).unwrap().0;
        assert forall|j: int| 0 <= j < t.base.len() implies is_type_char(#[trigger] t.base[j]) by {
            assert(t.base[j] == s[i + j]);
        }
    }
}

proof fn lemma_ty_list_wf(s: Seq<char>, i: int)
    requires
        0 <= i <= s.len(),
    ensures
        ty_list_at(s, i) matches Some((ts, e)) ==> ts.len() > 0 && wf_types(ts),
    decreases s.len() - i, 2int,
{
    lemma_ty_wf(s, i);
    lemma_ty_text(s, i);
    if let Some((t, e)) = ty_at(s, i) {
        assert(seq![t].drop_first() =~= Seq::<SpecRtype>::empty());
        assert(wf_types(Seq::<SpecRtype>::empty()));
        if sep_at(s, e) && i < e {
            lemma_ty_list_wf(s, e + 2);
            if let Some((ts, e2)) = ty_list_at(s, e + 2) {
                let all = seq![t] + ts;
                assert(all[0] == t);
                assert(all.drop_first() =~= ts);
            }
        }
    }
}

proof fn lemma_generics_wf(s: Seq<char>, i: int)
    requires
        0 <= i <= s.len(),
    ensures
        generics_at(s, i) matches Some((ts, e)) ==> ts.len() > 0 && wf_types(ts),
    decreases s.len() - i, 0int,
{
    if char_at(s, i, '<') {
        lemma_ty_list_wf(s, i + 1);
    }
}

/// Every type description that is read is well formed: a non-empty path of
/// type characters, and non-empty lists of generic arguments and of function
/// names, each name `*` or a run of letters, digits and `_`, at every level.
pub proof fn law_what_is_read_is_well_formed(s: Seq<char>, i: int)
    requires
        0 <= i <= s.len(),
    ensures
        ty_at(s, i) matches Some((t, e)) ==> wf_type(t),
{
    lemma_ty_wf(s, i);
}

/// The text with every function group removed: a `(` and all that follows it
/// up to and including the next `)` are left out (`in_group` says that such a
/// `(` has been seen and its `)` not yet).
pub open spec fn without_groups_from(s: Seq<char>, in_group: bool) -> Seq<char>
    decreases s.len(),
{
    if s.len() == 0 {
        Seq::empty()
    } else if in_group {
        without_groups_from(s.drop_first(), s[0] != ')')
    } else if s[0] == '(' {
        without_groups_from(s.drop_first(), true)
    } else {
        seq![s[0]] + without_groups_from(s.drop_first(), false)
    }
}

/// The text with every `(..)` function group removed.
pub open spec fn without_groups(s: Seq<char>) -> Seq<char> {
    without_groups_from(s, false)
}

proof fn lemma_without_groups_keeps(a: Seq<char>, b: Seq<char>)
    requires
        forall|k: int| 0 <= k < a.len() ==> a[k] != '(',
    ensures
        without_groups(a + b) == a + without_groups(b),
    decreases a.len(),
{
    if a.len() > 0 {
        let rest = a.drop_first();
        assert((a + b).drop_first() =~= rest + b);
        assert((a + b)[0] == a[0]);
        lemma_without_groups_keeps(rest, b);
        assert(a =~= seq![a[0]] + rest);
    } else {
        assert(a + b =~= b);
    }
}

proof fn lemma_without_groups_skips(f: Seq<char>, b: Seq<char>)
    requires
        forall|k: int| 0 <= k < f.len() ==> f[k] != ')',
    ensures
        without_groups_from(f + seq![')'] + b, true) == without_groups(b),
    decreases f.len(),
{
    let x = f + seq![')'] + b;
    if f.len() > 0 {
        assert(x[0] == f[0]);
        assert(x.drop_first() =~= f.drop_first() + seq![')'] + b);
        lemma_without_groups_skips(f.drop_first(), b);
    } else {
        assert(x[0] == ')');
        assert(x.drop_first() =~= b);
    }
}

proof fn lemma_func_list_text_no_paren(fs: Seq<Seq<char>>)
    requires
        forall|k: int| 0 <= k < fs.len() ==> is_func_name(#[trigger] fs[k]),
    ensures
        forall|k: int| 0 <= k < func_list_text(fs).len() ==> func_list_text(fs)[k] != ')',
    decreases fs.len(),
{
    if fs.len() == 1 {
        assert(is_func_name(fs[0]));
        assert forall|k: int| 0 <= k < fs[0].len() implies fs[0][k] != ')' by {
            if fs[0] != seq!['*'] {
                assert(is_func_char(fs[0][k]));
            }
        }
    } else if fs.len() > 1 {
        let init = fs.drop_last();
        assert forall|k: int| 0 <= k < init.len() implies is_func_name(#[trigger] init[k]) by {
            assert(init[k] == fs[k]);
        }
        lemma_func_list_text_no_paren(init);
        let l = fs.last();
        assert(is_func_name(fs[fs.len() - 1]));
        let text = func_list_text(init) + seq![',', ' '] + l;
        assert forall|k: int| 0 <= k < text.len() implies text[k] != ')' by {
            let n = func_list_text(init).len();
            if k >= n + 2 {
                assert(text[k] == l[k - n - 2]);
                if l != seq!['*'] {
                    assert(is_func_char(l[k - n - 2]));
                }
            }
        }
    }
}

proof fn lemma_type_without_groups(t: SpecRtype, rest: Seq<char>)
    requires
        wf_type(t),
    ensures
        without_groups(source_text(t) + rest) == type_text(t) + without_groups(rest),
    decreases t,
{
    let tail = match t.funcs {
        None => rest,
        Some(fs) => seq!['('] + func_list_text(fs) + seq![')'] + rest,
    };
    assert(without_groups(tail) == without_groups(rest)) by {
        if let Some(fs) = t.funcs {
            lemma_func_list_text_no_paren(fs);
            let x = seq!['('] + func_list_text(fs) + seq![')'] + rest;
            assert(x[0] == '(');
            assert(x.drop_first() =~= func_list_text(fs) + seq![')'] + rest);
            lemma_without_groups_skips(func_list_text(fs), rest);
        }
    }
    assert forall|k: int| 0 <= k < t.base.len() implies t.base[k] != '(' by {
        assert(is_type_char(t.base[k]));
    }
    match t.generics {
        None => {
            assert(source_text(t) + rest =~= t.base + tail);
            lemma_without_groups_keeps(t.base, tail);
        },
        Some(g) => {
            let lead = t.base + seq!['<'];
            assert forall|k: int| 0 <= k < lead.len() implies lead[k] != '(' by {
                if k < t.base.len() {
                    assert(lead[k] == t.base[k]);
                }
            }
            let close = seq!['>'] + tail;
            assert(source_text(t) + rest =~= lead + (source_list_text(g) + close));
            lemma_without_groups_keeps(lead, source_list_text(g) + close);
            assert(decreases_to!(t => t.generics));
            assert(decreases_to!(t.generics => t.generics->0));
            lemma_list_without_groups(g, close);
            assert(close =~= seq!['>'] + tail);
            lemma_without_groups_keeps(seq!['>'], tail);
            assert(type_text(t) + without_groups(rest) =~= lead + (type_list_text(g) + (seq!['>']
                + without_groups(tail))));
        },
    }
}

proof fn lemma_list_without_groups(g: Seq<SpecRtype>, rest: Seq<char>)
    requires
        g.len() > 0,
        wf_types(g),
    ensures
        without_groups(source_list_text(g) + rest) == type_list_text(g) + without_groups(rest),
    decreases g,
{
    let t = g[0];
    let tail = g.drop_first();
    assert(g =~= seq![t] + tail);
    assert(decreases_to!(g => g[0]));
    if tail.len() == 0 {
        lemma_type_without_groups(t, rest);
    } else {
        lemma_source_list_text_cons(t, tail);
        lemma_type_list_text_cons(t, tail);
        let after = seq![',', ' '] + (source_list_text(tail) + rest);
        assert(source_list_text(g) + rest =~= source_text(t) + after);
        lemma_type_without_groups(t, after);
        lemma_without_groups_keeps(seq![',', ' '], source_list_text(tail) + rest);
        assert(decreases_to!(g => g.drop_first()));
        lemma_list_without_groups(tail, rest);
        assert(type_list_text(g) + without_groups(rest) =~= type_text(t) + (seq![',', ' ']
            + (type_list_text(tail) + without_groups(rest))));
    }
}

/// What `string_output` prints of a type description read from the whole of
/// a text is that text with every `(..)` function group removed; where the
/// text holds no `(`, it is the text itself.
pub proof fn law_printing_undoes_reading(s: Seq<char>)
    ensures
        ty_at(s, 0) matches Some((t, e)) ==> e == s.len() ==> type_text(t) == without_groups(s),
        ty_at(s, 0) matches Some((t, e)) ==> e == s.len() ==> (forall|k: int|
            0 <= k < s.len() ==> s[k] != '(') ==> type_text(t) == s,
{
    if let Some((t, e)) = ty_at(s, 0) {
        if e == s.len() {
            lemma_ty_text(s, 0);
            lemma_ty_wf(s, 0);
            assert(s.subrange(0, e) =~= s);
            assert(source_text(t) + Seq::<char>::empty() =~= s);
            lemma_type_without_groups(t, Seq::<char>::empty());
            assert(without_groups(Seq::<char>::empty()) =~= Seq::<char>::empty());
            assert(type_text(t) + Seq::<char>::empty() =~= type_text(t));
            if forall|k: int| 0 <= k < s.len() ==> s[k] != '(' {
                lemma_without_groups_keeps(s, Seq::<char>::empty());
                assert(s + Seq::<char>::empty() =~= s);
            }
        }
    }
}

} // verus!
