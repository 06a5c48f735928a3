//! The grammar of one type description in an `.rdep` line.
//!
//! ```text
//! ty       ::= type_chars generics? funcs?
//! generics ::= '<' ty (", " ty)* '>'
//! funcs    ::= '(' item (", " item)* ')'
//! item     ::= func_chars | '*'
//! ```
//!
//! `type_chars` is a non-empty run of ASCII letters, digits, `_` and `:`;
//! `func_chars` is a non-empty run of ASCII letters, digits and `_`. Every
//! repetition is greedy. An optional part that does not parse completely is
//! treated as absent and consumes nothing, and a list stops before a separator
//! that is not followed by an item; the parse of a type fails only where no
//! `type_chars` start it.
//!
//! The spec functions below read a character sequence `s` from position `i`
//! and give the value read and the position after it.

use vstd::prelude::*;
use vstd::string::*;

use crate::rtype::{rtype_view, rtypes_view, Rtype, SpecRtype};
use crate::text::{chars_of, slice_string};

verus! {

pub open spec fn is_type_char(c: char) -> bool {
    ||| ('a' <= c && c <= 'z')
    ||| ('A' <= c && c <= 'Z')
    ||| ('0' <= c && c <= '9')
    ||| c == '_'
    ||| c == ':'
}

pub open spec fn is_func_char(c: char) -> bool {
    ||| ('a' <= c && c <= 'z')
    ||| ('A' <= c && c <= 'Z')
    ||| ('0' <= c && c <= '9')
    ||| c == '_'
}

/// The number of characters of the run of type characters at `i`.
pub open spec fn type_run(s: Seq<char>, i: int) -> nat
    decreases s.len() - i,
{
    if 0 <= i < s.len() && is_type_char(s[i]) {
        1 + type_run(s, i + 1)
    } else {
        0
    }
}

/// The number of characters of the run of function-name characters at `i`.
pub open spec fn func_run(s: Seq<char>, i: int) -> nat
    decreases s.len() - i,
{
    if 0 <= i < s.len() && is_func_char(s[i]) {
        1 + func_run(s, i + 1)
    } else {
        0
    }
}

/// `s[i] == c`.
pub open spec fn char_at(s: Seq<char>, i: int, c: char) -> bool {
    0 <= i < s.len() && s[i] == c
}

/// The list separator `", "` starts at `i`.
pub open spec fn sep_at(s: Seq<char>, i: int) -> bool {
    char_at(s, i, ',') && char_at(s, i + 1, ' ')
}

/// One function item: a run of function-name characters, or `*`.
pub open spec fn func_item_at(s: Seq<char>, i: int) -> Option<(Seq<char>, int)> {
    let k = func_run(s, i);
    if k > 0 {
        Some((s.subrange(i, i + k), i + k))
    } else if char_at(s, i, '*') {
        Some((seq!['*'], i + 1))
    } else {
        None
    }
}

/// Function items separated by `", "`, at least one.
pub open spec fn func_list_at(s: Seq<char>, i: int) -> Option<(Seq<Seq<char>>, int)>
    decreases s.len() - i,
{
    match func_item_at(s, i) {
        None => None,
        Some((f, e)) => {
            if sep_at(s, e) && i < e {
                match func_list_at(s, e + 2) {
                    Some((fs, e2)) => Some((seq![f] + fs, e2)),
                    None => Some((seq![f], e)),
                }
            } else {
                Some((seq![f], e))
            }
        },
    }
}

/// The function list `( item, ... )`.
pub open spec fn funcs_at(s: Seq<char>, i: int) -> Option<(Seq<Seq<char>>, int)> {
    if char_at(s, i, '(') {
        match func_list_at(s, i + 1) {
            Some((fs, e)) => if char_at(s, e, ')') {
                Some((fs, e + 1))
            } else {
                None
            },
            None => None,
        }
    } else {
        None
    }
}

/// A type description at `i`.
pub open spec fn ty_at(s: Seq<char>, i: int) -> Option<(SpecRtype, int)>
    decreases s.len() - i, 1int,
{
    let k = type_run(s, i);
    if k == 0 {
        None
    } else {
        let b = i + k;
        proof {
            lemma_type_run_bound(s, i);
        }
        let (generics, g_end) = match generics_at(s, b) {
            Some((ts, e)) => (Some(ts), e),
            None => (None, b),
        };
        let (funcs, end) = match funcs_at(s, g_end) {
            Some((fs, e)) => (Some(fs), e),
            None => (None, g_end),
        };
        Some((SpecRtype { base: s.subrange(i, b), generics, funcs }, end))
    }
}

/// Type descriptions separated by `", "`, at least one.
/// (The test `i < e` always holds: a type description is never empty.)
pub open spec fn ty_list_at(s: Seq<char>, i: int) -> Option<(Seq<SpecRtype>, int)>
    decreases s.len() - i, 2int,
{
    if !(0 <= i <= s.len()) {
        None
    } else {
        match ty_at(s, i) {
            None => None,
            Some((t, e)) => {
                if sep_at(s, e) && i < e {
                    match ty_list_at(s, e + 2) {
                        Some((ts, e2)) => Some((seq![t] + ts, e2)),
                        None => Some((seq![t], e)),
                    }
                } else {
                    Some((seq![t], e))
                }
            },
        }
    }
}

/// The generic arguments `< ty, ... >`.
pub open spec fn generics_at(s: Seq<char>, i: int) -> Option<(Seq<SpecRtype>, int)>
    decreases s.len() - i, 0int,
{
    if char_at(s, i, '<') {
        match ty_list_at(s, i + 1) {
            Some((ts, e)) => if char_at(s, e, '>') {
                Some((ts, e + 1))
            } else {
                None
            },
            None => None,
        }
    } else {
        None
    }
}

pub proof fn lemma_type_run_bound(s: Seq<char>, i: int)
    requires
        0 <= i <= s.len(),
    ensures
        i + type_run(s, i) <= s.len(),
        forall|j: int| i <= j < i + type_run(s, i) ==> is_type_char(#[trigger] s[j]),
        i + type_run(s, i) < s.len() ==> !is_type_char(s[i + type_run(s, i)]),
    decreases s.len() - i,
{
    if i < s.len() && is_type_char(s[i]) {
        lemma_type_run_bound(s, i + 1);
    }
}

pub proof fn lemma_func_run_bound(s: Seq<char>, i: int)
    requires
        0 <= i <= s.len(),
    ensures
        i + func_run(s, i) <= s.len(),
        forall|j: int| i <= j < i + func_run(s, i) ==> is_func_char(#[trigger] s[j]),
        i + func_run(s, i) < s.len() ==> !is_func_char(s[i + func_run(s, i)]),
    decreases s.len() - i,
{
    if i < s.len() && is_func_char(s[i]) {
        lemma_func_run_bound(s, i + 1);
    }
}

fn is_type_char_exec(c: char) -> (res: bool)
    ensures
        res == is_type_char(c),
{
    ('a' <= c && c <= 'z') || ('A' <= c && c <= 'Z') || ('0' <= c && c <= '9') || c == '_'
        || c == ':'
}

fn is_func_char_exec(c: char) -> (res: bool)
    ensures
        res == is_func_char(c),
{
    ('a' <= c && c <= 'z') || ('A' <= c && c <= 'Z') || ('0' <= c && c <= '9') || c == '_'
}

fn char_at_exec(cs: &Vec<char>, i: usize, c: char) -> (res: bool)
    ensures
        res == char_at(cs@, i as int, c),
{
    i < cs.len() && cs[i] == c
}

fn sep_at_exec(cs: &Vec<char>, i: usize) -> (res: bool)
    requires
        i <= cs.len(),
    ensures
        res == sep_at(cs@, i as int),
{
    char_at_exec(cs, i, ',') && i < cs.len() && char_at_exec(cs, i + 1, ' ')
}

fn type_run_exec(cs: &Vec<char>, i: usize) -> (end: usize)
    requires
        i <= cs.len(),
    ensures
        end == i + type_run(cs@, i as int),
{
    let mut j = i;
    proof {
        lemma_type_run_bound(cs@, i as int);
    }
    while j < cs.len() && is_type_char_exec(cs[j])
        invariant
            i <= j <= cs.len(),
            type_run(cs@, i as int) == (j - i) + type_run(cs@, j as int),
        decreases cs.len() - j,
    {
        j = j + 1;
    }
    j
}

fn func_run_exec(cs: &Vec<char>, i: usize) -> (end: usize)
    requires
        i <= cs.len(),
    ensures
        end == i + func_run(cs@, i as int),
{
    let mut j = i;
    while j < cs.len() && is_func_char_exec(cs[j])
        invariant
            i <= j <= cs.len(),
            func_run(cs@, i as int) == (j - i) + func_run(cs@, j as int),
        decreases cs.len() - j,
    {
        j = j + 1;
    }
    j
}

fn parse_func_item(s: &str, cs: &Vec<char>, i: usize) -> (res: Option<(String, usize)>)
    requires
        cs@ == s@,
        i <= cs.len(),
    ensures
        match func_item_at(cs@, i as int) {
            Some((f, e)) => res matches Some((g, e2)) && g@ == f && e2 == e && i < e <= cs.len(),
            None => res is None,
        },
{
    proof {
        lemma_func_run_bound(cs@, i as int);
    }
    let k = func_run_exec(cs, i);
    if k > i {
        Some((slice_string(s, i, k), k))
    } else if char_at_exec(cs, i, '*') {
        let star = "*".to_owned();
        proof {
            reveal_strlit("*");
        }
        assert(star@ =~= seq!['*']);
        Some((star, i + 1))
    } else {
        None
    }
}

fn parse_func_list(s: &str, cs: &Vec<char>, i: usize) -> (res: Option<(Vec<String>, usize)>)
    requires
        cs@ == s@,
        i <= cs.len(),
    ensures
        match func_list_at(cs@, i as int) {
            Some((fs, e)) => res matches Some((v, e2)) && v@.map_values(|x: String| x@) == fs
                && e2 == e && i < e <= cs.len(),
            None => res is None,
        },
    decreases cs.len() - i,
{
    match parse_func_item(s, cs, i) {
        None => None,
        Some((f, e)) => {
            let ghost fv = f@;
            if sep_at_exec(cs, e) && i < e {
                match parse_func_list(s, cs, e + 2) {
                    Some((mut rest, e2)) => {
                        let ghost old_rest = rest@;
                        rest.insert(0, f);
                        assert(rest@.map_values(|x: String| x@) =~= seq![fv]
                            + old_rest.map_values(|x: String| x@));
                        Some((rest, e2))
                    },
                    None => {
                        let mut v = Vec::new();
                        v.push(f);
                        assert(v@.map_values(|x: String| x@) =~= seq![fv]);
                        Some((v, e))
                    },
                }
            } else {
                let mut v = Vec::new();
                v.push(f);
                assert(v@.map_values(|x: String| x@) =~= seq![fv]);
                Some((v, e))
            }
        },
    }
}

fn parse_funcs(s: &str, cs: &Vec<char>, i: usize) -> (res: Option<(Vec<String>, usize)>)
    requires
        cs@ == s@,
        i <= cs.len(),
    ensures
        match funcs_at(cs@, i as int) {
            Some((fs, e)) => res matches Some((v, e2)) && v@.map_values(|x: String| x@) == fs
                && e2 == e && i < e <= cs.len(),
            None => res is None,
        },
{
    if char_at_exec(cs, i, '(') {
        match parse_func_list(s, cs, i + 1) {
            Some((fs, e)) => {
                if char_at_exec(cs, e, ')') {
                    Some((fs, e + 1))
                } else {
                    None
                }
            },
            None => None,
        }
    } else {
        None
    }
}

fn parse_ty_from(s: &str, cs: &Vec<char>, i: usize) -> (res: Option<(Rtype, usize)>)
    requires
        cs@ == s@,
        i <= cs.len(),
    ensures
        match ty_at(cs@, i as int) {
            Some((t, e)) => res matches Some((r, e2)) && r@ == t && e2 == e && i < e <= cs.len(),
            None => res is None,
        },
    decreases cs.len() - i, 1int,
{
    proof {
        lemma_type_run_bound(cs@, i as int);
    }
    let b = type_run_exec(cs, i);
    if b == i {
        return None;
    }
    let (generics, g_end) = match parse_generics(s, cs, b) {
        Some((ts, e)) => (Some(ts), e),
        None => (None, b),
    };
    let (funcs, end) = match parse_funcs(s, cs, g_end) {
        Some((fs, e)) => (Some(fs), e),
        None => (None, g_end),
    };
    let base = slice_string(s, i, b);
    let r = Rtype { base, generics, funcs };
    proof {
        let spec = ty_at(cs@, i as int).unwrap().0;
        if r.generics is Some {
            assert(rtype_view(r).generics.unwrap() =~= rtypes_view(r.generics.unwrap()@));
        }
        if r.funcs is Some {
            assert(rtype_view(r).funcs.unwrap() =~= r.funcs.unwrap()@.map_values(|x: String| x@));
        }
        assert(rtype_view(r) == spec);
    }
    Some((r, end))
}

fn parse_ty_list(s: &str, cs: &Vec<char>, i: usize) -> (res: Option<(Vec<Rtype>, usize)>)
    requires
        cs@ == s@,
        i <= cs.len(),
    ensures
        match ty_list_at(cs@, i as int) {
            Some((ts, e)) => res matches Some((v, e2)) && rtypes_view(v@) == ts && e2 == e && i
                < e <= cs.len(),
            None => res is None,
        },
    decreases cs.len() - i, 2int,
{
    match parse_ty_from(s, cs, i) {
        None => None,
        Some((t, e)) => {
            let ghost tv = t@;
            if sep_at_exec(cs, e) && i < e {
                match parse_ty_list(s, cs, e + 2) {
                    Some((mut rest, e2)) => {
                        let ghost old_rest = rest@;
                        rest.insert(0, t);
                        assert(rtypes_view(rest@) =~= seq![tv] + rtypes_view(old_rest));
                        Some((rest, e2))
                    },
                    None => {
                        let mut v = Vec::new();
                        v.push(t);
                        assert(rtypes_view(v@) =~= seq![tv]);
                        Some((v, e))
                    },
                }
            } else {
                let mut v = Vec::new();
                v.push(t);
                assert(rtypes_view(v@) =~= seq![tv]);
                Some((v, e))
            }
        },
    }
}

fn parse_generics(s: &str, cs: &Vec<char>, i: usize) -> (res: Option<(Vec<Rtype>, usize)>)
    requires
        cs@ == s@,
        i <= cs.len(),
    ensures
        match generics_at(cs@, i as int) {
            Some((ts, e)) => res matches Some((v, e2)) && rtypes_view(v@) == ts && e2 == e && i
                < e <= cs.len(),
            None => res is None,
        },
    decreases cs.len() - i, 0int,
{
    if char_at_exec(cs, i, '<') {
        match parse_ty_list(s, cs, i + 1) {
            Some((ts, e)) => {
                if char_at_exec(cs, e, '>') {
                    Some((ts, e + 1))
                } else {
                    None
                }
            },
            None => None,
        }
    } else {
        None
    }
}

/// Reads one type description from the front of `input` and moves `input`
/// past the text it read; `None`, with `input` unchanged, where `input` does
/// not start with a type character.
pub fn parse_ty(input: &mut &str) -> (res: Option<Rtype>)
    ensures
        match ty_at(old(input)@, 0) {
            Some((t, e)) => res matches Some(r) && r@ == t && final(input)@ == old(input)@.skip(e),
            None => res is None && final(input)@ == old(input)@,
        },
{
    let cs = chars_of(*input);
    match parse_ty_from(*input, &cs, 0) {
        Some((r, e)) => {
            let rest = input.substring_char(e, cs.len());
            *input = rest;
            Some(r)
        },
        None => None,
    }
}

} // verus!
