//! The type descriptions that an `.rdep` file lists, and how they are printed.

use vstd::prelude::*;
use vstd::string::*;

verus! {

/// A Rust type as an `.rdep` line names it: a path, optional generic
/// arguments, and an optional list of the functions that are used on it.
#[derive(Debug, PartialEq, Eq)]
pub struct Rtype {
    pub base: String,
    pub generics: Option<Vec<Rtype>>,
    pub funcs: Option<Vec<String>>,
}

/// The mathematical value of an [`Rtype`].
pub struct SpecRtype {
    pub base: Seq<char>,
    pub generics: Option<Seq<SpecRtype>>,
    pub funcs: Option<Seq<Seq<char>>>,
}

/// The value of a type description.
pub open spec fn rtype_view(r: Rtype) -> SpecRtype
    decreases r,
{
    SpecRtype {
        base: r.base@,
        generics: match r.generics {
            Some(g) => Some(
                Seq::new(
                    g@.len(),
                    |i: int|
                        if 0 <= i < g@.len() {
                            proof {
                                assert(decreases_to!(r => r.generics));
                                assert(decreases_to!(r.generics => g));
                                assert(decreases_to!(g => g@));
                                assert(decreases_to!(g@ => g@[i]));
                            }
                            rtype_view(g@[i])
                        } else {
                            SpecRtype { base: Seq::empty(), generics: None, funcs: None }
                        },
                ),
            ),
            None => None,
        },
        funcs: match r.funcs {
            Some(f) => Some(f@.map_values(|x: String| x@)),
            None => None,
        },
    }
}

/// The values of a sequence of type descriptions.
pub open spec fn rtypes_view(v: Seq<Rtype>) -> Seq<SpecRtype> {
    v.map_values(|r: Rtype| rtype_view(r))
}

impl View for Rtype {
    type V = SpecRtype;

    open spec fn view(&self) -> SpecRtype {
        rtype_view(*self)
    }
}

/// A copy of a type description, with the same value.
fn copy_rtype(r: &Rtype) -> (res: Rtype)
    ensures
        res@ == r@,
    decreases r,
{
    let generics = match &r.generics {
        Some(g) => {
            let mut out: Vec<Rtype> = Vec::new();
            for i in 0..g.len()
                invariant
                    r.generics == Some(*g),
                    out@.len() == i,
                    forall|j: int| 0 <= j < i ==> rtype_view(#[trigger] out@[j]) == rtype_view(g@[j]),
            {
                proof {
                    assert(decreases_to!(r => r.generics));
                    assert(decreases_to!(r.generics => r.generics->0));
                    assert(decreases_to!(*g => g@));
                    assert(decreases_to!(g@ => g@[i as int]));
                }
                out.push(copy_rtype(&g[i]));
            }
            Some(out)
        },
        None => None,
    };
    let funcs = match &r.funcs {
        Some(f) => Some(f.clone()),
        None => None,
    };
    let res = Rtype { base: r.base.clone(), generics, funcs };
    proof {
        if r.generics is Some {
            assert(res@.generics.unwrap() =~= r@.generics.unwrap());
        }
        if r.funcs is Some {
            assert(res@.funcs.unwrap() =~= r@.funcs.unwrap());
        }
    }
    res
}

impl Clone for Rtype {
    fn clone(&self) -> (res: Self)
        ensures
            res@ == self@,
    {
        copy_rtype(self)
    }
}

/// The two characters `::` start at `i`.
pub open spec fn path_sep_at(s: Seq<char>, i: int) -> bool {
    0 <= i && i + 1 < s.len() && s[i] == ':' && s[i + 1] == ':'
}

/// The position of the first `::` at or after `i`, or `s.len()` where there is none.
pub open spec fn first_path_sep(s: Seq<char>, i: int) -> int
    decreases s.len() - i,
{
    if i >= s.len() {
        s.len() as int
    } else if path_sep_at(s, i) {
        i
    } else {
        first_path_sep(s, i + 1)
    }
}

/// The crate a path belongs to: the part before the first `::`, or the whole path.
pub open spec fn crate_of(base: Seq<char>) -> Seq<char> {
    base.take(first_path_sep(base, 0))
}

/// The text of a type description: its path, then its generic arguments
/// between `<` and `>`, separated by `", "`. The function list is not printed.
pub open spec fn type_text(t: SpecRtype) -> Seq<char>
    decreases t,
{
    match t.generics {
        None => t.base,
        Some(g) => t.base + seq!['<'] + type_list_text(g) + seq!['>'],
    }
}

/// The texts of the types in `g`, separated by `", "`.
pub open spec fn type_list_text(g: Seq<SpecRtype>) -> Seq<char>
    decreases g,
{
    if g.len() == 0 {
        Seq::empty()
    } else if g.len() == 1 {
        type_text(g[0])
    } else {
        type_list_text(g.drop_last()) + seq![',', ' '] + type_text(g.last())
    }
}

/// Function names separated by `", "`.
pub open spec fn func_list_text(fs: Seq<Seq<char>>) -> Seq<char>
    decreases fs.len(),
{
    if fs.len() == 0 {
        Seq::empty()
    } else if fs.len() == 1 {
        fs[0]
    } else {
        func_list_text(fs.drop_last()) + seq![',', ' '] + fs.last()
    }
}

/// The full text of a type description, as an `.rdep` line writes it: path,
/// generic arguments between `<` and `>`, and function list between `(` and `)`,
/// at every level.
pub open spec fn source_text(t: SpecRtype) -> Seq<char>
    decreases t,
{
    let head = match t.generics {
        None => t.base,
        Some(g) => t.base + seq!['<'] + source_list_text(g) + seq!['>'],
    };
    match t.funcs {
        None => head,
        Some(fs) => head + seq!['('] + func_list_text(fs) + seq![')'],
    }
}

/// The full texts of the types in `g`, separated by `", "`.
pub open spec fn source_list_text(g: Seq<SpecRtype>) -> Seq<char>
    decreases g,
{
    if g.len() == 0 {
        Seq::empty()
    } else if g.len() == 1 {
        source_text(g[0])
    } else {
        source_list_text(g.drop_last()) + seq![',', ' '] + source_text(g.last())
    }
}

pub proof fn lemma_first_path_sep(s: Seq<char>, i: int)
    requires
        0 <= i <= s.len(),
    ensures
        i <= first_path_sep(s, i) <= s.len(),
        forall|j: int| i <= j < first_path_sep(s, i) ==> !path_sep_at(s, j),
        first_path_sep(s, i) < s.len() ==> path_sep_at(s, first_path_sep(s, i)),
    decreases s.len() - i,
{
    if i < s.len() && !path_sep_at(s, i) {
        lemma_first_path_sep(s, i + 1);
    }
}

impl Rtype {
    /// The crate the type belongs to: its path up to the first `::`.
    pub fn crayte(&self) -> (res: String)
        ensures
            res@ == crate_of(self.base@),
    {
        let cs = crate::text::chars_of(self.base.as_str());
        let mut i: usize = 0;
        proof {
            lemma_first_path_sep(cs@, 0);
        }
        while i < cs.len() && !(cs[i] == ':' && i + 1 < cs.len() && cs[i + 1] == ':')
            invariant
                i <= cs.len(),
                first_path_sep(cs@, 0) == first_path_sep(cs@, i as int),
            decreases cs.len() - i,
        {
            i = i + 1;
        }
        self.base.as_str().substring_char(0, i).to_owned()
    }

    /// The text of the type, generic arguments included, function list left out.
    pub fn string_output(&self) -> (res: String)
        ensures
            res@ == type_text(self@),
        decreases self,
    {
        let mut raw = self.base.clone();
        match &self.generics {
            None => raw,
            Some(g) => {
                let mut list = String::new();
                let ghost gv = rtypes_view(g@);
                for i in 0..g.len()
                    invariant
                        self.generics == Some(*g),
                        gv == rtypes_view(g@),
                        list@ == type_list_text(gv.take(i as int)),
                {
                    proof {
                        assert(decreases_to!(self => self.generics));
                        assert(decreases_to!(self.generics => self.generics->0));
                        assert(decreases_to!(*g => g@));
                        assert(decreases_to!(g@ => g@[i as int]));
                    }
                    let piece = g[i].string_output();
                    proof {
                        let t = gv.take(i + 1);
                        assert(t.drop_last() =~= gv.take(i as int));
                        assert(t.last() == rtype_view(g@[i as int]));
                    }
                    if i > 0 {
                        list.append(", ");
                        proof {
                            reveal_strlit(", ");
                        }
                    }
                    list.append(piece.as_str());
                    proof {
                        let t = gv.take(i + 1);
                        if i == 0 {
                            assert(gv.take(0) =~= Seq::<SpecRtype>::empty());
                        }
                        assert(list@ =~= type_list_text(t));
                    }
                }
                raw.append("<");
                raw.append(list.as_str());
                raw.append(">");
                proof {
                    reveal_strlit("<");
                    reveal_strlit(">");
                    assert(gv.take(g@.len() as int) =~= gv);
                    assert(self@.generics == Some(gv)) by {
                        assert(rtype_view(*self).generics.unwrap() =~= gv);
                    }
                    assert(raw@ =~= type_text(self@));
                }
                raw
            },
        }
    }
}

} // verus!
