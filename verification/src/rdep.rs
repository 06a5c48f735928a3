//! Reading the lines of an `.rdep` file into type descriptions.

use vstd::prelude::*;

use crate::grammar::{parse_ty, ty_at};
use crate::rtype::{rtypes_view, Rtype, SpecRtype};
use crate::text::{split_lines, strings_view, text_lines};

verus! {

/// Reads an `.rdep` file: one type description per line.
pub struct RdepParser {
    /// The lines not read yet.
    pub input: Vec<String>,
    pub rust_types: Vec<Rtype>,
    pub cpp_types: Vec<String>,
    pub rust_fns: Vec<String>,
}

/// What an `.rdep` file lists.
pub struct ParsedTypes {
    pub rust_types: Vec<Rtype>,
    pub cpp_types: Vec<String>,
    pub rust_fns: Vec<String>,
}

/// The type description that a line starts with.
pub open spec fn line_type(line: Seq<char>) -> SpecRtype {
    ty_at(line, 0).unwrap().0
}

/// A line starts with a type description (its first character is a type character).
pub open spec fn line_parses(line: Seq<char>) -> bool {
    ty_at(line, 0) is Some
}

impl RdepParser {
    /// The lines that are still to be read.
    pub open spec fn pending(&self) -> Seq<Seq<char>> {
        strings_view(self.input@)
    }

    /// A reader of the lines of `input`, with nothing read yet.
    pub fn new(input: &str) -> (res: Self)
        ensures
            res.pending() == text_lines(input@),
            res.rust_types@.len() == 0,
            res.cpp_types@.len() == 0,
            res.rust_fns@.len() == 0,
    {
        RdepParser {
            input: split_lines(input),
            rust_types: Vec::new(),
            cpp_types: Vec::new(),
            rust_fns: Vec::new(),
        }
    }

    /// Reads every pending line: the type description each starts with is
    /// appended to `rust_types`, in the order of the lines, and the text that
    /// follows it on the line is not read.
    pub fn parse(&mut self)
        requires
            forall|k: int|
                0 <= k < old(self).pending().len() ==> line_parses(#[trigger] old(self).pending()[k]),
        ensures
            rtypes_view(final(self).rust_types@) == rtypes_view(old(self).rust_types@) + old(
                self,
            ).pending().map_values(|l: Seq<char>| line_type(l)),
            final(self).pending().len() == 0,
            final(self).cpp_types == old(self).cpp_types,
            final(self).rust_fns == old(self).rust_fns,
    {
        let ghost lines = self.pending();
        let ghost start = rtypes_view(self.rust_types@);
        let n = self.input.len();
        for i in 0..n
            invariant
                n == self.input@.len(),
                lines == strings_view(self.input@),
                forall|k: int| 0 <= k < lines.len() ==> line_parses(#[trigger] lines[k]),
                rtypes_view(self.rust_types@) == start + lines.take(i as int).map_values(
                    |l: Seq<char>| line_type(l),
                ),
                self.cpp_types == old(self).cpp_types,
                self.rust_fns == old(self).rust_fns,
        {
            let mut line: &str = self.input[i].as_str();
            assert(line@ == lines[i as int]);
            match parse_ty(&mut line) {
                Some(t) => {
                    let ghost before = self.rust_types@;
                    self.rust_types.push(t);
                    assert(rtypes_view(self.rust_types@) =~= rtypes_view(before) + seq![t@]);
                    assert(lines.take(i + 1).map_values(|l: Seq<char>| line_type(l))
                        =~= lines.take(i as int).map_values(|l: Seq<char>| line_type(l)) + seq![
                        line_type(lines[i as int])]);
                },
                None => {
                    // cannot happen: every pending line starts with a type
                    assert(line_parses(lines[i as int]));
                },
            }
        }
        self.input = Vec::new();
        assert(lines.take(n as int) =~= lines);
        assert(strings_view(self.input@) =~= Seq::<Seq<char>>::empty());
    }
}

impl ParsedTypes {
    /// Joins `rhs` into `self`; as it stands it leaves `self` as it was.
    pub fn union(&mut self, rhs: Self)
        ensures
            *final(self) == *old(self),
    {
    }

    /// What the reader has collected.
    pub fn from_parser(rdp: RdepParser) -> (res: Self)
        ensures
            res.rust_types == rdp.rust_types,
            res.cpp_types == rdp.cpp_types,
            res.rust_fns == rdp.rust_fns,
    {
        ParsedTypes {
            rust_types: rdp.rust_types,
            cpp_types: rdp.cpp_types,
            rust_fns: rdp.rust_fns,
        }
    }
}

} // verus!
