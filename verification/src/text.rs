//! Small verified helpers on text.

use vstd::prelude::*;
use vstd::string::*;

verus! {

/// The characters of `s`, one per element.
pub fn chars_of(s: &str) -> (res: Vec<char>)
    ensures
        res@ == s@,
{
    let mut res: Vec<char> = Vec::new();
    for c in it: s.chars()
        invariant
            it.seq() == s@,
            res@ == it.seq().take(it.index() as int),
    {
        res.push(c);
    }
    res
}

/// The text `s[i..j]` as a `String`.
pub fn slice_string(s: &str, i: usize, j: usize) -> (res: String)
    requires
        i <= j <= s@.len(),
    ensures
        res@ == s@.subrange(i as int, j as int),
{
    s.substring_char(i, j).to_owned()
}

/// The position of the first line feed at or after `i`, or `s.len()` where there is none.
pub open spec fn first_newline(s: Seq<char>, i: int) -> int
    decreases s.len() - i,
{
    if i >= s.len() {
        s.len() as int
    } else if s[i] == '\n' {
        i
    } else {
        first_newline(s, i + 1)
    }
}

/// A line without the carriage return that ends it, if one does.
pub open spec fn strip_cr(l: Seq<char>) -> Seq<char> {
    if l.len() > 0 && l.last() == '\r' {
        l.drop_last()
    } else {
        l
    }
}

/// The lines of `s` from position `i` on: split after each line feed, the
/// line feed and a carriage return just before it removed; a line feed at the
/// very end does not start another, empty, line.
pub open spec fn lines_from(s: Seq<char>, i: int) -> Seq<Seq<char>>
    decreases s.len() - i,
{
    if i < 0 || i >= s.len() {
        Seq::empty()
    } else {
        let e = first_newline(s, i);
        proof {
            lemma_first_newline(s, i);
        }
        if e >= s.len() {
            seq![s.subrange(i, s.len() as int)]
        } else {
            seq![strip_cr(s.subrange(i, e))] + lines_from(s, e + 1)
        }
    }
}

/// The lines of `s`, as `str::lines` splits them.
pub open spec fn text_lines(s: Seq<char>) -> Seq<Seq<char>> {
    lines_from(s, 0)
}

pub proof fn lemma_first_newline(s: Seq<char>, i: int)
    requires
        0 <= i <= s.len(),
    ensures
        i <= first_newline(s, i) <= s.len(),
        forall|j: int| i <= j < first_newline(s, i) ==> s[j] != '\n',
        first_newline(s, i) < s.len() ==> s[first_newline(s, i)] == '\n',
    decreases s.len() - i,
{
    if i < s.len() && s[i] != '\n' {
        lemma_first_newline(s, i + 1);
    }
}

/// The values of a sequence of strings.
pub open spec fn strings_view(v: Seq<String>) -> Seq<Seq<char>> {
    v.map_values(|x: String| x@)
}

/// The lines of `input`, as `str::lines` gives them.
pub fn split_lines(input: &str) -> (res: Vec<String>)
    ensures
        strings_view(res@) == text_lines(input@),
{
    let cs = chars_of(input);
    let mut res: Vec<String> = Vec::new();
    let mut start: usize = 0;
    while start < cs.len()
        invariant
            cs@ == input@,
            start <= cs.len(),
            strings_view(res@) + lines_from(cs@, start as int) == text_lines(cs@),
        decreases cs.len() - start,
    {
        let mut e = start;
        proof {
            lemma_first_newline(cs@, start as int);
        }
        while e < cs.len() && cs[e] != '\n'
            invariant
                start <= e <= cs.len(),
                first_newline(cs@, start as int) == first_newline(cs@, e as int),
            decreases cs.len() - e,
        {
            e = e + 1;
        }
        let ghost old_res = res@;
        if e == cs.len() {
            res.push(slice_string(input, start, e));
            assert(strings_view(res@) =~= strings_view(old_res) + lines_from(cs@, start as int));
            assert(lines_from(cs@, cs.len() as int) =~= Seq::<Seq<char>>::empty());
            start = e;
        } else {
            let end = if e > start && cs[e - 1] == '\r' {
                e - 1
            } else {
                e
            };
            res.push(slice_string(input, start, end));
            assert(cs@.subrange(start as int, end as int) == strip_cr(
                cs@.subrange(start as int, e as int),
            ));
            assert(strings_view(res@) + lines_from(cs@, e + 1) =~= strings_view(old_res)
                + lines_from(cs@, start as int));
            start = e + 1;
        }
    }
    assert(lines_from(cs@, start as int) =~= Seq::<Seq<char>>::empty());
    assert(strings_view(res@) =~= strings_view(res@) + Seq::<Seq<char>>::empty());
    res
}

} // verus!
