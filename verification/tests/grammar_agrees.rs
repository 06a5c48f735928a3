//! The reader of type descriptions, held against the same grammar written with
//! parser combinators.

use itertools::Itertools;
use winnow::{
    combinator::{alt, delimited, opt, separated},
    token::take_while,
    Parser,
};
use zngur::grammar::parse_ty;
use zngur::rtype::Rtype;

fn combinator_ty(input: &mut &str) -> winnow::Result<Rtype> {
    let func_chars = take_while(1.., ('a'..='z', 'A'..='Z', '0'..='9', '_'));
    let type_chars = take_while(1.., ('a'..='z', 'A'..='Z', '0'..='9', '_', ':'));
    let nested = delimited("<", separated(1.., combinator_ty, ", "), ">");
    let funcs = delimited("(", separated(1.., alt((func_chars, "*")), ", "), ")");
    (type_chars, opt(nested), opt(funcs))
        .map(
            |(base, generics, funcss): (&str, Option<Vec<Rtype>>, Option<Vec<&str>>)| Rtype {
                base: base.to_string(),
                generics,
                funcs: funcss.map(|f| f.into_iter().map(str::to_string).collect_vec()),
            },
        )
        .parse_next(input)
}

fn combinator_output(t: &Rtype) -> String {
    let mut raw = t.base.clone();
    if let Some(g) = &t.generics {
        let inner = Itertools::intersperse(g.iter().map(combinator_output), ", ".to_string())
            .collect::<String>();
        raw.push_str(&format!("<{inner}>"));
    }
    raw
}

const SAMPLES: &[&str] = &[
    "",
    "i32",
    "std::Vec<i32>(iter, size)",
    "std::HashMap<String, Vec<i32>>(iter, size)",
    "std::VecDeque<i32>(*)",
    "<Result<i32>>",
    "A<B, >",
    "A<B,C>",
    "A<B , C>",
    "A<>",
    "A<B<C<D>>>x",
    "A<B(f)>(g, *, h_1)",
    "A(f, )",
    "A(*, *)",
    "A(**)",
    "A(a::b)",
    "A()",
    "A(f",
    "A<B",
    "a::b::c<d::e, f<g, h>>(i, j) k",
    "_x9:: <y>",
    "::",
    "é",
    "Aé<B>",
    "A<B(f), C(g, *)>",
    "A<B>(f)(g)",
    "A<B><C>",
    "A, B",
    " A",
    "A\r",
    "std::Vec<i32>(iter, size)trailing words",
];

#[test]
fn reading_agrees_with_the_combinator_grammar() {
    for sample in SAMPLES {
        let mut ours = *sample;
        let mut theirs = *sample;
        let a = parse_ty(&mut ours);
        let b = combinator_ty(&mut theirs).ok();
        assert_eq!(a, b, "on {sample:?}");
        if a.is_some() {
            assert_eq!(ours, theirs, "rest on {sample:?}");
        }
    }
}

#[test]
fn printing_agrees_with_intersperse() {
    for sample in SAMPLES {
        let mut input = *sample;
        if let Some(t) = parse_ty(&mut input) {
            assert_eq!(t.string_output(), combinator_output(&t), "on {sample:?}");
            assert_eq!(
                t.crayte(),
                t.base.split("::").take(1).collect::<String>(),
                "on {sample:?}"
            );
        }
    }
}
