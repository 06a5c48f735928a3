use zngur::grammar::parse_ty;
use zngur::rdep::{ParsedTypes, RdepParser};
use zngur::rtype::Rtype;

fn leaf(base: &str) -> Rtype {
    Rtype {
        base: base.to_string(),
        generics: None,
        funcs: None,
    }
}

#[test]
fn raw_and_crayte_working() {
    let input = "std::Vec<i32>(iter, size)";
    let mut p = RdepParser::new(input);
    p.parse();
    let r = p.rust_types.first().unwrap();
    assert_eq!(r.string_output(), "std::Vec<i32>".to_string());
    assert_eq!(r.crayte(), "std".to_string());
}

#[test]
fn raw_and_crayte_working_complex() {
    let input = "std::HashMap<String, Vec<i32>>(iter, size)";
    let mut p = RdepParser::new(input);
    p.parse();
    let r = p.rust_types.first().unwrap();
    assert_eq!(
        r.string_output(),
        "std::HashMap<String, Vec<i32>>".to_string()
    );
    assert_eq!(r.crayte(), "std".to_string());
}

#[test]
fn working() {
    let input = r#"std::Vec<i32>(iter, size)
std::HashSet<i32>
std::VecDeque<i32>(*)"#;
    let mut p = RdepParser::new(input);
    p.parse();
    assert_eq!(
        p.rust_types,
        vec![
            Rtype {
                base: "std::Vec".to_string(),
                generics: Some(vec![Rtype {
                    base: "i32".to_string(),
                    generics: None,
                    funcs: None
                }]),
                funcs: Some(vec!["iter".to_string(), "size".to_string()]),
            },
            Rtype {
                base: "std::HashSet".to_string(),
                generics: Some(vec![Rtype {
                    base: "i32".to_string(),
                    generics: None,
                    funcs: None
                }]),
                funcs: None,
            },
            Rtype {
                base: "std::VecDeque".to_string(),
                generics: Some(vec![Rtype {
                    base: "i32".to_string(),
                    generics: None,
                    funcs: None
                }]),
                funcs: Some(vec!["*".to_string()]),
            }
        ]
    )
}

#[test]
fn no_namespaces() {
    let input = r#"i32
String"#;
    let mut p = RdepParser::new(input);
    p.parse();
    assert_eq!(
        p.rust_types,
        vec![
            Rtype {
                base: "i32".to_string(),
                generics: None,
                funcs: None,
            },
            Rtype {
                base: "String".to_string(),
                generics: None,
                funcs: None,
            },
        ]
    )
}

#[test]
fn base_only() {
    let input = r#"std::Vec
std::HashSet"#;
    let mut p = RdepParser::new(input);
    p.parse();
    assert_eq!(
        p.rust_types,
        vec![
            Rtype {
                base: "std::Vec".to_string(),
                generics: None,
                funcs: None,
            },
            Rtype {
                base: "std::HashSet".to_string(),
                generics: None,
                funcs: None,
            },
        ]
    )
}

#[test]
fn nesting() {
    // The type between `<` and `>`: read the `<`, the type, then the `>`.
    let input = "<Result<i32>>";
    assert!(input.starts_with('<'));
    let mut rest = &input[1..];
    let v: Rtype = parse_ty(&mut rest).unwrap();
    assert_eq!(rest, ">");
    assert_eq!(
        v,
        Rtype {
            base: "Result".to_string(),
            generics: Some(vec![Rtype {
                base: "i32".to_string(),
                generics: None,
                funcs: None
            }]),
            funcs: None
        }
    )
}

#[test]
fn base_and_nested() {
    let input = "std::Vec<i32>";
    let mut p = RdepParser::new(input);
    p.parse();
    assert_eq!(
        p.rust_types,
        vec![Rtype {
            base: "std::Vec".to_string(),
            generics: Some(vec![Rtype {
                base: "i32".to_string(),
                generics: None,
                funcs: None
            }]),
            funcs: None
        }]
    )
}

#[test]
fn base_and_multiple_deeply_nested() {
    let input = "std::HashMap<String, Vec<i32>>";
    let mut p = RdepParser::new(input);
    p.parse();
    assert_eq!(
        p.rust_types,
        vec![Rtype {
            base: "std::HashMap".to_string(),
            generics: Some(vec![
                Rtype {
                    base: "String".to_string(),
                    generics: None,
                    funcs: None
                },
                Rtype {
                    base: "Vec".to_string(),
                    generics: Some(vec![Rtype {
                        base: "i32".to_string(),
                        generics: None,
                        funcs: None
                    }]),
                    funcs: None
                }
            ]),
            funcs: None
        }]
    )
}

#[test]
fn parse_ty_moves_past_what_it_read() {
    let mut input = "a::B<C>(f, *) trailing";
    let t = parse_ty(&mut input).unwrap();
    assert_eq!(input, " trailing");
    assert_eq!(
        t,
        Rtype {
            base: "a::B".to_string(),
            generics: Some(vec![leaf("C")]),
            funcs: Some(vec!["f".to_string(), "*".to_string()]),
        }
    );
}

#[test]
fn parse_ty_fails_without_type_characters() {
    let mut input = "<i32>";
    assert_eq!(parse_ty(&mut input), None);
    assert_eq!(input, "<i32>");
    let mut empty = "";
    assert_eq!(parse_ty(&mut empty), None);
    let mut space = " i32";
    assert_eq!(parse_ty(&mut space), None);
}

#[test]
fn unclosed_generics_are_left_unread() {
    let mut input = "std::Vec<i32";
    let t = parse_ty(&mut input).unwrap();
    assert_eq!(t, leaf("std::Vec"));
    assert_eq!(input, "<i32");
}

#[test]
fn a_separator_without_an_item_is_left_unread() {
    let mut input = "A<B, >";
    let t = parse_ty(&mut input).unwrap();
    assert_eq!(t, leaf("A"));
    assert_eq!(input, "<B, >");

    let mut funcs = "A(f, )x";
    let t = parse_ty(&mut funcs).unwrap();
    assert_eq!(t, leaf("A"));
    assert_eq!(funcs, "(f, )x");

    let mut list = "A(f, g), rest";
    let t = parse_ty(&mut list).unwrap();
    assert_eq!(t.funcs, Some(vec!["f".to_string(), "g".to_string()]));
    assert_eq!(list, ", rest");
}

#[test]
fn function_lists_inside_generic_arguments() {
    let mut input = "Vec<i32(f)>";
    let t = parse_ty(&mut input).unwrap();
    assert_eq!(input, "");
    assert_eq!(
        t,
        Rtype {
            base: "Vec".to_string(),
            generics: Some(vec![Rtype {
                base: "i32".to_string(),
                generics: None,
                funcs: Some(vec!["f".to_string()]),
            }]),
            funcs: None,
        }
    );
    // string_output leaves every function list out
    assert_eq!(t.string_output(), "Vec<i32>");
}

#[test]
fn function_names_do_not_hold_colons() {
    let mut input = "A(a::b)";
    let t = parse_ty(&mut input).unwrap();
    assert_eq!(t, leaf("A"));
    assert_eq!(input, "(a::b)");
}

#[test]
fn crayte_without_a_path() {
    assert_eq!(leaf("i32").crayte(), "i32");
    assert_eq!(leaf("a:::b").crayte(), "a");
    assert_eq!(leaf("a:b::c").crayte(), "a:b");
    assert_eq!(leaf("::x").crayte(), "");
    assert_eq!(leaf("").crayte(), "");
}

#[test]
fn string_output_reads_back() {
    let t = Rtype {
        base: "std::HashMap".to_string(),
        generics: Some(vec![leaf("K"), Rtype {
            base: "V".to_string(),
            generics: Some(vec![leaf("u8"), leaf("u16")]),
            funcs: None,
        }]),
        funcs: None,
    };
    let text = t.string_output();
    assert_eq!(text, "std::HashMap<K, V<u8, u16>>");
    let mut input = text.as_str();
    assert_eq!(parse_ty(&mut input), Some(t.clone()));
    assert_eq!(input, "");
}

#[test]
fn clone_keeps_the_value() {
    let t = Rtype {
        base: "A".to_string(),
        generics: Some(vec![leaf("B")]),
        funcs: Some(vec!["f".to_string()]),
    };
    assert_eq!(t.clone(), t);
}

#[test]
fn parse_reads_every_line_in_order_and_keeps_carriage_returns_out() {
    let mut p = RdepParser::new("A\r\nB<C> rest\n\nD");
    assert_eq!(
        p.input,
        vec!["A".to_string(), "B<C> rest".to_string(), "".to_string(), "D".to_string()]
    );
    // an empty line does not start with a type: drop it before reading
    p.input.remove(2);
    p.parse();
    assert!(p.input.is_empty());
    assert_eq!(
        p.rust_types,
        vec![
            leaf("A"),
            Rtype {
                base: "B".to_string(),
                generics: Some(vec![leaf("C")]),
                funcs: None
            },
            leaf("D"),
        ]
    );
    // a second call has nothing left to read
    p.parse();
    assert_eq!(p.rust_types.len(), 3);
}

#[test]
fn lines_of_a_text() {
    assert_eq!(RdepParser::new("").input, Vec::<String>::new());
    assert_eq!(RdepParser::new("a\n").input, vec!["a".to_string()]);
    assert_eq!(RdepParser::new("\n").input, vec!["".to_string()]);
    assert_eq!(
        RdepParser::new("a\r").input,
        vec!["a\r".to_string()]
    );
    assert_eq!(
        RdepParser::new("a\n\r\nb").input,
        vec!["a".to_string(), "".to_string(), "b".to_string()]
    );
}

#[test]
fn from_parser_and_union() {
    let mut p = RdepParser::new("A\nB");
    p.parse();
    p.cpp_types.push("c".to_string());
    let mut parsed = ParsedTypes::from_parser(p);
    assert_eq!(parsed.rust_types, vec![leaf("A"), leaf("B")]);
    assert_eq!(parsed.cpp_types, vec!["c".to_string()]);
    assert!(parsed.rust_fns.is_empty());
    let other = ParsedTypes {
        rust_types: vec![leaf("X")],
        cpp_types: vec![],
        rust_fns: vec!["f".to_string()],
    };
    parsed.union(other);
    assert_eq!(parsed.rust_types, vec![leaf("A"), leaf("B")]);
    assert!(parsed.rust_fns.is_empty());
}

#[test]
fn full_text_reads_back() {
    let text = "A<B(f), C<D>(g, *)>(h_1, *)";
    let mut input = text;
    let t = parse_ty(&mut input).unwrap();
    assert_eq!(input, "");
    assert_eq!(
        t,
        Rtype {
            base: "A".to_string(),
            generics: Some(vec![
                Rtype {
                    base: "B".to_string(),
                    generics: None,
                    funcs: Some(vec!["f".to_string()]),
                },
                Rtype {
                    base: "C".to_string(),
                    generics: Some(vec![leaf("D")]),
                    funcs: Some(vec!["g".to_string(), "*".to_string()]),
                },
            ]),
            funcs: Some(vec!["h_1".to_string(), "*".to_string()]),
        }
    );
    assert_eq!(t.string_output(), "A<B, C<D>>");
}

fn read_all(text: &str) -> Vec<Rtype> {
    let mut p = RdepParser::new(text);
    p.parse();
    p.rust_types
}

#[test]
fn a_final_line_feed_adds_no_line() {
    let text = "std::Vec<i32>(iter)\nA<B>\nC";
    let with_feed = format!("{}\n", text);
    assert_eq!(RdepParser::new(text).input, RdepParser::new(&with_feed).input);
    assert_eq!(read_all(text), read_all(&with_feed));
    assert_eq!(read_all(&with_feed).len(), 3);
    // where the text ends in a carriage return, the added line feed removes it
    assert_eq!(RdepParser::new("A\r").input, vec!["A\r".to_string()]);
    assert_eq!(RdepParser::new("A\r\n").input, vec!["A".to_string()]);
}

#[test]
fn crlf_line_ends_read_like_lf() {
    let text = "std::Vec<i32>(iter, size)\nstd::HashSet<i32>\n\nD(*)\n";
    let crlf = text.replace("\n", "\r\n");
    assert_eq!(RdepParser::new(text).input, RdepParser::new(&crlf).input);
    let mut a = RdepParser::new(text);
    let mut b = RdepParser::new(&crlf);
    a.input.remove(2);
    b.input.remove(2);
    a.parse();
    b.parse();
    assert_eq!(a.rust_types, b.rust_types);
    assert_eq!(a.rust_types.len(), 3);
}

#[test]
fn every_type_read_is_well_formed() {
    let mut input = "A<B(f), C<D>>(g, *) rest";
    let t = parse_ty(&mut input).unwrap();
    assert_eq!(input, " rest");
    assert!(!t.base.is_empty());
    let g = t.generics.as_ref().unwrap();
    assert_eq!(g.len(), 2);
    assert_eq!(g[0].funcs, Some(vec!["f".to_string()]));
    assert_eq!(g[1].generics, Some(vec![leaf("D")]));
    assert_eq!(t.funcs, Some(vec!["g".to_string(), "*".to_string()]));
    // an empty function list is not read: the type ends before it
    let mut input = "A()";
    assert_eq!(parse_ty(&mut input), Some(leaf("A")));
    assert_eq!(input, "()");
    // an empty generic list is not read either
    let mut input = "A<>";
    assert_eq!(parse_ty(&mut input), Some(leaf("A")));
    assert_eq!(input, "<>");
}

#[test]
fn printing_removes_the_function_groups_of_what_was_read() {
    let text = "A<B(f, g), C<D(*)>>(h, *)";
    let mut input = text;
    let t = parse_ty(&mut input).unwrap();
    assert_eq!(input, "");
    assert_eq!(t.string_output(), "A<B, C<D>>");
    let text = "std::HashMap<K, V<u8, u16>>";
    let mut input = text;
    let t = parse_ty(&mut input).unwrap();
    assert_eq!(input, "");
    assert_eq!(t.string_output(), text);
}
