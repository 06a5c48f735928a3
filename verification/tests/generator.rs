use zngur::builder::{header_in, source_in, Zngur};
use zngur::replace::replace_all_exec;
use zngur::type_sizes::{report_is_readable, str_to_typesizes, TypeSize};

#[test]
fn builder_sets_each_setting() {
    let z = Zngur::from_zng_file("main.zng");
    assert_eq!(z.zng_file(), "main.zng");
    assert_eq!(z.h_file(), None);
    assert_eq!(z.cpp_file(), None);
    assert_eq!(z.rs_file(), None);
    let z = z
        .with_h_file("out/generated.h")
        .with_cpp_file("out/generated.cpp")
        .with_rs_file("src/generated.rs");
    assert_eq!(z.zng_file(), "main.zng");
    assert_eq!(z.h_file(), Some("out/generated.h"));
    assert_eq!(z.cpp_file(), Some("out/generated.cpp"));
    assert_eq!(z.rs_file(), Some("src/generated.rs"));
}

#[test]
fn namespace_defaults_to_rust() {
    let z = Zngur::from_zng_file("main.zng");
    assert_eq!(z.namespace(), "rust");
    assert_eq!(z.mangling_base(), None);
}

#[test]
fn mangling_base_defaults_to_the_namespace() {
    let z = Zngur::from_zng_file("main.zng").with_cpp_namespace("mylib");
    assert_eq!(z.namespace(), "mylib");
    assert_eq!(z.mangling_base(), Some("mylib".to_string()));
    let z = z.with_mangling_base("sym");
    assert_eq!(z.namespace(), "mylib");
    assert_eq!(z.mangling_base(), Some("sym".to_string()));
    let z = Zngur::from_zng_file("main.zng").with_mangling_base("only");
    assert_eq!(z.namespace(), "rust");
    assert_eq!(z.mangling_base(), Some("only".to_string()));
}

#[test]
fn header_and_source_move_to_the_namespace() {
    let h = "namespace rust {\nstruct Foo;\n}\nrust::Foo f(rust::Bar);\nnamespace rustic {}\n";
    assert_eq!(
        header_in(h, "mylib"),
        "namespace mylib {\nstruct Foo;\n}\nmylib::Foo f(mylib::Bar);\nnamespace mylibic {}\n"
    );
    let cpp = "rust::Foo::new(); namespace rust {}";
    assert_eq!(source_in(cpp, "ns"), "ns::Foo::new(); namespace rust {}");
    assert_eq!(header_in(h, "rust"), h);
    assert_eq!(source_in(cpp, "rust"), cpp);
}

#[test]
fn replacing_scans_from_the_left_without_overlap() {
    assert_eq!(replace_all_exec("aaa", "aa", "b"), "ba");
    assert_eq!(replace_all_exec("abcabc", "bc", ""), "aa");
    assert_eq!(replace_all_exec("", "x", "y"), "");
    assert_eq!(replace_all_exec("xyz", "xyzz", "q"), "xyz");
    assert_eq!(replace_all_exec("héé", "é", "e"), "hee");
    assert_eq!(
        replace_all_exec("rust::rust::", "rust::", "a::"),
        "rust::rust::".replace("rust::", "a::")
    );
}

fn size(name: &str, size: usize, align: usize) -> TypeSize {
    TypeSize {
        name: name.to_string(),
        size,
        align,
    }
}

fn sorted(mut v: Vec<TypeSize>) -> Vec<TypeSize> {
    v.sort_by(|a, b| a.name.cmp(&b.name));
    v
}

const REPORT: &str = "\
print-type-size type: `std::vec::Vec<u8>`: 24 bytes, alignment: 8 bytes
print-type-size     field `.buf`: 16 bytes
print-type-size type: `Foo Bar`: 4 bytes, alignment: 4 bytes
print-type-size     end padding: 2 bytes
print-type-size type: `u8`: 1 bytes, alignment: 1 bytes
print-type-size type: `std::vec::Vec<u8>`: 32 bytes, alignment: 16 bytes
";

#[test]
fn type_sizes_of_a_report() {
    assert!(report_is_readable(REPORT));
    let sizes = str_to_typesizes(REPORT);
    assert_eq!(
        sorted(sizes),
        vec![
            size("Foo Bar", 4, 4),
            size("std::vec::Vec<u8>", 32, 16),
            size("u8", 1, 1),
        ]
    );
}

#[test]
fn lines_without_type_are_skipped() {
    let report = "nothing here\n\n   \nfield `.x`: 1 bytes\n";
    assert!(report_is_readable(report));
    assert!(str_to_typesizes(report).is_empty());
    assert!(str_to_typesizes("").is_empty());
}

#[test]
fn numbers_as_str_parse_reads_them() {
    // `+7` reads as a number, `-7` does not and joins the name
    let report = "x type: `a -7`: +7 b, c: 0008 d\n";
    assert!(report_is_readable(report));
    assert_eq!(str_to_typesizes(report), vec![size("a -7", 7, 8)]);
    // a word above u32::MAX is part of the name
    let report = "x type: `big 4294967296`: 4294967295 b, c: 1 d";
    assert!(report_is_readable(report));
    assert_eq!(
        str_to_typesizes(report),
        vec![size("big 4294967296", 4294967295, 1)]
    );
}

#[test]
fn unreadable_reports() {
    // too few words
    assert!(!report_is_readable("type: x"));
    // no size
    assert!(!report_is_readable("x type: `a`: b c d"));
    // no alignment
    assert!(!report_is_readable("x type: `a`: 1 b, c:"));
    // alignment not a number
    assert!(!report_is_readable("x type: `a`: 1 b, c: d"));
    // name too short to lose its quotes
    assert!(!report_is_readable("x type: ab 1 b, c: 2"));
    // a name whose last two bytes are inside a character
    assert!(!report_is_readable("x type: `a→ 1 b, c: 2"));
    // one bad line is enough
    assert!(!report_is_readable("x type: `a`: 1 b, c: 2\ntype:"));
}

#[test]
fn names_end_on_whole_characters() {
    // the last character takes two bytes: it alone is cut
    let report = "x type: `aé 1 b, c: 2";
    assert!(report_is_readable(report));
    assert_eq!(str_to_typesizes(report), vec![size("a", 1, 2)]);
    let report = "x type: `é`: 1 b, c: 2";
    assert!(report_is_readable(report));
    assert_eq!(str_to_typesizes(report), vec![size("é", 1, 2)]);
}

#[test]
fn replacing_a_pattern_by_itself_keeps_the_text() {
    for s in ["", "rust::rust", "namespace rust {}", "abcabc"] {
        assert_eq!(replace_all_exec(s, "rust", "rust"), s);
        assert_eq!(replace_all_exec(s, "bc", "bc"), s);
    }
}
