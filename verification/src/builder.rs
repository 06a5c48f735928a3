//! The settings of one run of the zngur generator, and the choices that the
//! run makes from them.

use vstd::prelude::*;
use vstd::string::*;

use crate::replace::{
    law_replace_first_occurrence, law_replace_without_pattern, law_replacing_by_itself_changes_nothing, occurs_at,
    replace_all, replace_all_exec,
};

verus! {

/// Builder for the settings of the zngur generator: the `.zng` file to read,
/// where the generated files go, and the names the generated code uses.
pub struct Zngur {
    zng_file: String,
    h_file_path: Option<String>,
    cpp_file_path: Option<String>,
    rs_file_path: Option<String>,
    mangling_base: Option<String>,
    cpp_namespace: Option<String>,
}

/// The value of a [`Zngur`] builder.
pub struct ZngurView {
    pub zng_file: Seq<char>,
    pub h_file_path: Option<Seq<char>>,
    pub cpp_file_path: Option<Seq<char>>,
    pub rs_file_path: Option<Seq<char>>,
    pub mangling_base: Option<Seq<char>>,
    pub cpp_namespace: Option<Seq<char>>,
}

pub open spec fn opt_view(o: Option<String>) -> Option<Seq<char>> {
    match o {
        Some(s) => Some(s@),
        None => None,
    }
}

impl View for Zngur {
    type V = ZngurView;

    closed spec fn view(&self) -> ZngurView {
        ZngurView {
            zng_file: self.zng_file@,
            h_file_path: opt_view(self.h_file_path),
            cpp_file_path: opt_view(self.cpp_file_path),
            rs_file_path: opt_view(self.rs_file_path),
            mangling_base: opt_view(self.mangling_base),
            cpp_namespace: opt_view(self.cpp_namespace),
        }
    }
}

/// The C++ namespace used where none is set.
pub open spec fn default_namespace() -> Seq<char> {
    seq!['r', 'u', 's', 't']
}

/// The C++ namespace of the generated code: the one set, else `rust`.
pub open spec fn namespace_of(z: ZngurView) -> Seq<char> {
    match z.cpp_namespace {
        Some(ns) => ns,
        None => default_namespace(),
    }
}

/// The mangling base the generated symbols get: the one set, else the C++
/// namespace set; `None` where neither is set and the generator keeps its own.
pub open spec fn mangling_base_of(z: ZngurView) -> Option<Seq<char>> {
    match z.mangling_base {
        Some(m) => Some(m),
        None => z.cpp_namespace,
    }
}

/// `ns` followed by `::`.
pub open spec fn qualified(ns: Seq<char>) -> Seq<char> {
    ns + seq![':', ':']
}

/// The generated header with the namespace `rust` renamed to `ns`: every
/// `rust::` becomes `ns::`, then every `namespace rust` becomes `namespace ns`.
pub open spec fn header_in_namespace(h: Seq<char>, ns: Seq<char>) -> Seq<char> {
    replace_all(
        replace_all(h, qualified(default_namespace()), qualified(ns)),
        seq!['n', 'a', 'm', 'e', 's', 'p', 'a', 'c', 'e', ' '] + default_namespace(),
        seq!['n', 'a', 'm', 'e', 's', 'p', 'a', 'c', 'e', ' '] + ns,
    )
}

/// The generated C++ source with every `rust::` renamed to `ns::`.
pub open spec fn source_in_namespace(cpp: Seq<char>, ns: Seq<char>) -> Seq<char> {
    replace_all(cpp, qualified(default_namespace()), qualified(ns))
}

impl Zngur {
    /// Settings that read `zng_file_path`, with nothing else set.
    pub fn from_zng_file(zng_file_path: &str) -> (res: Self)
        ensures
            res@ == (ZngurView {
                zng_file: zng_file_path@,
                h_file_path: None,
                cpp_file_path: None,
                rs_file_path: None,
                mangling_base: None,
                cpp_namespace: None,
            }),
    {
        Zngur {
            zng_file: zng_file_path.to_owned(),
            h_file_path: None,
            cpp_file_path: None,
            rs_file_path: None,
            mangling_base: None,
            cpp_namespace: None,
        }
    }

    /// The same settings, with the generated header written to `path`.
    pub fn with_h_file(self, path: &str) -> (res: Self)
        ensures
            res@ == (ZngurView { h_file_path: Some(path@), ..self@ }),
    {
        let mut z = self;
        z.h_file_path = Some(path.to_owned());
        z
    }

    /// The same settings, with the generated C++ source written to `path`.
    pub fn with_cpp_file(self, path: &str) -> (res: Self)
        ensures
            res@ == (ZngurView { cpp_file_path: Some(path@), ..self@ }),
    {
        let mut z = self;
        z.cpp_file_path = Some(path.to_owned());
        z
    }

    /// The same settings, with the generated Rust source written to `path`.
    pub fn with_rs_file(self, path: &str) -> (res: Self)
        ensures
            res@ == (ZngurView { rs_file_path: Some(path@), ..self@ }),
    {
        let mut z = self;
        z.rs_file_path = Some(path.to_owned());
        z
    }

    /// The same settings, with `mangling_base` as the mangling base.
    pub fn with_mangling_base(self, mangling_base: &str) -> (res: Self)
        ensures
            res@ == (ZngurView { mangling_base: Some(mangling_base@), ..self@ }),
    {
        let mut z = self;
        z.mangling_base = Some(mangling_base.to_owned());
        z
    }

    /// The same settings, with `cpp_namespace` as the C++ namespace.
    pub fn with_cpp_namespace(self, cpp_namespace: &str) -> (res: Self)
        ensures
            res@ == (ZngurView { cpp_namespace: Some(cpp_namespace@), ..self@ }),
    {
        let mut z = self;
        z.cpp_namespace = Some(cpp_namespace.to_owned());
        z
    }

    /// The `.zng` file to read.
    pub fn zng_file(&self) -> (res: &str)
        ensures
            res@ == self@.zng_file,
    {
        self.zng_file.as_str()
    }

    /// Where the generated header goes, if set.
    pub fn h_file(&self) -> (res: Option<&str>)
        ensures
            opt_str_view(res) == self@.h_file_path,
    {
        opt_as_str(&self.h_file_path)
    }

    /// Where the generated C++ source goes, if set.
    pub fn cpp_file(&self) -> (res: Option<&str>)
        ensures
            opt_str_view(res) == self@.cpp_file_path,
    {
        opt_as_str(&self.cpp_file_path)
    }

    /// Where the generated Rust source goes, if set.
    pub fn rs_file(&self) -> (res: Option<&str>)
        ensures
            opt_str_view(res) == self@.rs_file_path,
    {
        opt_as_str(&self.rs_file_path)
    }

    /// The C++ namespace of the generated code: the one set, else `rust`.
    pub fn namespace(&self) -> (res: String)
        ensures
            res@ == namespace_of(self@),
    {
        match &self.cpp_namespace {
            Some(ns) => ns.clone(),
            None => {
                let ns = "rust".to_owned();
                proof {
                    reveal_strlit("rust");
                }
                assert(ns@ =~= default_namespace());
                ns
            },
        }
    }

    /// The mangling base the generated symbols get: the one set, else the
    /// C++ namespace set; `None` where neither is set.
    pub fn mangling_base(&self) -> (res: Option<String>)
        ensures
            opt_view(res) == mangling_base_of(self@),
    {
        match &self.mangling_base {
            Some(m) => Some(m.clone()),
            None => match &self.cpp_namespace {
                Some(ns) => Some(ns.clone()),
                None => None,
            },
        }
    }
}

pub open spec fn opt_str_view(o: Option<&str>) -> Option<Seq<char>> {
    match o {
        Some(s) => Some(s@),
        None => None,
    }
}

fn opt_as_str(o: &Option<String>) -> (res: Option<&str>)
    ensures
        opt_str_view(res) == opt_view(*o),
{
    match o {
        Some(s) => Some(s.as_str()),
        None => None,
    }
}

/// The generated header with the namespace `rust` renamed to `ns`.
pub fn header_in(h: &str, ns: &str) -> (res: String)
    ensures
        res@ == header_in_namespace(h@, ns@),
{
    proof {
        reveal_strlit("::");
        reveal_strlit("rust::");
        reveal_strlit("namespace ");
        reveal_strlit("namespace rust");
    }
    let mut target = ns.to_owned();
    target.append("::");
    let step = replace_all_exec(h, "rust::", target.as_str());
    let mut decl = "namespace ".to_owned();
    decl.append(ns);
    let res = replace_all_exec(step.as_str(), "namespace rust", decl.as_str());
    proof {
        reveal_strlit("::");
        reveal_strlit("rust::");
        reveal_strlit("namespace ");
        reveal_strlit("namespace rust");
        assert("rust::"@ =~= qualified(default_namespace()));
        assert(target@ =~= qualified(ns@));
        assert("namespace rust"@ =~= seq!['n', 'a', 'm', 'e', 's', 'p', 'a', 'c', 'e', ' ']
            + default_namespace());
        assert(decl@ =~= seq!['n', 'a', 'm', 'e', 's', 'p', 'a', 'c', 'e', ' '] + ns@);
    }
    res
}

/// The generated C++ source with every `rust::` renamed to `ns::`.
pub fn source_in(cpp: &str, ns: &str) -> (res: String)
    ensures
        res@ == source_in_namespace(cpp@, ns@),
{
    proof {
        reveal_strlit("::");
        reveal_strlit("rust::");
    }
    let mut target = ns.to_owned();
    target.append("::");
    let res = replace_all_exec(cpp, "rust::", target.as_str());
    proof {
        reveal_strlit("::");
        reveal_strlit("rust::");
        assert("rust::"@ =~= qualified(default_namespace()));
        assert(target@ =~= qualified(ns@));
    }
    res
}

/// Where no namespace is set, the generated header and source are written
/// as the generator produced them.
pub proof fn law_default_namespace_keeps_the_text(h: Seq<char>, cpp: Seq<char>)
    ensures
        header_in_namespace(h, default_namespace()) == h,
        source_in_namespace(cpp, default_namespace()) == cpp,
{
    let q = qualified(default_namespace());
    let d = seq!['n', 'a', 'm', 'e', 's', 'p', 'a', 'c', 'e', ' '] + default_namespace();
    law_replacing_by_itself_changes_nothing(h, q);
    law_replacing_by_itself_changes_nothing(h, d);
    law_replacing_by_itself_changes_nothing(cpp, q);
}

/// `rust::`, the prefix that names the generated code.
pub open spec fn rust_prefix() -> Seq<char> {
    seq!['r', 'u', 's', 't', ':', ':']
}

/// `namespace rust`, the declaration of the generated namespace.
pub open spec fn rust_namespace_decl() -> Seq<char> {
    seq!['n', 'a', 'm', 'e', 's', 'p', 'a', 'c', 'e', ' ', 'r', 'u', 's', 't']
}

/// A source without `rust::` is written as it is, whatever the namespace.
pub proof fn law_source_without_rust_prefix_is_kept(cpp: Seq<char>, ns: Seq<char>)
    requires
        forall|k: int| !#[trigger] occurs_at(cpp, rust_prefix(), k),
    ensures
        source_in_namespace(cpp, ns) == cpp,
{
    assert(qualified(default_namespace()) =~= rust_prefix());
    law_replace_without_pattern(cpp, rust_prefix(), qualified(ns));
}

/// Every `rust::` of the source is renamed, not only the first: the text up
/// to the first `rust::` is kept, that `rust::` becomes `ns::`, and the rest
/// is renamed in the same way.
pub proof fn law_source_renames_each_rust_prefix(a: Seq<char>, b: Seq<char>, ns: Seq<char>)
    requires
        forall|k: int| 0 <= k < a.len() ==> !#[trigger] occurs_at(a + rust_prefix(), rust_prefix(), k),
    ensures
        source_in_namespace(a + rust_prefix() + b, ns) == a + ns + seq![':', ':']
            + source_in_namespace(b, ns),
{
    assert(qualified(default_namespace()) =~= rust_prefix());
    law_replace_first_occurrence(a, b, rust_prefix(), qualified(ns));
    assert(a + qualified(ns) + source_in_namespace(b, ns) =~= a + ns + seq![':', ':']
        + source_in_namespace(b, ns));
}

/// The header is renamed as the source is, where the renamed text declares
/// no `namespace rust`.
pub proof fn law_header_renames_as_source(h: Seq<char>, ns: Seq<char>)
    requires
        forall|k: int| !#[trigger] occurs_at(source_in_namespace(h, ns), rust_namespace_decl(), k),
    ensures
        header_in_namespace(h, ns) == source_in_namespace(h, ns),
{
    assert(seq!['n', 'a', 'm', 'e', 's', 'p', 'a', 'c', 'e', ' '] + default_namespace()
        =~= rust_namespace_decl());
    law_replace_without_pattern(
        source_in_namespace(h, ns),
        rust_namespace_decl(),
        seq!['n', 'a', 'm', 'e', 's', 'p', 'a', 'c', 'e', ' '] + ns,
    );
}

/// In a header without `rust::`, every `namespace rust` is renamed: the text
/// up to the first one is kept, it becomes `namespace ns`, and the rest is
/// renamed in the same way.
pub proof fn law_header_renames_each_namespace_decl(a: Seq<char>, b: Seq<char>, ns: Seq<char>)
    requires
        forall|k: int| !#[trigger] occurs_at(a + rust_namespace_decl() + b, rust_prefix(), k),
        forall|k: int|
            0 <= k < a.len() ==> !#[trigger] occurs_at(a + rust_namespace_decl(), rust_namespace_decl(), k),
    ensures
        header_in_namespace(a + rust_namespace_decl() + b, ns) == a + seq![
            'n',
            'a',
            'm',
            'e',
            's',
            'p',
            'a',
            'c',
            'e',
            ' ',
        ] + ns + header_in_namespace(b, ns),
{
    let h = a + rust_namespace_decl() + b;
    let decl = seq!['n', 'a', 'm', 'e', 's', 'p', 'a', 'c', 'e', ' '];
    assert(qualified(default_namespace()) =~= rust_prefix());
    assert(decl + default_namespace() =~= rust_namespace_decl());
    law_replace_without_pattern(h, rust_prefix(), qualified(ns));
    assert forall|k: int| !#[trigger] occurs_at(b, rust_prefix(), k) by {
        let off = a.len() + rust_namespace_decl().len();
        if occurs_at(b, rust_prefix(), k) {
            assert(h.subrange(off + k, off + k + 6) =~= b.subrange(k, k + 6));
            assert(occurs_at(h, rust_prefix(), off + k));
        }
    }
    law_replace_without_pattern(b, rust_prefix(), qualified(ns));
    law_replace_first_occurrence(a, b, rust_namespace_decl(), decl + ns);
    assert(a + (decl + ns) + header_in_namespace(b, ns) =~= a + decl + ns + header_in_namespace(b, ns));
}

} // verus!
