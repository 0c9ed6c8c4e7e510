use symtree::paths::PathError;
use symtree::qpath::QPath;
use symtree::qpath::QPathError;
use symtree::symbol_components;
use symtree::Path;
use symtree::PathSegment;

fn strings(items: &[&str]) -> Vec<String> {
    items.iter().map(|s| s.to_string()).collect()
}

fn seg(path: &str) -> PathSegment {
    PathSegment { path: path.to_string(), generic_args: Vec::new() }
}

fn seg_gen(path: &str, generic_args: Vec<Path>) -> PathSegment {
    PathSegment { path: path.to_string(), generic_args }
}

fn single_path(path: &str) -> Path {
    Path(vec![seg(path)])
}

fn parse_path(s: &str) -> Path {
    let mut pos: usize = 0;
    symtree::parse_path(s, &mut pos).unwrap()
}

#[test]
fn paths() {
    assert_eq!(
        parse_path("core::panicking::panic_nounwind<T>::h078e837899a661cc"),
        Path(vec![
            seg("core"),
            seg("panicking"),
            seg_gen("panic_nounwind", vec![single_path("T")]),
            seg("h078e837899a661cc")
        ])
    );

    assert_eq!(
        parse_path("core::panicking::panic_nounwind::h078e837899a661cc"),
        Path(vec![
            seg("core"),
            seg("panicking"),
            seg("panic_nounwind"),
            seg("h078e837899a661cc")
        ])
    );
}

#[test]
fn components() {
    assert_eq!(
        symbol_components("core::panicking::panic_nounwind::h078e837899a661cc"),
        strings(&["core", "panicking", "panic_nounwind", "h078e837899a661cc"])
    );
    assert_eq!(
        symbol_components("std::sync::once_lock::OnceLock<T>::initialize::h37ee4f85094ef3f6"),
        strings(&[
            "std",
            "sync",
            "once_lock",
            "OnceLock<T>",
            "initialize",
            "h37ee4f85094ef3f6"
        ])
    );
    assert_eq!(
        symbol_components("<&T as core::fmt::Debug>::fmt::h59637bc6facdc591"),
        strings(&["&T", "fmt", "h59637bc6facdc591"])
    );
    // A non-qualified path is split on `::` verbatim, an accepted
    // imprecision: separators inside a generic-argument list are split too.
    assert_eq!(
        symbol_components(
            "core::ptr::drop_in_place<gimli::read::abbrev::Attributes>::h180b14c72fab0876"
        ),
        strings(&[
            "core",
            "ptr",
            "drop_in_place<gimli",
            "read",
            "abbrev",
            "Attributes>",
            "h180b14c72fab0876"
        ])
    );
}

#[test]
fn parse_qpaths() {
    assert_eq!(
        symtree::qpath::parse_qpath("<std::path::Components as core::fmt::Debug>::fmt").unwrap(),
        QPath {
            qself: "std::path::Components".to_string(),
            trait_: "core::fmt::Debug".to_string(),
            pathy_bit: "fmt".to_string(),
        }
    );

    assert_eq!(
        symtree::qpath::parse_qpath(
            "<<std::path::Components as core::fmt::Debug>::fmt::DebugHelper as core::fmt::Debug>::fmt"
        )
        .unwrap(),
        QPath {
            qself: "<std::path::Components as core::fmt::Debug>::fmt::DebugHelper".to_string(),
            trait_: "core::fmt::Debug".to_string(),
            pathy_bit: "fmt".to_string(),
        }
    );
}

#[test]
fn doubly_nested_qpath_flattens_one_level() {
    let q = symtree::qpath::parse_qpath(
        "<<std::path::Components as core::fmt::Debug>::fmt::DebugHelper as core::fmt::Debug>::fmt",
    )
    .unwrap();
    let comps = symtree::qpath::qpath_components(&q);
    assert_eq!(
        comps,
        strings(&["std", "path", "Components", "fmt", "DebugHelper", "fmt"])
    );
}

#[test]
fn qpath_errors() {
    assert_eq!(
        symtree::qpath::parse_qpath("<std::path::Components as core::fmt::Debug::fmt"),
        Err(QPathError::UnclosedQualifier)
    );
    assert_eq!(
        symtree::qpath::parse_qpath("<NoTrait>::method"),
        Err(QPathError::MissingAsClause)
    );
    assert_eq!(
        symtree::qpath::parse_qpath("<A2 as core::fmt::Debug>method"),
        Err(QPathError::MissingLeadingSeparator)
    );
    // A space too close to the brackets leaves no room for a self-type or
    // a trait name; that is a degenerate `as` clause, not a crash.
    assert_eq!(
        symtree::qpath::parse_qpath("<A >::m"),
        Err(QPathError::MissingAsClause)
    );
    assert_eq!(
        symtree::qpath::parse_qpath("< as Trait>::m"),
        Err(QPathError::MissingAsClause)
    );
    assert_eq!(
        symtree::qpath::parse_qpath("<AB as >::m"),
        Err(QPathError::MissingAsClause)
    );
}

#[test]
fn qpath_failure_falls_back_to_naive_split() {
    // No ` as ` clause: the decomposer must degrade to the plain split of
    // the whole demangled text, not abort.
    assert_eq!(
        symbol_components("<NoTrait>::method::h12"),
        strings(&["<NoTrait>", "method", "h12"])
    );
    // Unclosed qualifier: same fallback.
    assert_eq!(
        symbol_components("<std::it::never::closes"),
        strings(&["<std", "it", "never", "closes"])
    );
}

#[test]
fn path_parse_errors() {
    let mut pos: usize = 0;
    assert_eq!(
        symtree::parse_path("<impl i32>::x", &mut pos),
        Err(PathError::UnexpectedGenericOpen)
    );
    let mut pos: usize = 0;
    assert_eq!(
        symtree::parse_path("a::>", &mut pos),
        Err(PathError::UnexpectedGenericClose)
    );
    let mut pos: usize = 0;
    assert_eq!(
        symtree::parse_path("a:b", &mut pos),
        Err(PathError::MissingSeparator)
    );
}

#[test]
fn comma_components_are_quoted() {
    assert_eq!(
        symbol_components("x::HashMap<K, V>::get"),
        strings(&["x", "\"HashMap<K, V>\"", "get"])
    );
}

#[test]
fn component_list_is_truncated_to_limit() {
    let mut s = String::from("a");
    for _ in 0..150 {
        s.push_str("::a");
    }
    let comps = symbol_components(&s);
    assert_eq!(comps.len(), 100);
    for c in &comps {
        assert_eq!(c, "a");
    }
}

#[test]
fn mangled_names_are_demangled() {
    // A legacy-mangled name must be demangled before splitting; handing the
    // raw name through unchanged would yield one single component.
    assert_eq!(
        symbol_components("_ZN4core9panicking5panic17h0453f17f2904a578E"),
        strings(&["core", "panicking", "panic", "h0453f17f2904a578"])
    );
}

#[test]
fn split_of_empty_is_one_empty_component() {
    assert_eq!(symtree::split_components(""), strings(&[""]));
    assert_eq!(symtree::split_components("a::"), strings(&["a", ""]));
}
