use skeleton::syn_util::UseTree;
use skeleton::traverser::{dependency_of, traverse_item_use, Ctx};

fn name(s: &str) -> UseTree {
    UseTree::Name { ident: s.to_string() }
}

fn path(s: &str, tree: UseTree) -> UseTree {
    UseTree::Path { ident: s.to_string(), tree: Box::new(tree) }
}

fn segs(v: &[&str]) -> Vec<String> {
    v.iter().map(|s| s.to_string()).collect()
}

fn ctx(enable_edges: bool) -> Ctx {
    Ctx { package_name: "p".to_string(), crate_name: "lib".to_string(), enable_edges }
}

#[test]
fn flatten_use_tree() {
    // use foo::{bar, baz::qux, jar::{a, b, c}};
    let use_tree = path(
        "foo",
        UseTree::Group {
            items: vec![
                name("bar"),
                path("baz", name("qux")),
                path("jar", UseTree::Group { items: vec![name("a"), name("b"), name("c")] }),
            ],
        },
    );
    let paths = super_flatten(&use_tree);
    assert_eq!(
        paths,
        vec!["foo :: bar", "foo :: baz :: qux", "foo :: jar :: a", "foo :: jar :: b", "foo :: jar :: c"]
    );
}

fn super_flatten(tree: &UseTree) -> Vec<String> {
    skeleton::syn_util::flatten_use_tree(tree).into_iter().map(|p| p.join(" :: ")).collect::<Vec<_>>()
}

#[test]
fn alias_and_glob_yield_nothing() {
    assert!(skeleton::syn_util::flatten_use_tree(&UseTree::Other).is_empty());
    assert!(skeleton::syn_util::flatten_use_tree(&path("foo", UseTree::Other)).is_empty());
    assert!(skeleton::syn_util::flatten_use_tree(&UseTree::Group { items: vec![] }).is_empty());
}

#[test]
fn crate_path_names_current_unit() {
    let d = dependency_of(&ctx(true), &segs(&["crate", "foo", "bar"]));
    assert_eq!(d.as_deref(), Some("p::lib::foo::bar"));
}

#[test]
fn crate_alone_gives_trailing_separator() {
    let d = dependency_of(&ctx(true), &segs(&["crate"]));
    assert_eq!(d.as_deref(), Some("p::lib::"));
}

#[test]
fn other_path_gets_lib_segment() {
    let d = dependency_of(&ctx(true), &segs(&["serde", "de", "Visitor"]));
    assert_eq!(d.as_deref(), Some("serde::lib::de::Visitor"));
    let single = dependency_of(&ctx(true), &segs(&["foo"]));
    assert_eq!(single.as_deref(), Some("foo::lib"));
}

#[test]
fn empty_path_has_no_dependency() {
    assert!(dependency_of(&ctx(true), &vec![]).is_none());
}

#[test]
fn use_item_dependencies_in_order() {
    // use crate::{a, b::c};
    let tree = path("crate", UseTree::Group { items: vec![name("a"), path("b", name("c"))] });
    assert_eq!(traverse_item_use(&ctx(true), &tree), vec!["p::lib::a", "p::lib::b::c"]);
}

#[test]
fn dependency_strings_have_no_whitespace() {
    let d = dependency_of(&ctx(true), &segs(&["crate", "fo o", "b\tar"]));
    assert_eq!(d.as_deref(), Some("p::lib::foo::bar"));
    let e = dependency_of(&ctx(true), &segs(&[" serde ", "de"]));
    assert_eq!(e.as_deref(), Some("serde::lib::de"));
    assert_eq!(skeleton::traverser::strip_whitespace(" a \n b\r"), "ab");
}
