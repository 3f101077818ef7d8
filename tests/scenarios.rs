use skeleton::ir::{Mod, Package};
use skeleton::manifest::{Manifest, Package as ManifestPackage, Workspace};
use skeleton::output::cytoscape::{from_ir, Element};
use skeleton::syn_util::UseTree;
use skeleton::traverser::{
    child_dir, module_file_candidates, package_of, traverse_mod, Ctx, ItemKind, SourceItem,
};

fn named(kind: ItemKind, public: bool, name: &str, repr: &str) -> SourceItem {
    SourceItem::Named { kind, public, name: name.to_string(), repr: repr.to_string() }
}

fn ctx(package: &str, edges: bool) -> Ctx {
    Ctx { package_name: package.to_string(), crate_name: "lib".to_string(), enable_edges: edges }
}

fn package(name: &str, crates: Vec<Mod>) -> Package {
    Package { name: name.to_string(), crates }
}

fn vertex_ids(elements: &[Element]) -> Vec<String> {
    elements.iter().filter(|e| !e.data.is_edge()).map(|e| e.data.id.clone()).collect()
}

fn edge_count(elements: &[Element]) -> usize {
    elements.iter().filter(|e| e.data.is_edge()).count()
}

fn find<'a>(elements: &'a [Element], id: &str) -> &'a Element {
    elements.iter().find(|e| e.data.id == id).expect("vertex present")
}

fn lib_with_items(package_name: &str, items: Vec<SourceItem>, edges: bool) -> Mod {
    traverse_mod(&ctx(package_name, edges), &"lib".to_string(), &items)
}

#[test]
fn single_package_with_fn_and_struct() {
    let manifest = Manifest {
        package: Some(ManifestPackage { name: "my-lib".to_string() }),
        lib: None,
        workspace: None,
    };
    let name = manifest.package_name(&"root".to_string()).ok().expect("a package");
    assert_eq!(name, "my_lib");
    let items = vec![
        named(ItemKind::Fn, true, "a", "pub fn a() {}"),
        named(ItemKind::Struct, true, "S", "pub struct S;"),
    ];
    let lib = lib_with_items(&name, items, false);
    let repr = from_ir(vec![package(&name, vec![lib])]);
    assert_eq!(vertex_ids(&repr.elements), vec!["my_lib", "my_lib::lib", "my_lib::lib::a", "my_lib::lib::S"]);
    assert_eq!(edge_count(&repr.elements), 0);
    let a = find(&repr.elements, "my_lib::lib::a");
    assert_eq!(a.data.name, "fn a");
    assert_eq!(a.data.parent, "my_lib::lib");
    assert_eq!(a.classes, "vertex-fn vertex-non-package");
    let krate = find(&repr.elements, "my_lib::lib");
    assert_eq!(krate.data.name, "crate lib");
    assert_eq!(krate.classes, "vertex-crate vertex-non-package");
    let pkg = find(&repr.elements, "my_lib");
    assert_eq!(pkg.data.parent, "");
    assert_eq!(pkg.classes, "vertex-package");
}

#[test]
fn workspace_with_glob_members() {
    let ws = Workspace { members: vec!["crates/*".to_string()], exclude: vec![] };
    assert_eq!(ws.member_patterns(&"root".to_string()), vec!["root/crates/*"]);
    let manifest = Manifest { package: None, lib: None, workspace: Some(ws) };
    let matched = vec!["root/crates/alpha".to_string(), "root/crates/beta".to_string()];
    let members = manifest.members(&"root".to_string(), &matched, &vec![]);
    assert_eq!(members, matched);
    let packages = vec![
        package("alpha", vec![lib_with_items("alpha", vec![], false)]),
        package("beta", vec![lib_with_items("beta", vec![], false)]),
    ];
    let repr = from_ir(packages);
    assert_eq!(vertex_ids(&repr.elements), vec!["alpha", "alpha::lib", "beta", "beta::lib"]);
    assert_eq!(find(&repr.elements, "beta::lib").data.parent, "beta");
}

#[test]
fn out_of_line_module() {
    let (flat, nested) = module_file_candidates(&"pkg/src".to_string(), &"inner".to_string());
    assert_eq!(flat, "pkg/src/inner.rs");
    assert_eq!(nested, "pkg/src/inner/mod.rs");
    assert_eq!(child_dir(&"pkg/src".to_string(), &"lib".to_string()), "pkg/src");
    assert_eq!(child_dir(&"pkg/src".to_string(), &"inner".to_string()), "pkg/src/inner");
    let items = vec![SourceItem::Module {
        public: true,
        name: "inner".to_string(),
        inline: false,
        body: Some(vec![named(ItemKind::Fn, true, "f", "pub fn f() {}")]),
    }];
    let lib = lib_with_items("pkg", items, false);
    let repr = from_ir(vec![package("pkg", vec![lib])]);
    let f = find(&repr.elements, "pkg::lib::inner::f");
    assert_eq!(f.data.parent, "pkg::lib::inner");
    assert_eq!(find(&repr.elements, "pkg::lib::inner").data.name, "mod inner");
}

#[test]
fn private_inline_module_is_dropped() {
    let items = vec![SourceItem::Module {
        public: false,
        name: "private_inline".to_string(),
        inline: true,
        body: Some(vec![named(ItemKind::Fn, true, "hidden", "pub fn hidden() {}")]),
    }];
    let lib = lib_with_items("pkg", items, false);
    assert!(lib.items.mods.is_empty());
    let repr = from_ir(vec![package("pkg", vec![lib])]);
    assert_eq!(vertex_ids(&repr.elements), vec!["pkg", "pkg::lib"]);
}

#[test]
fn private_out_of_line_module_is_entered() {
    let items = vec![SourceItem::Module {
        public: false,
        name: "m".to_string(),
        inline: false,
        body: Some(vec![named(ItemKind::Const, true, "C", "pub const C: u8 = 1;")]),
    }];
    let lib = lib_with_items("pkg", items, false);
    let repr = from_ir(vec![package("pkg", vec![lib])]);
    assert_eq!(vertex_ids(&repr.elements), vec!["pkg", "pkg::lib", "pkg::lib::m", "pkg::lib::m::C"]);
}

#[test]
fn missing_module_file_is_dropped() {
    let items = vec![SourceItem::Module { public: true, name: "gone".to_string(), inline: false, body: None }];
    let lib = lib_with_items("pkg", items, false);
    assert!(lib.items.mods.is_empty());
}

#[test]
fn crate_import_edge_is_pruned_without_target() {
    let items = vec![SourceItem::Use {
        repr: "use crate::foo::bar;".to_string(),
        tree: UseTree::Path {
            ident: "crate".to_string(),
            tree: Box::new(UseTree::Path {
                ident: "foo".to_string(),
                tree: Box::new(UseTree::Name { ident: "bar".to_string() }),
            }),
        },
    }];
    let lib = lib_with_items("p", items, true);
    assert_eq!(lib.deps, vec!["p::lib::foo::bar"]);
    assert_eq!(lib.items.uses.len(), 1);
    let repr = from_ir(vec![package("p", vec![lib])]);
    assert_eq!(edge_count(&repr.elements), 0);
}

#[test]
fn crate_import_edge_is_kept_with_target() {
    let items = vec![
        SourceItem::Module {
            public: true,
            name: "foo".to_string(),
            inline: true,
            body: Some(vec![named(ItemKind::Fn, true, "bar", "pub fn bar() {}")]),
        },
        SourceItem::Use {
            repr: "use crate::foo;".to_string(),
            tree: UseTree::Path { ident: "crate".to_string(), tree: Box::new(UseTree::Name { ident: "foo".to_string() }) },
        },
    ];
    let lib = lib_with_items("p", items, true);
    let repr = from_ir(vec![package("p", vec![lib])]);
    let edges: Vec<&Element> = repr.elements.iter().filter(|e| e.data.is_edge()).collect();
    assert_eq!(edges.len(), 1);
    assert_eq!(edges[0].data.id, "p::lib-p::lib::foo");
    assert_eq!(edges[0].data.source, "p::lib");
    assert_eq!(edges[0].data.target, "p::lib::foo");
    assert_eq!(edges[0].classes, "edge-red");
}

#[test]
fn edges_off_gives_no_edges_and_same_vertices() {
    let items = || {
        vec![
            SourceItem::Module { public: true, name: "foo".to_string(), inline: true, body: Some(vec![]) },
            SourceItem::Use {
                repr: "use crate::foo;".to_string(),
                tree: UseTree::Path { ident: "crate".to_string(), tree: Box::new(UseTree::Name { ident: "foo".to_string() }) },
            },
        ]
    };
    let off = from_ir(vec![package("p", vec![lib_with_items("p", items(), false)])]);
    let on = from_ir(vec![package("p", vec![lib_with_items("p", items(), true)])]);
    assert_eq!(edge_count(&off.elements), 0);
    assert_eq!(edge_count(&on.elements), 1);
    assert_eq!(vertex_ids(&off.elements), vertex_ids(&on.elements));
}

#[test]
fn workspace_exclude_removes_member() {
    let ws = Workspace { members: vec!["a".to_string(), "b".to_string()], exclude: vec!["b".to_string()] };
    assert_eq!(ws.exclude_patterns(&"r".to_string()), vec!["r/b"]);
    let allowed = vec!["r/a".to_string(), "r/b".to_string()];
    let excluded = vec!["r/b".to_string()];
    assert_eq!(ws.members(&allowed, &excluded), vec!["r/a"]);
}

#[test]
fn private_items_are_skipped_but_private_uses_kept() {
    let items = vec![
        named(ItemKind::Fn, false, "private", "fn private() {}"),
        named(ItemKind::Enum, true, "E", "pub enum E {}"),
        named(ItemKind::TraitAlias, true, "TA", "pub trait TA = Clone;"),
        SourceItem::Use { repr: "use std::fmt;".to_string(), tree: UseTree::Other },
        SourceItem::Other,
    ];
    let lib = lib_with_items("pkg", items, true);
    assert!(lib.items.fns.is_empty());
    assert_eq!(lib.items.enums.len(), 1);
    assert_eq!(lib.items.enums[0].repr, "pub enum E {}");
    assert_eq!(lib.items.trait_aliases[0].name, "TA");
    assert_eq!(lib.items.uses[0].repr, "use std::fmt;");
    assert!(lib.deps.is_empty());
    let repr = from_ir(vec![package("pkg", vec![lib])]);
    assert_eq!(find(&repr.elements, "pkg::lib::TA").data.name, "trait TA");
}

#[test]
fn two_runs_give_identical_documents() {
    let run = || {
        let items = vec![named(ItemKind::Type, true, "T", "pub type T = u8;")];
        from_ir(vec![package("pkg", vec![lib_with_items("pkg", items, false)])])
    };
    let a = run();
    let b = run();
    let ids_a: Vec<(String, String, String)> = a.elements.iter().map(|e| (e.data.id.clone(), e.data.name.clone(), e.classes.clone())).collect();
    let ids_b: Vec<(String, String, String)> = b.elements.iter().map(|e| (e.data.id.clone(), e.data.name.clone(), e.classes.clone())).collect();
    assert_eq!(ids_a, ids_b);
}

#[test]
fn every_vertex_hangs_from_its_parent() {
    let items = vec![
        SourceItem::Module {
            public: true,
            name: "a".to_string(),
            inline: true,
            body: Some(vec![SourceItem::Module {
                public: true,
                name: "b".to_string(),
                inline: false,
                body: Some(vec![named(ItemKind::Static, true, "S", "pub static S: u8 = 0;")]),
            }]),
        },
        named(ItemKind::Union, true, "U", "pub union U { x: u8 }"),
    ];
    let lib = lib_with_items("pkg", items, false);
    let repr = from_ir(vec![package("pkg", vec![lib])]);
    assert_eq!(
        vertex_ids(&repr.elements),
        vec!["pkg", "pkg::lib", "pkg::lib::a", "pkg::lib::a::b", "pkg::lib::a::b::S", "pkg::lib::U"]
    );
    for e in repr.elements.iter().filter(|e| !e.data.is_edge() && e.classes != "vertex-package") {
        assert!(repr.elements.iter().any(|p| p.data.id == e.data.parent));
        assert!(e.data.id.starts_with(&format!("{}::", e.data.parent)));
    }
}

#[test]
fn vertex_ids_are_unique() {
    let items = vec![
        named(ItemKind::Fn, true, "f", "pub fn f() {}"),
        named(ItemKind::Struct, true, "S", "pub struct S;"),
        SourceItem::Module {
            public: true,
            name: "m".to_string(),
            inline: true,
            body: Some(vec![named(ItemKind::Fn, true, "f", "pub fn f() {}")]),
        },
    ];
    let a = package("a", vec![lib_with_items("a", items, false)]);
    let b = package("b", vec![lib_with_items("b", vec![named(ItemKind::Fn, true, "f", "pub fn f() {}")], false)]);
    let repr = from_ir(vec![a, b]);
    let mut ids = vertex_ids(&repr.elements);
    let n = ids.len();
    assert_eq!(n, 9);
    ids.sort();
    ids.dedup();
    assert_eq!(ids.len(), n);
}

#[test]
fn member_keeps_the_units_that_were_traversed() {
    let units = vec![None, Some(Mod::new("lib".to_string()))];
    let p = package_of("pkg".to_string(), units).expect("one unit found");
    assert_eq!(p.name, "pkg");
    assert_eq!(p.crates.len(), 1);
    assert_eq!(p.crates[0].name, "lib");
    assert!(package_of("pkg".to_string(), vec![None, None]).is_none());
    assert!(package_of("pkg".to_string(), vec![]).is_none());
}
