use skeleton::ir::{Mod, Package};
use skeleton::manifest::{entry_path, package_target_path, Error, Lib, Manifest, Package as ManifestPackage};
use skeleton::output::cytoscape::{from_ir, remove_invalid_edges, ColorGenerator, Data, EdgeColor, Element};

fn vertex(id: &str, parent: &str) -> Element {
    Element { data: Data::new_vertex(id.to_string(), id.to_string(), parent.to_string()), classes: String::new() }
}

fn edge(source: &str, target: &str) -> Element {
    Element {
        data: Data::new_edge(format!("{source}-{target}"), source.to_string(), target.to_string()),
        classes: "edge-red".to_string(),
    }
}

#[test]
fn prune_keeps_vertices_and_resolved_edges() {
    let elements = vec![vertex("a", ""), vertex("b", "a"), edge("a", "b"), edge("a", "zzz"), edge("a-b", "b")];
    let kept = remove_invalid_edges(&elements);
    let ids: Vec<String> = kept.iter().map(|e| e.data.id.clone()).collect();
    assert_eq!(ids, vec!["a", "b", "a-b"]);
}

#[test]
fn data_is_edge_needs_both_endpoints() {
    assert!(Data::new_edge("x".to_string(), "a".to_string(), "b".to_string()).is_edge());
    assert!(!Data::new_edge("x".to_string(), "a".to_string(), String::new()).is_edge());
    assert!(!Data::new_vertex("x".to_string(), "x".to_string(), "p".to_string()).is_edge());
}

#[test]
fn color_generator_cycles_through_palette() {
    let mut colors = ColorGenerator::new();
    let mut labels = vec![];
    for _ in 0..8 {
        colors.update();
        labels.push(colors.current.label());
    }
    assert_eq!(labels, vec!["red", "green", "blue", "violet", "orange", "purple", "plum", "red"]);
    assert_eq!(EdgeColor::Plum.label(), "plum");
}

fn unit(name: &str, deps: Vec<&str>) -> Mod {
    let mut m = Mod::new(name.to_string());
    m.deps = deps.into_iter().map(|d| d.to_string()).collect();
    m
}

#[test]
fn edge_color_follows_unit_index() {
    // Two units in one package and one in another: colors red, green, blue.
    let packages = vec![
        Package { name: "p".to_string(), crates: vec![unit("main", vec!["p::lib"]), unit("lib", vec!["p::main"])] },
        Package { name: "q".to_string(), crates: vec![unit("lib", vec!["p::lib"])] },
    ];
    let repr = from_ir(packages);
    let classes: Vec<String> = repr.elements.iter().filter(|e| e.data.is_edge()).map(|e| e.classes.clone()).collect();
    assert_eq!(classes, vec!["edge-red", "edge-green", "edge-blue"]);
    let ids: Vec<String> = repr.elements.iter().filter(|e| e.data.is_edge()).map(|e| e.data.id.clone()).collect();
    assert_eq!(ids, vec!["p::main-p::lib", "p::lib-p::main", "q::lib-p::lib"]);
}

#[test]
fn empty_run_gives_empty_document() {
    assert!(from_ir(vec![]).elements.is_empty());
}

#[test]
fn entry_paths() {
    assert_eq!(entry_path(&"lib/x.rs".to_string(), &"m".to_string()), "m/lib/x.rs");
    assert_eq!(entry_path(&"/abs/x.rs".to_string(), &"m".to_string()), "/abs/x.rs");
    assert_eq!(entry_path(&"x.rs".to_string(), &"m/".to_string()), "m/x.rs");
    assert_eq!(entry_path(&"x.rs".to_string(), &String::new()), "x.rs");
}

#[test]
fn target_directories() {
    assert_eq!(package_target_path(&"a/src/lib.rs".to_string()).ok(), Some("a/src".to_string()));
    assert_eq!(package_target_path(&"lib.rs".to_string()).ok(), Some(String::new()));
    assert_eq!(package_target_path(&"/lib.rs".to_string()).ok(), Some("/".to_string()));
    assert!(matches!(package_target_path(&String::new()), Err(Error::TargetEntryMissing { .. })));
    assert!(matches!(package_target_path(&"/".to_string()), Err(Error::TargetEntryMissing { .. })));
}

#[test]
fn package_targets_in_order() {
    let manifest = Manifest { package: Some(ManifestPackage { name: "p".to_string() }), lib: None, workspace: None };
    let m = "root".to_string();
    assert_eq!(Manifest::main_entry_file(&m), "root/src/main.rs");
    assert_eq!(manifest.lib_entry_file(&m), "root/src/lib.rs");
    let both = manifest.read_package_targets(&m, true, true).ok().expect("targets");
    let got: Vec<(String, String)> = both.into_iter().map(|t| (t.name, t.path)).collect();
    assert_eq!(got, vec![("main".to_string(), "root/src".to_string()), ("lib".to_string(), "root/src".to_string())]);
    let none = manifest.read_package_targets(&m, false, false).ok().expect("targets");
    assert!(none.is_empty());
}

#[test]
fn custom_lib_path() {
    let manifest = Manifest {
        package: Some(ManifestPackage { name: "p".to_string() }),
        lib: Some(Lib { name: None, path: Some("code/entry.rs".to_string()) }),
        workspace: None,
    };
    let m = "root".to_string();
    assert_eq!(manifest.lib_entry_file(&m), "root/code/entry.rs");
    let targets = manifest.read_package_targets(&m, false, true).ok().expect("targets");
    assert_eq!(targets.len(), 1);
    assert_eq!(targets[0].name, "lib");
    assert_eq!(targets[0].path, "root/code");
}

#[test]
fn manifest_members_add_package_root() {
    let manifest = Manifest { package: Some(ManifestPackage { name: "p".to_string() }), lib: None, workspace: None };
    assert_eq!(manifest.members(&"root".to_string(), &vec![], &vec![]), vec!["root"]);
    let none = Manifest { package: None, lib: None, workspace: None };
    assert!(none.members(&"root".to_string(), &vec![], &vec![]).is_empty());
    assert!(matches!(none.package_name(&"root".to_string()), Err(Error::NotAPackage { .. })));
}

#[test]
fn package_name_has_no_hyphens() {
    let manifest = Manifest { package: Some(ManifestPackage { name: "a-b-c".to_string() }), lib: None, workspace: None };
    assert_eq!(manifest.package_name(&"r".to_string()).ok(), Some("a_b_c".to_string()));
}

#[test]
fn target_directory_trims_separators() {
    assert_eq!(package_target_path(&"a//b.rs".to_string()).ok(), Some("a".to_string()));
    assert_eq!(package_target_path(&"a/b/".to_string()).ok(), Some("a".to_string()));
    assert_eq!(package_target_path(&"//b.rs".to_string()).ok(), Some("/".to_string()));
    assert!(matches!(package_target_path(&"///".to_string()), Err(Error::TargetEntryMissing { .. })));
}

#[test]
fn color_counter_counts_units() {
    let mut colors = ColorGenerator::new();
    for _ in 0..9 {
        colors.update();
    }
    assert_eq!(colors.i, 9);
    assert_eq!(colors.current.label(), "green");
}
