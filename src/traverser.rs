//! Traversal of a compilation unit's parsed sources into the intermediate
//! representation: which items are kept, which modules are entered, and which
//! dependency strings the imports give.
use vstd::prelude::*;
use vstd::string::*;

use crate::ir::{
    Package,
    pairs, strings, Const, Enum, Fn, ItemCollection, Mod, Static, Struct, Trait, TraitAlias,
    Type, Union, Use,
};
use crate::manifest::{join, path_join};
use crate::output::cytoscape::{
    children_elements, child_id, dep_edges, deps_nonempty, edgeless, item_vertex, item_vertices,
    lemma_dep_edges_are_edges, lemma_module_no_edges, lemma_vertices_of_concat,
    lemma_vertices_of_vertices, module_elements, mods_deps_nonempty, mods_edgeless, no_edges,
    vertices_of,
};
use crate::ir::NamedItem;
use crate::syn_util::{flat_paths, flatten_use_tree, paths_view, segments_view, UseTree};

verus! {

broadcast use vstd::std_specs::vec::group_vec_axioms, vstd::seq::group_seq_axioms;

/// The kinds of named items that the traversal keeps.
#[derive(Clone, Copy, PartialEq, Eq, Structural)]
pub enum ItemKind {
    Const,
    Enum,
    Fn,
    Static,
    Struct,
    Trait,
    TraitAlias,
    Type,
    Union,
}

/// A top-level item of a source file, as the traversal reads it.
///
/// A module declared out of line (`mod m;`) carries the items of the file it
/// names, or `None` when no such file was found.
pub enum SourceItem {
    Named { kind: ItemKind, public: bool, name: String, repr: String },
    Module { public: bool, name: String, inline: bool, body: Option<Vec<SourceItem>> },
    Use { repr: String, tree: UseTree },
    Other,
}

/// Where the traversal stands: the package and compilation unit being
/// traversed, and whether imports yield dependency strings.
pub struct Ctx {
    pub package_name: String,
    pub crate_name: String,
    pub enable_edges: bool,
}

/// Segments joined by `::`.
pub open spec fn join_segments(segs: Seq<Seq<char>>) -> Seq<char>
    decreases segs.len(),
{
    if segs.len() == 0 {
        Seq::empty()
    } else if segs.len() == 1 {
        segs[0]
    } else {
        join_segments(segs.drop_last()) + "::"@ + segs.last()
    }
}

pub open spec fn is_whitespace(c: char) -> bool {
    c == ' ' || c == '\t' || c == '\n' || c == '\r' || c == '\x0B' || c == '\x0C'
}

/// `s` with its whitespace removed.
pub open spec fn without_whitespace(s: Seq<char>) -> Seq<char>
    decreases s.len(),
{
    if s.len() == 0 {
        s
    } else if is_whitespace(s.last()) {
        without_whitespace(s.drop_last())
    } else {
        without_whitespace(s.drop_last()).push(s.last())
    }
}

/// The dependency string of an imported path, with whitespace removed: a
/// path from `crate` names an item of the current compilation unit; any other
/// path is taken to name an item of the library of the package named by its
/// first segment.
pub open spec fn dependency(package: Seq<char>, crate_name: Seq<char>, segs: Seq<Seq<char>>) -> Option<
    Seq<char>,
> {
    if segs.len() == 0 {
        None
    } else if segs[0] == "crate"@ {
        Some(without_whitespace(package + "::"@ + crate_name + "::"@ + join_segments(segs.drop_first())))
    } else {
        Some(without_whitespace(join_segments(segs.insert(1, "lib"@))))
    }
}

/// `s` with its whitespace removed.
pub fn strip_whitespace(s: &str) -> (r: String)
    ensures
        r@ == without_whitespace(s@),
{
    let n = s.unicode_len();
    let mut r = String::new();
    let mut i: usize = 0;
    while i < n
        invariant
            i <= n,
            n == s@.len(),
            r@ == without_whitespace(s@.take(i as int)),
        decreases n - i,
    {
        let c = s.get_char(i);
        assert(s@.take(i + 1).drop_last() =~= s@.take(i as int));
        assert(s@.take(i + 1).last() == c);
        if !(c == ' ' || c == '\t' || c == '\n' || c == '\r' || c == '\x0B' || c == '\x0C') {
            let piece = s.substring_char(i, i + 1);
            assert(piece@ =~= seq![c]);
            let ghost prev = r@;
            r.append(piece);
            assert(r@ =~= prev.push(c));
        }
        i += 1;
    }
    assert(s@.take(n as int) =~= s@);
    r
}

pub open spec fn path_deps(ps: Seq<Seq<Seq<char>>>, ctx: Ctx) -> Seq<Seq<char>>
    decreases ps.len(),
{
    if ps.len() == 0 {
        Seq::empty()
    } else {
        path_deps(ps.drop_last(), ctx) + match dependency(
            ctx.package_name@,
            ctx.crate_name@,
            ps.last(),
        ) {
            Some(d) => seq![d],
            None => Seq::empty(),
        }
    }
}

/// The names and representations of the public items of one kind.
pub open spec fn named_of(items: Seq<SourceItem>, kind: ItemKind) -> Seq<(Seq<char>, Seq<char>)>
    decreases items.len(),
{
    if items.len() == 0 {
        Seq::empty()
    } else {
        named_of(items.drop_last(), kind) + match items.last() {
            SourceItem::Named { kind: k, public, name, repr } => if public && k == kind {
                seq![(name@, repr@)]
            } else {
                Seq::empty()
            },
            _ => Seq::empty(),
        }
    }
}

/// The representations of all imports, public or not.
pub open spec fn uses_of(items: Seq<SourceItem>) -> Seq<Seq<char>>
    decreases items.len(),
{
    if items.len() == 0 {
        Seq::empty()
    } else {
        uses_of(items.drop_last()) + match items.last() {
            SourceItem::Use { repr, .. } => seq![repr@],
            _ => Seq::empty(),
        }
    }
}

pub open spec fn use_reprs(s: Seq<Use>) -> Seq<Seq<char>> {
    s.map_values(|u: Use| u.repr@)
}

/// The dependency strings of the imports, when edges are enabled.
pub open spec fn deps_of(items: Seq<SourceItem>, ctx: Ctx) -> Seq<Seq<char>>
    decreases items.len(),
{
    if items.len() == 0 {
        Seq::empty()
    } else {
        deps_of(items.drop_last(), ctx) + match items.last() {
            SourceItem::Use { tree, .. } => if ctx.enable_edges {
                path_deps(flat_paths(tree), ctx)
            } else {
                Seq::empty()
            },
            _ => Seq::empty(),
        }
    }
}

/// A module is entered when its body is at hand and it is either public or
/// declared out of line; a private inline module is dropped with its items.
pub open spec fn is_entered(item: SourceItem) -> bool {
    match item {
        SourceItem::Module { public, inline, body, .. } => body is Some && (public || !inline),
        _ => false,
    }
}

/// `ms` are the modules that the entered module items of `items` become.
pub open spec fn mods_match(ms: Seq<Mod>, items: Seq<SourceItem>, ctx: Ctx) -> bool
    decreases items, 0int,
{
    if items.len() == 0 {
        ms.len() == 0
    } else {
        match items.last() {
            SourceItem::Module { public, name, inline, body } => if body is Some && (public
                || !inline) {
                &&& ms.len() > 0
                &&& mods_match(ms.drop_last(), items.drop_last(), ctx)
                &&& module_matches(ms.last(), name@, body->0@, ctx)
            } else {
                mods_match(ms, items.drop_last(), ctx)
            },
            _ => mods_match(ms, items.drop_last(), ctx),
        }
    }
}

/// `m` is the module named `name` whose body is `items`.
pub open spec fn module_matches(m: Mod, name: Seq<char>, items: Seq<SourceItem>, ctx: Ctx) -> bool
    decreases items, 1int,
{
    &&& m.name@ == name
    &&& mods_match(m.items.mods@, items, ctx)
    &&& pairs(m.items.consts@) == named_of(items, ItemKind::Const)
    &&& pairs(m.items.enums@) == named_of(items, ItemKind::Enum)
    &&& pairs(m.items.fns@) == named_of(items, ItemKind::Fn)
    &&& pairs(m.items.statics@) == named_of(items, ItemKind::Static)
    &&& pairs(m.items.structs@) == named_of(items, ItemKind::Struct)
    &&& pairs(m.items.traits@) == named_of(items, ItemKind::Trait)
    &&& pairs(m.items.trait_aliases@) == named_of(items, ItemKind::TraitAlias)
    &&& pairs(m.items.types@) == named_of(items, ItemKind::Type)
    &&& pairs(m.items.unions@) == named_of(items, ItemKind::Union)
    &&& use_reprs(m.items.uses@) == uses_of(items)
    &&& strings(m.deps@) == deps_of(items, ctx)
}


/// Joins the segments `segs[from..]` by `::`.
fn join_path(segs: &Vec<String>, from: usize) -> (r: String)
    requires
        from <= segs@.len(),
    ensures
        r@ == join_segments(segments_view(segs@).subrange(from as int, segs@.len() as int)),
{
    let ghost v = segments_view(segs@);
    let mut r = String::new();
    let mut i: usize = from;
    while i < segs.len()
        invariant
            from <= i <= segs@.len(),
            v == segments_view(segs@),
            r@ == join_segments(v.subrange(from as int, i as int)),
        decreases segs@.len() - i,
    {
        assert(v.subrange(from as int, i + 1).drop_last() =~= v.subrange(from as int, i as int));
        if i > from {
            r.append("::");
        } else {
            assert(r@ =~= Seq::<char>::empty());
        }
        r.append(segs[i].as_str());
        i += 1;
    }
    r
}

/// The dependency string of one imported path; see `dependency`.
pub fn dependency_of(ctx: &Ctx, segs: &Vec<String>) -> (r: Option<String>)
    ensures
        match dependency(ctx.package_name@, ctx.crate_name@, segments_view(segs@)) {
            Some(d) => r is Some && r->0@ == d,
            None => r is None,
        },
{
    let ghost v = segments_view(segs@);
    if segs.len() == 0 {
        return None;
    }
    let marker = String::from_str("crate");
    if segs[0] == marker {
        let mut r = ctx.package_name.clone();
        r.append("::");
        r.append(ctx.crate_name.as_str());
        r.append("::");
        let rest = join_path(segs, 1);
        r.append(rest.as_str());
        assert(v.subrange(1, v.len() as int) =~= v.drop_first());
        Some(strip_whitespace(r.as_str()))
    } else {
        let mut with_lib: Vec<String> = Vec::new();
        with_lib.push(segs[0].clone());
        with_lib.push(String::from_str("lib"));
        let mut i: usize = 1;
        while i < segs.len()
            invariant
                1 <= i <= segs@.len(),
                v == segments_view(segs@),
                segments_view(with_lib@) == v.take(i as int).insert(1, "lib"@),
            decreases segs@.len() - i,
        {
            let ghost prev = segments_view(with_lib@);
            with_lib.push(segs[i].clone());
            assert(segments_view(with_lib@) =~= prev.push(v[i as int]));
            assert(v.take(i + 1).insert(1, "lib"@) =~= v.take(i as int).insert(1, "lib"@).push(
                v[i as int],
            ));
            i += 1;
        }
        assert(v.take(i as int) =~= v);
        let r = join_path(&with_lib, 0);
        assert(segments_view(with_lib@).subrange(0, with_lib@.len() as int) =~= segments_view(
            with_lib@,
        ));
        Some(strip_whitespace(r.as_str()))
    }
}

/// The dependency strings of an import.
pub fn traverse_item_use(ctx: &Ctx, tree: &UseTree) -> (r: Vec<String>)
    ensures
        strings(r@) == path_deps(flat_paths(*tree), *ctx),
{
    let paths = flatten_use_tree(tree);
    let ghost ps = paths_view(paths@);
    let mut r: Vec<String> = Vec::new();
    let mut i: usize = 0;
    while i < paths.len()
        invariant
            i <= paths@.len(),
            ps == paths_view(paths@),
            ps == flat_paths(*tree),
            strings(r@) == path_deps(ps.take(i as int), *ctx),
        decreases paths@.len() - i,
    {
        let ghost prev = strings(r@);
        assert(ps.take(i + 1).drop_last() =~= ps.take(i as int));
        match dependency_of(ctx, &paths[i]) {
            Some(d) => {
                r.push(d);
                assert(strings(r@) =~= prev.push(
                    dependency(ctx.package_name@, ctx.crate_name@, ps[i as int])->0,
                ));
            },
            None => {},
        }
        i += 1;
    }
    assert(ps.take(i as int) =~= ps);
    r
}


proof fn lemma_named_step(items: Seq<SourceItem>, i: int, ctx: Ctx)
    requires
        0 <= i < items.len(),
    ensures
        !is_entered(items[i]) ==> forall|ms: Seq<Mod>|
            #[trigger] mods_match(ms, items.take(i + 1), ctx) == mods_match(ms, items.take(i), ctx),
        forall|k: ItemKind|
            !(items[i] is Named && items[i]->Named_public && items[i]->Named_kind == k)
                ==> #[trigger] named_of(items.take(i + 1), k) == named_of(items.take(i), k),
{
    let post = items.take(i + 1);
    assert(post.drop_last() =~= items.take(i));
    assert forall|k: ItemKind|
        !(items[i] is Named && items[i]->Named_public && items[i]->Named_kind
            == k) implies #[trigger] named_of(post, k) == named_of(items.take(i), k) by {
        assert(named_of(post, k) =~= named_of(items.take(i), k));
    }
    assert(post.last() == items[i]);
}

/// The module that an entered module item becomes, or `None` when it is not
/// entered (see `is_entered`).
fn traverse_item_mod(ctx: &Ctx, item: &SourceItem) -> (r: Option<Mod>)
    requires
        item is Module,
    ensures
        r is Some <==> is_entered(*item),
        r is Some ==> module_matches(r->0, item->Module_name@, item->body->0@, *ctx),
    decreases *item, 0int,
{
    match item {
        SourceItem::Module { public, name, inline, body } => {
            if !*public && *inline {
                // A private inline module cannot expose its items.
                return None;
            }
            match body {
                Some(items) => {
                    proof {
                        assert(decreases_to!(*item => item->body));
                        assert(decreases_to!(item->body => item->body->0));
                        assert(decreases_to!(item->body->0 => items@));
                    }
                    Some(traverse_mod(ctx, name, items))
                },
                None => None,
            }
        },
        _ => None,
    }
}

/// Adds the `i`-th item of `items` to `module`, whose contents stand for the
/// items before it.
fn traverse_item(ctx: &Ctx, module: &mut Mod, items: &Vec<SourceItem>, i: usize)
    requires
        i < items@.len(),
        module_matches(*old(module), old(module).name@, items@.take(i as int), *ctx),
    ensures
        final(module).name@ == old(module).name@,
        module_matches(*final(module), old(module).name@, items@.take(i + 1), *ctx),
    decreases items@[i as int], 1int,
{
    let ghost pre = items@.take(i as int);
    let ghost post = items@.take(i + 1);
    assert(post.drop_last() =~= pre);
    assert(post.last() == items@[i as int]);
    let item = &items[i];
    proof {
        lemma_named_step(items@, i as int, *ctx);
    }
    match item {
        SourceItem::Named { kind, public, name: n, repr } => {
            proof {
                assert(uses_of(post) =~= uses_of(pre));
                assert(deps_of(post, *ctx) =~= deps_of(pre, *ctx));
            }
            if *public {
                let n = n.clone();
                let repr = repr.clone();
                match kind {
                    ItemKind::Const => {
                        let ghost prev = pairs(module.items.consts@);
                        module.items.consts.push(Const { name: n, repr });
                        assert(pairs(module.items.consts@) =~= prev.push((n@, repr@)));
                    },
                    ItemKind::Enum => {
                        let ghost prev = pairs(module.items.enums@);
                        module.items.enums.push(Enum { name: n, repr });
                        assert(pairs(module.items.enums@) =~= prev.push((n@, repr@)));
                    },
                    ItemKind::Fn => {
                        let ghost prev = pairs(module.items.fns@);
                        module.items.fns.push(Fn { name: n, repr });
                        assert(pairs(module.items.fns@) =~= prev.push((n@, repr@)));
                    },
                    ItemKind::Static => {
                        let ghost prev = pairs(module.items.statics@);
                        module.items.statics.push(Static { name: n, repr });
                        assert(pairs(module.items.statics@) =~= prev.push((n@, repr@)));
                    },
                    ItemKind::Struct => {
                        let ghost prev = pairs(module.items.structs@);
                        module.items.structs.push(Struct { name: n, repr });
                        assert(pairs(module.items.structs@) =~= prev.push((n@, repr@)));
                    },
                    ItemKind::Trait => {
                        let ghost prev = pairs(module.items.traits@);
                        module.items.traits.push(Trait { name: n, repr });
                        assert(pairs(module.items.traits@) =~= prev.push((n@, repr@)));
                    },
                    ItemKind::TraitAlias => {
                        let ghost prev = pairs(module.items.trait_aliases@);
                        module.items.trait_aliases.push(TraitAlias { name: n, repr });
                        assert(pairs(module.items.trait_aliases@) =~= prev.push((n@, repr@)));
                    },
                    ItemKind::Type => {
                        let ghost prev = pairs(module.items.types@);
                        module.items.types.push(Type { name: n, repr });
                        assert(pairs(module.items.types@) =~= prev.push((n@, repr@)));
                    },
                    ItemKind::Union => {
                        let ghost prev = pairs(module.items.unions@);
                        module.items.unions.push(Union { name: n, repr });
                        assert(pairs(module.items.unions@) =~= prev.push((n@, repr@)));
                    },
                }
            }
            assert(pairs(module.items.consts@) =~= named_of(post, ItemKind::Const));
            assert(pairs(module.items.enums@) =~= named_of(post, ItemKind::Enum));
            assert(pairs(module.items.fns@) =~= named_of(post, ItemKind::Fn));
            assert(pairs(module.items.statics@) =~= named_of(post, ItemKind::Static));
            assert(pairs(module.items.structs@) =~= named_of(post, ItemKind::Struct));
            assert(pairs(module.items.traits@) =~= named_of(post, ItemKind::Trait));
            assert(pairs(module.items.trait_aliases@) =~= named_of(post, ItemKind::TraitAlias));
            assert(pairs(module.items.types@) =~= named_of(post, ItemKind::Type));
            assert(pairs(module.items.unions@) =~= named_of(post, ItemKind::Union));
            assert(use_reprs(module.items.uses@) == uses_of(post));
            assert(strings(module.deps@) == deps_of(post, *ctx));
        },
        SourceItem::Module { .. } => {
            let entered = traverse_item_mod(ctx, item);
            match entered {
                Some(m) => {
                    let ghost prev = module.items.mods@;
                    module.items.mods.push(m);
                    assert(module.items.mods@.drop_last() =~= prev);
                },
                None => {},
            }
            assert(uses_of(post) =~= uses_of(pre));
            assert(deps_of(post, *ctx) =~= deps_of(pre, *ctx));
        },
        SourceItem::Use { repr, tree } => {
            if ctx.enable_edges {
                let mut deps = traverse_item_use(ctx, tree);
                let ghost prev = strings(module.deps@);
                let ghost added = strings(deps@);
                module.deps.append(&mut deps);
                assert(strings(module.deps@) =~= prev + added);
                assert(deps_of(post, *ctx) =~= deps_of(pre, *ctx) + path_deps(
                    flat_paths(*tree),
                    *ctx,
                ));
            } else {
                assert(deps_of(post, *ctx) =~= deps_of(pre, *ctx));
            }
            assert(uses_of(post) =~= uses_of(pre).push(repr@));
            let ghost prev = use_reprs(module.items.uses@);
            module.items.uses.push(Use { repr: repr.clone() });
            assert(use_reprs(module.items.uses@) =~= prev.push(repr@));
        },
        SourceItem::Other => {
            proof {
                assert(uses_of(post) =~= uses_of(pre));
                assert(deps_of(post, *ctx) =~= deps_of(pre, *ctx));
                }
        },
    }
}

/// The module named `name` whose body is `items`.
pub fn traverse_mod(ctx: &Ctx, name: &String, items: &Vec<SourceItem>) -> (r: Mod)
    ensures
        module_matches(r, name@, items@, *ctx),
    decreases items@, 2int,
{
    let mut module = Mod::new(name.clone());
    assert(items@.take(0) =~= Seq::<SourceItem>::empty());
    assert(module.items.mods@ =~= Seq::<Mod>::empty());
    assert(pairs(module.items.consts@) =~= Seq::empty());
    assert(pairs(module.items.enums@) =~= Seq::empty());
    assert(pairs(module.items.fns@) =~= Seq::empty());
    assert(pairs(module.items.statics@) =~= Seq::empty());
    assert(pairs(module.items.structs@) =~= Seq::empty());
    assert(pairs(module.items.traits@) =~= Seq::empty());
    assert(pairs(module.items.trait_aliases@) =~= Seq::empty());
    assert(pairs(module.items.types@) =~= Seq::empty());
    assert(pairs(module.items.unions@) =~= Seq::empty());
    assert(use_reprs(module.items.uses@) =~= Seq::empty());
    assert(strings(module.deps@) =~= Seq::empty());
    let mut i: usize = 0;
    while i < items.len()
        invariant
            i <= items@.len(),
            module.name@ == name@,
            module_matches(module, name@, items@.take(i as int), *ctx),
        decreases items@.len() - i,
    {
        proof {
            assert(decreases_to!(items@ => items@[i as int]));
        }
        traverse_item(ctx, &mut module, items, i);
        i += 1;
    }
    assert(items@.take(i as int) =~= items@);
    module
}


/// The root module of a compilation unit is named after its target.
pub open spec fn is_root_module(name: Seq<char>) -> bool {
    name == "main"@ || name == "lib"@
}

/// The two files that may hold the module `name` declared in a module whose
/// files live in `dir`: `dir/name.rs`, then `dir/name/mod.rs`.
pub fn module_file_candidates(dir: &String, name: &String) -> (r: (String, String))
    ensures
        r.0@ == path_join(dir@, name@ + ".rs"@),
        r.1@ == path_join(dir@, name@ + "/mod.rs"@),
{
    let mut flat = name.clone();
    flat.append(".rs");
    let mut nested = name.clone();
    nested.append("/mod.rs");
    (join(dir.as_str(), flat.as_str()), join(dir.as_str(), nested.as_str()))
}

/// The directory in which the modules declared by module `module_name` are
/// looked for: a root module's own directory, else a directory named after it.
pub fn child_dir(dir: &String, module_name: &String) -> (r: String)
    ensures
        r@ == if is_root_module(module_name@) {
            dir@
        } else {
            path_join(dir@, module_name@)
        },
{
    let main = String::from_str("main");
    let lib = String::from_str("lib");
    if *module_name == main || *module_name == lib {
        dir.clone()
    } else {
        join(dir.as_str(), module_name.as_str())
    }
}


proof fn lemma_no_deps_without_edges(items: Seq<SourceItem>, ctx: Ctx)
    requires
        !ctx.enable_edges,
    ensures
        deps_of(items, ctx).len() == 0,
    decreases items.len(),
{
    if items.len() > 0 {
        lemma_no_deps_without_edges(items.drop_last(), ctx);
    }
}

proof fn lemma_mods_without_edges(ms: Seq<Mod>, items: Seq<SourceItem>, ctx: Ctx)
    requires
        !ctx.enable_edges,
        mods_match(ms, items, ctx),
    ensures
        mods_edgeless(ms),
    decreases items, 0int,
{
    if items.len() > 0 {
        match items.last() {
            SourceItem::Module { public, name, inline, body } => {
                if body is Some && (public || !inline) {
                    lemma_mods_without_edges(ms.drop_last(), items.drop_last(), ctx);
                    lemma_traversal_without_edges(ms.last(), name@, body->0@, ctx);
                } else {
                    lemma_mods_without_edges(ms, items.drop_last(), ctx);
                }
            },
            _ => {
                lemma_mods_without_edges(ms, items.drop_last(), ctx);
            },
        }
    }
}

/// With the edge switch off, a traversed module and the modules nested in it
/// carry no dependency strings, so their document holds no edge (see
/// `lemma_edgeless_document`).
pub proof fn lemma_traversal_without_edges(m: Mod, name: Seq<char>, items: Seq<SourceItem>, ctx: Ctx)
    requires
        !ctx.enable_edges,
        module_matches(m, name, items, ctx),
    ensures
        edgeless(m),
    decreases items, 1int,
{
    lemma_no_deps_without_edges(items, ctx);
    lemma_mods_without_edges(m.items.mods@, items, ctx);
}


proof fn lemma_same_pairs_same_vertices<T: NamedItem>(
    kind: Seq<char>,
    a: Seq<T>,
    b: Seq<T>,
    parent: Seq<char>,
)
    requires
        pairs(a) == pairs(b),
    ensures
        item_vertices(kind, a, parent) == item_vertices(kind, b, parent),
{
    assert(pairs(a).len() == a.len());
    assert(pairs(b).len() == b.len());
    assert forall|i: int| 0 <= i < a.len() implies a[i].spec_name() == b[i].spec_name() by {
        assert(pairs(a)[i] == (a[i].spec_name(), a[i].spec_repr()));
        assert(pairs(b)[i] == (b[i].spec_name(), b[i].spec_repr()));
        assert(pairs(a)[i] == pairs(b)[i]);
    }
    assert(a.len() == b.len());
    assert(item_vertices(kind, a, parent) =~= item_vertices(kind, b, parent));
}

proof fn lemma_children_deterministic(
    ms1: Seq<Mod>,
    ms2: Seq<Mod>,
    items: Seq<SourceItem>,
    ctx: Ctx,
    parent: Seq<char>,
    color: Seq<char>,
)
    requires
        mods_match(ms1, items, ctx),
        mods_match(ms2, items, ctx),
    ensures
        children_elements(ms1, parent, color) == children_elements(ms2, parent, color),
    decreases items, 0int,
{
    if items.len() > 0 {
        match items.last() {
            SourceItem::Module { public, name, inline, body } => {
                if body is Some && (public || !inline) {
                    lemma_children_deterministic(
                        ms1.drop_last(),
                        ms2.drop_last(),
                        items.drop_last(),
                        ctx,
                        parent,
                        color,
                    );
                    lemma_traversal_deterministic(
                        ms1.last(),
                        ms2.last(),
                        name@,
                        body->0@,
                        ctx,
                        parent + "::"@ + name@,
                        color,
                    );
                    assert(module_matches(ms1.last(), name@, body->0@, ctx));
                    assert(module_matches(ms2.last(), name@, body->0@, ctx));
                    assert(ms1.last().name@ == name@);
                    assert(ms2.last().name@ == name@);
                    assert(ms1.len() > 0 && ms2.len() > 0);
                } else {
                    lemma_children_deterministic(ms1, ms2, items.drop_last(), ctx, parent, color);
                }
            },
            _ => {
                lemma_children_deterministic(ms1, ms2, items.drop_last(), ctx, parent, color);
            },
        }
    }
}

/// Determinism: two traversals of the same items in the same context give
/// modules that project to the same elements.
pub proof fn lemma_traversal_deterministic(
    m1: Mod,
    m2: Mod,
    name: Seq<char>,
    items: Seq<SourceItem>,
    ctx: Ctx,
    parent: Seq<char>,
    color: Seq<char>,
)
    requires
        module_matches(m1, name, items, ctx),
        module_matches(m2, name, items, ctx),
    ensures
        module_elements(m1, parent, color) == module_elements(m2, parent, color),
    decreases items, 1int,
{
    lemma_children_deterministic(m1.items.mods@, m2.items.mods@, items, ctx, parent, color);
    lemma_same_pairs_same_vertices("const"@, m1.items.consts@, m2.items.consts@, parent);
    lemma_same_pairs_same_vertices("enum"@, m1.items.enums@, m2.items.enums@, parent);
    lemma_same_pairs_same_vertices("fn"@, m1.items.fns@, m2.items.fns@, parent);
    lemma_same_pairs_same_vertices("static"@, m1.items.statics@, m2.items.statics@, parent);
    lemma_same_pairs_same_vertices("struct"@, m1.items.structs@, m2.items.structs@, parent);
    lemma_same_pairs_same_vertices("trait"@, m1.items.traits@, m2.items.traits@, parent);
    lemma_same_pairs_same_vertices(
        "trait"@,
        m1.items.trait_aliases@,
        m2.items.trait_aliases@,
        parent,
    );
    lemma_same_pairs_same_vertices("type"@, m1.items.types@, m2.items.types@, parent);
    lemma_same_pairs_same_vertices("union"@, m1.items.unions@, m2.items.unions@, parent);
    assert(strings(m1.deps@).len() == strings(m2.deps@).len());
    assert forall|i: int| 0 <= i < m1.deps@.len() implies m1.deps@[i]@ == m2.deps@[i]@ by {
        assert(strings(m1.deps@)[i] == strings(m2.deps@)[i]);
    }
    assert(dep_edges(m1.deps@, parent, color) =~= dep_edges(m2.deps@, parent, color));
}


proof fn lemma_kept_char(s: Seq<char>, k: int)
    requires
        0 <= k < s.len(),
        !is_whitespace(s[k]),
    ensures
        without_whitespace(s).len() > 0,
    decreases s.len(),
{
    if k < s.len() - 1 {
        lemma_kept_char(s.drop_last(), k);
    }
}

proof fn lemma_dependency_nonempty(package: Seq<char>, crate_name: Seq<char>, segs: Seq<Seq<char>>)
    ensures
        dependency(package, crate_name, segs) is Some ==> dependency(
            package,
            crate_name,
            segs,
        )->0.len() > 0,
{
    reveal_strlit("::");
    if segs.len() > 0 {
        if segs[0] == "crate"@ {
            let d = package + "::"@ + crate_name + "::"@ + join_segments(segs.drop_first());
            assert(d[package.len() as int] == ':');
            lemma_kept_char(d, package.len() as int);
        } else {
            let t = segs.insert(1, "lib"@);
            assert(t.len() >= 2);
            let d = join_segments(t);
            assert(d == join_segments(t.drop_last()) + "::"@ + t.last());
            assert(d[join_segments(t.drop_last()).len() as int] == ':');
            lemma_kept_char(d, join_segments(t.drop_last()).len() as int);
        }
    }
}

proof fn lemma_path_deps_nonempty(ps: Seq<Seq<Seq<char>>>, ctx: Ctx)
    ensures
        forall|i: int| 0 <= i < path_deps(ps, ctx).len() ==> (#[trigger] path_deps(ps, ctx)[i]).len() > 0,
    decreases ps.len(),
{
    if ps.len() > 0 {
        lemma_path_deps_nonempty(ps.drop_last(), ctx);
        lemma_dependency_nonempty(ctx.package_name@, ctx.crate_name@, ps.last());
        let a = path_deps(ps.drop_last(), ctx);
        assert forall|i: int| 0 <= i < path_deps(ps, ctx).len() implies (#[trigger] path_deps(
            ps,
            ctx,
        )[i]).len() > 0 by {
            if i < a.len() {
                assert(path_deps(ps, ctx)[i] == a[i]);
            }
        }
    }
}

proof fn lemma_deps_of_nonempty(items: Seq<SourceItem>, ctx: Ctx)
    ensures
        forall|i: int| 0 <= i < deps_of(items, ctx).len() ==> (#[trigger] deps_of(items, ctx)[i]).len() > 0,
    decreases items.len(),
{
    if items.len() > 0 {
        lemma_deps_of_nonempty(items.drop_last(), ctx);
        let a = deps_of(items.drop_last(), ctx);
        match items.last() {
            SourceItem::Use { tree, .. } => {
                lemma_path_deps_nonempty(flat_paths(tree), ctx);
            },
            _ => {},
        }
        assert forall|i: int| 0 <= i < deps_of(items, ctx).len() implies (#[trigger] deps_of(
            items,
            ctx,
        )[i]).len() > 0 by {
            if i < a.len() {
                assert(deps_of(items, ctx)[i] == a[i]);
            }
        }
    }
}

proof fn lemma_mods_deps_nonempty(ms: Seq<Mod>, items: Seq<SourceItem>, ctx: Ctx)
    requires
        mods_match(ms, items, ctx),
    ensures
        mods_deps_nonempty(ms),
    decreases items, 0int,
{
    if items.len() > 0 {
        match items.last() {
            SourceItem::Module { public, name, inline, body } => {
                if body is Some && (public || !inline) {
                    lemma_mods_deps_nonempty(ms.drop_last(), items.drop_last(), ctx);
                    lemma_traversal_deps_nonempty(ms.last(), name@, body->0@, ctx);
                } else {
                    lemma_mods_deps_nonempty(ms, items.drop_last(), ctx);
                }
            },
            _ => {
                lemma_mods_deps_nonempty(ms, items.drop_last(), ctx);
            },
        }
    }
}

/// The dependency strings that the traversal gathers, in a module and in the
/// modules nested in it, are never empty.
pub proof fn lemma_traversal_deps_nonempty(m: Mod, name: Seq<char>, items: Seq<SourceItem>, ctx: Ctx)
    requires
        module_matches(m, name, items, ctx),
    ensures
        deps_nonempty(m),
    decreases items, 1int,
{
    lemma_deps_of_nonempty(items, ctx);
    lemma_mods_deps_nonempty(m.items.mods@, items, ctx);
    assert forall|j: int| 0 <= j < m.deps@.len() implies (#[trigger] m.deps@[j])@.len() > 0 by {
        assert(strings(m.deps@)[j] == m.deps@[j]@);
    }
}


proof fn lemma_children_same_vertices(
    ms_on: Seq<Mod>,
    ms_off: Seq<Mod>,
    items: Seq<SourceItem>,
    on: Ctx,
    off: Ctx,
    parent: Seq<char>,
    color_on: Seq<char>,
    color_off: Seq<char>,
)
    requires
        mods_match(ms_on, items, on),
        mods_match(ms_off, items, off),
        !off.enable_edges,
        parent.len() > 0,
    ensures
        vertices_of(children_elements(ms_on, parent, color_on)) == children_elements(
            ms_off,
            parent,
            color_off,
        ),
    decreases items, 0int,
{
    if items.len() > 0 {
        match items.last() {
            SourceItem::Module { public, name, inline, body } => {
                if body is Some && (public || !inline) {
                    let cid = child_id(parent, name@);
                    reveal_strlit("::");
                    assert(cid.len() > 0);
                    lemma_children_same_vertices(
                        ms_on.drop_last(),
                        ms_off.drop_last(),
                        items.drop_last(),
                        on,
                        off,
                        parent,
                        color_on,
                        color_off,
                    );
                    assert(module_matches(ms_on.last(), name@, body->0@, on));
                    assert(module_matches(ms_off.last(), name@, body->0@, off));
                    lemma_edges_add_no_vertices(
                        ms_on.last(),
                        ms_off.last(),
                        name@,
                        body->0@,
                        on,
                        off,
                        cid,
                        color_on,
                        color_off,
                    );
                    let v = item_vertex("mod"@, name@, parent);
                    assert(no_edges(seq![v]));
                    lemma_vertices_of_vertices(seq![v]);
                    let a = children_elements(ms_on.drop_last(), parent, color_on);
                    let b = module_elements(ms_on.last(), cid, color_on);
                    lemma_vertices_of_concat(a, seq![v]);
                    lemma_vertices_of_concat(a + seq![v], b);
                    assert(children_elements(ms_on, parent, color_on) == a + seq![v] + b);
                } else {
                    lemma_children_same_vertices(
                        ms_on,
                        ms_off,
                        items.drop_last(),
                        on,
                        off,
                        parent,
                        color_on,
                        color_off,
                    );
                }
            },
            _ => {
                lemma_children_same_vertices(
                    ms_on,
                    ms_off,
                    items.drop_last(),
                    on,
                    off,
                    parent,
                    color_on,
                    color_off,
                );
            },
        }
    } else {
        assert(vertices_of(Seq::<crate::output::cytoscape::ElementModel>::empty()) =~= Seq::empty()) by {
            reveal(Seq::filter);
        }
    }
}

/// Edge toggle: a module traversed with edges enabled has, besides its
/// edges, exactly the elements of the same module traversed with edges
/// disabled, in the same order; so switching edges on only adds edges.
pub proof fn lemma_edges_add_no_vertices(
    m_on: Mod,
    m_off: Mod,
    name: Seq<char>,
    items: Seq<SourceItem>,
    on: Ctx,
    off: Ctx,
    parent: Seq<char>,
    color_on: Seq<char>,
    color_off: Seq<char>,
)
    requires
        module_matches(m_on, name, items, on),
        module_matches(m_off, name, items, off),
        !off.enable_edges,
        parent.len() > 0,
    ensures
        vertices_of(module_elements(m_on, parent, color_on)) == module_elements(
            m_off,
            parent,
            color_off,
        ),
    decreases items, 1int,
{
    lemma_children_same_vertices(
        m_on.items.mods@,
        m_off.items.mods@,
        items,
        on,
        off,
        parent,
        color_on,
        color_off,
    );
    lemma_traversal_without_edges(m_off, name, items, off);
    lemma_module_no_edges(m_off, parent, color_off);
    lemma_deps_of_nonempty(items, on);
    assert forall|j: int| 0 <= j < m_on.deps@.len() implies (#[trigger] m_on.deps@[j])@.len()
        > 0 by {
        assert(strings(m_on.deps@)[j] == m_on.deps@[j]@);
    }
    lemma_dep_edges_are_edges(m_on.deps@, parent, color_on);
    let i = m_on.items;
    let k = m_off.items;
    lemma_same_pairs_same_vertices("const"@, i.consts@, k.consts@, parent);
    lemma_same_pairs_same_vertices("enum"@, i.enums@, k.enums@, parent);
    lemma_same_pairs_same_vertices("fn"@, i.fns@, k.fns@, parent);
    lemma_same_pairs_same_vertices("static"@, i.statics@, k.statics@, parent);
    lemma_same_pairs_same_vertices("struct"@, i.structs@, k.structs@, parent);
    lemma_same_pairs_same_vertices("trait"@, i.traits@, k.traits@, parent);
    lemma_same_pairs_same_vertices("trait"@, i.trait_aliases@, k.trait_aliases@, parent);
    lemma_same_pairs_same_vertices("type"@, i.types@, k.types@, parent);
    lemma_same_pairs_same_vertices("union"@, i.unions@, k.unions@, parent);
    let s0 = children_elements(i.mods@, parent, color_on);
    let consts_v = item_vertices("const"@, i.consts@, parent);
    let enums_v = item_vertices("enum"@, i.enums@, parent);
    let fns_v = item_vertices("fn"@, i.fns@, parent);
    let statics_v = item_vertices("static"@, i.statics@, parent);
    let structs_v = item_vertices("struct"@, i.structs@, parent);
    let traits_v = item_vertices("trait"@, i.traits@, parent);
    let aliases_v = item_vertices("trait"@, i.trait_aliases@, parent);
    let types_v = item_vertices("type"@, i.types@, parent);
    let unions_v = item_vertices("union"@, i.unions@, parent);
    let e = dep_edges(m_on.deps@, parent, color_on);
    assert(no_edges(consts_v));
    assert(no_edges(enums_v));
    assert(no_edges(fns_v));
    assert(no_edges(statics_v));
    assert(no_edges(structs_v));
    assert(no_edges(traits_v));
    assert(no_edges(aliases_v));
    assert(no_edges(types_v));
    assert(no_edges(unions_v));
    lemma_vertices_of_vertices(consts_v);
    lemma_vertices_of_vertices(enums_v);
    lemma_vertices_of_vertices(fns_v);
    lemma_vertices_of_vertices(statics_v);
    lemma_vertices_of_vertices(structs_v);
    lemma_vertices_of_vertices(traits_v);
    lemma_vertices_of_vertices(aliases_v);
    lemma_vertices_of_vertices(types_v);
    lemma_vertices_of_vertices(unions_v);
    lemma_vertices_of_concat(s0, consts_v);
    lemma_vertices_of_concat(s0 + consts_v, enums_v);
    lemma_vertices_of_concat(s0 + consts_v + enums_v, fns_v);
    lemma_vertices_of_concat(s0 + consts_v + enums_v + fns_v, statics_v);
    lemma_vertices_of_concat(s0 + consts_v + enums_v + fns_v + statics_v, structs_v);
    lemma_vertices_of_concat(s0 + consts_v + enums_v + fns_v + statics_v + structs_v, traits_v);
    lemma_vertices_of_concat(s0 + consts_v + enums_v + fns_v + statics_v + structs_v + traits_v, aliases_v);
    lemma_vertices_of_concat(s0 + consts_v + enums_v + fns_v + statics_v + structs_v + traits_v + aliases_v, types_v);
    lemma_vertices_of_concat(s0 + consts_v + enums_v + fns_v + statics_v + structs_v + traits_v + aliases_v + types_v, unions_v);
    lemma_vertices_of_concat(s0 + consts_v + enums_v + fns_v + statics_v + structs_v + traits_v + aliases_v + types_v + unions_v, e);
    assert(m_off.deps@.len() == 0);
    assert(dep_edges(m_off.deps@, parent, color_off) =~= Seq::empty());
    assert(module_elements(m_off, parent, color_off) =~= children_elements(
        k.mods@,
        parent,
        color_off,
    ) + consts_v + enums_v + fns_v + statics_v + structs_v + traits_v + aliases_v + types_v + unions_v);
}


/// The units whose entry was found and traversed, in order.
pub open spec fn found_units(units: Seq<Option<Mod>>) -> Seq<Mod>
    decreases units.len(),
{
    if units.len() == 0 {
        Seq::empty()
    } else if units.last() is Some {
        found_units(units.drop_last()).push(units.last()->0)
    } else {
        found_units(units.drop_last())
    }
}

/// The package of a member from the outcome of each of its targets (`None`
/// for a target whose entry could not be traversed): the traversed units in
/// order, or no package when no target could be traversed.
pub fn package_of(name: String, units: Vec<Option<Mod>>) -> (r: Option<Package>)
    ensures
        r is Some <==> found_units(units@).len() > 0,
        r is Some ==> r->0.name@ == name@ && r->0.crates@ == found_units(units@),
{
    let ghost all = units@;
    let n = units.len();
    let mut rest = units;
    let mut crates: Vec<Mod> = Vec::new();
    let mut i: usize = 0;
    while rest.len() > 0
        invariant
            i + rest@.len() == all.len(),
            all.len() == n,
            rest@ == all.skip(i as int),
            crates@ == found_units(all.take(i as int)),
        decreases rest@.len(),
    {
        let u = rest.remove(0);
        assert(u == all[i as int]);
        assert(all.take(i + 1).drop_last() =~= all.take(i as int));
        assert(all.take(i + 1).last() == all[i as int]);
        match u {
            Some(m) => {
                crates.push(m);
            },
            None => {},
        }
        assert(rest@ =~= all.skip(i + 1));
        i += 1;
    }
    assert(all.take(i as int) =~= all);
    if crates.len() == 0 {
        None
    } else {
        Some(Package { name, crates })
    }
}


proof fn lemma_pairs_names<T: NamedItem>(a: Seq<T>, b: Seq<T>)
    requires
        pairs(a) == pairs(b),
    ensures
        crate::output::ids::names_of(a) == crate::output::ids::names_of(b),
{
    assert(pairs(a).len() == a.len() && pairs(b).len() == b.len());
    assert forall|i: int| 0 <= i < a.len() implies a[i].spec_name() == b[i].spec_name() by {
        assert(pairs(a)[i] == (a[i].spec_name(), a[i].spec_repr()));
        assert(pairs(b)[i] == (b[i].spec_name(), b[i].spec_repr()));
    }
    assert(crate::output::ids::names_of(a) =~= crate::output::ids::names_of(b));
}

proof fn lemma_mods_same_tree(ms1: Seq<Mod>, ms2: Seq<Mod>, items: Seq<SourceItem>, c1: Ctx, c2: Ctx)
    requires
        mods_match(ms1, items, c1),
        mods_match(ms2, items, c2),
    ensures
        crate::output::toggle::mods_same(ms1, ms2),
    decreases items, 0int,
{
    if items.len() > 0 {
        match items.last() {
            SourceItem::Module { public, name, inline, body } => {
                if body is Some && (public || !inline) {
                    lemma_mods_same_tree(ms1.drop_last(), ms2.drop_last(), items.drop_last(), c1, c2);
                    lemma_same_tree(ms1.last(), ms2.last(), name@, body->0@, c1, c2);
                } else {
                    lemma_mods_same_tree(ms1, ms2, items.drop_last(), c1, c2);
                }
            },
            _ => {
                lemma_mods_same_tree(ms1, ms2, items.drop_last(), c1, c2);
            },
        }
    }
}

/// Two traversals of the same items, in contexts that may differ (edges on
/// and off), give modules that differ at most in their dependency strings.
pub proof fn lemma_same_tree(
    m1: Mod,
    m2: Mod,
    name: Seq<char>,
    items: Seq<SourceItem>,
    c1: Ctx,
    c2: Ctx,
)
    requires
        module_matches(m1, name, items, c1),
        module_matches(m2, name, items, c2),
    ensures
        crate::output::toggle::same_tree(m1, m2),
    decreases items, 1int,
{
    lemma_mods_same_tree(m1.items.mods@, m2.items.mods@, items, c1, c2);
    lemma_pairs_names(m1.items.consts@, m2.items.consts@);
    lemma_pairs_names(m1.items.enums@, m2.items.enums@);
    lemma_pairs_names(m1.items.fns@, m2.items.fns@);
    lemma_pairs_names(m1.items.statics@, m2.items.statics@);
    lemma_pairs_names(m1.items.structs@, m2.items.structs@);
    lemma_pairs_names(m1.items.traits@, m2.items.traits@);
    lemma_pairs_names(m1.items.trait_aliases@, m2.items.trait_aliases@);
    lemma_pairs_names(m1.items.types@, m2.items.types@);
    lemma_pairs_names(m1.items.unions@, m2.items.unions@);
}

} // verus!
