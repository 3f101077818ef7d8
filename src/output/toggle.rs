//! The vertices of a document do not depend on the dependency strings: a run
//! with edges enabled only adds edges to the run without.
use vstd::prelude::*;

use crate::ir::{Mod, Package};
use crate::output::cytoscape::{
    child_id, children_elements, crate_elements, crates_elements, crates_deps_nonempty,
    deps_nonempty, document, ElementModel, ir_elements, is_edge, is_valid_in, item_vertex,
    item_vertices, lemma_dep_edges_are_edges, lemma_vertices_of_concat, lemma_vertices_of_vertices,
    module_elements, mods_deps_nonempty, no_edges, package_elements, package_vertex,
    packages_deps_nonempty, vertices_of, dep_edges,
};
use crate::output::ids::names_of;

verus! {

broadcast use vstd::seq::group_seq_axioms;

/// The two modules have the same name, the same item names of each kind and
/// nested modules that are pairwise `same_tree`; their dependency strings
/// may differ.
pub open spec fn same_tree(m1: Mod, m2: Mod) -> bool
    decreases m1,
{
    &&& m1.name@ == m2.name@
    &&& names_of(m1.items.consts@) == names_of(m2.items.consts@)
    &&& names_of(m1.items.enums@) == names_of(m2.items.enums@)
    &&& names_of(m1.items.fns@) == names_of(m2.items.fns@)
    &&& names_of(m1.items.statics@) == names_of(m2.items.statics@)
    &&& names_of(m1.items.structs@) == names_of(m2.items.structs@)
    &&& names_of(m1.items.traits@) == names_of(m2.items.traits@)
    &&& names_of(m1.items.trait_aliases@) == names_of(m2.items.trait_aliases@)
    &&& names_of(m1.items.types@) == names_of(m2.items.types@)
    &&& names_of(m1.items.unions@) == names_of(m2.items.unions@)
    &&& mods_same(m1.items.mods@, m2.items.mods@)
}

pub open spec fn mods_same(ms1: Seq<Mod>, ms2: Seq<Mod>) -> bool
    decreases ms1,
{
    &&& ms1.len() == ms2.len()
    &&& ms1.len() > 0 ==> mods_same(ms1.drop_last(), ms2.drop_last()) && same_tree(
        ms1.last(),
        ms2.last(),
    )
}

/// The packages have the same names and compilation units that are pairwise
/// `same_tree`.
pub open spec fn packages_same(ps1: Seq<Package>, ps2: Seq<Package>) -> bool {
    &&& ps1.len() == ps2.len()
    &&& forall|i: int|
        0 <= i < ps1.len() ==> (#[trigger] ps1[i]).name@ == ps2[i].name@ && ps1[i].crates@.len()
            == ps2[i].crates@.len() && forall|j: int|
            0 <= j < ps1[i].crates@.len() ==> same_tree(
                #[trigger] ps1[i].crates@[j],
                ps2[i].crates@[j],
            )
}

proof fn lemma_same_names_same_vertices<T: crate::ir::NamedItem>(
    kind: Seq<char>,
    a: Seq<T>,
    b: Seq<T>,
    parent: Seq<char>,
)
    requires
        names_of(a) == names_of(b),
    ensures
        vertices_of(item_vertices(kind, a, parent)) == vertices_of(item_vertices(kind, b, parent)),
{
    assert(names_of(a).len() == a.len() && names_of(b).len() == b.len());
    assert forall|i: int| 0 <= i < a.len() implies a[i].spec_name() == b[i].spec_name() by {
        assert(names_of(a)[i] == names_of(b)[i]);
    }
    assert(item_vertices(kind, a, parent) =~= item_vertices(kind, b, parent));
}

proof fn lemma_item_vertices_only<T: crate::ir::NamedItem>(kind: Seq<char>, a: Seq<T>, parent: Seq<char>)
    ensures
        vertices_of(item_vertices(kind, a, parent)) == item_vertices(kind, a, parent),
{
    assert(no_edges(item_vertices(kind, a, parent)));
    lemma_vertices_of_vertices(item_vertices(kind, a, parent));
}

proof fn lemma_module_same_vertices(m1: Mod, m2: Mod, parent: Seq<char>, c1: Seq<char>, c2: Seq<char>)
    requires
        same_tree(m1, m2),
        deps_nonempty(m1),
        deps_nonempty(m2),
        parent.len() > 0,
    ensures
        vertices_of(module_elements(m1, parent, c1)) == vertices_of(module_elements(m2, parent, c2)),
    decreases m1,
{
    lemma_children_same_vertices(m1.items.mods@, m2.items.mods@, parent, c1, c2);
    let a = m1.items;
    let b = m2.items;
    lemma_same_names_same_vertices("const"@, a.consts@, b.consts@, parent);
    lemma_same_names_same_vertices("enum"@, a.enums@, b.enums@, parent);
    lemma_same_names_same_vertices("fn"@, a.fns@, b.fns@, parent);
    lemma_same_names_same_vertices("static"@, a.statics@, b.statics@, parent);
    lemma_same_names_same_vertices("struct"@, a.structs@, b.structs@, parent);
    lemma_same_names_same_vertices("trait"@, a.traits@, b.traits@, parent);
    lemma_same_names_same_vertices("trait"@, a.trait_aliases@, b.trait_aliases@, parent);
    lemma_same_names_same_vertices("type"@, a.types@, b.types@, parent);
    lemma_same_names_same_vertices("union"@, a.unions@, b.unions@, parent);
    lemma_dep_edges_are_edges(m1.deps@, parent, c1);
    lemma_dep_edges_are_edges(m2.deps@, parent, c2);
    lemma_sections(m1, parent, c1);
    lemma_sections(m2, parent, c2);
}

/// `vertices_of` of a module's elements, section by section.
proof fn lemma_sections(m: Mod, parent: Seq<char>, c: Seq<char>)
    ensures
        vertices_of(module_elements(m, parent, c)) == vertices_of(children_elements(m.items.mods@, parent, c))
            + vertices_of(item_vertices("const"@, m.items.consts@, parent)) + vertices_of(
            item_vertices("enum"@, m.items.enums@, parent),
        ) + vertices_of(item_vertices("fn"@, m.items.fns@, parent)) + vertices_of(
            item_vertices("static"@, m.items.statics@, parent),
        ) + vertices_of(item_vertices("struct"@, m.items.structs@, parent)) + vertices_of(
            item_vertices("trait"@, m.items.traits@, parent),
        ) + vertices_of(item_vertices("trait"@, m.items.trait_aliases@, parent)) + vertices_of(
            item_vertices("type"@, m.items.types@, parent),
        ) + vertices_of(item_vertices("union"@, m.items.unions@, parent)) + vertices_of(
            dep_edges(m.deps@, parent, c),
        ),
{
    let i = m.items;
    let s0 = children_elements(i.mods@, parent, c);
    let v0 = item_vertices("const"@, i.consts@, parent);
    let v1 = item_vertices("enum"@, i.enums@, parent);
    let v2 = item_vertices("fn"@, i.fns@, parent);
    let v3 = item_vertices("static"@, i.statics@, parent);
    let v4 = item_vertices("struct"@, i.structs@, parent);
    let v5 = item_vertices("trait"@, i.traits@, parent);
    let v6 = item_vertices("trait"@, i.trait_aliases@, parent);
    let v7 = item_vertices("type"@, i.types@, parent);
    let v8 = item_vertices("union"@, i.unions@, parent);
    let e = dep_edges(m.deps@, parent, c);
    lemma_vertices_of_concat(s0, v0);
    lemma_vertices_of_concat(s0 + v0, v1);
    lemma_vertices_of_concat(s0 + v0 + v1, v2);
    lemma_vertices_of_concat(s0 + v0 + v1 + v2, v3);
    lemma_vertices_of_concat(s0 + v0 + v1 + v2 + v3, v4);
    lemma_vertices_of_concat(s0 + v0 + v1 + v2 + v3 + v4, v5);
    lemma_vertices_of_concat(s0 + v0 + v1 + v2 + v3 + v4 + v5, v6);
    lemma_vertices_of_concat(s0 + v0 + v1 + v2 + v3 + v4 + v5 + v6, v7);
    lemma_vertices_of_concat(s0 + v0 + v1 + v2 + v3 + v4 + v5 + v6 + v7, v8);
    lemma_vertices_of_concat(s0 + v0 + v1 + v2 + v3 + v4 + v5 + v6 + v7 + v8, e);
}

proof fn lemma_children_same_vertices(
    ms1: Seq<Mod>,
    ms2: Seq<Mod>,
    parent: Seq<char>,
    c1: Seq<char>,
    c2: Seq<char>,
)
    requires
        mods_same(ms1, ms2),
        mods_deps_nonempty(ms1),
        mods_deps_nonempty(ms2),
        parent.len() > 0,
    ensures
        vertices_of(children_elements(ms1, parent, c1)) == vertices_of(
            children_elements(ms2, parent, c2),
        ),
    decreases ms1,
{
    if ms1.len() > 0 {
        reveal_strlit("::");
        let m1 = ms1.last();
        let m2 = ms2.last();
        let cid = child_id(parent, m1.name@);
        assert(cid.len() > 0);
        assert(same_tree(m1, m2));
        assert(m2.name@ == m1.name@);
        assert(deps_nonempty(m1) && deps_nonempty(m2));
        lemma_children_same_vertices(ms1.drop_last(), ms2.drop_last(), parent, c1, c2);
        lemma_module_same_vertices(m1, m2, cid, c1, c2);
        let v = item_vertex("mod"@, m1.name@, parent);
        assert(no_edges(seq![v]));
        lemma_vertices_of_vertices(seq![v]);
        let a1 = children_elements(ms1.drop_last(), parent, c1);
        let a2 = children_elements(ms2.drop_last(), parent, c2);
        lemma_vertices_of_concat(a1 + seq![v], module_elements(m1, cid, c1));
        lemma_vertices_of_concat(a1, seq![v]);
        lemma_vertices_of_concat(a2 + seq![v], module_elements(m2, cid, c2));
        lemma_vertices_of_concat(a2, seq![v]);
        assert(children_elements(ms1, parent, c1) == a1 + seq![v] + module_elements(m1, cid, c1));
        assert(children_elements(ms2, parent, c2) == a2 + seq![v] + module_elements(m2, cid, c2));
    } else {
        assert(ms2.len() == 0);
    }
}


proof fn lemma_crates_same_vertices(
    cs1: Seq<Mod>,
    cs2: Seq<Mod>,
    package: Seq<char>,
    s1: int,
    s2: int,
)
    requires
        cs1.len() == cs2.len(),
        forall|j: int| 0 <= j < cs1.len() ==> same_tree(#[trigger] cs1[j], cs2[j]),
        crates_deps_nonempty(cs1),
        crates_deps_nonempty(cs2),
    ensures
        vertices_of(crates_elements(cs1, package, s1)) == vertices_of(
            crates_elements(cs2, package, s2),
        ),
    decreases cs1.len(),
{
    if cs1.len() > 0 {
        reveal_strlit("::");
        let n = cs1.len() - 1;
        let c1 = cs1.last();
        let c2 = cs2.last();
        assert(same_tree(cs1[n], cs2[n]));
        assert(deps_nonempty(cs1[n]) && deps_nonempty(cs2[n]));
        let cid = child_id(package, c1.name@);
        assert(cid.len() > 0);
        assert forall|j: int| 0 <= j < cs1.drop_last().len() implies same_tree(
            #[trigger] cs1.drop_last()[j],
            cs2.drop_last()[j],
        ) by {
            assert(same_tree(cs1[j], cs2[j]));
        }
        assert forall|j: int| 0 <= j < cs1.drop_last().len() implies deps_nonempty(
            #[trigger] cs1.drop_last()[j],
        ) by {
            assert(deps_nonempty(cs1[j]));
        }
        assert forall|j: int| 0 <= j < cs2.drop_last().len() implies deps_nonempty(
            #[trigger] cs2.drop_last()[j],
        ) by {
            assert(deps_nonempty(cs2[j]));
        }
        lemma_crates_same_vertices(cs1.drop_last(), cs2.drop_last(), package, s1, s2);
        let k1 = crate::output::cytoscape::color_label(crate::output::cytoscape::palette(s1 + n));
        let k2 = crate::output::cytoscape::color_label(crate::output::cytoscape::palette(s2 + n));
        lemma_module_same_vertices(c1, c2, cid, k1, k2);
        let v = item_vertex("crate"@, c1.name@, package);
        assert(no_edges(seq![v]));
        lemma_vertices_of_vertices(seq![v]);
        let a1 = crates_elements(cs1.drop_last(), package, s1);
        let a2 = crates_elements(cs2.drop_last(), package, s2);
        lemma_vertices_of_concat(seq![v], module_elements(c1, cid, k1));
        lemma_vertices_of_concat(seq![v], module_elements(c2, cid, k2));
        lemma_vertices_of_concat(a1, crate_elements(c1, package, s1 + n));
        lemma_vertices_of_concat(a2, crate_elements(c2, package, s2 + n));
    }
}

proof fn lemma_ir_same_vertices(ps1: Seq<Package>, ps2: Seq<Package>)
    requires
        packages_same(ps1, ps2),
        packages_deps_nonempty(ps1),
        packages_deps_nonempty(ps2),
    ensures
        vertices_of(ir_elements(ps1)) == vertices_of(ir_elements(ps2)),
    decreases ps1.len(),
{
    if ps1.len() > 0 {
        let n = ps1.len() - 1;
        let pa = ps1.last();
        let pb = ps2.last();
        let q1 = ps1.drop_last();
        let q2 = ps2.drop_last();
        assert forall|i: int| 0 <= i < q1.len() implies (#[trigger] q1[i]).name@ == q2[i].name@
            && q1[i].crates@.len() == q2[i].crates@.len() && forall|j: int|
            0 <= j < q1[i].crates@.len() ==> same_tree(#[trigger] q1[i].crates@[j], q2[i].crates@[j]) by {
            assert(q1[i] == ps1[i] && q2[i] == ps2[i]);
        }
        assert forall|i: int| 0 <= i < q1.len() implies crates_deps_nonempty((#[trigger] q1[i]).crates@) by {
            assert(q1[i] == ps1[i]);
        }
        assert forall|i: int| 0 <= i < q2.len() implies crates_deps_nonempty((#[trigger] q2[i]).crates@) by {
            assert(q2[i] == ps2[i]);
        }
        lemma_ir_same_vertices(q1, q2);
        assert(ps1[n] == pa && ps2[n] == pb);
        assert(crates_deps_nonempty(ps1[n].crates@) && crates_deps_nonempty(ps2[n].crates@));
        let s1 = crate::output::cytoscape::crate_count(q1);
        let s2 = crate::output::cytoscape::crate_count(q2);
        lemma_crates_same_vertices(pa.crates@, pb.crates@, pa.name@, s1, s2);
        assert(package_vertex(pa) == package_vertex(pb));
        assert(no_edges(seq![package_vertex(pa)]));
        lemma_vertices_of_vertices(seq![package_vertex(pa)]);
        lemma_vertices_of_concat(seq![package_vertex(pa)], crates_elements(pa.crates@, pa.name@, s1));
        lemma_vertices_of_concat(seq![package_vertex(pb)], crates_elements(pb.crates@, pb.name@, s2));
        lemma_vertices_of_concat(ir_elements(q1), package_elements(pa, s1));
        lemma_vertices_of_concat(ir_elements(q2), package_elements(pb, s2));
    }
}

proof fn lemma_filter_keeps_vertices(s: Seq<ElementModel>, pred: spec_fn(ElementModel) -> bool)
    requires
        forall|i: int| 0 <= i < s.len() && !is_edge(#[trigger] s[i]) ==> pred(s[i]),
    ensures
        vertices_of(s.filter(pred)) == vertices_of(s),
    decreases s.len(),
{
    reveal(Seq::filter);
    if s.len() > 0 {
        let prev = s.drop_last();
        assert forall|i: int| 0 <= i < prev.len() && !is_edge(#[trigger] prev[i]) implies pred(prev[i]) by {
            assert(prev[i] == s[i]);
        }
        lemma_filter_keeps_vertices(prev, pred);
        let x = s.last();
        lemma_vertices_of_concat(prev, seq![x]);
        assert(prev + seq![x] =~= s);
        if pred(x) {
            lemma_vertices_of_concat(prev.filter(pred), seq![x]);
            assert(prev.filter(pred) + seq![x] =~= prev.filter(pred).push(x));
        } else {
            assert(is_edge(s[s.len() - 1]));
            assert(vertices_of(seq![x]) =~= Seq::<ElementModel>::empty());
        }
    }
}

/// Edge toggle: two runs whose packages differ only in their dependency
/// strings (as a run with edges enabled and one without, see
/// `lemma_traversal_without_edges`) give documents with the same vertices in
/// the same order; the run with edges only adds edges.
pub proof fn lemma_document_vertices_ignore_deps(on: Seq<Package>, off: Seq<Package>)
    requires
        packages_same(on, off),
        packages_deps_nonempty(on),
        packages_deps_nonempty(off),
    ensures
        vertices_of(document(on)) == vertices_of(document(off)),
{
    lemma_ir_same_vertices(on, off);
    let s1 = ir_elements(on);
    let s2 = ir_elements(off);
    lemma_filter_keeps_vertices(s1, |e: ElementModel| is_valid_in(s1, e));
    lemma_filter_keeps_vertices(s2, |e: ElementModel| is_valid_in(s2, e));
}

} // verus!
