//! Uniqueness of vertex ids: when every name is free of `:` and the names
//! that share a parent are distinct, no two vertices of a document share an id.
use vstd::prelude::*;

use crate::ir::{Mod, NamedItem, Package};
use crate::output::cytoscape::{
    child_id, children_elements, crate_elements, crates_elements, dep_edges, document,
    ElementModel, ir_elements, is_edge, item_vertex, item_vertices, module_elements,
    package_elements, package_vertex, is_valid_in,
};

verus! {

broadcast use vstd::seq::group_seq_axioms;

/// Every element of `s` occurs in it once.
pub open spec fn no_dups(s: Seq<Seq<char>>) -> bool {
    forall|i: int, j: int| 0 <= i < j < s.len() ==> s[i] != s[j]
}

/// Every element of `s` is non-empty and free of `:`.
pub open spec fn all_colon_free(s: Seq<Seq<char>>) -> bool {
    forall|i: int| 0 <= i < s.len() ==> colon_free(#[trigger] s[i]) && s[i].len() > 0
}

pub open spec fn colon_free(s: Seq<char>) -> bool {
    forall|i: int| 0 <= i < s.len() ==> s[i] != ':'
}

/// The characters of `s` up to its first `:`.
pub open spec fn head_segment(s: Seq<char>) -> Seq<char>
    decreases s.len(),
{
    if s.len() == 0 || s[0] == ':' {
        Seq::empty()
    } else {
        seq![s[0]] + head_segment(s.drop_first())
    }
}

/// No two vertices of `s` have the same id.
pub open spec fn unique_vertex_ids(s: Seq<ElementModel>) -> bool {
    forall|i: int, j: int|
        0 <= i < j < s.len() && !is_edge(#[trigger] s[i]) && !is_edge(#[trigger] s[j]) ==> s[i].id
            != s[j].id
}

/// Every vertex id of `s` starts with `prefix`, and what follows it begins
/// with one of `keys`, followed by nothing or by `:`.
pub open spec fn keyed_under(s: Seq<ElementModel>, prefix: Seq<char>, keys: Seq<Seq<char>>) -> bool {
    forall|i: int|
        0 <= i < s.len() && !is_edge(#[trigger] s[i]) ==> {
            &&& s[i].id.len() >= prefix.len()
            &&& s[i].id.take(prefix.len() as int) == prefix
            &&& keys.contains(head_segment(s[i].id.skip(prefix.len() as int)))
        }
}

proof fn lemma_head_segment(a: Seq<char>, r: Seq<char>)
    requires
        colon_free(a),
        r.len() == 0 || r[0] == ':',
    ensures
        head_segment(a + r) == a,
    decreases a.len(),
{
    if a.len() == 0 {
        assert(a + r =~= r);
        assert(a =~= Seq::<char>::empty());
    } else {
        assert((a + r)[0] == a[0]);
        assert((a + r).drop_first() =~= a.drop_first() + r);
        lemma_head_segment(a.drop_first(), r);
        assert(seq![a[0]] + a.drop_first() =~= a);
    }
}

proof fn lemma_unique_concat(
    a: Seq<ElementModel>,
    b: Seq<ElementModel>,
    prefix: Seq<char>,
    ka: Seq<Seq<char>>,
    kb: Seq<Seq<char>>,
)
    requires
        unique_vertex_ids(a),
        unique_vertex_ids(b),
        keyed_under(a, prefix, ka),
        keyed_under(b, prefix, kb),
        no_dups(ka + kb),
    ensures
        unique_vertex_ids(a + b),
        keyed_under(a + b, prefix, ka + kb),
{
    let s = a + b;
    assert forall|i: int, j: int|
        0 <= i < j < s.len() && !is_edge(#[trigger] s[i]) && !is_edge(#[trigger] s[j]) implies s[i].id
        != s[j].id by {
        if j < a.len() {
            assert(s[i] == a[i] && s[j] == a[j]);
        } else if i >= a.len() {
            assert(s[i] == b[i - a.len()] && s[j] == b[j - a.len()]);
        } else {
            assert(s[i] == a[i] && s[j] == b[j - a.len()]);
            let hi = head_segment(a[i].id.skip(prefix.len() as int));
            let hj = head_segment(b[j - a.len()].id.skip(prefix.len() as int));
            if s[i].id == s[j].id {
                let x = choose|x: int| 0 <= x < ka.len() && ka[x] == hi;
                let y = choose|y: int| 0 <= y < kb.len() && kb[y] == hj;
                assert((ka + kb)[x] == (ka + kb)[ka.len() + y]);
            }
        }
    }
    assert forall|i: int| 0 <= i < s.len() && !is_edge(#[trigger] s[i]) implies {
        &&& s[i].id.len() >= prefix.len()
        &&& s[i].id.take(prefix.len() as int) == prefix
        &&& (ka + kb).contains(head_segment(s[i].id.skip(prefix.len() as int)))
    } by {
        let h = head_segment(s[i].id.skip(prefix.len() as int));
        if i < a.len() {
            assert(s[i] == a[i]);
            let x = choose|x: int| 0 <= x < ka.len() && ka[x] == h;
            assert((ka + kb)[x] == h);
        } else {
            assert(s[i] == b[i - a.len()]);
            let y = choose|y: int| 0 <= y < kb.len() && kb[y] == h;
            assert((ka + kb)[ka.len() + y] == h);
        }
    }
}


pub open spec fn names_of<T: NamedItem>(items: Seq<T>) -> Seq<Seq<char>> {
    items.map_values(|t: T| t.spec_name())
}

pub open spec fn mod_names(ms: Seq<Mod>) -> Seq<Seq<char>> {
    ms.map_values(|m: Mod| m.name@)
}

proof fn lemma_no_dups_prefix(a: Seq<Seq<char>>, b: Seq<Seq<char>>)
    requires
        no_dups(a + b),
    ensures
        no_dups(a),
        no_dups(b),
{
    assert forall|i: int, j: int| 0 <= i < j < a.len() implies a[i] != a[j] by {
        assert((a + b)[i] == a[i] && (a + b)[j] == a[j]);
    }
    assert forall|i: int, j: int| 0 <= i < j < b.len() implies b[i] != b[j] by {
        assert((a + b)[a.len() + i] == b[i] && (a + b)[a.len() + j] == b[j]);
    }
}

proof fn lemma_colon_free_split(a: Seq<Seq<char>>, b: Seq<Seq<char>>)
    requires
        all_colon_free(a + b),
    ensures
        all_colon_free(a),
        all_colon_free(b),
{
    assert forall|i: int| 0 <= i < a.len() implies colon_free(#[trigger] a[i]) && a[i].len() > 0 by {
        assert((a + b)[i] == a[i]);
    }
    assert forall|i: int| 0 <= i < b.len() implies colon_free(#[trigger] b[i]) && b[i].len() > 0 by {
        assert((a + b)[a.len() + i] == b[i]);
    }
}

/// `prefix + n` followed by nothing or by `:` begins with the segment `n`.
proof fn lemma_keyed_id(id: Seq<char>, prefix: Seq<char>, n: Seq<char>)
    requires
        colon_free(n),
        id.len() >= (prefix.len() + n.len()) as int,
        id.take((prefix.len() + n.len()) as int) == prefix + n,
        id.len() == (prefix.len() + n.len()) as int || id[(prefix.len() + n.len()) as int] == ':',
    ensures
        id.take(prefix.len() as int) == prefix,
        head_segment(id.skip(prefix.len() as int)) == n,
{
    let r = id.skip((prefix.len() + n.len()) as int);
    assert(id.take(prefix.len() as int) =~= (prefix + n).take(prefix.len() as int));
    assert(id.skip(prefix.len() as int) =~= n + r) by {
        assert forall|k: int| 0 <= k < n.len() implies id.skip(prefix.len() as int)[k] == n[k] by {
            assert(id[prefix.len() + k] == id.take((prefix.len() + n.len()) as int)[prefix.len() + k]);
        }
    }
    lemma_head_segment(n, r);
}

proof fn lemma_item_section<T: NamedItem>(kind: Seq<char>, items: Seq<T>, parent: Seq<char>)
    requires
        no_dups(names_of(items)),
        all_colon_free(names_of(items)),
    ensures
        unique_vertex_ids(item_vertices(kind, items, parent)),
        keyed_under(item_vertices(kind, items, parent), parent + "::"@, names_of(items)),
{
    let s = item_vertices(kind, items, parent);
    let prefix = parent + "::"@;
    let names = names_of(items);
    assert forall|i: int| 0 <= i < s.len() && !is_edge(#[trigger] s[i]) implies {
        &&& s[i].id.len() >= prefix.len()
        &&& s[i].id.take(prefix.len() as int) == prefix
        &&& names.contains(head_segment(s[i].id.skip(prefix.len() as int)))
    } by {
        assert(colon_free(names[i]));
        assert(s[i].id =~= prefix + names[i]);
        assert(s[i].id.take((prefix.len() + names[i].len()) as int) =~= prefix + names[i]);
        lemma_keyed_id(s[i].id, prefix, names[i]);
    }
    assert forall|i: int, j: int|
        0 <= i < j < s.len() && !is_edge(#[trigger] s[i]) && !is_edge(#[trigger] s[j]) implies s[i].id
        != s[j].id by {
        assert(s[i].id == prefix + names[i]);
        assert(s[j].id == prefix + names[j]);
        if s[i].id == s[j].id {
            assert(names[i] =~= s[i].id.skip(prefix.len() as int));
            assert(names[j] =~= s[j].id.skip(prefix.len() as int));
        }
    }
}

proof fn lemma_edge_section(deps: Seq<String>, source: Seq<char>, color: Seq<char>, prefix: Seq<char>)
    requires
        source.len() > 0,
        forall|j: int| 0 <= j < deps.len() ==> (#[trigger] deps[j])@.len() > 0,
    ensures
        unique_vertex_ids(dep_edges(deps, source, color)),
        keyed_under(dep_edges(deps, source, color), prefix, Seq::empty()),
{
    let s = dep_edges(deps, source, color);
    assert forall|i: int| 0 <= i < s.len() implies is_edge(#[trigger] s[i]) by {
        assert(s[i].target == deps[i]@);
    }
}

/// A vertex `parent::n` followed by elements that all lie below it.
proof fn lemma_subtree(
    v: ElementModel,
    sub: Seq<ElementModel>,
    parent: Seq<char>,
    n: Seq<char>,
    sub_keys: Seq<Seq<char>>,
)
    requires
        !is_edge(v),
        v.id == child_id(parent, n),
        colon_free(n),
        unique_vertex_ids(sub),
        keyed_under(sub, child_id(parent, n) + "::"@, sub_keys),
    ensures
        unique_vertex_ids(seq![v] + sub),
        keyed_under(seq![v] + sub, parent + "::"@, seq![n]),
{
    reveal_strlit("::");
    let s = seq![v] + sub;
    let prefix = parent + "::"@;
    let cid = child_id(parent, n);
    assert(cid =~= prefix + n);
    assert(s[0] == v);
    assert forall|i: int| 0 <= i < s.len() && !is_edge(#[trigger] s[i]) implies {
        &&& s[i].id.len() >= prefix.len()
        &&& s[i].id.take(prefix.len() as int) == prefix
        &&& seq![n].contains(head_segment(s[i].id.skip(prefix.len() as int)))
    } by {
        if i == 0 {
            assert(v.id.take((prefix.len() + n.len()) as int) =~= prefix + n);
            lemma_keyed_id(v.id, prefix, n);
        } else {
            let e = sub[i - 1];
            assert(s[i] == e);
            let cp = cid + "::"@;
            assert(e.id.take(cp.len() as int) == cp);
            assert(e.id.take((prefix.len() + n.len()) as int) =~= cp.take((prefix.len() + n.len()) as int));
            assert(cp.take((prefix.len() + n.len()) as int) =~= prefix + n);
            assert(e.id[(prefix.len() + n.len()) as int] == cp[(prefix.len() + n.len()) as int]);
            lemma_keyed_id(e.id, prefix, n);
        }
        assert(seq![n][0] == n);
    }
    assert forall|i: int, j: int|
        0 <= i < j < s.len() && !is_edge(#[trigger] s[i]) && !is_edge(#[trigger] s[j]) implies s[i].id
        != s[j].id by {
        if i == 0 {
            assert(s[j] == sub[j - 1]);
            assert(sub[j - 1].id.len() >= cid.len() + 2);
        } else {
            assert(s[i] == sub[i - 1] && s[j] == sub[j - 1]);
        }
    }
}


/// The names of the vertices directly below a module: nested modules first,
/// then the named items by kind.
pub open spec fn sibling_names(m: Mod) -> Seq<Seq<char>> {
    mod_names(m.items.mods@) + names_of(m.items.consts@) + names_of(m.items.enums@) + names_of(
        m.items.fns@,
    ) + names_of(m.items.statics@) + names_of(m.items.structs@) + names_of(m.items.traits@)
        + names_of(m.items.trait_aliases@) + names_of(m.items.types@) + names_of(m.items.unions@)
}

/// The names below the module, and below each module nested in it, are
/// non-empty, free of `:` and distinct among siblings; its dependency strings are non-empty.
pub open spec fn well_named(m: Mod) -> bool
    decreases m,
{
    &&& no_dups(sibling_names(m))
    &&& all_colon_free(sibling_names(m))
    &&& forall|j: int| 0 <= j < m.deps@.len() ==> (#[trigger] m.deps@[j])@.len() > 0
    &&& mods_well_named(m.items.mods@)
}

pub open spec fn mods_well_named(ms: Seq<Mod>) -> bool
    decreases ms,
{
    ms.len() > 0 ==> mods_well_named(ms.drop_last()) && well_named(ms.last())
}

proof fn lemma_module_unique(m: Mod, parent: Seq<char>, color: Seq<char>)
    requires
        well_named(m),
        parent.len() > 0,
    ensures
        unique_vertex_ids(module_elements(m, parent, color)),
        keyed_under(module_elements(m, parent, color), parent + "::"@, sibling_names(m)),
    decreases m,
{
    let prefix = parent + "::"@;
    let i = m.items;
    let k0 = mod_names(i.mods@);
    let n0 = names_of(i.consts@);
    let n1 = names_of(i.enums@);
    let n2 = names_of(i.fns@);
    let n3 = names_of(i.statics@);
    let n4 = names_of(i.structs@);
    let n5 = names_of(i.traits@);
    let n6 = names_of(i.trait_aliases@);
    let n7 = names_of(i.types@);
    let n8 = names_of(i.unions@);
    let k1 = k0 + n0;
    let k2 = k1 + n1;
    let k3 = k2 + n2;
    let k4 = k3 + n3;
    let k5 = k4 + n4;
    let k6 = k5 + n5;
    let k7 = k6 + n6;
    let k8 = k7 + n7;
    let k9 = k8 + n8;
    assert(k9 == sibling_names(m));
    lemma_no_dups_prefix(k8, n8);
    lemma_no_dups_prefix(k7, n7);
    lemma_no_dups_prefix(k6, n6);
    lemma_no_dups_prefix(k5, n5);
    lemma_no_dups_prefix(k4, n4);
    lemma_no_dups_prefix(k3, n3);
    lemma_no_dups_prefix(k2, n2);
    lemma_no_dups_prefix(k1, n1);
    lemma_no_dups_prefix(k0, n0);
    lemma_colon_free_split(k8, n8);
    lemma_colon_free_split(k7, n7);
    lemma_colon_free_split(k6, n6);
    lemma_colon_free_split(k5, n5);
    lemma_colon_free_split(k4, n4);
    lemma_colon_free_split(k3, n3);
    lemma_colon_free_split(k2, n2);
    lemma_colon_free_split(k1, n1);
    lemma_colon_free_split(k0, n0);
    lemma_children_unique(i.mods@, parent, color);
    lemma_item_section("const"@, i.consts@, parent);
    lemma_item_section("enum"@, i.enums@, parent);
    lemma_item_section("fn"@, i.fns@, parent);
    lemma_item_section("static"@, i.statics@, parent);
    lemma_item_section("struct"@, i.structs@, parent);
    lemma_item_section("trait"@, i.traits@, parent);
    lemma_item_section("trait"@, i.trait_aliases@, parent);
    lemma_item_section("type"@, i.types@, parent);
    lemma_item_section("union"@, i.unions@, parent);
    lemma_edge_section(m.deps@, parent, color, prefix);
    let s0 = children_elements(i.mods@, parent, color);
    let v0 = item_vertices("const"@, i.consts@, parent);
    let v1 = item_vertices("enum"@, i.enums@, parent);
    let v2 = item_vertices("fn"@, i.fns@, parent);
    let v3 = item_vertices("static"@, i.statics@, parent);
    let v4 = item_vertices("struct"@, i.structs@, parent);
    let v5 = item_vertices("trait"@, i.traits@, parent);
    let v6 = item_vertices("trait"@, i.trait_aliases@, parent);
    let v7 = item_vertices("type"@, i.types@, parent);
    let v8 = item_vertices("union"@, i.unions@, parent);
    let e = dep_edges(m.deps@, parent, color);
    lemma_unique_concat(s0, v0, prefix, k0, n0);
    lemma_unique_concat(s0 + v0, v1, prefix, k1, n1);
    lemma_unique_concat(s0 + v0 + v1, v2, prefix, k2, n2);
    lemma_unique_concat(s0 + v0 + v1 + v2, v3, prefix, k3, n3);
    lemma_unique_concat(s0 + v0 + v1 + v2 + v3, v4, prefix, k4, n4);
    lemma_unique_concat(s0 + v0 + v1 + v2 + v3 + v4, v5, prefix, k5, n5);
    lemma_unique_concat(s0 + v0 + v1 + v2 + v3 + v4 + v5, v6, prefix, k6, n6);
    lemma_unique_concat(s0 + v0 + v1 + v2 + v3 + v4 + v5 + v6, v7, prefix, k7, n7);
    lemma_unique_concat(s0 + v0 + v1 + v2 + v3 + v4 + v5 + v6 + v7, v8, prefix, k8, n8);
    assert(k9 + Seq::<Seq<char>>::empty() =~= k9);
    lemma_unique_concat(
        s0 + v0 + v1 + v2 + v3 + v4 + v5 + v6 + v7 + v8,
        e,
        prefix,
        k9,
        Seq::empty(),
    );
}

proof fn lemma_children_unique(ms: Seq<Mod>, parent: Seq<char>, color: Seq<char>)
    requires
        mods_well_named(ms),
        no_dups(mod_names(ms)),
        all_colon_free(mod_names(ms)),
        parent.len() > 0,
    ensures
        unique_vertex_ids(children_elements(ms, parent, color)),
        keyed_under(children_elements(ms, parent, color), parent + "::"@, mod_names(ms)),
    decreases ms,
{
    if ms.len() > 0 {
        let m = ms.last();
        let cid = child_id(parent, m.name@);
        assert(mod_names(ms) =~= mod_names(ms.drop_last()) + seq![m.name@]);
        lemma_no_dups_prefix(mod_names(ms.drop_last()), seq![m.name@]);
        lemma_colon_free_split(mod_names(ms.drop_last()), seq![m.name@]);
        assert(colon_free(seq![m.name@][0]));
        lemma_children_unique(ms.drop_last(), parent, color);
        lemma_module_unique(m, cid, color);
        let v = item_vertex("mod"@, m.name@, parent);
        let sub = module_elements(m, cid, color);
        lemma_subtree(v, sub, parent, m.name@, sibling_names(m));
        let a = children_elements(ms.drop_last(), parent, color);
        lemma_unique_concat(a, seq![v] + sub, parent + "::"@, mod_names(ms.drop_last()), seq![m.name@]);
        assert(children_elements(ms, parent, color) =~= a + (seq![v] + sub));
    }
}


proof fn lemma_crates_unique(cs: Seq<Mod>, package: Seq<char>, start: int)
    requires
        forall|j: int| 0 <= j < cs.len() ==> well_named(#[trigger] cs[j]),
        no_dups(mod_names(cs)),
        all_colon_free(mod_names(cs)),
    ensures
        unique_vertex_ids(crates_elements(cs, package, start)),
        keyed_under(crates_elements(cs, package, start), package + "::"@, mod_names(cs)),
    decreases cs.len(),
{
    if cs.len() > 0 {
        reveal_strlit("::");
        let c = cs.last();
        let cid = child_id(package, c.name@);
        let color = crate::output::cytoscape::color_label(
            crate::output::cytoscape::palette(start + cs.len() - 1),
        );
        assert(mod_names(cs) =~= mod_names(cs.drop_last()) + seq![c.name@]);
        lemma_no_dups_prefix(mod_names(cs.drop_last()), seq![c.name@]);
        lemma_colon_free_split(mod_names(cs.drop_last()), seq![c.name@]);
        assert(colon_free(seq![c.name@][0]));
        assert(well_named(cs[cs.len() - 1]));
        lemma_crates_unique(cs.drop_last(), package, start);
        assert(cid.len() > 0);
        lemma_module_unique(c, cid, color);
        let v = item_vertex("crate"@, c.name@, package);
        let sub = module_elements(c, cid, color);
        lemma_subtree(v, sub, package, c.name@, sibling_names(c));
        let a = crates_elements(cs.drop_last(), package, start);
        lemma_unique_concat(a, seq![v] + sub, package + "::"@, mod_names(cs.drop_last()), seq![c.name@]);
        assert(crate_elements(c, package, start + cs.len() - 1) == seq![v] + sub);
    }
}

pub open spec fn package_names(ps: Seq<Package>) -> Seq<Seq<char>> {
    ps.map_values(|p: Package| p.name@)
}

/// Package names are non-empty, free of `:` and distinct; so are the names of each
/// package's compilation units; and every unit is `well_named`.
pub open spec fn packages_well_named(ps: Seq<Package>) -> bool {
    &&& no_dups(package_names(ps))
    &&& all_colon_free(package_names(ps))
    &&& forall|i: int|
        0 <= i < ps.len() ==> no_dups(mod_names((#[trigger] ps[i]).crates@)) && all_colon_free(
            mod_names(ps[i].crates@),
        ) && forall|j: int| 0 <= j < ps[i].crates@.len() ==> well_named(#[trigger] ps[i].crates@[j])
}

proof fn lemma_package_unique(p: Package, start: int)
    requires
        colon_free(p.name@),
        no_dups(mod_names(p.crates@)),
        all_colon_free(mod_names(p.crates@)),
        forall|j: int| 0 <= j < p.crates@.len() ==> well_named(#[trigger] p.crates@[j]),
    ensures
        unique_vertex_ids(package_elements(p, start)),
        keyed_under(package_elements(p, start), Seq::empty(), seq![p.name@]),
{
    reveal_strlit("::");
    let pkg = p.name@;
    let cs = crates_elements(p.crates@, pkg, start);
    lemma_crates_unique(p.crates@, pkg, start);
    let s = package_elements(p, start);
    let empty = Seq::<char>::empty();
    assert(s[0] == package_vertex(p));
    assert forall|i: int| 0 <= i < s.len() && !is_edge(#[trigger] s[i]) implies {
        &&& s[i].id.len() >= empty.len()
        &&& s[i].id.take(empty.len() as int) == empty
        &&& seq![pkg].contains(head_segment(s[i].id.skip(empty.len() as int)))
    } by {
        assert(seq![pkg][0] == pkg);
        assert(s[i].id.skip(0) =~= s[i].id);
        assert(s[i].id.take(0) =~= empty);
        if i == 0 {
            assert(pkg + empty =~= pkg);
            lemma_head_segment(pkg, empty);
        } else {
            let e = cs[i - 1];
            assert(s[i] == e);
            let pp = pkg + "::"@;
            assert(e.id.take(pp.len() as int) == pp);
            assert(e.id.take(pkg.len() as int) =~= pp.take(pkg.len() as int));
            assert(e.id[pkg.len() as int] == pp[pkg.len() as int]);
            assert(e.id =~= pkg + e.id.skip(pkg.len() as int));
            lemma_head_segment(pkg, e.id.skip(pkg.len() as int));
        }
    }
    assert forall|i: int, j: int|
        0 <= i < j < s.len() && !is_edge(#[trigger] s[i]) && !is_edge(#[trigger] s[j]) implies s[i].id
        != s[j].id by {
        if i == 0 {
            assert(s[j] == cs[j - 1]);
            assert(cs[j - 1].id.len() >= pkg.len() + 2);
        } else {
            assert(s[i] == cs[i - 1] && s[j] == cs[j - 1]);
        }
    }
}

proof fn lemma_ir_unique(ps: Seq<Package>)
    requires
        packages_well_named(ps),
    ensures
        unique_vertex_ids(ir_elements(ps)),
        keyed_under(ir_elements(ps), Seq::empty(), package_names(ps)),
    decreases ps.len(),
{
    if ps.len() > 0 {
        let p = ps.last();
        let prev = ps.drop_last();
        assert(package_names(ps) =~= package_names(prev) + seq![p.name@]);
        lemma_no_dups_prefix(package_names(prev), seq![p.name@]);
        lemma_colon_free_split(package_names(prev), seq![p.name@]);
        assert(colon_free(seq![p.name@][0]));
        assert forall|i: int| 0 <= i < prev.len() implies no_dups(
            mod_names((#[trigger] prev[i]).crates@),
        ) && all_colon_free(mod_names(prev[i].crates@)) && forall|j: int|
            0 <= j < prev[i].crates@.len() ==> well_named(#[trigger] prev[i].crates@[j]) by {
            assert(prev[i] == ps[i]);
        }
        lemma_ir_unique(prev);
        assert(no_dups(mod_names(ps[ps.len() - 1].crates@)));
        lemma_package_unique(p, crate::output::cytoscape::crate_count(prev));
        lemma_unique_concat(
            ir_elements(prev),
            package_elements(p, crate::output::cytoscape::crate_count(prev)),
            Seq::empty(),
            package_names(prev),
            seq![p.name@],
        );
    }
}

proof fn lemma_unique_filter(s: Seq<ElementModel>, pred: spec_fn(ElementModel) -> bool)
    requires
        unique_vertex_ids(s),
    ensures
        unique_vertex_ids(s.filter(pred)),
    decreases s.len(),
{
    reveal(Seq::filter);
    if s.len() > 0 {
        let prev = s.drop_last();
        assert forall|i: int, j: int|
            0 <= i < j < prev.len() && !is_edge(#[trigger] prev[i]) && !is_edge(
                #[trigger] prev[j],
            ) implies prev[i].id != prev[j].id by {
            assert(prev[i] == s[i] && prev[j] == s[j]);
        }
        lemma_unique_filter(prev, pred);
        let f = prev.filter(pred);
        if pred(s.last()) {
            let g = f.push(s.last());
            assert forall|i: int, j: int|
                0 <= i < j < g.len() && !is_edge(#[trigger] g[i]) && !is_edge(#[trigger] g[j]) implies g[i].id
                != g[j].id by {
                if j == f.len() {
                    assert(f.contains(g[i]));
                    prev.lemma_filter_contains_rev(pred, g[i]);
                    let k = choose|k: int| 0 <= k < prev.len() && prev[k] == g[i];
                    assert(s[k] == g[i]);
                    assert(s[s.len() - 1] == g[j]);
                } else {
                    assert(g[i] == f[i] && g[j] == f[j]);
                }
            }
        }
    }
}

/// Vertex uniqueness: when package names are distinct, the names of each
/// package's compilation units are distinct, the names directly below each
/// module are distinct, and every name is non-empty and free of `:`, no two vertices of the
/// document share an id.
///
/// Dependency strings are assumed non-empty, as those of imports are: an
/// element with an empty target would count as a vertex.
pub proof fn lemma_vertex_ids_unique(ps: Seq<Package>)
    requires
        packages_well_named(ps),
    ensures
        unique_vertex_ids(document(ps)),
{
    lemma_ir_unique(ps);
    let s = ir_elements(ps);
    lemma_unique_filter(s, |e: ElementModel| is_valid_in(s, e));
}


/// `id` is `seg(::seg)*`, each segment non-empty and free of `:`.
pub open spec fn is_segment_path(id: Seq<char>) -> bool
    decreases id.len(),
{
    let h = head_segment(id);
    h.len() > 0 && (id.len() == h.len() || (id.len() > h.len() + 2 && id[h.len() as int] == ':'
        && id[h.len() + 1int] == ':' && is_segment_path(id.skip(h.len() + 2int))))
}

/// Every vertex id of `s` is `prefix` followed by a segment path.
pub open spec fn shaped_under(s: Seq<ElementModel>, prefix: Seq<char>) -> bool {
    forall|i: int|
        0 <= i < s.len() && !is_edge(#[trigger] s[i]) ==> s[i].id.len() >= prefix.len()
            && s[i].id.take(prefix.len() as int) == prefix && is_segment_path(
            s[i].id.skip(prefix.len() as int),
        )
}

proof fn lemma_head_segment_len(s: Seq<char>)
    ensures
        head_segment(s).len() <= s.len(),
    decreases s.len(),
{
    if s.len() > 0 && s[0] != ':' {
        lemma_head_segment_len(s.drop_first());
    }
}

proof fn lemma_single_segment(n: Seq<char>)
    requires
        colon_free(n),
        n.len() > 0,
    ensures
        is_segment_path(n),
{
    assert(n + Seq::<char>::empty() =~= n);
    lemma_head_segment(n, Seq::empty());
}

/// `n::w` is a segment path when `w` is one.
proof fn lemma_cons_segment(n: Seq<char>, w: Seq<char>)
    requires
        colon_free(n),
        n.len() > 0,
        is_segment_path(w),
    ensures
        is_segment_path(n + "::"@ + w),
{
    reveal_strlit("::");
    let id = n + "::"@ + w;
    assert(id =~= n + ("::"@ + w));
    assert(("::"@ + w)[0] == ':');
    lemma_head_segment(n, "::"@ + w);
    assert(head_segment(w).len() > 0);
    lemma_head_segment_len(w);
    assert(id.skip(n.len() + 2int) =~= w);
}

proof fn lemma_shaped_concat(a: Seq<ElementModel>, b: Seq<ElementModel>, prefix: Seq<char>)
    requires
        shaped_under(a, prefix),
        shaped_under(b, prefix),
    ensures
        shaped_under(a + b, prefix),
{
    assert forall|i: int| 0 <= i < (a + b).len() && !is_edge(#[trigger] (a + b)[i]) implies (a
        + b)[i].id.len() >= prefix.len() && (a + b)[i].id.take(prefix.len() as int) == prefix
        && is_segment_path((a + b)[i].id.skip(prefix.len() as int)) by {
        if i < a.len() {
            assert((a + b)[i] == a[i]);
        } else {
            assert((a + b)[i] == b[i - a.len()]);
        }
    }
}

proof fn lemma_item_section_shaped<T: NamedItem>(kind: Seq<char>, items: Seq<T>, parent: Seq<char>)
    requires
        all_colon_free(names_of(items)),
    ensures
        shaped_under(item_vertices(kind, items, parent), parent + "::"@),
{
    let s = item_vertices(kind, items, parent);
    let prefix = parent + "::"@;
    let names = names_of(items);
    assert forall|i: int| 0 <= i < s.len() && !is_edge(#[trigger] s[i]) implies s[i].id.len()
        >= prefix.len() && s[i].id.take(prefix.len() as int) == prefix && is_segment_path(
        s[i].id.skip(prefix.len() as int),
    ) by {
        assert(colon_free(names[i]) && names[i].len() > 0);
        assert(s[i].id =~= prefix + names[i]);
        assert(s[i].id.skip(prefix.len() as int) =~= names[i]);
        assert(s[i].id.take(prefix.len() as int) =~= prefix);
        lemma_single_segment(names[i]);
    }
}

proof fn lemma_subtree_shaped(v: ElementModel, sub: Seq<ElementModel>, parent: Seq<char>, n: Seq<char>)
    requires
        !is_edge(v),
        v.id == child_id(parent, n),
        colon_free(n),
        n.len() > 0,
        shaped_under(sub, child_id(parent, n) + "::"@),
    ensures
        shaped_under(seq![v] + sub, parent + "::"@),
{
    let s = seq![v] + sub;
    let prefix = parent + "::"@;
    let cp = child_id(parent, n) + "::"@;
    assert forall|i: int| 0 <= i < s.len() && !is_edge(#[trigger] s[i]) implies s[i].id.len()
        >= prefix.len() && s[i].id.take(prefix.len() as int) == prefix && is_segment_path(
        s[i].id.skip(prefix.len() as int),
    ) by {
        if i == 0 {
            assert(s[0] == v);
            assert(v.id =~= prefix + n);
            assert(v.id.skip(prefix.len() as int) =~= n);
            assert(v.id.take(prefix.len() as int) =~= prefix);
            lemma_single_segment(n);
        } else {
            let e = sub[i - 1];
            assert(s[i] == e);
            let w = e.id.skip(cp.len() as int);
            assert(e.id =~= cp + w);
            assert(cp =~= prefix + (n + "::"@));
            assert(e.id.skip(prefix.len() as int) =~= n + "::"@ + w);
            assert(e.id.take(prefix.len() as int) =~= prefix);
            lemma_cons_segment(n, w);
        }
    }
}

proof fn lemma_module_shaped(m: Mod, parent: Seq<char>, color: Seq<char>)
    requires
        well_named(m),
        parent.len() > 0,
    ensures
        shaped_under(module_elements(m, parent, color), parent + "::"@),
    decreases m,
{
    let prefix = parent + "::"@;
    let i = m.items;
    let k0 = mod_names(i.mods@);
    let n0 = names_of(i.consts@);
    let n1 = names_of(i.enums@);
    let n2 = names_of(i.fns@);
    let n3 = names_of(i.statics@);
    let n4 = names_of(i.structs@);
    let n5 = names_of(i.traits@);
    let n6 = names_of(i.trait_aliases@);
    let n7 = names_of(i.types@);
    let n8 = names_of(i.unions@);
    let k1 = k0 + n0;
    let k2 = k1 + n1;
    let k3 = k2 + n2;
    let k4 = k3 + n3;
    let k5 = k4 + n4;
    let k6 = k5 + n5;
    let k7 = k6 + n6;
    let k8 = k7 + n7;
    lemma_colon_free_split(k8, n8);
    lemma_colon_free_split(k7, n7);
    lemma_colon_free_split(k6, n6);
    lemma_colon_free_split(k5, n5);
    lemma_colon_free_split(k4, n4);
    lemma_colon_free_split(k3, n3);
    lemma_colon_free_split(k2, n2);
    lemma_colon_free_split(k1, n1);
    lemma_colon_free_split(k0, n0);
    lemma_children_shaped(i.mods@, parent, color);
    lemma_item_section_shaped("const"@, i.consts@, parent);
    lemma_item_section_shaped("enum"@, i.enums@, parent);
    lemma_item_section_shaped("fn"@, i.fns@, parent);
    lemma_item_section_shaped("static"@, i.statics@, parent);
    lemma_item_section_shaped("struct"@, i.structs@, parent);
    lemma_item_section_shaped("trait"@, i.traits@, parent);
    lemma_item_section_shaped("trait"@, i.trait_aliases@, parent);
    lemma_item_section_shaped("type"@, i.types@, parent);
    lemma_item_section_shaped("union"@, i.unions@, parent);
    lemma_edge_section(m.deps@, parent, color, prefix);
    let s0 = children_elements(i.mods@, parent, color);
    let v0 = item_vertices("const"@, i.consts@, parent);
    let v1 = item_vertices("enum"@, i.enums@, parent);
    let v2 = item_vertices("fn"@, i.fns@, parent);
    let v3 = item_vertices("static"@, i.statics@, parent);
    let v4 = item_vertices("struct"@, i.structs@, parent);
    let v5 = item_vertices("trait"@, i.traits@, parent);
    let v6 = item_vertices("trait"@, i.trait_aliases@, parent);
    let v7 = item_vertices("type"@, i.types@, parent);
    let v8 = item_vertices("union"@, i.unions@, parent);
    let e = dep_edges(m.deps@, parent, color);
    assert(shaped_under(e, prefix));
    lemma_shaped_concat(s0, v0, prefix);
    lemma_shaped_concat(s0 + v0, v1, prefix);
    lemma_shaped_concat(s0 + v0 + v1, v2, prefix);
    lemma_shaped_concat(s0 + v0 + v1 + v2, v3, prefix);
    lemma_shaped_concat(s0 + v0 + v1 + v2 + v3, v4, prefix);
    lemma_shaped_concat(s0 + v0 + v1 + v2 + v3 + v4, v5, prefix);
    lemma_shaped_concat(s0 + v0 + v1 + v2 + v3 + v4 + v5, v6, prefix);
    lemma_shaped_concat(s0 + v0 + v1 + v2 + v3 + v4 + v5 + v6, v7, prefix);
    lemma_shaped_concat(s0 + v0 + v1 + v2 + v3 + v4 + v5 + v6 + v7, v8, prefix);
    lemma_shaped_concat(s0 + v0 + v1 + v2 + v3 + v4 + v5 + v6 + v7 + v8, e, prefix);
}

proof fn lemma_children_shaped(ms: Seq<Mod>, parent: Seq<char>, color: Seq<char>)
    requires
        mods_well_named(ms),
        all_colon_free(mod_names(ms)),
        parent.len() > 0,
    ensures
        shaped_under(children_elements(ms, parent, color), parent + "::"@),
    decreases ms,
{
    if ms.len() > 0 {
        let m = ms.last();
        let cid = child_id(parent, m.name@);
        assert(mod_names(ms) =~= mod_names(ms.drop_last()) + seq![m.name@]);
        lemma_colon_free_split(mod_names(ms.drop_last()), seq![m.name@]);
        assert(colon_free(seq![m.name@][0]) && seq![m.name@][0].len() > 0);
        lemma_children_shaped(ms.drop_last(), parent, color);
        lemma_module_shaped(m, cid, color);
        let v = item_vertex("mod"@, m.name@, parent);
        let sub = module_elements(m, cid, color);
        lemma_subtree_shaped(v, sub, parent, m.name@);
        let a = children_elements(ms.drop_last(), parent, color);
        lemma_shaped_concat(a, seq![v] + sub, parent + "::"@);
        assert(children_elements(ms, parent, color) =~= a + (seq![v] + sub));
    }
}


proof fn lemma_crates_shaped(cs: Seq<Mod>, package: Seq<char>, start: int)
    requires
        forall|j: int| 0 <= j < cs.len() ==> well_named(#[trigger] cs[j]),
        all_colon_free(mod_names(cs)),
    ensures
        shaped_under(crates_elements(cs, package, start), package + "::"@),
    decreases cs.len(),
{
    if cs.len() > 0 {
        reveal_strlit("::");
        let c = cs.last();
        let cid = child_id(package, c.name@);
        let color = crate::output::cytoscape::color_label(
            crate::output::cytoscape::palette(start + cs.len() - 1),
        );
        assert(mod_names(cs) =~= mod_names(cs.drop_last()) + seq![c.name@]);
        lemma_colon_free_split(mod_names(cs.drop_last()), seq![c.name@]);
        assert(colon_free(seq![c.name@][0]) && seq![c.name@][0].len() > 0);
        assert(well_named(cs[cs.len() - 1]));
        lemma_crates_shaped(cs.drop_last(), package, start);
        assert(cid.len() > 0);
        lemma_module_shaped(c, cid, color);
        let v = item_vertex("crate"@, c.name@, package);
        let sub = module_elements(c, cid, color);
        lemma_subtree_shaped(v, sub, package, c.name@);
        lemma_shaped_concat(crates_elements(cs.drop_last(), package, start), seq![v] + sub, package + "::"@);
        assert(crate_elements(c, package, start + cs.len() - 1) == seq![v] + sub);
    }
}

proof fn lemma_package_shaped(p: Package, start: int)
    requires
        colon_free(p.name@),
        p.name@.len() > 0,
        all_colon_free(mod_names(p.crates@)),
        forall|j: int| 0 <= j < p.crates@.len() ==> well_named(#[trigger] p.crates@[j]),
    ensures
        shaped_under(package_elements(p, start), Seq::empty()),
{
    let pkg = p.name@;
    let pp = pkg + "::"@;
    let cs = crates_elements(p.crates@, pkg, start);
    lemma_crates_shaped(p.crates@, pkg, start);
    let s = package_elements(p, start);
    let empty = Seq::<char>::empty();
    assert forall|i: int| 0 <= i < s.len() && !is_edge(#[trigger] s[i]) implies s[i].id.len()
        >= empty.len() && s[i].id.take(empty.len() as int) == empty && is_segment_path(
        s[i].id.skip(empty.len() as int),
    ) by {
        assert(s[i].id.skip(0) =~= s[i].id);
        assert(s[i].id.take(0) =~= empty);
        if i == 0 {
            assert(s[0] == package_vertex(p));
            lemma_single_segment(pkg);
        } else {
            let e = cs[i - 1];
            assert(s[i] == e);
            let w = e.id.skip(pp.len() as int);
            assert(e.id =~= pp + w);
            lemma_cons_segment(pkg, w);
        }
    }
}

proof fn lemma_ir_shaped(ps: Seq<Package>)
    requires
        packages_well_named(ps),
    ensures
        shaped_under(ir_elements(ps), Seq::empty()),
    decreases ps.len(),
{
    if ps.len() > 0 {
        let p = ps.last();
        let prev = ps.drop_last();
        assert(package_names(ps) =~= package_names(prev) + seq![p.name@]);
        lemma_no_dups_prefix(package_names(prev), seq![p.name@]);
        lemma_colon_free_split(package_names(prev), seq![p.name@]);
        assert(colon_free(seq![p.name@][0]) && seq![p.name@][0].len() > 0);
        assert forall|i: int| 0 <= i < prev.len() implies no_dups(
            mod_names((#[trigger] prev[i]).crates@),
        ) && all_colon_free(mod_names(prev[i].crates@)) && forall|j: int|
            0 <= j < prev[i].crates@.len() ==> well_named(#[trigger] prev[i].crates@[j]) by {
            assert(prev[i] == ps[i]);
        }
        lemma_ir_shaped(prev);
        assert(all_colon_free(mod_names(ps[ps.len() - 1].crates@)));
        lemma_package_shaped(p, crate::output::cytoscape::crate_count(prev));
        lemma_shaped_concat(
            ir_elements(prev),
            package_elements(p, crate::output::cytoscape::crate_count(prev)),
            Seq::empty(),
        );
    }
}

/// Id shape: under the naming conditions of `lemma_vertex_ids_unique`, every
/// vertex id of the document is `seg(::seg)*` with non-empty segments free of
/// `:`, and its first segment is the name of one of the packages. A vertex
/// other than a package's has its parent's id and one more segment (see
/// `lemma_vertices_hang_from_vertices`), so its id is `package(::seg)+`.
pub proof fn lemma_vertex_ids_shaped(ps: Seq<Package>)
    requires
        packages_well_named(ps),
    ensures
        forall|i: int|
            0 <= i < document(ps).len() && !is_edge(#[trigger] document(ps)[i]) ==> is_segment_path(
                document(ps)[i].id,
            ) && package_names(ps).contains(head_segment(document(ps)[i].id)),
{
    let s = ir_elements(ps);
    let d = document(ps);
    let pred = |e: ElementModel| is_valid_in(s, e);
    lemma_ir_shaped(ps);
    lemma_ir_unique(ps);
    assert forall|i: int| 0 <= i < d.len() && !is_edge(#[trigger] d[i]) implies is_segment_path(
        d[i].id,
    ) && package_names(ps).contains(head_segment(d[i].id)) by {
        assert(s.filter(pred).contains(d[i]));
        s.lemma_filter_contains_rev(pred, d[i]);
        let k = choose|k: int| 0 <= k < s.len() && s[k] == d[i];
        assert(!is_edge(s[k]));
        assert(s[k].id.skip(0) =~= s[k].id);
    }
}

} // verus!
