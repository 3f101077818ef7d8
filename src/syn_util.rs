//! The parts of a parsed source file that the traversal reads, as plain
//! values, and the rules that turn import trees into dependency strings.
use vstd::prelude::*;
use vstd::string::*;

verus! {

broadcast use vstd::std_specs::vec::group_vec_axioms, vstd::seq::group_seq_axioms;

/// An import tree: `a::<tree>`, `{t1, t2, ...}`, a single name, or a form
/// (alias, glob) that yields no path.
pub enum UseTree {
    Path { ident: String, tree: Box<UseTree> },
    Group { items: Vec<UseTree> },
    Name { ident: String },
    Other,
}

pub open spec fn segments_view(p: Seq<String>) -> Seq<Seq<char>> {
    p.map_values(|s: String| s@)
}

pub open spec fn paths_view(ps: Seq<Vec<String>>) -> Seq<Seq<Seq<char>>> {
    ps.map_values(|p: Vec<String>| segments_view(p@))
}

/// The fully qualified paths that an import tree names, in order.
pub open spec fn flat_paths(t: UseTree) -> Seq<Seq<Seq<char>>>
    decreases t,
{
    match t {
        UseTree::Path { ident, tree } => flat_paths(*tree).map_values(
            |p: Seq<Seq<char>>| seq![ident@] + p,
        ),
        UseTree::Group { items } => group_paths(items@),
        UseTree::Name { ident } => seq![seq![ident@]],
        UseTree::Other => Seq::empty(),
    }
}

pub open spec fn group_paths(ts: Seq<UseTree>) -> Seq<Seq<Seq<char>>>
    decreases ts,
{
    if ts.len() == 0 {
        Seq::empty()
    } else {
        group_paths(ts.drop_last()) + flat_paths(ts.last())
    }
}

fn prepend_segment(ident: &String, path: &Vec<String>) -> (r: Vec<String>)
    ensures
        segments_view(r@) == seq![ident@] + segments_view(path@),
{
    let mut r: Vec<String> = Vec::new();
    r.push(ident.clone());
    let mut i: usize = 0;
    while i < path.len()
        invariant
            i <= path@.len(),
            segments_view(r@) == seq![ident@] + segments_view(path@.take(i as int)),
        decreases path@.len() - i,
    {
        let ghost prev = segments_view(r@);
        r.push(path[i].clone());
        assert(segments_view(r@) =~= prev.push(path@[i as int]@));
        assert(segments_view(path@.take(i + 1)) =~= segments_view(path@.take(i as int)).push(
            path@[i as int]@,
        ));
        i += 1;
    }
    assert(path@.take(i as int) =~= path@);
    r
}

/// Flattens an import tree into the paths it names; see `flat_paths`.
pub fn flatten_use_tree(tree: &UseTree) -> (r: Vec<Vec<String>>)
    ensures
        paths_view(r@) == flat_paths(*tree),
    decreases tree,
{
    match tree {
        UseTree::Path { ident, tree: sub } => {
            let inner = flatten_use_tree(sub);
            let mut r: Vec<Vec<String>> = Vec::new();
            let mut i: usize = 0;
            while i < inner.len()
                invariant
                    i <= inner@.len(),
                    paths_view(inner@) == flat_paths(**sub),
                    paths_view(r@) == paths_view(inner@.take(i as int)).map_values(
                        |p: Seq<Seq<char>>| seq![ident@] + p,
                    ),
                decreases inner@.len() - i,
            {
                let p = prepend_segment(ident, &inner[i]);
                let ghost prev = paths_view(r@);
                r.push(p);
                assert(paths_view(r@) =~= prev.push(seq![ident@] + segments_view(inner@[i as int]@)));
                assert(paths_view(inner@.take(i + 1)) =~= paths_view(inner@.take(i as int)).push(
                    segments_view(inner@[i as int]@),
                ));
                assert(paths_view(r@) =~= paths_view(inner@.take(i + 1)).map_values(
                    |p: Seq<Seq<char>>| seq![ident@] + p,
                ));
                i += 1;
            }
            assert(inner@.take(i as int) =~= inner@);
            r
        },
        UseTree::Group { items } => {
            let mut r: Vec<Vec<String>> = Vec::new();
            let mut i: usize = 0;
            while i < items.len()
                invariant
                    i <= items@.len(),
                    *tree == (UseTree::Group { items: *items }),
                    paths_view(r@) == group_paths(items@.take(i as int)),
                decreases items@.len() - i,
            {
                proof {
                    assert(decreases_to!(*tree => tree->items));
                    assert(decreases_to!(*items => items@));
                    assert(decreases_to!(items@ => items@[i as int]));
                    assert(decreases_to!(*tree => items@[i as int]));
                }
                let mut sub = flatten_use_tree(&items[i]);
                let ghost prev = paths_view(r@);
                r.append(&mut sub);
                assert(items@.take(i + 1).drop_last() =~= items@.take(i as int));
                assert(paths_view(r@) =~= prev + flat_paths(items@[i as int]));
                i += 1;
            }
            assert(items@.take(i as int) =~= items@);
            r
        },
        UseTree::Name { ident } => {
            let mut p: Vec<String> = Vec::new();
            p.push(ident.clone());
            let mut r: Vec<Vec<String>> = Vec::new();
            r.push(p);
            assert(segments_view(p@) =~= seq![ident@]);
            assert(paths_view(r@) =~= seq![seq![ident@]]);
            r
        },
        UseTree::Other => {
            let r: Vec<Vec<String>> = Vec::new();
            assert(paths_view(r@) =~= Seq::empty());
            r
        },
    }
}

} // verus!
