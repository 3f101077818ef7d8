//! Projection of the intermediate representation into a flat list of vertex
//! and edge elements, each with a stable string id.
use vstd::prelude::*;
use vstd::string::*;

use crate::ir::{Mod, NamedItem, Package};

verus! {

broadcast use vstd::std_specs::vec::group_vec_axioms, vstd::seq::group_seq_axioms;

/// The document: a flat list of elements.
pub struct Repr {
    pub elements: Vec<Element>,
}

/// A vertex or an edge, with its display classes.
pub struct Element {
    pub data: Data,
    pub classes: String,
}

/// The fields of an element; the ones that do not apply are empty.
pub struct Data {
    pub id: String,
    pub name: String,
    pub parent: String,
    pub source: String,
    pub target: String,
}

/// What an element holds, as character sequences.
pub struct ElementModel {
    pub id: Seq<char>,
    pub name: Seq<char>,
    pub parent: Seq<char>,
    pub source: Seq<char>,
    pub target: Seq<char>,
    pub classes: Seq<char>,
}

impl View for Element {
    type V = ElementModel;

    open spec fn view(&self) -> ElementModel {
        ElementModel {
            id: self.data.id@,
            name: self.data.name@,
            parent: self.data.parent@,
            source: self.data.source@,
            target: self.data.target@,
            classes: self.classes@,
        }
    }
}

pub open spec fn models(s: Seq<Element>) -> Seq<ElementModel> {
    s.map_values(|e: Element| e@)
}

/// An element is an edge when both of its endpoints are set.
pub open spec fn is_edge(e: ElementModel) -> bool {
    e.source.len() > 0 && e.target.len() > 0
}

pub open spec fn vertex(
    id: Seq<char>,
    name: Seq<char>,
    parent: Seq<char>,
    classes: Seq<char>,
) -> ElementModel {
    ElementModel { id, name, parent, source: Seq::empty(), target: Seq::empty(), classes }
}

pub open spec fn edge(source: Seq<char>, target: Seq<char>, classes: Seq<char>) -> ElementModel {
    ElementModel {
        id: source + "-"@ + target,
        name: Seq::empty(),
        parent: Seq::empty(),
        source,
        target,
        classes,
    }
}

/// The id of a child: the parent's id, `::`, and the child's name.
pub open spec fn child_id(parent: Seq<char>, name: Seq<char>) -> Seq<char> {
    parent + "::"@ + name
}

/// The vertex of an item of the given kind (`fn`, `struct`, `mod`, `crate`, ...).
pub open spec fn item_vertex(kind: Seq<char>, name: Seq<char>, parent: Seq<char>) -> ElementModel {
    vertex(
        child_id(parent, name),
        kind + " "@ + name,
        parent,
        "vertex-"@ + kind + " vertex-non-package"@,
    )
}

pub open spec fn item_vertices<T: NamedItem>(
    kind: Seq<char>,
    items: Seq<T>,
    parent: Seq<char>,
) -> Seq<ElementModel> {
    items.map_values(|t: T| item_vertex(kind, t.spec_name(), parent))
}

pub open spec fn dep_edges(deps: Seq<String>, source: Seq<char>, color: Seq<char>) -> Seq<
    ElementModel,
> {
    deps.map_values(|d: String| edge(source, d@, "edge-"@ + color))
}

/// The elements of a module whose id is `parent`: nested modules first (each
/// vertex followed by its own contents), then the named items by kind, then
/// one edge per dependency.
pub open spec fn module_elements(m: Mod, parent: Seq<char>, color: Seq<char>) -> Seq<
    ElementModel,
>
    decreases m,
{
    children_elements(m.items.mods@, parent, color) + item_vertices(
        "const"@,
        m.items.consts@,
        parent,
    ) + item_vertices("enum"@, m.items.enums@, parent) + item_vertices(
        "fn"@,
        m.items.fns@,
        parent,
    ) + item_vertices("static"@, m.items.statics@, parent) + item_vertices(
        "struct"@,
        m.items.structs@,
        parent,
    ) + item_vertices("trait"@, m.items.traits@, parent) + item_vertices(
        "trait"@,
        m.items.trait_aliases@,
        parent,
    ) + item_vertices("type"@, m.items.types@, parent) + item_vertices(
        "union"@,
        m.items.unions@,
        parent,
    ) + dep_edges(m.deps@, parent, color)
}

pub open spec fn children_elements(ms: Seq<Mod>, parent: Seq<char>, color: Seq<char>) -> Seq<
    ElementModel,
>
    decreases ms,
{
    if ms.len() == 0 {
        Seq::empty()
    } else {
        let m = ms.last();
        children_elements(ms.drop_last(), parent, color) + seq![
            item_vertex("mod"@, m.name@, parent),
        ] + module_elements(m, child_id(parent, m.name@), color)
    }
}


/// The elements of one compilation unit: its vertex under the package, then
/// its root module, whose edges carry the color of the unit's index.
pub open spec fn crate_elements(c: Mod, package: Seq<char>, k: int) -> Seq<ElementModel> {
    seq![item_vertex("crate"@, c.name@, package)] + module_elements(
        c,
        child_id(package, c.name@),
        color_label(palette(k)),
    )
}

/// The elements of a package's compilation units; `start` is the index of the
/// first of them among all units of the run.
pub open spec fn crates_elements(cs: Seq<Mod>, package: Seq<char>, start: int) -> Seq<
    ElementModel,
>
    decreases cs.len(),
{
    if cs.len() == 0 {
        Seq::empty()
    } else {
        crates_elements(cs.drop_last(), package, start) + crate_elements(
            cs.last(),
            package,
            start + cs.len() - 1,
        )
    }
}

pub open spec fn package_vertex(p: Package) -> ElementModel {
    vertex(p.name@, p.name@, Seq::empty(), "vertex-package"@)
}

pub open spec fn package_elements(p: Package, start: int) -> Seq<ElementModel> {
    seq![package_vertex(p)] + crates_elements(p.crates@, p.name@, start)
}

/// The number of compilation units in a list of packages.
pub open spec fn crate_count(ps: Seq<Package>) -> int
    decreases ps.len(),
{
    if ps.len() == 0 {
        0
    } else {
        crate_count(ps.drop_last()) + ps.last().crates@.len()
    }
}

/// All elements of a run, before edges are pruned.
pub open spec fn ir_elements(ps: Seq<Package>) -> Seq<ElementModel>
    decreases ps.len(),
{
    if ps.len() == 0 {
        Seq::empty()
    } else {
        ir_elements(ps.drop_last()) + package_elements(ps.last(), crate_count(ps.drop_last()))
    }
}

/// Some vertex of `s` has the id `id`.
pub open spec fn has_vertex(s: Seq<ElementModel>, id: Seq<char>) -> bool {
    exists|j: int| 0 <= j < s.len() && !is_edge(#[trigger] s[j]) && s[j].id == id
}

/// An element survives pruning when it is a vertex, or an edge whose two
/// endpoints are vertices of `s`.
pub open spec fn is_valid_in(s: Seq<ElementModel>, e: ElementModel) -> bool {
    !is_edge(e) || (has_vertex(s, e.source) && has_vertex(s, e.target))
}

pub open spec fn prune(s: Seq<ElementModel>) -> Seq<ElementModel> {
    s.filter(|e: ElementModel| is_valid_in(s, e))
}

/// The document that a run produces from its packages.
pub open spec fn document(ps: Seq<Package>) -> Seq<ElementModel> {
    prune(ir_elements(ps))
}

/// The edge palette.
#[derive(Clone, Copy, PartialEq, Eq, Structural)]
pub enum EdgeColor {
    Red,
    Green,
    Blue,
    Violet,
    Orange,
    Purple,
    Plum,
}

pub open spec fn palette(k: int) -> EdgeColor {
    let r = k % 7;
    if r == 0 {
        EdgeColor::Red
    } else if r == 1 {
        EdgeColor::Green
    } else if r == 2 {
        EdgeColor::Blue
    } else if r == 3 {
        EdgeColor::Violet
    } else if r == 4 {
        EdgeColor::Orange
    } else if r == 5 {
        EdgeColor::Purple
    } else {
        EdgeColor::Plum
    }
}

pub open spec fn color_label(c: EdgeColor) -> Seq<char> {
    match c {
        EdgeColor::Red => "red"@,
        EdgeColor::Green => "green"@,
        EdgeColor::Blue => "blue"@,
        EdgeColor::Violet => "violet"@,
        EdgeColor::Orange => "orange"@,
        EdgeColor::Purple => "purple"@,
        EdgeColor::Plum => "plum"@,
    }
}

impl EdgeColor {
    pub fn label(&self) -> (r: &'static str)
        ensures
            r@ == color_label(*self),
    {
        match self {
            EdgeColor::Red => "red",
            EdgeColor::Green => "green",
            EdgeColor::Blue => "blue",
            EdgeColor::Violet => "violet",
            EdgeColor::Orange => "orange",
            EdgeColor::Purple => "purple",
            EdgeColor::Plum => "plum",
        }
    }
}

/// Hands out the palette's colors in turn; `i` is the number of colors handed
/// out so far.
pub struct ColorGenerator {
    pub current: EdgeColor,
    pub i: usize,
}

impl ColorGenerator {
    pub fn new() -> (r: ColorGenerator)
        ensures
            r.i == 0,
            r.current == EdgeColor::Red,
    {
        ColorGenerator { current: EdgeColor::Red, i: 0 }
    }

    /// Moves on to the next color of the palette.
    pub fn update(&mut self)
        requires
            old(self).i < usize::MAX,
        ensures
            final(self).current == palette(old(self).i as int),
            final(self).i == old(self).i + 1,
    {
        self.current = match self.i % 7 {
            0 => EdgeColor::Red,
            1 => EdgeColor::Green,
            2 => EdgeColor::Blue,
            3 => EdgeColor::Violet,
            4 => EdgeColor::Orange,
            5 => EdgeColor::Purple,
            _ => EdgeColor::Plum,
        };
        self.i = self.i + 1;
    }
}

impl Data {
    pub fn new_vertex(id: String, name: String, parent: String) -> (r: Data)
        ensures
            r.id@ == id@,
            r.name@ == name@,
            r.parent@ == parent@,
            r.source@ == Seq::<char>::empty(),
            r.target@ == Seq::<char>::empty(),
    {
        Data { id, name, parent, source: String::new(), target: String::new() }
    }

    pub fn new_edge(id: String, source: String, target: String) -> (r: Data)
        ensures
            r.id@ == id@,
            r.name@ == Seq::<char>::empty(),
            r.parent@ == Seq::<char>::empty(),
            r.source@ == source@,
            r.target@ == target@,
    {
        Data { id, name: String::new(), parent: String::new(), source, target }
    }

    pub fn is_edge(&self) -> (r: bool)
        ensures
            r == (self.source@.len() > 0 && self.target@.len() > 0),
    {
        !self.source.as_str().is_empty() && !self.target.as_str().is_empty()
    }
}

impl Element {
    /// A copy of the element.
    pub fn duplicate(&self) -> (r: Element)
        ensures
            r@ == self@,
    {
        Element {
            data: Data {
                id: self.data.id.clone(),
                name: self.data.name.clone(),
                parent: self.data.parent.clone(),
                source: self.data.source.clone(),
                target: self.data.target.clone(),
            },
            classes: self.classes.clone(),
        }
    }
}


/// `parent::name`.
fn join_id(parent: &String, name: &String) -> (r: String)
    ensures
        r@ == child_id(parent@, name@),
{
    let mut id = parent.clone();
    id.append("::");
    id.append(name.as_str());
    id
}

fn gen_vertex(elements: &mut Vec<Element>, kind: &str, name: &String, parent: &String)
    ensures
        models(final(elements)@) == models(old(elements)@).push(
            item_vertex(kind@, name@, parent@),
        ),
{
    let id = join_id(parent, name);
    let mut display = String::from_str(kind);
    display.append(" ");
    display.append(name.as_str());
    let mut classes = String::from_str("vertex-");
    classes.append(kind);
    classes.append(" vertex-non-package");
    elements.push(Element { data: Data::new_vertex(id, display, parent.clone()), classes });
    assert(models(elements@) =~= models(old(elements)@).push(
        item_vertex(kind@, name@, parent@),
    ));
}

fn gen_vertices<T: NamedItem>(
    elements: &mut Vec<Element>,
    kind: &str,
    items: &Vec<T>,
    parent: &String,
)
    ensures
        models(final(elements)@) == models(old(elements)@) + item_vertices(
            kind@,
            items@,
            parent@,
        ),
{
    let mut i: usize = 0;
    while i < items.len()
        invariant
            i <= items@.len(),
            models(elements@) == models(old(elements)@) + item_vertices(
                kind@,
                items@.take(i as int),
                parent@,
            ),
        decreases items@.len() - i,
    {
        gen_vertex(elements, kind, items[i].name(), parent);
        assert(items@.take(i + 1) =~= items@.take(i as int).push(items@[i as int]));
        assert(item_vertices(kind@, items@.take(i + 1), parent@) =~= item_vertices(
            kind@,
            items@.take(i as int),
            parent@,
        ).push(item_vertex(kind@, items@[i as int].spec_name(), parent@)));
        i += 1;
    }
    assert(items@.take(i as int) =~= items@);
}

fn gen_edges(elements: &mut Vec<Element>, deps: &Vec<String>, source: &String, color: &str)
    ensures
        models(final(elements)@) == models(old(elements)@) + dep_edges(deps@, source@, color@),
{
    let mut i: usize = 0;
    while i < deps.len()
        invariant
            i <= deps@.len(),
            models(elements@) == models(old(elements)@) + dep_edges(
                deps@.take(i as int),
                source@,
                color@,
            ),
        decreases deps@.len() - i,
    {
        let target = &deps[i];
        let mut id = source.clone();
        id.append("-");
        id.append(target.as_str());
        let mut classes = String::from_str("edge-");
        classes.append(color);
        let ghost prev = models(elements@);
        elements.push(Element { data: Data::new_edge(id, source.clone(), target.clone()), classes });
        assert(models(elements@) =~= prev.push(edge(source@, target@, "edge-"@ + color@)));
        assert(deps@.take(i + 1) =~= deps@.take(i as int).push(deps@[i as int]));
        assert(dep_edges(deps@.take(i + 1), source@, color@) =~= dep_edges(
            deps@.take(i as int),
            source@,
            color@,
        ).push(edge(source@, target@, "edge-"@ + color@)));
        i += 1;
    }
    assert(deps@.take(i as int) =~= deps@);
}

fn gen_module(elements: &mut Vec<Element>, module: &Mod, parent: &String, color: &str)
    ensures
        models(final(elements)@) == models(old(elements)@) + module_elements(
            *module,
            parent@,
            color@,
        ),
    decreases module,
{
    let mods = &module.items.mods;
    let mut i: usize = 0;
    while i < mods.len()
        invariant
            i <= mods@.len(),
            mods == &module.items.mods,
            models(elements@) == models(old(elements)@) + children_elements(
                mods@.take(i as int),
                parent@,
                color@,
            ),
        decreases mods@.len() - i,
    {
        let child = &mods[i];
        let ghost before = models(elements@);
        gen_vertex(elements, "mod", &child.name, parent);
        let child_parent = join_id(parent, &child.name);
        proof {
            assert(decreases_to!(module => module.items.mods@[i as int]));
        }
        gen_module(elements, child, &child_parent, color);
        assert(mods@.take(i + 1).drop_last() =~= mods@.take(i as int));
        assert(models(elements@) =~= before + children_elements(
            mods@.take(i + 1),
            parent@,
            color@,
        ).subrange(children_elements(mods@.take(i as int), parent@, color@).len() as int,
            children_elements(mods@.take(i + 1), parent@, color@).len() as int));
        i += 1;
    }
    assert(mods@.take(i as int) =~= mods@);
    gen_vertices(elements, "const", &module.items.consts, parent);
    gen_vertices(elements, "enum", &module.items.enums, parent);
    gen_vertices(elements, "fn", &module.items.fns, parent);
    gen_vertices(elements, "static", &module.items.statics, parent);
    gen_vertices(elements, "struct", &module.items.structs, parent);
    gen_vertices(elements, "trait", &module.items.traits, parent);
    gen_vertices(elements, "trait", &module.items.trait_aliases, parent);
    gen_vertices(elements, "type", &module.items.types, parent);
    gen_vertices(elements, "union", &module.items.unions, parent);
    gen_edges(elements, &module.deps, parent, color);
    assert(models(final(elements)@) =~= models(old(elements)@) + module_elements(
        *module,
        parent@,
        color@,
    ));
}


proof fn lemma_crates_step(cs: Seq<Mod>, j: int, package: Seq<char>, start: int)
    requires
        0 <= j < cs.len(),
    ensures
        crates_elements(cs.take(j + 1), package, start) == crates_elements(cs.take(j), package, start)
            + crate_elements(cs[j], package, start + j),
{
    assert(cs.take(j + 1).drop_last() =~= cs.take(j));
    assert(cs.take(j + 1).last() == cs[j]);
}

fn gen_package(
    elements: &mut Vec<Element>,
    package: &Package,
    colors: &mut ColorGenerator,
)
    requires
        old(colors).i + package.crates@.len() <= usize::MAX,
    ensures
        final(colors).i == old(colors).i + package.crates@.len(),
        models(final(elements)@) == models(old(elements)@) + package_elements(
            *package,
            old(colors).i as int,
        ),
{
    let ghost start = colors.i as int;
    let name = &package.name;
    let ghost prev = models(elements@);
    elements.push(
        Element {
            data: Data::new_vertex(name.clone(), name.clone(), String::new()),
            classes: String::from_str("vertex-package"),
        },
    );
    assert(models(elements@) =~= prev.push(package_vertex(*package)));
    let crates = &package.crates;
    let mut j: usize = 0;
    while j < crates.len()
        invariant
            j <= crates@.len(),
            crates == &package.crates,
            name == &package.name,
            colors.i == start + j,
            start + crates@.len() <= usize::MAX,
            start == old(colors).i,
            models(elements@) == models(old(elements)@) + seq![package_vertex(*package)]
                + crates_elements(crates@.take(j as int), name@, start),
        decreases crates@.len() - j,
    {
        let c = &crates[j];
        colors.update();
        let ghost before = models(elements@);
        gen_vertex(elements, "crate", &c.name, name);
        let crate_id = join_id(name, &c.name);
        gen_module(elements, c, &crate_id, colors.current.label());
        proof {
            lemma_crates_step(crates@, j as int, name@, start);
        }
        assert(models(elements@) =~= before + crate_elements(*c, name@, start + j));
        j += 1;
    }
    assert(crates@.take(j as int) =~= crates@);
    assert(models(final(elements)@) =~= models(old(elements)@) + package_elements(
        *package,
        start,
    ));
}

proof fn lemma_crate_count_prefix(ps: Seq<Package>, k: int)
    requires
        0 <= k <= ps.len(),
    ensures
        crate_count(ps.take(k)) <= crate_count(ps),
    decreases ps.len(),
{
    if k < ps.len() {
        lemma_crate_count_prefix(ps.drop_last(), k);
        assert(ps.drop_last().take(k) =~= ps.take(k));
    } else {
        assert(ps.take(k) =~= ps);
    }
}

/// Projects the packages of a run into the document: every vertex and edge,
/// then the edges pruned to those whose endpoints are both vertices.
pub fn from_ir(packages: Vec<Package>) -> (r: Repr)
    requires
        crate_count(packages@) <= usize::MAX,
    ensures
        models(r.elements@) == document(packages@),
{
    let mut elements: Vec<Element> = Vec::new();
    let mut colors = ColorGenerator::new();
    let mut k: usize = 0;
    while k < packages.len()
        invariant
            k <= packages@.len(),
            crate_count(packages@) <= usize::MAX,
            colors.i == crate_count(packages@.take(k as int)),
            models(elements@) == ir_elements(packages@.take(k as int)),
        decreases packages@.len() - k,
    {
        assert(packages@.take(k + 1).drop_last() =~= packages@.take(k as int));
        proof {
            lemma_crate_count_prefix(packages@, k + 1);
        }
        gen_package(&mut elements, &packages[k], &mut colors);
        k += 1;
    }
    assert(packages@.take(k as int) =~= packages@);
    assert(models(elements@) =~= ir_elements(packages@));
    Repr { elements: remove_invalid_edges(&elements) }
}

fn has_vertex_with_id(elements: &Vec<Element>, id: &String) -> (r: bool)
    ensures
        r == has_vertex(models(elements@), id@),
{
    let ghost s = models(elements@);
    let mut j: usize = 0;
    while j < elements.len()
        invariant
            j <= elements@.len(),
            s == models(elements@),
            forall|jj: int| 0 <= jj < j ==> !(!is_edge(#[trigger] s[jj]) && s[jj].id == id@),
        decreases elements@.len() - j,
    {
        if !elements[j].data.is_edge() && elements[j].data.id == *id {
            assert(!is_edge(s[j as int]) && s[j as int].id == id@);
            return true;
        }
        j += 1;
    }
    false
}

/// Keeps the vertices, and the edges whose source and target are both ids of
/// vertices of `elements`.
pub fn remove_invalid_edges(elements: &Vec<Element>) -> (r: Vec<Element>)
    ensures
        models(r@) == prune(models(elements@)),
{
    let ghost s = models(elements@);
    let ghost pred = |e: ElementModel| is_valid_in(s, e);
    let mut out: Vec<Element> = Vec::new();
    let mut i: usize = 0;
    while i < elements.len()
        invariant
            i <= elements@.len(),
            s == models(elements@),
            pred == (|e: ElementModel| is_valid_in(s, e)),
            models(out@) == s.take(i as int).filter(pred),
        decreases elements@.len() - i,
    {
        let e = &elements[i];
        let keep = if e.data.is_edge() {
            has_vertex_with_id(elements, &e.data.source) && has_vertex_with_id(
                elements,
                &e.data.target,
            )
        } else {
            true
        };
        assert(keep == pred(s[i as int]));
        assert(s.take(i + 1).drop_last() =~= s.take(i as int));
        proof {
            reveal(Seq::filter);
        }
        let ghost prev = models(out@);
        if keep {
            out.push(e.duplicate());
            assert(models(out@) =~= prev.push(s[i as int]));
        } else {
            assert(models(out@) =~= prev);
        }
        i += 1;
    }
    assert(s.take(i as int) =~= s);
    out
}


proof fn lemma_prune_keeps_vertices(s: Seq<ElementModel>)
    ensures
        forall|id: Seq<char>| has_vertex(s, id) ==> has_vertex(prune(s), id),
        forall|i: int| 0 <= i < prune(s).len() ==> is_valid_in(s, #[trigger] prune(s)[i]),
{
    let pred = |e: ElementModel| is_valid_in(s, e);
    s.filter_lemma(pred);
    assert forall|id: Seq<char>| has_vertex(s, id) implies has_vertex(prune(s), id) by {
        let j = choose|j: int| 0 <= j < s.len() && !is_edge(#[trigger] s[j]) && s[j].id == id;
        assert(pred(s[j]));
        assert(prune(s).contains(s[j]));
        let k = choose|k: int| 0 <= k < prune(s).len() && prune(s)[k] == s[j];
        assert(!is_edge(prune(s)[k]) && prune(s)[k].id == id);
    }
    assert forall|i: int| 0 <= i < prune(s).len() implies is_valid_in(
        s,
        #[trigger] prune(s)[i],
    ) by {
        assert(pred(prune(s)[i]));
    }
}

/// Edge referential integrity: both endpoints of every edge of the document
/// are ids of vertices of the document.
pub proof fn lemma_edges_resolve(ps: Seq<Package>)
    ensures
        forall|i: int|
            0 <= i < document(ps).len() && is_edge(#[trigger] document(ps)[i]) ==> has_vertex(
                document(ps),
                document(ps)[i].source,
            ) && has_vertex(document(ps), document(ps)[i].target),
{
    lemma_prune_keeps_vertices(ir_elements(ps));
}


/// Every dependency string of the module and of the modules nested in it is
/// non-empty.
pub open spec fn deps_nonempty(m: Mod) -> bool
    decreases m,
{
    &&& forall|j: int| 0 <= j < m.deps@.len() ==> (#[trigger] m.deps@[j])@.len() > 0
    &&& mods_deps_nonempty(m.items.mods@)
}

pub open spec fn mods_deps_nonempty(ms: Seq<Mod>) -> bool
    decreases ms,
{
    ms.len() > 0 ==> mods_deps_nonempty(ms.drop_last()) && deps_nonempty(ms.last())
}

pub open spec fn crates_deps_nonempty(cs: Seq<Mod>) -> bool {
    forall|j: int| 0 <= j < cs.len() ==> deps_nonempty(#[trigger] cs[j])
}

pub open spec fn packages_deps_nonempty(ps: Seq<Package>) -> bool {
    forall|j: int| 0 <= j < ps.len() ==> crates_deps_nonempty((#[trigger] ps[j]).crates@)
}

/// The vertex's id is its parent's id, `::`, and one more segment.
pub open spec fn is_child_of_parent(e: ElementModel) -> bool {
    exists|n: Seq<char>| e.id == child_id(e.parent, n)
}

/// Each vertex of `s` extends its parent's id by one segment, and its parent
/// is `parent` or a vertex of `s`.
pub open spec fn vertices_ok(s: Seq<ElementModel>, parent: Seq<char>) -> bool {
    forall|i: int|
        0 <= i < s.len() && !is_edge(#[trigger] s[i]) ==> is_child_of_parent(s[i]) && (s[i].parent
            == parent || has_vertex(s, s[i].parent))
}

proof fn lemma_has_vertex_concat(a: Seq<ElementModel>, b: Seq<ElementModel>)
    ensures
        forall|id: Seq<char>| #[trigger] has_vertex(a, id) ==> has_vertex(a + b, id),
        forall|id: Seq<char>| #[trigger] has_vertex(b, id) ==> has_vertex(a + b, id),
{
    assert forall|id: Seq<char>| #[trigger] has_vertex(a, id) implies has_vertex(a + b, id) by {
        let j = choose|j: int| 0 <= j < a.len() && !is_edge(#[trigger] a[j]) && a[j].id == id;
        assert((a + b)[j] == a[j]);
    }
    assert forall|id: Seq<char>| #[trigger] has_vertex(b, id) implies has_vertex(a + b, id) by {
        let j = choose|j: int| 0 <= j < b.len() && !is_edge(#[trigger] b[j]) && b[j].id == id;
        assert((a + b)[a.len() + j] == b[j]);
    }
}

proof fn lemma_vertices_ok_concat(a: Seq<ElementModel>, b: Seq<ElementModel>, parent: Seq<char>)
    requires
        vertices_ok(a, parent),
        vertices_ok(b, parent),
    ensures
        vertices_ok(a + b, parent),
{
    lemma_has_vertex_concat(a, b);
    assert forall|i: int| 0 <= i < (a + b).len() && !is_edge(#[trigger] (a + b)[i]) implies is_child_of_parent(
        (a + b)[i],
    ) && ((a + b)[i].parent == parent || has_vertex(a + b, (a + b)[i].parent)) by {
        if i < a.len() {
            assert((a + b)[i] == a[i]);
        } else {
            assert((a + b)[i] == b[i - a.len()]);
        }
    }
}

/// A vertex `v` under `parent`, followed by elements whose vertices hang
/// below `v`.
proof fn lemma_vertices_ok_under(v: ElementModel, b: Seq<ElementModel>, parent: Seq<char>)
    requires
        !is_edge(v),
        is_child_of_parent(v),
        v.parent == parent,
        vertices_ok(b, v.id),
    ensures
        vertices_ok(seq![v] + b, parent),
{
    let s = seq![v] + b;
    assert(s[0] == v);
    assert(has_vertex(s, v.id));
    lemma_has_vertex_concat(seq![v], b);
    assert forall|i: int| 0 <= i < s.len() && !is_edge(#[trigger] s[i]) implies is_child_of_parent(
        s[i],
    ) && (s[i].parent == parent || has_vertex(s, s[i].parent)) by {
        if i > 0 {
            assert(s[i] == b[i - 1]);
        }
    }
}

proof fn lemma_item_vertices_ok<T: NamedItem>(kind: Seq<char>, items: Seq<T>, parent: Seq<char>)
    ensures
        vertices_ok(item_vertices(kind, items, parent), parent),
{
    let s = item_vertices(kind, items, parent);
    assert forall|i: int| 0 <= i < s.len() && !is_edge(#[trigger] s[i]) implies is_child_of_parent(
        s[i],
    ) && (s[i].parent == parent || has_vertex(s, s[i].parent)) by {
        assert(s[i].id == child_id(s[i].parent, items[i].spec_name()));
    }
}

proof fn lemma_dep_edges_ok(deps: Seq<String>, source: Seq<char>, color: Seq<char>)
    requires
        source.len() > 0,
        forall|j: int| 0 <= j < deps.len() ==> (#[trigger] deps[j])@.len() > 0,
    ensures
        vertices_ok(dep_edges(deps, source, color), source),
{
    let s = dep_edges(deps, source, color);
    assert forall|i: int| 0 <= i < s.len() implies is_edge(#[trigger] s[i]) by {
        assert(s[i].target == deps[i]@);
    }
}

proof fn lemma_module_vertices_ok(m: Mod, parent: Seq<char>, color: Seq<char>)
    requires
        deps_nonempty(m),
        parent.len() > 0,
    ensures
        vertices_ok(module_elements(m, parent, color), parent),
    decreases m,
{
    lemma_children_vertices_ok(m.items.mods@, parent, color);
    lemma_item_vertices_ok("const"@, m.items.consts@, parent);
    lemma_item_vertices_ok("enum"@, m.items.enums@, parent);
    lemma_item_vertices_ok("fn"@, m.items.fns@, parent);
    lemma_item_vertices_ok("static"@, m.items.statics@, parent);
    lemma_item_vertices_ok("struct"@, m.items.structs@, parent);
    lemma_item_vertices_ok("trait"@, m.items.traits@, parent);
    lemma_item_vertices_ok("trait"@, m.items.trait_aliases@, parent);
    lemma_item_vertices_ok("type"@, m.items.types@, parent);
    lemma_item_vertices_ok("union"@, m.items.unions@, parent);
    lemma_dep_edges_ok(m.deps@, parent, color);
    let s0 = children_elements(m.items.mods@, parent, color);
    let s1 = s0 + item_vertices("const"@, m.items.consts@, parent);
    lemma_vertices_ok_concat(s0, item_vertices("const"@, m.items.consts@, parent), parent);
    let s2 = s1 + item_vertices("enum"@, m.items.enums@, parent);
    lemma_vertices_ok_concat(s1, item_vertices("enum"@, m.items.enums@, parent), parent);
    let s3 = s2 + item_vertices("fn"@, m.items.fns@, parent);
    lemma_vertices_ok_concat(s2, item_vertices("fn"@, m.items.fns@, parent), parent);
    let s4 = s3 + item_vertices("static"@, m.items.statics@, parent);
    lemma_vertices_ok_concat(s3, item_vertices("static"@, m.items.statics@, parent), parent);
    let s5 = s4 + item_vertices("struct"@, m.items.structs@, parent);
    lemma_vertices_ok_concat(s4, item_vertices("struct"@, m.items.structs@, parent), parent);
    let s6 = s5 + item_vertices("trait"@, m.items.traits@, parent);
    lemma_vertices_ok_concat(s5, item_vertices("trait"@, m.items.traits@, parent), parent);
    let s7 = s6 + item_vertices("trait"@, m.items.trait_aliases@, parent);
    lemma_vertices_ok_concat(s6, item_vertices("trait"@, m.items.trait_aliases@, parent), parent);
    let s8 = s7 + item_vertices("type"@, m.items.types@, parent);
    lemma_vertices_ok_concat(s7, item_vertices("type"@, m.items.types@, parent), parent);
    let s9 = s8 + item_vertices("union"@, m.items.unions@, parent);
    lemma_vertices_ok_concat(s8, item_vertices("union"@, m.items.unions@, parent), parent);
    lemma_vertices_ok_concat(s9, dep_edges(m.deps@, parent, color), parent);
}

proof fn lemma_children_vertices_ok(ms: Seq<Mod>, parent: Seq<char>, color: Seq<char>)
    requires
        mods_deps_nonempty(ms),
        parent.len() > 0,
    ensures
        vertices_ok(children_elements(ms, parent, color), parent),
    decreases ms,
{
    if ms.len() > 0 {
        let m = ms.last();
        let cid = child_id(parent, m.name@);
        lemma_children_vertices_ok(ms.drop_last(), parent, color);
        assert(cid.len() > 0);
        lemma_module_vertices_ok(m, cid, color);
        let v = item_vertex("mod"@, m.name@, parent);
        assert(v.id == child_id(v.parent, m.name@));
        lemma_vertices_ok_under(v, module_elements(m, cid, color), parent);
        assert(seq![v] + module_elements(m, cid, color) =~= seq![v] + module_elements(m, cid, color));
        lemma_vertices_ok_concat(
            children_elements(ms.drop_last(), parent, color),
            seq![v] + module_elements(m, cid, color),
            parent,
        );
        assert(children_elements(ms, parent, color) =~= children_elements(ms.drop_last(), parent, color) + (
        seq![v] + module_elements(m, cid, color)));
    } else {
        assert(vertices_ok(children_elements(ms, parent, color), parent));
    }
}


proof fn lemma_crates_vertices_ok(cs: Seq<Mod>, package: Seq<char>, start: int)
    requires
        crates_deps_nonempty(cs),
    ensures
        vertices_ok(crates_elements(cs, package, start), package),
    decreases cs.len(),
{
    if cs.len() > 0 {
        let c = cs.last();
        let cid = child_id(package, c.name@);
        lemma_crates_vertices_ok(cs.drop_last(), package, start);
        reveal_strlit("::");
        assert(cid.len() > 0);
        assert(deps_nonempty(cs[cs.len() - 1]));
        lemma_module_vertices_ok(c, cid, color_label(palette(start + cs.len() - 1)));
        let v = item_vertex("crate"@, c.name@, package);
        assert(v.id == child_id(v.parent, c.name@));
        lemma_vertices_ok_under(
            v,
            module_elements(c, cid, color_label(palette(start + cs.len() - 1))),
            package,
        );
        lemma_vertices_ok_concat(
            crates_elements(cs.drop_last(), package, start),
            crate_elements(c, package, start + cs.len() - 1),
            package,
        );
    } else {
        assert(vertices_ok(crates_elements(cs, package, start), package));
    }
}

/// Each vertex of `s` is the vertex of one of the packages, or extends its
/// parent's id by one segment and has a vertex of `s` as its parent.
pub open spec fn vertices_hang(s: Seq<ElementModel>, ps: Seq<Package>) -> bool {
    forall|i: int|
        0 <= i < s.len() && !is_edge(#[trigger] s[i]) ==> (exists|j: int|
            0 <= j < ps.len() && s[i] == package_vertex(#[trigger] ps[j])) || (is_child_of_parent(
            s[i],
        ) && has_vertex(s, s[i].parent))
}

proof fn lemma_ir_vertices_hang(ps: Seq<Package>)
    requires
        packages_deps_nonempty(ps),
    ensures
        vertices_hang(ir_elements(ps), ps),
    decreases ps.len(),
{
    if ps.len() > 0 {
        let p = ps.last();
        let prev = ps.drop_last();
        let start = crate_count(prev);
        lemma_ir_vertices_hang(prev);
        assert(crates_deps_nonempty(ps[ps.len() - 1].crates@));
        lemma_crates_vertices_ok(p.crates@, p.name@, start);
        let a = ir_elements(prev);
        let cs = crates_elements(p.crates@, p.name@, start);
        let b = package_elements(p, start);
        assert(b[0] == package_vertex(p));
        assert(has_vertex(b, p.name@));
        lemma_has_vertex_concat(seq![package_vertex(p)], cs);
        lemma_has_vertex_concat(a, b);
        let s = ir_elements(ps);
        assert(s == a + b);
        assert forall|i: int| 0 <= i < s.len() && !is_edge(#[trigger] s[i]) implies (exists|j: int|
            0 <= j < ps.len() && s[i] == package_vertex(#[trigger] ps[j])) || (is_child_of_parent(
            s[i],
        ) && has_vertex(s, s[i].parent)) by {
            if i < a.len() {
                assert(s[i] == a[i]);
                if exists|j: int| 0 <= j < prev.len() && a[i] == package_vertex(#[trigger] prev[j]) {
                    let j = choose|j: int|
                        0 <= j < prev.len() && a[i] == package_vertex(#[trigger] prev[j]);
                    assert(prev[j] == ps[j]);
                }
            } else if i == a.len() {
                assert(s[i] == package_vertex(ps[ps.len() - 1]));
            } else {
                assert(s[i] == cs[i - a.len() - 1]);
            }
        }
    }
}

/// Parent soundness: every vertex of the document is either the vertex of a
/// package, or its id is its parent's id followed by `::` and one more
/// (possibly compound) segment, and its parent is a vertex of the document.
/// For the shape of ids in terms of the input's names see
/// `lemma_vertex_ids_shaped`.
///
/// Dependency strings are assumed non-empty, as those of imports are (see
/// `lemma_traversal_deps_nonempty`): an element with an empty target would
/// not count as an edge.
pub proof fn lemma_vertices_hang_from_vertices(ps: Seq<Package>)
    requires
        packages_deps_nonempty(ps),
    ensures
        vertices_hang(document(ps), ps),
{
    let s = ir_elements(ps);
    let d = document(ps);
    let pred = |e: ElementModel| is_valid_in(s, e);
    lemma_ir_vertices_hang(ps);
    lemma_prune_keeps_vertices(s);
    assert forall|i: int| 0 <= i < d.len() && !is_edge(#[trigger] d[i]) implies (exists|j: int|
        0 <= j < ps.len() && d[i] == package_vertex(#[trigger] ps[j])) || (is_child_of_parent(d[i])
        && has_vertex(d, d[i].parent)) by {
        assert(s.filter(pred).contains(d[i]));
        s.lemma_filter_contains_rev(pred, d[i]);
        let k = choose|k: int| 0 <= k < s.len() && s[k] == d[i];
        assert(!is_edge(s[k]));
    }
}


/// The module and the modules nested in it have no dependency strings.
pub open spec fn edgeless(m: Mod) -> bool
    decreases m,
{
    &&& m.deps@.len() == 0
    &&& mods_edgeless(m.items.mods@)
}

pub open spec fn mods_edgeless(ms: Seq<Mod>) -> bool
    decreases ms,
{
    ms.len() > 0 ==> mods_edgeless(ms.drop_last()) && edgeless(ms.last())
}

pub open spec fn no_edges(s: Seq<ElementModel>) -> bool {
    forall|i: int| 0 <= i < s.len() ==> !is_edge(#[trigger] s[i])
}

proof fn lemma_no_edges_concat(a: Seq<ElementModel>, b: Seq<ElementModel>)
    requires
        no_edges(a),
        no_edges(b),
    ensures
        no_edges(a + b),
{
    assert forall|i: int| 0 <= i < (a + b).len() implies !is_edge(#[trigger] (a + b)[i]) by {
        if i < a.len() {
            assert((a + b)[i] == a[i]);
        } else {
            assert((a + b)[i] == b[i - a.len()]);
        }
    }
}

proof fn lemma_item_vertices_no_edges<T: NamedItem>(kind: Seq<char>, items: Seq<T>, parent: Seq<char>)
    ensures
        no_edges(item_vertices(kind, items, parent)),
{
}

pub(crate) proof fn lemma_module_no_edges(m: Mod, parent: Seq<char>, color: Seq<char>)
    requires
        edgeless(m),
    ensures
        no_edges(module_elements(m, parent, color)),
    decreases m,
{
    lemma_children_no_edges(m.items.mods@, parent, color);
    let s0 = children_elements(m.items.mods@, parent, color);
    let consts_v = item_vertices("const"@, m.items.consts@, parent);
    let enums_v = item_vertices("enum"@, m.items.enums@, parent);
    let fns_v = item_vertices("fn"@, m.items.fns@, parent);
    let statics_v = item_vertices("static"@, m.items.statics@, parent);
    let structs_v = item_vertices("struct"@, m.items.structs@, parent);
    let traits_v = item_vertices("trait"@, m.items.traits@, parent);
    let aliases_v = item_vertices("trait"@, m.items.trait_aliases@, parent);
    let types_v = item_vertices("type"@, m.items.types@, parent);
    let unions_v = item_vertices("union"@, m.items.unions@, parent);
    lemma_item_vertices_no_edges("const"@, m.items.consts@, parent);
    lemma_item_vertices_no_edges("enum"@, m.items.enums@, parent);
    lemma_item_vertices_no_edges("fn"@, m.items.fns@, parent);
    lemma_item_vertices_no_edges("static"@, m.items.statics@, parent);
    lemma_item_vertices_no_edges("struct"@, m.items.structs@, parent);
    lemma_item_vertices_no_edges("trait"@, m.items.traits@, parent);
    lemma_item_vertices_no_edges("trait"@, m.items.trait_aliases@, parent);
    lemma_item_vertices_no_edges("type"@, m.items.types@, parent);
    lemma_item_vertices_no_edges("union"@, m.items.unions@, parent);
    lemma_no_edges_concat(s0, consts_v);
    lemma_no_edges_concat(s0 + consts_v, enums_v);
    lemma_no_edges_concat(s0 + consts_v + enums_v, fns_v);
    lemma_no_edges_concat(s0 + consts_v + enums_v + fns_v, statics_v);
    lemma_no_edges_concat(s0 + consts_v + enums_v + fns_v + statics_v, structs_v);
    lemma_no_edges_concat(s0 + consts_v + enums_v + fns_v + statics_v + structs_v, traits_v);
    lemma_no_edges_concat(s0 + consts_v + enums_v + fns_v + statics_v + structs_v + traits_v, aliases_v);
    lemma_no_edges_concat(s0 + consts_v + enums_v + fns_v + statics_v + structs_v + traits_v + aliases_v, types_v);
    lemma_no_edges_concat(s0 + consts_v + enums_v + fns_v + statics_v + structs_v + traits_v + aliases_v + types_v, unions_v);
    assert(dep_edges(m.deps@, parent, color) =~= Seq::empty());
    assert(module_elements(m, parent, color) =~= s0 + consts_v + enums_v + fns_v + statics_v + structs_v + traits_v + aliases_v + types_v + unions_v);
}

proof fn lemma_children_no_edges(ms: Seq<Mod>, parent: Seq<char>, color: Seq<char>)
    requires
        mods_edgeless(ms),
    ensures
        no_edges(children_elements(ms, parent, color)),
    decreases ms,
{
    if ms.len() > 0 {
        let m = ms.last();
        let cid = child_id(parent, m.name@);
        lemma_children_no_edges(ms.drop_last(), parent, color);
        lemma_module_no_edges(m, cid, color);
        let v = item_vertex("mod"@, m.name@, parent);
        lemma_no_edges_concat(seq![v], module_elements(m, cid, color));
        lemma_no_edges_concat(
            children_elements(ms.drop_last(), parent, color),
            seq![v] + module_elements(m, cid, color),
        );
        assert(children_elements(ms, parent, color) =~= children_elements(ms.drop_last(), parent, color) + (
        seq![v] + module_elements(m, cid, color)));
    }
}

proof fn lemma_crates_no_edges(cs: Seq<Mod>, package: Seq<char>, start: int)
    requires
        forall|j: int| 0 <= j < cs.len() ==> edgeless(#[trigger] cs[j]),
    ensures
        no_edges(crates_elements(cs, package, start)),
    decreases cs.len(),
{
    if cs.len() > 0 {
        let c = cs.last();
        assert(edgeless(cs[cs.len() - 1]));
        lemma_crates_no_edges(cs.drop_last(), package, start);
        let color = color_label(palette(start + cs.len() - 1));
        lemma_module_no_edges(c, child_id(package, c.name@), color);
        lemma_no_edges_concat(
            seq![item_vertex("crate"@, c.name@, package)],
            module_elements(c, child_id(package, c.name@), color),
        );
        lemma_no_edges_concat(
            crates_elements(cs.drop_last(), package, start),
            crate_elements(c, package, start + cs.len() - 1),
        );
    }
}

proof fn lemma_ir_no_edges(ps: Seq<Package>)
    requires
        forall|i: int, j: int|
            0 <= i < ps.len() && 0 <= j < ps[i].crates@.len() ==> edgeless(
                #[trigger] ps[i].crates@[j],
            ),
    ensures
        no_edges(ir_elements(ps)),
    decreases ps.len(),
{
    if ps.len() > 0 {
        let p = ps.last();
        let prev = ps.drop_last();
        assert forall|i: int, j: int|
            0 <= i < prev.len() && 0 <= j < prev[i].crates@.len() implies edgeless(
            #[trigger] prev[i].crates@[j],
        ) by {
            assert(prev[i] == ps[i]);
        }
        lemma_ir_no_edges(prev);
        assert forall|j: int| 0 <= j < p.crates@.len() implies edgeless(#[trigger] p.crates@[j]) by {
            assert(edgeless(ps[ps.len() - 1].crates@[j]));
        }
        lemma_crates_no_edges(p.crates@, p.name@, crate_count(prev));
        lemma_no_edges_concat(
            seq![package_vertex(p)],
            crates_elements(p.crates@, p.name@, crate_count(prev)),
        );
        lemma_no_edges_concat(ir_elements(prev), package_elements(p, crate_count(prev)));
    }
}

/// With the edge switch off the traversal gives modules without dependency
/// strings (see `lemma_traversal_without_edges`), and the document of such
/// modules holds no edge.
pub proof fn lemma_edgeless_document(ps: Seq<Package>)
    requires
        forall|i: int, j: int|
            0 <= i < ps.len() && 0 <= j < ps[i].crates@.len() ==> edgeless(
                #[trigger] ps[i].crates@[j],
            ),
    ensures
        no_edges(document(ps)),
{
    let s = ir_elements(ps);
    let pred = |e: ElementModel| is_valid_in(s, e);
    lemma_ir_no_edges(ps);
    assert forall|i: int| 0 <= i < document(ps).len() implies !is_edge(
        #[trigger] document(ps)[i],
    ) by {
        assert(s.filter(pred).contains(document(ps)[i]));
        s.lemma_filter_contains_rev(pred, document(ps)[i]);
    }
}


/// The vertices of `s`, in order.
pub open spec fn vertices_of(s: Seq<ElementModel>) -> Seq<ElementModel> {
    s.filter(|e: ElementModel| !is_edge(e))
}

pub(crate) proof fn lemma_vertices_of_concat(a: Seq<ElementModel>, b: Seq<ElementModel>)
    ensures
        vertices_of(a + b) == vertices_of(a) + vertices_of(b),
{
    Seq::filter_distributes_over_add(a, b, |e: ElementModel| !is_edge(e));
}

pub(crate) proof fn lemma_vertices_of_vertices(s: Seq<ElementModel>)
    requires
        no_edges(s),
    ensures
        vertices_of(s) == s,
    decreases s.len(),
{
    reveal(Seq::filter);
    if s.len() > 0 {
        assert(no_edges(s.drop_last()));
        lemma_vertices_of_vertices(s.drop_last());
        assert(!is_edge(s[s.len() - 1]));
        assert(s.drop_last().push(s.last()) =~= s);
    }
}

pub(crate) proof fn lemma_vertices_of_edges(s: Seq<ElementModel>)
    requires
        forall|i: int| 0 <= i < s.len() ==> is_edge(#[trigger] s[i]),
    ensures
        vertices_of(s) == Seq::<ElementModel>::empty(),
    decreases s.len(),
{
    reveal(Seq::filter);
    if s.len() > 0 {
        lemma_vertices_of_edges(s.drop_last());
        assert(is_edge(s[s.len() - 1]));
    } else {
        assert(s =~= Seq::<ElementModel>::empty());
    }
}

pub(crate) proof fn lemma_dep_edges_are_edges(deps: Seq<String>, source: Seq<char>, color: Seq<char>)
    requires
        source.len() > 0,
        forall|j: int| 0 <= j < deps.len() ==> (#[trigger] deps[j])@.len() > 0,
    ensures
        vertices_of(dep_edges(deps, source, color)) == Seq::<ElementModel>::empty(),
{
    let s = dep_edges(deps, source, color);
    assert forall|i: int| 0 <= i < s.len() implies is_edge(#[trigger] s[i]) by {
        assert(s[i].target == deps[i]@);
    }
    lemma_vertices_of_edges(s);
}


/// The two packages have the same name and compilation units with the same
/// names that project to the same elements wherever they are placed.
pub open spec fn same_projection(pa: Package, pb: Package) -> bool {
    &&& pa.name@ == pb.name@
    &&& pa.crates@.len() == pb.crates@.len()
    &&& forall|j: int|
        0 <= j < pa.crates@.len() ==> (#[trigger] pa.crates@[j]).name@ == pb.crates@[j].name@
            && forall|parent: Seq<char>, color: Seq<char>|
            #[trigger] module_elements(pa.crates@[j], parent, color) == module_elements(
                pb.crates@[j],
                parent,
                color,
            )
}

proof fn lemma_crates_same_projection(pa: Package, pb: Package, n: int, start: int)
    requires
        same_projection(pa, pb),
        0 <= n <= pa.crates@.len(),
    ensures
        crates_elements(pa.crates@.take(n), pa.name@, start) == crates_elements(
            pb.crates@.take(n),
            pb.name@,
            start,
        ),
    decreases n,
{
    if n > 0 {
        lemma_crates_same_projection(pa, pb, n - 1, start);
        let c1 = pa.crates@[n - 1];
        let c2 = pb.crates@[n - 1];
        assert(pa.crates@.take(n).drop_last() =~= pa.crates@.take(n - 1));
        assert(pb.crates@.take(n).drop_last() =~= pb.crates@.take(n - 1));
        let cid = child_id(pa.name@, c1.name@);
        let color = color_label(palette(start + n - 1));
        assert(module_elements(c1, cid, color) == module_elements(c2, cid, color));
    }
}

proof fn lemma_ir_same_projection(ps1: Seq<Package>, ps2: Seq<Package>)
    requires
        ps1.len() == ps2.len(),
        forall|i: int| 0 <= i < ps1.len() ==> same_projection(#[trigger] ps1[i], ps2[i]),
    ensures
        ir_elements(ps1) == ir_elements(ps2),
        crate_count(ps1) == crate_count(ps2),
    decreases ps1.len(),
{
    if ps1.len() > 0 {
        let n = ps1.len() - 1;
        assert forall|i: int| 0 <= i < n implies same_projection(
            #[trigger] ps1.drop_last()[i],
            ps2.drop_last()[i],
        ) by {
            assert(same_projection(ps1[i], ps2[i]));
        }
        lemma_ir_same_projection(ps1.drop_last(), ps2.drop_last());
        let pa = ps1.last();
        let pb = ps2.last();
        assert(same_projection(ps1[n], ps2[n]));
        let start = crate_count(ps1.drop_last());
        lemma_crates_same_projection(pa, pb, pa.crates@.len() as int, start);
        assert(pa.crates@.take(pa.crates@.len() as int) =~= pa.crates@);
        assert(pb.crates@.take(pb.crates@.len() as int) =~= pb.crates@);
    }
}

/// Determinism of a run: packages with the same names whose compilation
/// units project alike (as two traversals of the same sources do, see
/// `lemma_traversal_deterministic`) give the same document.
pub proof fn lemma_document_deterministic(ps1: Seq<Package>, ps2: Seq<Package>)
    requires
        ps1.len() == ps2.len(),
        forall|i: int| 0 <= i < ps1.len() ==> same_projection(#[trigger] ps1[i], ps2[i]),
    ensures
        document(ps1) == document(ps2),
{
    lemma_ir_same_projection(ps1, ps2);
}

} // verus!
