//! The intermediate representation of a project's structure: packages, their
//! compilation units, and the modules and public items inside them.
use vstd::prelude::*;

verus! {

/// A package: its normalized name and one root module per compilation unit.
#[derive(Debug)]
pub struct Package {
    pub name: String,
    pub crates: Vec<Mod>,
}

/// A module (or a compilation unit's root module) with its items and the
/// dependency strings gathered from its imports.
#[derive(Debug)]
pub struct Mod {
    pub name: String,
    pub items: ItemCollection,
    pub deps: Vec<String>,
}

impl Mod {
    pub fn new(name: String) -> (r: Mod)
        ensures
            r.name@ == name@,
            r.items.is_empty(),
            r.deps@.len() == 0,
    {
        Mod { name, items: ItemCollection::new(), deps: Vec::new() }
    }
}

/// The public items of one module, one ordered list per kind.
#[derive(Debug)]
pub struct ItemCollection {
    pub consts: Vec<Const>,
    pub enums: Vec<Enum>,
    pub fns: Vec<Fn>,
    pub mods: Vec<Mod>,
    pub statics: Vec<Static>,
    pub structs: Vec<Struct>,
    pub traits: Vec<Trait>,
    pub trait_aliases: Vec<TraitAlias>,
    pub types: Vec<Type>,
    pub unions: Vec<Union>,
    pub uses: Vec<Use>,
}

impl ItemCollection {
    pub open spec fn is_empty(&self) -> bool {
        &&& self.consts@.len() == 0
        &&& self.enums@.len() == 0
        &&& self.fns@.len() == 0
        &&& self.mods@.len() == 0
        &&& self.statics@.len() == 0
        &&& self.structs@.len() == 0
        &&& self.traits@.len() == 0
        &&& self.trait_aliases@.len() == 0
        &&& self.types@.len() == 0
        &&& self.unions@.len() == 0
        &&& self.uses@.len() == 0
    }

    pub fn new() -> (r: ItemCollection)
        ensures
            r.is_empty(),
    {
        ItemCollection {
            consts: Vec::new(),
            enums: Vec::new(),
            fns: Vec::new(),
            mods: Vec::new(),
            statics: Vec::new(),
            structs: Vec::new(),
            traits: Vec::new(),
            trait_aliases: Vec::new(),
            types: Vec::new(),
            unions: Vec::new(),
            uses: Vec::new(),
        }
    }
}

/// An item that carries a name, which becomes the last segment of its vertex id.
pub trait NamedItem {
    spec fn spec_name(&self) -> Seq<char>;

    spec fn spec_repr(&self) -> Seq<char>;

    fn name(&self) -> (r: &String)
        ensures
            r@ == self.spec_name(),
    ;
}

/// A public constant.
#[derive(Debug, Clone)]
pub struct Const {
    pub name: String,
    pub repr: String,
}

/// A public enum.
#[derive(Debug, Clone)]
pub struct Enum {
    pub name: String,
    pub repr: String,
}

/// A public function; its representation is the signature with an empty body.
#[derive(Debug, Clone)]
pub struct Fn {
    pub name: String,
    pub repr: String,
}

/// A public static.
#[derive(Debug, Clone)]
pub struct Static {
    pub name: String,
    pub repr: String,
}

/// A public struct.
#[derive(Debug, Clone)]
pub struct Struct {
    pub name: String,
    pub repr: String,
}

/// A public trait.
#[derive(Debug, Clone)]
pub struct Trait {
    pub name: String,
    pub repr: String,
}

/// A public trait alias.
#[derive(Debug, Clone)]
pub struct TraitAlias {
    pub name: String,
    pub repr: String,
}

/// A public type alias.
#[derive(Debug, Clone)]
pub struct Type {
    pub name: String,
    pub repr: String,
}

/// A public union.
#[derive(Debug, Clone)]
pub struct Union {
    pub name: String,
    pub repr: String,
}

/// An import; it has no name of its own.
#[derive(Debug, Clone)]
pub struct Use {
    pub repr: String,
}

impl NamedItem for Const {
    open spec fn spec_name(&self) -> Seq<char> {
        self.name@
    }

    open spec fn spec_repr(&self) -> Seq<char> {
        self.repr@
    }

    fn name(&self) -> (r: &String) {
        &self.name
    }
}

impl NamedItem for Enum {
    open spec fn spec_name(&self) -> Seq<char> {
        self.name@
    }

    open spec fn spec_repr(&self) -> Seq<char> {
        self.repr@
    }

    fn name(&self) -> (r: &String) {
        &self.name
    }
}

impl NamedItem for Fn {
    open spec fn spec_name(&self) -> Seq<char> {
        self.name@
    }

    open spec fn spec_repr(&self) -> Seq<char> {
        self.repr@
    }

    fn name(&self) -> (r: &String) {
        &self.name
    }
}

impl NamedItem for Static {
    open spec fn spec_name(&self) -> Seq<char> {
        self.name@
    }

    open spec fn spec_repr(&self) -> Seq<char> {
        self.repr@
    }

    fn name(&self) -> (r: &String) {
        &self.name
    }
}

impl NamedItem for Struct {
    open spec fn spec_name(&self) -> Seq<char> {
        self.name@
    }

    open spec fn spec_repr(&self) -> Seq<char> {
        self.repr@
    }

    fn name(&self) -> (r: &String) {
        &self.name
    }
}

impl NamedItem for Trait {
    open spec fn spec_name(&self) -> Seq<char> {
        self.name@
    }

    open spec fn spec_repr(&self) -> Seq<char> {
        self.repr@
    }

    fn name(&self) -> (r: &String) {
        &self.name
    }
}

impl NamedItem for TraitAlias {
    open spec fn spec_name(&self) -> Seq<char> {
        self.name@
    }

    open spec fn spec_repr(&self) -> Seq<char> {
        self.repr@
    }

    fn name(&self) -> (r: &String) {
        &self.name
    }
}

impl NamedItem for Type {
    open spec fn spec_name(&self) -> Seq<char> {
        self.name@
    }

    open spec fn spec_repr(&self) -> Seq<char> {
        self.repr@
    }

    fn name(&self) -> (r: &String) {
        &self.name
    }
}

impl NamedItem for Union {
    open spec fn spec_name(&self) -> Seq<char> {
        self.name@
    }

    open spec fn spec_repr(&self) -> Seq<char> {
        self.repr@
    }

    fn name(&self) -> (r: &String) {
        &self.name
    }
}

/// The names and representations of a list of items.
pub open spec fn pairs<T: NamedItem>(s: Seq<T>) -> Seq<(Seq<char>, Seq<char>)> {
    s.map_values(|t: T| (t.spec_name(), t.spec_repr()))
}

pub open spec fn strings(s: Seq<String>) -> Seq<Seq<char>> {
    s.map_values(|x: String| x@)
}

} // verus!
