//! The documentation model: items, type expressions and the graph
//! that owns them.
use std::collections::HashMap;
use vstd::prelude::*;
use vstd::string::*;

verus! {

/// The key of one item in a graph.
pub type Id = u32;

/// A reference to a named item, with the generic arguments written
/// at the place of use.
#[derive(Debug)]
pub struct Path {
    pub name: String,
    pub id: Id,
    pub args: Option<Box<GenericArgs>>,
}

/// The generic arguments at a place of use.
#[derive(Debug)]
pub enum GenericArgs {
    /// `<'a, T, Item = U>`
    AngleBracketed { args: Vec<GenericArg>, constraints: Vec<AssocItemConstraint> },
    /// `Fn(A, B) -> C`
    Parenthesized { inputs: Vec<Type>, output: Option<Type> },
    /// `T::method(..)`
    ReturnTypeNotation,
}

/// One argument between angle brackets.
#[derive(Debug)]
pub enum GenericArg {
    Lifetime(String),
    Type(Type),
    /// A constant argument; its expression is not kept.
    Const,
    /// `_`
    Infer,
}

/// A constraint on an associated item, as in `Item = u8` or
/// `Item: Clone`.
#[derive(Debug)]
pub struct AssocItemConstraint {
    pub name: String,
    pub args: Option<Box<GenericArgs>>,
    pub binding: AssocItemConstraintKind,
}

/// What a constraint asks of the associated item: to equal a term
/// or to meet bounds.
#[derive(Debug)]
pub enum AssocItemConstraintKind {
    Equality(Term),
    Constraint(Vec<GenericBound>),
}

/// The right-hand side of an equality: a type or a constant.
#[derive(Debug)]
pub enum Term {
    Type(Type),
    Constant,
}

/// The mark in front of a trait bound: none, `?` or `~const`.
#[derive(Clone, Copy, Debug, PartialEq, Eq, Structural)]
pub enum TraitBoundModifier {
    Plain,
    Maybe,
    MaybeConst,
}

/// One bound on a type: a trait, a lifetime or a capturing list.
#[derive(Debug)]
pub enum GenericBound {
    TraitBound { trait_: Path, generic_params: Vec<GenericParamDef>, modifier: TraitBoundModifier },
    Outlives(String),
    /// A precise-capturing list; its entries name no item.
    Use,
}

/// One generic parameter in a declaration.
#[derive(Debug)]
pub struct GenericParamDef {
    pub name: String,
    pub kind: GenericParamDefKind,
}

/// What a generic parameter stands for: a lifetime, a type or a
/// constant.
#[derive(Debug)]
pub enum GenericParamDefKind {
    Lifetime,
    Type { bounds: Vec<GenericBound>, default: Option<Type>, synthetic: bool },
    Const { type_: Type },
}

/// One trait of a `dyn` type, with its higher-ranked parameters.
#[derive(Debug)]
pub struct PolyTrait {
    pub trait_: Path,
    pub generic_params: Vec<GenericParamDef>,
}

/// A type expression.
#[derive(Debug)]
pub enum Type {
    ResolvedPath(Path),
    DynTrait(Vec<PolyTrait>),
    Generic(String),
    Primitive(String),
    /// A function pointer; its signature is not kept.
    FunctionPointer,
    Tuple(Vec<Type>),
    Slice(Box<Type>),
    /// An array; its length is not kept.
    Array { type_: Box<Type> },
    /// A pattern type over a base type.
    Pat { type_: Box<Type> },
    ImplTrait(Vec<GenericBound>),
    Infer,
    RawPointer { mutable: bool, type_: Box<Type> },
    BorrowedRef { lifetime: Option<String>, mutable: bool, type_: Box<Type> },
    QualifiedPath {
        name: String,
        args: Option<Box<GenericArgs>>,
        self_type: Box<Type>,
        trait_: Option<Path>,
    },
}

/// One parameter of a function: its name and its type.
#[derive(Debug)]
pub struct Param {
    pub name: String,
    pub type_: Type,
}

/// A function: its generic parameters, its inputs in order, and its
/// output if it has one.
#[derive(Debug)]
pub struct Function {
    pub generics: Vec<GenericParamDef>,
    pub inputs: Vec<Param>,
    pub output: Option<Type>,
}

/// An impl block: the type it is for, the trait it implements if
/// any, its members, and how it came about.
#[derive(Debug)]
pub struct Impl {
    pub generics: Vec<GenericParamDef>,
    pub trait_: Option<Path>,
    pub for_: Type,
    pub items: Vec<Id>,
    pub synthetic: bool,
    pub blanket_impl: Option<Type>,
}

/// An import or re-export. A glob import re-exports every child of
/// its target; any other import re-exports the target under `name`.
#[derive(Debug)]
pub struct Import {
    pub name: String,
    pub target: Option<Id>,
    pub glob: bool,
}

/// What an item is, with the parts of it that the library reads.
#[derive(Debug)]
pub enum ItemKind {
    Module { items: Vec<Id> },
    ExternCrate,
    Import(Import),
    Union { fields: Vec<Id>, impls: Vec<Id> },
    Struct { impls: Vec<Id> },
    StructField,
    Enum,
    Variant,
    Function(Function),
    Trait,
    TraitAlias,
    Impl(Impl),
    TypeAlias,
    Constant { type_: Type },
    Static,
    ExternType,
    Macro,
    ProcMacro,
    Primitive,
    AssocConst { type_: Type },
    AssocType,
}

/// A node of the documentation graph.
#[derive(Debug)]
pub struct Item {
    pub id: Id,
    pub name: Option<String>,
    pub docs: Option<String>,
    pub deprecated: bool,
    pub kind: ItemKind,
}

/// A whole documentation graph: the items by identifier, the
/// identifier of the root module, and the table of paths that are
/// known for items from elsewhere.
pub struct DocGraph {
    pub root: Id,
    pub index: HashMap<Id, Item>,
    pub paths: HashMap<Id, Vec<String>>,
}


/// The graph as contracts see it: the two tables as maps.
pub struct GraphView {
    pub root: Id,
    pub index: Map<Id, Item>,
    pub paths: Map<Id, Vec<String>>,
}

impl View for DocGraph {
    type V = GraphView;

    open spec fn view(&self) -> GraphView {
        GraphView { root: self.root, index: self.index@, paths: self.paths@ }
    }
}

/// The kind of an item without its contents, as errors name it.
#[derive(Clone, Copy, Debug, PartialEq, Eq, Structural)]
pub enum ItemTag {
    Module,
    ExternCrate,
    Import,
    Union,
    Struct,
    StructField,
    Enum,
    Variant,
    Function,
    Trait,
    TraitAlias,
    Impl,
    TypeAlias,
    Constant,
    Static,
    ExternType,
    Macro,
    ProcMacro,
    Primitive,
    AssocConst,
    AssocType,
}

/// What is wrong with the item that an `ItemError` names.
#[derive(Clone, Copy, Debug, PartialEq, Eq, Structural)]
pub enum ItemErrorKind {
    /// No item has this identifier.
    MissingItem,
    /// The item has no name where one is needed.
    MissingName,
    /// The item is not of the kind that its place asks for.
    ExpectedType(ItemTag),
    /// The item is exported from two modules and no rule chooses.
    MultipleExports(Id, Id),
}

/// A fault in the structure of a graph, with the identifier of the
/// item in question.
#[derive(Clone, Copy, Debug, PartialEq, Eq, Structural)]
pub struct ItemError {
    pub id: Id,
    pub kind: ItemErrorKind,
}

impl ItemTag {
    /// The name of the kind.
    pub open spec fn name_text(self) -> Seq<char> {
        match self {
            ItemTag::Module => "Module"@,
            ItemTag::ExternCrate => "ExternCrate"@,
            ItemTag::Import => "Import"@,
            ItemTag::Union => "Union"@,
            ItemTag::Struct => "Struct"@,
            ItemTag::StructField => "StructField"@,
            ItemTag::Enum => "Enum"@,
            ItemTag::Variant => "Variant"@,
            ItemTag::Function => "Function"@,
            ItemTag::Trait => "Trait"@,
            ItemTag::TraitAlias => "TraitAlias"@,
            ItemTag::Impl => "Impl"@,
            ItemTag::TypeAlias => "TypeAlias"@,
            ItemTag::Constant => "Constant"@,
            ItemTag::Static => "Static"@,
            ItemTag::ExternType => "ExternType"@,
            ItemTag::Macro => "Macro"@,
            ItemTag::ProcMacro => "ProcMacro"@,
            ItemTag::Primitive => "Primitive"@,
            ItemTag::AssocConst => "AssocConst"@,
            ItemTag::AssocType => "AssocType"@,
        }
    }

    /// The name of the kind.
    pub fn name(&self) -> (r: &'static str)
        ensures
            r@ == self.name_text(),
    {
        match self {
            ItemTag::Module => "Module",
            ItemTag::ExternCrate => "ExternCrate",
            ItemTag::Import => "Import",
            ItemTag::Union => "Union",
            ItemTag::Struct => "Struct",
            ItemTag::StructField => "StructField",
            ItemTag::Enum => "Enum",
            ItemTag::Variant => "Variant",
            ItemTag::Function => "Function",
            ItemTag::Trait => "Trait",
            ItemTag::TraitAlias => "TraitAlias",
            ItemTag::Impl => "Impl",
            ItemTag::TypeAlias => "TypeAlias",
            ItemTag::Constant => "Constant",
            ItemTag::Static => "Static",
            ItemTag::ExternType => "ExternType",
            ItemTag::Macro => "Macro",
            ItemTag::ProcMacro => "ProcMacro",
            ItemTag::Primitive => "Primitive",
            ItemTag::AssocConst => "AssocConst",
            ItemTag::AssocType => "AssocType",
        }
    }
}

impl ItemError {
    /// The error of kind `kind` for the item `id`.
    pub fn new(id: Id, kind: ItemErrorKind) -> (e: ItemError)
        ensures
            e == (ItemError { id, kind }),
    {
        ItemError { id, kind }
    }

    /// What the error says: the fault, and the identifier of the
    /// item in base ten.
    pub open spec fn message_text(self) -> Seq<char> {
        let id = crate::text::decimal_text(self.id as nat);
        match self.kind {
            ItemErrorKind::MissingItem => "could not find item: "@ + id,
            ItemErrorKind::MissingName => "missing name for item: "@ + id,
            ItemErrorKind::ExpectedType(tag) => "expected type "@ + tag.name_text()
                + " for item: "@ + id,
            ItemErrorKind::MultipleExports(one, other) => "multiple exports (example "@
                + crate::text::decimal_text(one as nat) + " and "@ + crate::text::decimal_text(
                other as nat,
            ) + ") for item: "@ + id,
        }
    }

    /// The error as a line of text.
    pub fn message(&self) -> (r: String)
        ensures
            r@ == self.message_text(),
    {
        let id = crate::text::decimal(self.id);
        match self.kind {
            ItemErrorKind::MissingItem => {
                let mut out = String::from_str("could not find item: ");
                out.append(id.as_str());
                out
            },
            ItemErrorKind::MissingName => {
                let mut out = String::from_str("missing name for item: ");
                out.append(id.as_str());
                out
            },
            ItemErrorKind::ExpectedType(tag) => {
                let mut out = String::from_str("expected type ");
                out.append(tag.name());
                out.append(" for item: ");
                out.append(id.as_str());
                out
            },
            ItemErrorKind::MultipleExports(one, other) => {
                let mut out = String::from_str("multiple exports (example ");
                out.append(crate::text::decimal(one).as_str());
                out.append(" and ");
                out.append(crate::text::decimal(other).as_str());
                out.append(") for item: ");
                out.append(id.as_str());
                out
            },
        }
    }
}

impl ItemKind {
    /// The kind without its contents.
    pub open spec fn spec_tag(&self) -> ItemTag {
        match self {
            ItemKind::Module { .. } => ItemTag::Module,
            ItemKind::ExternCrate => ItemTag::ExternCrate,
            ItemKind::Import(_) => ItemTag::Import,
            ItemKind::Union { .. } => ItemTag::Union,
            ItemKind::Struct { .. } => ItemTag::Struct,
            ItemKind::StructField => ItemTag::StructField,
            ItemKind::Enum => ItemTag::Enum,
            ItemKind::Variant => ItemTag::Variant,
            ItemKind::Function(_) => ItemTag::Function,
            ItemKind::Trait => ItemTag::Trait,
            ItemKind::TraitAlias => ItemTag::TraitAlias,
            ItemKind::Impl(_) => ItemTag::Impl,
            ItemKind::TypeAlias => ItemTag::TypeAlias,
            ItemKind::Constant { .. } => ItemTag::Constant,
            ItemKind::Static => ItemTag::Static,
            ItemKind::ExternType => ItemTag::ExternType,
            ItemKind::Macro => ItemTag::Macro,
            ItemKind::ProcMacro => ItemTag::ProcMacro,
            ItemKind::Primitive => ItemTag::Primitive,
            ItemKind::AssocConst { .. } => ItemTag::AssocConst,
            ItemKind::AssocType => ItemTag::AssocType,
        }
    }

    /// The kind without its contents.
    #[verifier::when_used_as_spec(spec_tag)]
    pub fn tag(&self) -> (t: ItemTag)
        ensures
            t == self.spec_tag(),
    {
        match self {
            ItemKind::Module { .. } => ItemTag::Module,
            ItemKind::ExternCrate => ItemTag::ExternCrate,
            ItemKind::Import(_) => ItemTag::Import,
            ItemKind::Union { .. } => ItemTag::Union,
            ItemKind::Struct { .. } => ItemTag::Struct,
            ItemKind::StructField => ItemTag::StructField,
            ItemKind::Enum => ItemTag::Enum,
            ItemKind::Variant => ItemTag::Variant,
            ItemKind::Function(_) => ItemTag::Function,
            ItemKind::Trait => ItemTag::Trait,
            ItemKind::TraitAlias => ItemTag::TraitAlias,
            ItemKind::Impl(_) => ItemTag::Impl,
            ItemKind::TypeAlias => ItemTag::TypeAlias,
            ItemKind::Constant { .. } => ItemTag::Constant,
            ItemKind::Static => ItemTag::Static,
            ItemKind::ExternType => ItemTag::ExternType,
            ItemKind::Macro => ItemTag::Macro,
            ItemKind::ProcMacro => ItemTag::ProcMacro,
            ItemKind::Primitive => ItemTag::Primitive,
            ItemKind::AssocConst { .. } => ItemTag::AssocConst,
            ItemKind::AssocType => ItemTag::AssocType,
        }
    }
}

impl GraphView {
    /// The children of `id` if it is a module of the graph.
    pub open spec fn children(self, id: Id) -> Option<Seq<Id>> {
        if self.index.contains_key(id) {
            match self.index[id].kind {
                ItemKind::Module { items } => Some(items@),
                _ => None,
            }
        } else {
            None
        }
    }

    /// Whether `id` is a module of the graph.
    pub open spec fn is_module(self, id: Id) -> bool {
        self.children(id) is Some
    }

    /// The name that the item `id` was declared with.
    pub open spec fn declared_name(self, id: Id) -> Option<Seq<char>> {
        if self.index.contains_key(id) {
            match self.index[id].name {
                Some(name) => Some(name@),
                None => None,
            }
        } else {
            None
        }
    }

    /// The path that the table of known paths holds for `id`.
    pub open spec fn table_path(self, id: Id) -> Option<Seq<Seq<char>>> {
        if self.paths.contains_key(id) {
            Some(texts(self.paths[id]@))
        } else {
            None
        }
    }

    /// What `root_module` makes of the graph.
    pub open spec fn root_check(self) -> Result<(), ItemError> {
        if !self.index.contains_key(self.root) {
            Err(ItemError { id: self.root, kind: ItemErrorKind::MissingItem })
        } else if !self.is_module(self.root) {
            Err(ItemError { id: self.root, kind: ItemErrorKind::ExpectedType(ItemTag::Module) })
        } else if self.index[self.root].name is None {
            Err(ItemError { id: self.root, kind: ItemErrorKind::MissingName })
        } else {
            Ok(())
        }
    }
}

/// The texts of a sequence of strings.
pub open spec fn texts(strings: Seq<String>) -> Seq<Seq<char>> {
    strings.map_values(|s: String| s@)
}

/// An item with a name, beside the part of it that its kind holds.
pub struct NamedItem<'a, T> {
    pub name: &'a String,
    pub base: &'a Item,
    pub inner: &'a T,
}

/// Looks an item up by its identifier.
pub fn get<'a>(doc: &'a DocGraph, id: Id) -> (r: Result<&'a Item, ItemError>)
    ensures
        match r {
            Ok(item) => doc@.index.contains_key(id) && *item == doc@.index[id],
            Err(e) => !doc@.index.contains_key(id) && e == (ItemError {
                id,
                kind: ItemErrorKind::MissingItem,
            }),
        },
{
    broadcast use vstd::std_specs::hash::group_hash_axioms;

    match doc.index.get(&id) {
        Some(item) => Ok(item),
        None => Err(ItemError { id, kind: ItemErrorKind::MissingItem }),
    }
}

/// The root module of the graph with its name and its children. It
/// is an error if the root is missing, is no module or has no name.
pub fn root_module<'a>(doc: &'a DocGraph) -> (r: Result<NamedItem<'a, Vec<Id>>, ItemError>)
    ensures
        match r {
            Ok(named) => {
                &&& doc@.root_check() is Ok
                &&& *named.base == doc@.index[doc.root]
                &&& named.base.name == Some(*named.name)
                &&& named.base.kind == (ItemKind::Module { items: *named.inner })
            },
            Err(e) => doc@.root_check() == Err::<(), ItemError>(e),
        },
{
    let item = get(doc, doc.root)?;
    match &item.kind {
        ItemKind::Module { items } => match &item.name {
            Some(name) => Ok(NamedItem { name, base: item, inner: items }),
            None => Err(ItemError { id: doc.root, kind: ItemErrorKind::MissingName }),
        },
        _ => Err(ItemError { id: doc.root, kind: ItemErrorKind::ExpectedType(ItemTag::Module) }),
    }
}


/// Whether the table of known paths gives `id` the path `name`.
pub open spec fn has_path(g: GraphView, id: Id, name: Seq<Seq<char>>) -> bool {
    g.table_path(id) == Some(name)
}

/// Whether two lists of strings hold the same texts.
pub fn same_texts(a: &Vec<String>, b: &Vec<String>) -> (r: bool)
    ensures
        r == (texts(a@) == texts(b@)),
{
    if a.len() != b.len() {
        proof {
            assert(texts(a@).len() != texts(b@).len());
        }
        return false;
    }
    let mut i: usize = 0;
    while i < a.len()
        invariant
            i <= a.len(),
            a.len() == b.len(),
            forall|j: int| 0 <= j < i ==> a[j]@ == b[j]@,
        decreases a.len() - i,
    {
        if !crate::text::same_text(a[i].as_str(), b[i].as_str()) {
            proof {
                assert(texts(a@)[i as int] == a[i as int]@);
                assert(texts(b@)[i as int] == b[i as int]@);
            }
            return false;
        }
        i += 1;
    }
    proof {
        assert(texts(a@) =~= texts(b@));
    }
    true
}

/// Finds the item with the least identifier to which the table of
/// known paths gives the path `name`. There is none for the empty
/// path.
pub fn find_item(doc: &DocGraph, name: &Vec<String>) -> (r: Option<Id>)
    ensures
        match r {
            Some(id) => name.len() > 0 && has_path(doc@, id, texts(name@)) && forall|other: Id|
                has_path(doc@, other, texts(name@)) ==> id <= other,
            None => name.len() == 0 || forall|other: Id| !has_path(doc@, other, texts(name@)),
        },
{
    broadcast use vstd::std_specs::hash::group_hash_axioms;

    if name.len() == 0 {
        return None;
    }
    let mut best: Option<Id> = None;
    for pair in it: doc.paths.iter()
        invariant
            name.len() > 0,
            match best {
                Some(id) => has_path(doc@, id, texts(name@)),
                None => true,
            },
            forall|k: int|
                0 <= k < it.index() && texts((*it.seq()[k].1)@) == texts(name@) ==> best is Some
                    && best.unwrap() <= *it.seq()[k].0,
    {
        let (id, path) = pair;
        if same_texts(path, name) {
            best = match best {
                Some(old) => if *id < old {
                    Some(*id)
                } else {
                    Some(old)
                },
                None => Some(*id),
            };
        }
    }
    best
}

} // verus!
