//! The graph visitor: calls a predicate on every identifier that an
//! item or a type expression mentions, in a fixed order, and stops at
//! the first identifier that the predicate turns down.
use crate::model::{
    AssocItemConstraint, AssocItemConstraintKind, GenericArg, GenericArgs, GenericBound,
    GenericParamDef, GenericParamDefKind, Id, Impl, Item, ItemKind, Path, PolyTrait, Term, Type,
};
use vstd::prelude::*;

verus! {

/// The error for a construct that the library has no rule for.
#[derive(Clone, Copy, Debug, PartialEq, Eq, Structural)]
pub struct Unsupported;

/// The identifiers that a traversal reaches, in order. A traversal
/// that meets a construct without a rule is not `complete`: its `ids`
/// are those reached before that construct.
pub struct Walk {
    pub ids: Seq<Id>,
    pub complete: bool,
}

impl Walk {
    /// The traversal that reaches nothing.
    pub open spec fn done() -> Walk {
        Walk { ids: Seq::empty(), complete: true }
    }

    /// The traversal that stops at once on a construct without a rule.
    pub open spec fn stuck() -> Walk {
        Walk { ids: Seq::empty(), complete: false }
    }

    /// The traversal that reaches one identifier.
    pub open spec fn one(id: Id) -> Walk {
        Walk { ids: seq![id], complete: true }
    }

    /// The traversal that reaches each of `ids` in turn.
    pub open spec fn all(ids: Seq<Id>) -> Walk {
        Walk { ids, complete: true }
    }

    /// This traversal, and after it `next` if this one is complete.
    pub open spec fn followed_by(self, next: Walk) -> Walk {
        if self.complete {
            Walk { ids: self.ids + next.ids, complete: next.complete }
        } else {
            self
        }
    }
}

/// What a traversal of a type reaches. A path gives its identifier
/// and its arguments; a tuple, a slice, an array, a pointer, a
/// reference and a pattern type give what their parts give; `impl`
/// and `dyn` types give what their bounds give; a qualified path
/// gives its arguments, its trait and then its self type. Function
/// pointers and inferred types have no rule.
pub open spec fn type_walk(t: Type) -> Walk
    decreases t, 0nat,
{
    match t {
        Type::ResolvedPath(path) => path_walk(path),
        Type::DynTrait(traits) => poly_traits_walk(traits, 0),
        Type::Generic(_) | Type::Primitive(_) => Walk::done(),
        Type::FunctionPointer | Type::Infer => Walk::stuck(),
        Type::Tuple(types) => types_walk(types, 0),
        Type::Slice(inner) => type_walk(*inner),
        Type::Array { type_ } => type_walk(*type_),
        Type::Pat { type_ } => type_walk(*type_),
        Type::RawPointer { type_, .. } => type_walk(*type_),
        Type::BorrowedRef { type_, .. } => type_walk(*type_),
        Type::ImplTrait(bounds) => bounds_walk(bounds, 0),
        Type::QualifiedPath { args, self_type, trait_, .. } => opt_args_walk(args).followed_by(
            opt_path_walk(trait_),
        ).followed_by(type_walk(*self_type)),
    }
}

/// What a traversal of a type reaches, and nothing where there is
/// no type.
pub open spec fn opt_type_walk(t: Option<Type>) -> Walk
    decreases t, 0nat,
{
    match t {
        Some(t) => type_walk(t),
        None => Walk::done(),
    }
}

/// The entries of `types` from index `from` on, one after the other.
pub open spec fn types_walk(types: Vec<Type>, from: nat) -> Walk
    decreases types, types.len() - from,
{
    if from >= types.len() {
        Walk::done()
    } else {
        type_walk(types[from as int]).followed_by(types_walk(types, from + 1))
    }
}

/// What a traversal of a path reaches: the identifier of the item
/// that it names, then what its generic arguments give.
pub open spec fn path_walk(path: Path) -> Walk
    decreases path, 0nat,
{
    Walk::one(path.id).followed_by(opt_args_walk(path.args))
}

/// What a traversal of a path reaches, and nothing where there is
/// no path.
pub open spec fn opt_path_walk(path: Option<Path>) -> Walk
    decreases path, 0nat,
{
    match path {
        Some(path) => path_walk(path),
        None => Walk::done(),
    }
}

/// What a traversal of generic arguments reaches, and nothing where
/// there are none.
pub open spec fn opt_args_walk(args: Option<Box<GenericArgs>>) -> Walk
    decreases args, 0nat,
{
    match args {
        Some(args) => args_walk(*args),
        None => Walk::done(),
    }
}

/// What a traversal of generic arguments reaches: between angle
/// brackets the arguments and then the constraints, between round
/// brackets the inputs and then the output.
pub open spec fn args_walk(args: GenericArgs) -> Walk
    decreases args, 0nat,
{
    match args {
        GenericArgs::AngleBracketed { args, constraints } => arg_list_walk(args, 0).followed_by(constraints_walk(constraints, 0)),
        GenericArgs::Parenthesized { inputs, output } => types_walk(inputs, 0).followed_by(opt_type_walk(output)),
        GenericArgs::ReturnTypeNotation => Walk::done(),
    }
}

/// What a traversal of one generic argument reaches: what its type
/// gives. Lifetimes, constants and inferred arguments name no item.
pub open spec fn arg_walk(arg: GenericArg) -> Walk
    decreases arg, 0nat,
{
    match arg {
        GenericArg::Type(t) => type_walk(t),
        GenericArg::Lifetime(_) | GenericArg::Const | GenericArg::Infer => Walk::done(),
    }
}

/// The entries of `args` from index `from` on, one after the other.
pub open spec fn arg_list_walk(args: Vec<GenericArg>, from: nat) -> Walk
    decreases args, args.len() - from,
{
    if from >= args.len() {
        Walk::done()
    } else {
        arg_walk(args[from as int]).followed_by(arg_list_walk(args, from + 1))
    }
}

/// What a traversal of a constraint on an associated item reaches:
/// what its arguments give, then what its right-hand side gives.
pub open spec fn constraint_walk(constraint: AssocItemConstraint) -> Walk
    decreases constraint, 0nat,
{
    opt_args_walk(constraint.args).followed_by(binding_walk(constraint.binding))
}

/// What a traversal of the right-hand side of a constraint reaches:
/// what the type or the bounds give. A constant names no item.
pub open spec fn binding_walk(binding: AssocItemConstraintKind) -> Walk
    decreases binding, 0nat,
{
    match binding {
        AssocItemConstraintKind::Equality(Term::Type(t)) => type_walk(t),
        AssocItemConstraintKind::Equality(Term::Constant) => Walk::done(),
        AssocItemConstraintKind::Constraint(bounds) => bounds_walk(bounds, 0),
    }
}

/// The entries of `constraints` from index `from` on, one after the other.
pub open spec fn constraints_walk(constraints: Vec<AssocItemConstraint>, from: nat) -> Walk
    decreases constraints, constraints.len() - from,
{
    if from >= constraints.len() {
        Walk::done()
    } else {
        constraint_walk(constraints[from as int]).followed_by(constraints_walk(constraints, from + 1))
    }
}

/// What a traversal of a generic parameter reaches: for a type
/// parameter what its default gives and then what its bounds give,
/// for a constant parameter what its type gives.
pub open spec fn param_walk(param: GenericParamDef) -> Walk
    decreases param, 0nat,
{
    match param.kind {
        GenericParamDefKind::Lifetime => Walk::done(),
        GenericParamDefKind::Type { bounds, default, .. } => opt_type_walk(default).followed_by(
            bounds_walk(bounds, 0),
        ),
        GenericParamDefKind::Const { type_ } => type_walk(type_),
    }
}

/// The entries of `params` from index `from` on, one after the other.
pub open spec fn params_walk(params: Vec<GenericParamDef>, from: nat) -> Walk
    decreases params, params.len() - from,
{
    if from >= params.len() {
        Walk::done()
    } else {
        param_walk(params[from as int]).followed_by(params_walk(params, from + 1))
    }
}

/// What a traversal of a bound reaches: for a trait bound what the
/// trait's path gives, then what the bound's own parameters give.
pub open spec fn bound_walk(bound: GenericBound) -> Walk
    decreases bound, 0nat,
{
    match bound {
        GenericBound::TraitBound { trait_, generic_params, .. } => path_walk(trait_).followed_by(
            params_walk(generic_params, 0),
        ),
        GenericBound::Outlives(_) | GenericBound::Use => Walk::done(),
    }
}

/// The entries of `bounds` from index `from` on, one after the other.
pub open spec fn bounds_walk(bounds: Vec<GenericBound>, from: nat) -> Walk
    decreases bounds, bounds.len() - from,
{
    if from >= bounds.len() {
        Walk::done()
    } else {
        bound_walk(bounds[from as int]).followed_by(bounds_walk(bounds, from + 1))
    }
}

/// What a traversal of one trait of a `dyn` type reaches: what the
/// trait's path gives, then what its parameters give.
pub open spec fn poly_trait_walk(poly: PolyTrait) -> Walk
    decreases poly, 0nat,
{
    path_walk(poly.trait_).followed_by(
        params_walk(poly.generic_params, 0),
    )
}

/// The entries of `traits` from index `from` on, one after the other.
pub open spec fn poly_traits_walk(traits: Vec<PolyTrait>, from: nat) -> Walk
    decreases traits, traits.len() - from,
{
    if from >= traits.len() {
        Walk::done()
    } else {
        poly_trait_walk(traits[from as int]).followed_by(poly_traits_walk(traits, from + 1))
    }
}

/// What a traversal of an impl block reaches: what the type it is
/// for gives, then the blanket type, the trait, the members and the
/// generic parameters.
pub open spec fn impl_walk(block: Impl) -> Walk {
    type_walk(block.for_).followed_by(opt_type_walk(block.blanket_impl)).followed_by(
        opt_path_walk(block.trait_),
    ).followed_by(Walk::all(block.items@)).followed_by(
        params_walk(block.generics, 0),
    )
}

/// What a traversal reaches through the kind of an item.
pub open spec fn kind_walk(kind: ItemKind) -> Walk {
    match kind {
        ItemKind::Module { items } => Walk::all(items@),
        ItemKind::ExternCrate | ItemKind::Macro => Walk::done(),
        ItemKind::Import(import) => match import.target {
            Some(target) => Walk::one(target),
            None => Walk::done(),
        },
        ItemKind::Union { fields, impls } => Walk::all(fields@).followed_by(
            Walk::all(impls@),
        ).followed_by(Walk::stuck()),
        ItemKind::Impl(block) => impl_walk(block),
        ItemKind::Constant { type_ } => type_walk(type_),
        ItemKind::AssocConst { type_ } => type_walk(type_),
        _ => Walk::stuck(),
    }
}

/// What a traversal of `item` reaches: the item's own identifier,
/// then what its kind mentions.
pub open spec fn item_walk(item: Item) -> Walk {
    Walk::one(item.id).followed_by(kind_walk(item.kind))
}

/// Whether the visitor lets every identifier of `ids` pass.
pub open spec fn accepts_all<F: Fn(Id) -> bool>(visitor: &F, ids: Seq<Id>) -> bool {
    forall|i: int| 0 <= i < ids.len() ==> visitor.ensures((#[trigger] ids[i],), true)
}

/// Whether `r` is what a traversal over `walk` may return: `Ok(true)`
/// when the traversal is complete and the visitor let every
/// identifier pass, `Ok(false)` when the visitor turned one down
/// after letting all before it pass, and an error when the visitor
/// let every identifier pass up to a construct without a rule.
pub open spec fn visited<F: Fn(Id) -> bool>(
    visitor: &F,
    walk: Walk,
    r: Result<bool, Unsupported>,
) -> bool {
    match r {
        Ok(true) => walk.complete && accepts_all(visitor, walk.ids),
        Ok(false) => exists|i: int|
            0 <= i < walk.ids.len() && accepts_all(visitor, walk.ids.take(i)) && visitor.ensures(
                (#[trigger] walk.ids[i],),
                false,
            ),
        Err(_) => !walk.complete && accepts_all(visitor, walk.ids),
    }
}

/// What a traversal over `walk` returns when `accepts` says of every
/// identifier whether the visitor lets it pass: `Ok(false)` if it
/// turns one down, else `Ok(true)` if the traversal is complete, and
/// else an error.
pub open spec fn outcome(accepts: spec_fn(Id) -> bool, walk: Walk) -> Result<bool, Unsupported> {
    if exists|i: int| 0 <= i < walk.ids.len() && !accepts(#[trigger] walk.ids[i]) {
        Ok(false)
    } else if walk.complete {
        Ok(true)
    } else {
        Err(Unsupported)
    }
}

/// With a visitor whose answer is a function of the identifier, the
/// result of a traversal is a function of what it reaches.
pub proof fn lemma_visited_outcome<F: Fn(Id) -> bool>(
    visitor: &F,
    accepts: spec_fn(Id) -> bool,
    walk: Walk,
    r: Result<bool, Unsupported>,
)
    requires
        forall|id: Id, pass: bool| visitor.ensures((id,), pass) ==> pass == accepts(id),
        visited(visitor, walk, r),
    ensures
        r == outcome(accepts, walk),
{
    match r {
        Ok(false) => {
            let i = choose|i: int|
                0 <= i < walk.ids.len() && accepts_all(visitor, walk.ids.take(i))
                    && visitor.ensures((#[trigger] walk.ids[i],), false);
            assert(!accepts(walk.ids[i]));
        },
        _ => {
            assert forall|i: int| 0 <= i < walk.ids.len() implies accepts(
                #[trigger] walk.ids[i],
            ) by {
                assert(visitor.ensures((walk.ids[i],), true));
            }
            assert(!(exists|i: int| 0 <= i < walk.ids.len() && !accepts(#[trigger] walk.ids[i])));
            if r is Err {
                assert(r->Err_0 == Unsupported);
            }
        },
    }
}

/// A traversal that ended early on `first` ended on `first` followed
/// by anything.
pub proof fn lemma_stopped<F: Fn(Id) -> bool>(
    visitor: &F,
    first: Walk,
    next: Walk,
    r: Result<bool, Unsupported>,
)
    requires
        visited(visitor, first, r),
        r != Ok::<bool, Unsupported>(true),
    ensures
        visited(visitor, first.followed_by(next), r),
{
    if first.complete {
        let i = choose|i: int|
            0 <= i < first.ids.len() && accepts_all(visitor, first.ids.take(i)) && visitor.ensures(
                (#[trigger] first.ids[i],),
                false,
            );
        let both = first.followed_by(next).ids;
        assert(both.take(i) =~= first.ids.take(i));
        assert(both[i] == first.ids[i]);
    }
}

/// A traversal that passed `first` and then gave `r` on `next` gave
/// `r` on the two in a row.
pub proof fn lemma_passed<F: Fn(Id) -> bool>(
    visitor: &F,
    first: Walk,
    next: Walk,
    r: Result<bool, Unsupported>,
)
    requires
        visited(visitor, first, Ok(true)),
        visited(visitor, next, r),
    ensures
        visited(visitor, first.followed_by(next), r),
{
    let both = first.followed_by(next).ids;
    let n = first.ids.len() as int;
    assert forall|k: int| 0 <= k < both.len() && (k < n || accepts_all(visitor, next.ids.take(k - n)))
        implies accepts_all(visitor, both.take(k)) by {
        assert forall|j: int| 0 <= j < both.take(k).len() implies visitor.ensures(
            (#[trigger] both.take(k)[j],),
            true,
        ) by {
            if j < n {
                assert(both.take(k)[j] == first.ids[j]);
            } else {
                assert(both.take(k)[j] == next.ids.take(k - n)[j - n]);
            }
        }
    }
    match r {
        Ok(false) => {
            let i = choose|i: int|
                0 <= i < next.ids.len() && accepts_all(visitor, next.ids.take(i))
                    && visitor.ensures((#[trigger] next.ids[i],), false);
            assert(both[n + i] == next.ids[i]);
            assert(accepts_all(visitor, both.take(n + i)));
        },
        _ => {
            assert forall|j: int| 0 <= j < both.len() implies visitor.ensures(
                (#[trigger] both[j],),
                true,
            ) by {
                if j < n {
                    assert(both[j] == first.ids[j]);
                } else {
                    assert(both[j] == next.ids[j - n]);
                }
            }
        },
    }
}

/// Calls the visitor on each of `ids` in turn, up to the first that
/// it turns down.
pub fn visit_ids<F: Fn(Id) -> bool>(ids: &Vec<Id>, visitor: &F) -> (r: Result<bool, Unsupported>)
    requires
        forall|id: Id| visitor.requires((id,)),
    ensures
        visited(visitor, Walk::all(ids@), r),
        r is Ok,
{
    let mut i: usize = 0;
    while i < ids.len()
        invariant
            i <= ids.len(),
            forall|id: Id| visitor.requires((id,)),
            accepts_all(visitor, ids@.take(i as int)),
        decreases ids.len() - i,
    {
        if !visitor(ids[i]) {
            proof {
                assert(Walk::all(ids@).ids[i as int] == ids[i as int]);
            }
            return Ok(false);
        }
        proof {
            let before = ids@.take(i as int);
            let after = ids@.take(i + 1);
            assert forall|j: int| 0 <= j < after.len() implies visitor.ensures(
                (#[trigger] after[j],),
                true,
            ) by {
                if j < i {
                    assert(after[j] == before[j]);
                }
            }
        }
        i += 1;
    }
    proof {
        assert(ids@.take(i as int) =~= ids@);
    }
    Ok(true)
}

/// Visits a type expression: every identifier that it mentions, in
/// the order of `type_walk`.
pub fn visit_type<F: Fn(Id) -> bool>(t: &Type, visitor: &F) -> (r: Result<bool, Unsupported>)
    requires
        forall|id: Id| visitor.requires((id,)),
    ensures
        visited(visitor, type_walk(*t), r),
    decreases *t, 0nat,
{
    match t {
        Type::ResolvedPath(path) => visit_path(path, visitor),
        Type::DynTrait(traits) => visit_poly_traits(traits, 0, visitor),
        Type::Generic(_) | Type::Primitive(_) => Ok(true),
        Type::FunctionPointer | Type::Infer => Err(Unsupported),
        Type::Tuple(types) => visit_types(types, 0, visitor),
        Type::Slice(inner) => visit_type(inner, visitor),
        Type::Array { type_ } => visit_type(type_, visitor),
        Type::Pat { type_ } => visit_type(type_, visitor),
        Type::RawPointer { type_, .. } => visit_type(type_, visitor),
        Type::BorrowedRef { type_, .. } => visit_type(type_, visitor),
        Type::ImplTrait(bounds) => visit_generic_bounds(bounds, 0, visitor),
        Type::QualifiedPath { args, self_type, trait_, .. } => {
            let ghost a = opt_args_walk(*args);
            let ghost b = opt_path_walk(*trait_);
            let ghost c = type_walk(**self_type);
            let r = visit_opt_args(args, visitor);
            if !is_pass(&r) {
                proof {
                    lemma_stopped(visitor, a, b, r);
                    lemma_stopped(visitor, a.followed_by(b), c, r);
                }
                return r;
            }
            let r = visit_opt_path(trait_, visitor);
            proof {
                lemma_passed(visitor, a, b, r);
            }
            if !is_pass(&r) {
                proof {
                    lemma_stopped(visitor, a.followed_by(b), c, r);
                }
                return r;
            }
            let r = visit_type(self_type, visitor);
            proof {
                lemma_passed(visitor, a.followed_by(b), c, r);
            }
            r
        },
    }
}

/// Whether a traversal went through without a refusal or an error.
pub fn is_pass(r: &Result<bool, Unsupported>) -> (b: bool)
    ensures
        b == (*r == Ok::<bool, Unsupported>(true)),
{
    match r {
        Ok(true) => true,
        _ => false,
    }
}

fn visit_opt_type<F: Fn(Id) -> bool>(t: &Option<Type>, visitor: &F) -> (r: Result<
    bool,
    Unsupported,
>)
    requires
        forall|id: Id| visitor.requires((id,)),
    ensures
        visited(visitor, opt_type_walk(*t), r),
    decreases *t, 0nat,
{
    match t {
        Some(t) => visit_type(t, visitor),
        None => Ok(true),
    }
}

fn visit_types<F: Fn(Id) -> bool>(types: &Vec<Type>, from: usize, visitor: &F) -> (r: Result<
    bool,
    Unsupported,
>)
    requires
        forall|id: Id| visitor.requires((id,)),
    ensures
        visited(visitor, types_walk(*types, from as nat), r),
    decreases *types, types.len() - from,
{
    if from >= types.len() {
        return Ok(true);
    }
    let ghost first = type_walk(types[from as int]);
    let ghost rest = types_walk(*types, (from + 1) as nat);
    let r = visit_type(&types[from], visitor);
    if !is_pass(&r) {
        proof {
            lemma_stopped(visitor, first, rest, r);
        }
        return r;
    }
    let r = visit_types(types, from + 1, visitor);
    proof {
        lemma_passed(visitor, first, rest, r);
    }
    r
}

/// Visits a path: its identifier, then its generic arguments.
pub fn visit_path<F: Fn(Id) -> bool>(path: &Path, visitor: &F) -> (r: Result<bool, Unsupported>)
    requires
        forall|id: Id| visitor.requires((id,)),
    ensures
        visited(visitor, path_walk(*path), r),
    decreases *path, 0nat,
{
    let ghost first = Walk::one(path.id);
    let ghost rest = opt_args_walk(path.args);
    if !visitor(path.id) {
        proof {
            assert(first.ids.take(0) =~= Seq::<Id>::empty());
            assert(first.ids[0] == path.id);
            lemma_stopped(visitor, first, rest, Ok(false));
        }
        return Ok(false);
    }
    let r = visit_opt_args(&path.args, visitor);
    proof {
        lemma_passed(visitor, first, rest, r);
    }
    r
}

fn visit_opt_path<F: Fn(Id) -> bool>(path: &Option<Path>, visitor: &F) -> (r: Result<
    bool,
    Unsupported,
>)
    requires
        forall|id: Id| visitor.requires((id,)),
    ensures
        visited(visitor, opt_path_walk(*path), r),
    decreases *path, 0nat,
{
    match path {
        Some(path) => visit_path(path, visitor),
        None => Ok(true),
    }
}

fn visit_opt_args<F: Fn(Id) -> bool>(args: &Option<Box<GenericArgs>>, visitor: &F) -> (r: Result<
    bool,
    Unsupported,
>)
    requires
        forall|id: Id| visitor.requires((id,)),
    ensures
        visited(visitor, opt_args_walk(*args), r),
    decreases *args, 0nat,
{
    match args {
        Some(args) => visit_generic_args(args, visitor),
        None => Ok(true),
    }
}

/// Visits generic arguments: the type arguments, then the
/// constraints on associated items.
pub fn visit_generic_args<F: Fn(Id) -> bool>(args: &GenericArgs, visitor: &F) -> (r: Result<
    bool,
    Unsupported,
>)
    requires
        forall|id: Id| visitor.requires((id,)),
    ensures
        visited(visitor, args_walk(*args), r),
    decreases *args, 0nat,
{
    match args {
        GenericArgs::AngleBracketed { args, constraints } => {
            let ghost first = arg_list_walk(*args, 0);
            let ghost rest = constraints_walk(*constraints, 0);
            let r = visit_arg_list(args, 0, visitor);
            if !is_pass(&r) {
                proof {
                    lemma_stopped(visitor, first, rest, r);
                }
                return r;
            }
            let r = visit_constraints(constraints, 0, visitor);
            proof {
                lemma_passed(visitor, first, rest, r);
            }
            r
        },
        GenericArgs::Parenthesized { inputs, output } => {
            let ghost first = types_walk(*inputs, 0);
            let ghost rest = opt_type_walk(*output);
            let r = visit_types(inputs, 0, visitor);
            if !is_pass(&r) {
                proof {
                    lemma_stopped(visitor, first, rest, r);
                }
                return r;
            }
            let r = visit_opt_type(output, visitor);
            proof {
                lemma_passed(visitor, first, rest, r);
            }
            r
        },
        GenericArgs::ReturnTypeNotation => Ok(true),
    }
}

fn visit_arg_list<F: Fn(Id) -> bool>(args: &Vec<GenericArg>, from: usize, visitor: &F) -> (r:
    Result<bool, Unsupported>)
    requires
        forall|id: Id| visitor.requires((id,)),
    ensures
        visited(visitor, arg_list_walk(*args, from as nat), r),
    decreases *args, args.len() - from,
{
    if from >= args.len() {
        return Ok(true);
    }
    let ghost first = arg_walk(args[from as int]);
    let ghost rest = arg_list_walk(*args, (from + 1) as nat);
    let r = match &args[from] {
        GenericArg::Type(t) => visit_type(t, visitor),
        GenericArg::Lifetime(_) | GenericArg::Const | GenericArg::Infer => Ok(true),
    };
    if !is_pass(&r) {
        proof {
            lemma_stopped(visitor, first, rest, r);
        }
        return r;
    }
    let r = visit_arg_list(args, from + 1, visitor);
    proof {
        lemma_passed(visitor, first, rest, r);
    }
    r
}

fn visit_constraint<F: Fn(Id) -> bool>(constraint: &AssocItemConstraint, visitor: &F) -> (r:
    Result<bool, Unsupported>)
    requires
        forall|id: Id| visitor.requires((id,)),
    ensures
        visited(visitor, constraint_walk(*constraint), r),
    decreases *constraint, 0nat,
{
    let ghost first = opt_args_walk(constraint.args);
    let ghost rest = binding_walk(constraint.binding);
    let r = visit_opt_args(&constraint.args, visitor);
    if !is_pass(&r) {
        proof {
            lemma_stopped(visitor, first, rest, r);
        }
        return r;
    }
    let r = match &constraint.binding {
        AssocItemConstraintKind::Equality(Term::Type(t)) => visit_type(t, visitor),
        AssocItemConstraintKind::Equality(Term::Constant) => Ok(true),
        AssocItemConstraintKind::Constraint(bounds) => visit_generic_bounds(bounds, 0, visitor),
    };
    proof {
        lemma_passed(visitor, first, rest, r);
    }
    r
}

fn visit_constraints<F: Fn(Id) -> bool>(
    constraints: &Vec<AssocItemConstraint>,
    from: usize,
    visitor: &F,
) -> (r: Result<bool, Unsupported>)
    requires
        forall|id: Id| visitor.requires((id,)),
    ensures
        visited(visitor, constraints_walk(*constraints, from as nat), r),
    decreases *constraints, constraints.len() - from,
{
    if from >= constraints.len() {
        return Ok(true);
    }
    let ghost first = constraint_walk(constraints[from as int]);
    let ghost rest = constraints_walk(*constraints, (from + 1) as nat);
    let r = visit_constraint(&constraints[from], visitor);
    if !is_pass(&r) {
        proof {
            lemma_stopped(visitor, first, rest, r);
        }
        return r;
    }
    let r = visit_constraints(constraints, from + 1, visitor);
    proof {
        lemma_passed(visitor, first, rest, r);
    }
    r
}

fn visit_param<F: Fn(Id) -> bool>(param: &GenericParamDef, visitor: &F) -> (r: Result<
    bool,
    Unsupported,
>)
    requires
        forall|id: Id| visitor.requires((id,)),
    ensures
        visited(visitor, param_walk(*param), r),
    decreases *param, 0nat,
{
    match &param.kind {
        GenericParamDefKind::Lifetime => Ok(true),
        GenericParamDefKind::Type { bounds, default, .. } => {
            let ghost first = opt_type_walk(*default);
            let ghost rest = bounds_walk(*bounds, 0);
            let r = visit_opt_type(default, visitor);
            if !is_pass(&r) {
                proof {
                    lemma_stopped(visitor, first, rest, r);
                }
                return r;
            }
            let r = visit_generic_bounds(bounds, 0, visitor);
            proof {
                lemma_passed(visitor, first, rest, r);
            }
            r
        },
        GenericParamDefKind::Const { type_ } => visit_type(type_, visitor),
    }
}

/// Visits generic parameters from index `from` on: for each type
/// parameter its default, then its bounds; for each constant
/// parameter its type.
pub fn visit_generic_params<F: Fn(Id) -> bool>(
    params: &Vec<GenericParamDef>,
    from: usize,
    visitor: &F,
) -> (r: Result<bool, Unsupported>)
    requires
        forall|id: Id| visitor.requires((id,)),
    ensures
        visited(visitor, params_walk(*params, from as nat), r),
    decreases *params, params.len() - from,
{
    if from >= params.len() {
        return Ok(true);
    }
    let ghost first = param_walk(params[from as int]);
    let ghost rest = params_walk(*params, (from + 1) as nat);
    let r = visit_param(&params[from], visitor);
    if !is_pass(&r) {
        proof {
            lemma_stopped(visitor, first, rest, r);
        }
        return r;
    }
    let r = visit_generic_params(params, from + 1, visitor);
    proof {
        lemma_passed(visitor, first, rest, r);
    }
    r
}

fn visit_bound<F: Fn(Id) -> bool>(bound: &GenericBound, visitor: &F) -> (r: Result<
    bool,
    Unsupported,
>)
    requires
        forall|id: Id| visitor.requires((id,)),
    ensures
        visited(visitor, bound_walk(*bound), r),
    decreases *bound, 0nat,
{
    match bound {
        GenericBound::TraitBound { trait_, generic_params, .. } => {
            let ghost first = path_walk(*trait_);
            let ghost rest = params_walk(*generic_params, 0);
            let r = visit_path(trait_, visitor);
            if !is_pass(&r) {
                proof {
                    lemma_stopped(visitor, first, rest, r);
                }
                return r;
            }
            let r = visit_generic_params(generic_params, 0, visitor);
            proof {
                lemma_passed(visitor, first, rest, r);
            }
            r
        },
        GenericBound::Outlives(_) | GenericBound::Use => Ok(true),
    }
}

/// Visits bounds from index `from` on: for each trait bound the
/// trait's path, then the bound's own generic parameters.
pub fn visit_generic_bounds<F: Fn(Id) -> bool>(
    bounds: &Vec<GenericBound>,
    from: usize,
    visitor: &F,
) -> (r: Result<bool, Unsupported>)
    requires
        forall|id: Id| visitor.requires((id,)),
    ensures
        visited(visitor, bounds_walk(*bounds, from as nat), r),
    decreases *bounds, bounds.len() - from,
{
    if from >= bounds.len() {
        return Ok(true);
    }
    let ghost first = bound_walk(bounds[from as int]);
    let ghost rest = bounds_walk(*bounds, (from + 1) as nat);
    let r = visit_bound(&bounds[from], visitor);
    if !is_pass(&r) {
        proof {
            lemma_stopped(visitor, first, rest, r);
        }
        return r;
    }
    let r = visit_generic_bounds(bounds, from + 1, visitor);
    proof {
        lemma_passed(visitor, first, rest, r);
    }
    r
}

fn visit_poly_trait<F: Fn(Id) -> bool>(poly: &PolyTrait, visitor: &F) -> (r: Result<
    bool,
    Unsupported,
>)
    requires
        forall|id: Id| visitor.requires((id,)),
    ensures
        visited(visitor, poly_trait_walk(*poly), r),
    decreases *poly, 0nat,
{
    let ghost first = path_walk(poly.trait_);
    let ghost rest = params_walk(poly.generic_params, 0);
    let r = visit_path(&poly.trait_, visitor);
    if !is_pass(&r) {
        proof {
            lemma_stopped(visitor, first, rest, r);
        }
        return r;
    }
    let r = visit_generic_params(&poly.generic_params, 0, visitor);
    proof {
        lemma_passed(visitor, first, rest, r);
    }
    r
}

fn visit_poly_traits<F: Fn(Id) -> bool>(traits: &Vec<PolyTrait>, from: usize, visitor: &F) -> (r:
    Result<bool, Unsupported>)
    requires
        forall|id: Id| visitor.requires((id,)),
    ensures
        visited(visitor, poly_traits_walk(*traits, from as nat), r),
    decreases *traits, traits.len() - from,
{
    if from >= traits.len() {
        return Ok(true);
    }
    let ghost first = poly_trait_walk(traits[from as int]);
    let ghost rest = poly_traits_walk(*traits, (from + 1) as nat);
    let r = visit_poly_trait(&traits[from], visitor);
    if !is_pass(&r) {
        proof {
            lemma_stopped(visitor, first, rest, r);
        }
        return r;
    }
    let r = visit_poly_traits(traits, from + 1, visitor);
    proof {
        lemma_passed(visitor, first, rest, r);
    }
    r
}

/// Visits an item: its own identifier, then every identifier that
/// its kind mentions, in the order of `item_walk`. The result is
/// `Ok(true)` when the visitor let all of them pass, `Ok(false)` from
/// the first that it turned down, and an error when the traversal
/// came to a kind or a type without a rule before any refusal.
pub fn visit_item<F: Fn(Id) -> bool>(item: &Item, visitor: &F) -> (r: Result<bool, Unsupported>)
    requires
        forall|id: Id| visitor.requires((id,)),
    ensures
        visited(visitor, item_walk(*item), r),
{
    let ghost first = Walk::one(item.id);
    let ghost rest = kind_walk(item.kind);
    if !visitor(item.id) {
        proof {
            assert(first.ids.take(0) =~= Seq::<Id>::empty());
            assert(first.ids[0] == item.id);
            lemma_stopped(visitor, first, rest, Ok(false));
        }
        return Ok(false);
    }
    let r = visit_kind(&item.kind, visitor);
    proof {
        lemma_passed(visitor, first, rest, r);
    }
    r
}

fn visit_kind<F: Fn(Id) -> bool>(kind: &ItemKind, visitor: &F) -> (r: Result<bool, Unsupported>)
    requires
        forall|id: Id| visitor.requires((id,)),
    ensures
        visited(visitor, kind_walk(*kind), r),
{
    match kind {
        ItemKind::Module { items } => visit_ids(items, visitor),
        ItemKind::ExternCrate | ItemKind::Macro => Ok(true),
        ItemKind::Import(import) => match import.target {
            Some(target) => {
                let pass = visitor(target);
                proof {
                    if !pass {
                        assert(Walk::one(target).ids.take(0) =~= Seq::<Id>::empty());
                        assert(Walk::one(target).ids[0] == target);
                    }
                }
                Ok(pass)
            },
            None => Ok(true),
        },
        ItemKind::Union { fields, impls } => {
            let ghost a = Walk::all(fields@);
            let ghost b = Walk::all(impls@);
            let r = visit_ids(fields, visitor);
            if !is_pass(&r) {
                proof {
                    lemma_stopped(visitor, a, b, r);
                    lemma_stopped(visitor, a.followed_by(b), Walk::stuck(), r);
                }
                return r;
            }
            let r = visit_ids(impls, visitor);
            proof {
                lemma_passed(visitor, a, b, r);
            }
            if !is_pass(&r) {
                proof {
                    lemma_stopped(visitor, a.followed_by(b), Walk::stuck(), r);
                }
                return r;
            }
            proof {
                lemma_passed(visitor, a.followed_by(b), Walk::stuck(), Err(Unsupported));
            }
            Err(Unsupported)
        },
        ItemKind::Impl(block) => visit_impl(block, visitor),
        ItemKind::Constant { type_ } => visit_type(type_, visitor),
        ItemKind::AssocConst { type_ } => visit_type(type_, visitor),
        _ => Err(Unsupported),
    }
}

fn visit_impl<F: Fn(Id) -> bool>(block: &Impl, visitor: &F) -> (r: Result<bool, Unsupported>)
    requires
        forall|id: Id| visitor.requires((id,)),
    ensures
        visited(visitor, impl_walk(*block), r),
{
    let ghost a = type_walk(block.for_);
    let ghost b = opt_type_walk(block.blanket_impl);
    let ghost c = opt_path_walk(block.trait_);
    let ghost d = Walk::all(block.items@);
    let ghost e = params_walk(block.generics, 0);
    let ghost ab = a.followed_by(b);
    let ghost abc = ab.followed_by(c);
    let ghost abcd = abc.followed_by(d);
    let r = visit_type(&block.for_, visitor);
    if !is_pass(&r) {
        proof {
            lemma_stopped(visitor, a, b, r);
            lemma_stopped(visitor, ab, c, r);
            lemma_stopped(visitor, abc, d, r);
            lemma_stopped(visitor, abcd, e, r);
        }
        return r;
    }
    let r = visit_opt_type(&block.blanket_impl, visitor);
    proof {
        lemma_passed(visitor, a, b, r);
    }
    if !is_pass(&r) {
        proof {
            lemma_stopped(visitor, ab, c, r);
            lemma_stopped(visitor, abc, d, r);
            lemma_stopped(visitor, abcd, e, r);
        }
        return r;
    }
    let r = visit_opt_path(&block.trait_, visitor);
    proof {
        lemma_passed(visitor, ab, c, r);
    }
    if !is_pass(&r) {
        proof {
            lemma_stopped(visitor, abc, d, r);
            lemma_stopped(visitor, abcd, e, r);
        }
        return r;
    }
    let r = visit_ids(&block.items, visitor);
    proof {
        lemma_passed(visitor, abc, d, r);
    }
    if !is_pass(&r) {
        proof {
            lemma_stopped(visitor, abcd, e, r);
        }
        return r;
    }
    let r = visit_generic_params(&block.generics, 0, visitor);
    proof {
        lemma_passed(visitor, abcd, e, r);
    }
    r
}

} // verus!
