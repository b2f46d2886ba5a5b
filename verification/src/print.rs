//! The signature printer: writes documentation comments, function
//! signatures and type expressions as source text, with paths made
//! canonical by a resolver.
use crate::model::{
    Function, GenericArg, GenericArgs, GenericBound, GenericParamDef, GenericParamDefKind,
    GraphView, Id, Item, Param, Path, TraitBoundModifier, Type,
};
use crate::resolver::{path_of, PathResolver, Resolution};
use crate::text::{join, joined, lines, split_lines, starts_with};
use crate::visitor::Unsupported;
use vstd::prelude::*;
use vstd::string::*;

verus! {

/// `name` with a leading `crate::` replaced by the name of the
/// graph's root module.
pub open spec fn rooted(g: GraphView, name: Seq<char>) -> Seq<char> {
    if "crate::"@.is_prefix_of(name) {
        match g.declared_name(g.root) {
            Some(root) => root + "::"@ + name.skip("crate::"@.len() as int),
            None => name,
        }
    } else {
        name
    }
}

/// `text`, unless it is empty.
pub open spec fn filled(text: Seq<char>) -> Option<Seq<char>> {
    if text.len() > 0 {
        Some(text)
    } else {
        None
    }
}

/// The canonical path of `id` with `::` between its segments. A
/// path that comes to no text at all counts as none.
pub open spec fn canonical_name(g: GraphView, r: Resolution, id: Id) -> Option<Seq<char>> {
    match path_of(g, r, id) {
        Some(segments) => filled(joined(segments, "::"@)),
        None => None,
    }
}

/// The name under which a bound or an impl header shows `path`: its
/// canonical path, or the name it was written with if it has no
/// canonical path. There is none if that name is empty.
pub open spec fn path_name(g: GraphView, r: Resolution, path: Path) -> Option<Seq<char>> {
    match canonical_name(g, r, path.id) {
        Some(text) => Some(text),
        None => filled(path.name@),
    }
}

/// As `path_name`, where a name that is kept as written has its
/// leading `crate::` replaced by the root's name.
pub open spec fn resolved_name(g: GraphView, r: Resolution, path: Path) -> Option<Seq<char>> {
    match canonical_name(g, r, path.id) {
        Some(text) => Some(text),
        None => filled(rooted(g, path.name@)),
    }
}

/// `b` after `a`, where both are there.
pub open spec fn both(a: Option<Seq<char>>, b: Option<Seq<char>>) -> Option<Seq<char>> {
    match (a, b) {
        (Some(a), Some(b)) => Some(a + b),
        _ => None,
    }
}

/// The text of a type, or `None` if the type or a part of it has no
/// written form here: function pointers, arrays, raw pointers,
/// `impl` and `dyn` types, inferred and pattern types, references
/// with a named lifetime, and names that are empty.
pub open spec fn type_text(g: GraphView, r: Resolution, t: Type) -> Option<Seq<char>>
    decreases t, 0nat,
{
    match t {
        Type::ResolvedPath(path) => both(
            resolved_name(g, r, path),
            opt_args_text(g, r, path.args),
        ),
        Type::Generic(name) => filled(name@),
        Type::Primitive(name) => filled(name@),
        Type::Tuple(types) => both(
            both(Some("("@), types_text(g, r, types, 0)),
            Some(
                if types.len() == 1 {
                    ",)"@
                } else {
                    ")"@
                },
            ),
        ),
        Type::Slice(inner) => both(both(Some("["@), type_text(g, r, *inner)), Some("]"@)),
        Type::BorrowedRef { lifetime: None, mutable, type_ } => both(
            Some(
                if mutable {
                    "&mut "@
                } else {
                    "&"@
                },
            ),
            type_text(g, r, *type_),
        ),
        Type::QualifiedPath { name, args, self_type, trait_ } => both(
            both(
                match trait_ {
                    Some(path) => both(
                        both(
                            both(Some("<"@), type_text(g, r, *self_type)),
                            both(Some(" as "@), path_text(g, r, path)),
                        ),
                        Some(">::"@),
                    ),
                    None => both(type_text(g, r, *self_type), Some("::"@)),
                },
                Some(name@),
            ),
            opt_args_text(g, r, args),
        ),
        _ => None,
    }
}

/// The types of `types` from index `from` on, with `, ` between
/// each two.
pub open spec fn types_text(g: GraphView, r: Resolution, types: Vec<Type>, from: nat) -> Option<
    Seq<char>,
>
    decreases types, types.len() - from,
{
    if from >= types.len() {
        Some(Seq::empty())
    } else if from + 1 == types.len() {
        type_text(g, r, types[from as int])
    } else {
        both(
            both(type_text(g, r, types[from as int]), Some(", "@)),
            types_text(g, r, types, from + 1),
        )
    }
}

/// The text of a path in a bound or an impl header: its canonical
/// path or the name it was written with, then its arguments.
pub open spec fn path_text(g: GraphView, r: Resolution, path: Path) -> Option<Seq<char>>
    decreases path, 0nat,
{
    both(path_name(g, r, path), opt_args_text(g, r, path.args))
}

/// The text of the generic arguments of a path: nothing where the
/// path has none.
pub open spec fn opt_args_text(g: GraphView, r: Resolution, args: Option<Box<GenericArgs>>) -> Option<
    Seq<char>,
>
    decreases args, 0nat,
{
    match args {
        Some(args) => args_text(g, r, *args),
        None => Some(Seq::empty()),
    }
}

/// The text of generic arguments: nothing for an empty list, else
/// the arguments between `<` and `>` with `,` between each two.
/// Constraints on associated items and the parenthesized forms have
/// no written form here.
pub open spec fn args_text(g: GraphView, r: Resolution, args: GenericArgs) -> Option<Seq<char>>
    decreases args, 0nat,
{
    match args {
        GenericArgs::AngleBracketed { args, constraints } => if constraints.len() > 0 {
            None
        } else if args.len() == 0 {
            Some(Seq::empty())
        } else {
            both(both(Some("<"@), arg_list_text(g, r, args, 0)), Some(">"@))
        },
        _ => None,
    }
}

/// The text of one generic argument: a lifetime after a backtick, a
/// type as `type_text` has it, `_` for an inferred argument. A
/// constant argument has no written form here.
pub open spec fn arg_text(g: GraphView, r: Resolution, arg: GenericArg) -> Option<Seq<char>>
    decreases arg, 0nat,
{
    match arg {
        GenericArg::Lifetime(name) => Some("`"@ + name@),
        GenericArg::Type(t) => type_text(g, r, t),
        GenericArg::Infer => Some("_"@),
        GenericArg::Const => None,
    }
}

/// The arguments of `args` from index `from` on, with `,` between
/// each two.
pub open spec fn arg_list_text(g: GraphView, r: Resolution, args: Vec<GenericArg>, from: nat) -> Option<
    Seq<char>,
>
    decreases args, args.len() - from,
{
    if from >= args.len() {
        Some(Seq::empty())
    } else if from + 1 == args.len() {
        arg_text(g, r, args[from as int])
    } else {
        both(
            both(arg_text(g, r, args[from as int]), Some(","@)),
            arg_list_text(g, r, args, from + 1),
        )
    }
}

/// The text of one bound of a type parameter: the trait's path. A
/// bound with a modifier or with parameters of its own, and a bound
/// that is no trait, have no written form here.
pub open spec fn bound_text(g: GraphView, r: Resolution, bound: GenericBound) -> Option<Seq<char>> {
    match bound {
        GenericBound::TraitBound { trait_, generic_params, modifier } => if generic_params.len()
            > 0 || modifier != TraitBoundModifier::Plain {
            None
        } else {
            path_text(g, r, trait_)
        },
        _ => None,
    }
}

/// The bounds of `bounds` from index `from` on, with ` + ` between
/// each two.
pub open spec fn bounds_text(g: GraphView, r: Resolution, bounds: Seq<GenericBound>, from: nat) -> Option<
    Seq<char>,
>
    decreases bounds.len() - from,
{
    if from >= bounds.len() {
        Some(Seq::empty())
    } else if from + 1 == bounds.len() {
        bound_text(g, r, bounds[from as int])
    } else {
        both(
            both(bound_text(g, r, bounds[from as int]), Some(" + "@)),
            bounds_text(g, r, bounds, from + 1),
        )
    }
}

/// The text of one generic parameter of a function: its name, and
/// after `: ` its bounds if it has any. Only type parameters that
/// were written out and have no default have a written form here.
pub open spec fn param_text(g: GraphView, r: Resolution, param: GenericParamDef) -> Option<
    Seq<char>,
> {
    match param.kind {
        GenericParamDefKind::Type { bounds, default, synthetic } => if synthetic
            || default is Some {
            None
        } else if bounds.len() == 0 {
            Some(param.name@)
        } else {
            both(Some(param.name@ + ": "@), bounds_text(g, r, bounds@, 0))
        },
        _ => None,
    }
}

/// The parameters of `params` from index `from` on, with `, `
/// between each two.
pub open spec fn params_text(
    g: GraphView,
    r: Resolution,
    params: Seq<GenericParamDef>,
    from: nat,
) -> Option<Seq<char>>
    decreases params.len() - from,
{
    if from >= params.len() {
        Some(Seq::empty())
    } else if from + 1 == params.len() {
        param_text(g, r, params[from as int])
    } else {
        both(
            both(param_text(g, r, params[from as int]), Some(", "@)),
            params_text(g, r, params, from + 1),
        )
    }
}

/// The inputs of `inputs` from index `from` on, each as its name,
/// `: ` and its type, with `, ` between each two.
pub open spec fn inputs_text(g: GraphView, r: Resolution, inputs: Seq<Param>, from: nat) -> Option<
    Seq<char>,
>
    decreases inputs.len() - from,
{
    if from >= inputs.len() {
        Some(Seq::empty())
    } else {
        let one = both(
            Some(inputs[from as int].name@ + ": "@),
            type_text(g, r, inputs[from as int].type_),
        );
        if from + 1 == inputs.len() {
            one
        } else {
            both(both(one, Some(", "@)), inputs_text(g, r, inputs, from + 1))
        }
    }
}

/// What follows a function's name in its signature: the generic
/// parameters between `<` and `>` if there are any, the inputs
/// between `(` and `)`, and after ` -> ` the output if there is one.
pub open spec fn function_args_text(g: GraphView, r: Resolution, function: Function) -> Option<
    Seq<char>,
> {
    both(
        both(
            if function.generics.len() == 0 {
                Some(Seq::empty())
            } else {
                both(both(Some("<"@), params_text(g, r, function.generics@, 0)), Some(">"@))
            },
            both(both(Some("("@), inputs_text(g, r, function.inputs@, 0)), Some(")"@)),
        ),
        match function.output {
            Some(t) => both(Some(" -> "@), type_text(g, r, t)),
            None => Some(Seq::empty()),
        },
    )
}

/// The signature of a function: `fn`, its name, and what
/// `function_args_text` has.
pub open spec fn function_text(g: GraphView, r: Resolution, name: Seq<char>, function: Function) -> Option<
    Seq<char>,
> {
    both(Some("fn "@ + name), function_args_text(g, r, function))
}

/// The first `n` of `parts`, each after `/// ` and before a line
/// feed.
pub open spec fn comment_lines(parts: Seq<Seq<char>>, n: nat) -> Seq<char>
    decreases n,
{
    if n == 0 || n > parts.len() {
        Seq::empty()
    } else {
        comment_lines(parts, (n - 1) as nat) + "/// "@ + parts[n - 1] + "\n"@
    }
}

/// The documentation of an item as a comment: one line for each
/// line of the documentation, and nothing if the item has none.
pub open spec fn doc_text(item: Item) -> Seq<char> {
    match item.docs {
        Some(docs) => comment_lines(lines(docs@), lines(docs@).len()),
        None => Seq::empty(),
    }
}


/// Never blank: a type that has a written form has one that is not
/// empty.
pub proof fn lemma_type_text_not_empty(g: GraphView, r: Resolution, t: Type)
    ensures
        type_text(g, r, t) matches Some(text) ==> text.len() > 0,
{
    reveal_strlit("(");
    reveal_strlit("[");
    reveal_strlit("&");
    reveal_strlit("&mut ");
    reveal_strlit("::");
    reveal_strlit(">::");
}

/// Whether a function pointer stands in a place of `t` that is
/// written out: `t` itself, an element of a tuple or a slice, what a
/// reference or a pointer leads to, a generic argument, or the self
/// type or the trait of a qualified path.
pub open spec fn holds_function_pointer(t: Type) -> bool
    decreases t, 0nat,
{
    match t {
        Type::FunctionPointer => true,
        Type::ResolvedPath(path) => opt_args_hold_function_pointer(path.args),
        Type::Tuple(types) => types_hold_function_pointer(types, 0),
        Type::Slice(inner) => holds_function_pointer(*inner),
        Type::Array { type_ } => holds_function_pointer(*type_),
        Type::Pat { type_ } => holds_function_pointer(*type_),
        Type::RawPointer { type_, .. } => holds_function_pointer(*type_),
        Type::BorrowedRef { type_, .. } => holds_function_pointer(*type_),
        Type::QualifiedPath { args, self_type, trait_, .. } => holds_function_pointer(*self_type)
            || opt_args_hold_function_pointer(args) || match trait_ {
            Some(path) => opt_args_hold_function_pointer(path.args),
            None => false,
        },
        _ => false,
    }
}

/// Whether one of `types` from index `from` on holds a function
/// pointer.
pub open spec fn types_hold_function_pointer(types: Vec<Type>, from: nat) -> bool
    decreases types, types.len() - from,
{
    from < types.len() && (holds_function_pointer(types[from as int])
        || types_hold_function_pointer(types, from + 1))
}

/// Whether the generic arguments of a path, if it has any, hold a
/// function pointer.
pub open spec fn opt_args_hold_function_pointer(args: Option<Box<GenericArgs>>) -> bool
    decreases args, 0nat,
{
    match args {
        Some(args) => args_hold_function_pointer(*args),
        None => false,
    }
}

/// Whether one of the type arguments between angle brackets holds a
/// function pointer.
pub open spec fn args_hold_function_pointer(args: GenericArgs) -> bool
    decreases args, 0nat,
{
    match args {
        GenericArgs::AngleBracketed { args, .. } => arg_list_holds_function_pointer(args, 0),
        _ => false,
    }
}

/// Whether one of `args` from index `from` on is a type that holds
/// a function pointer.
pub open spec fn arg_list_holds_function_pointer(args: Vec<GenericArg>, from: nat) -> bool
    decreases args, args.len() - from,
{
    from < args.len() && (match args[from as int] {
        GenericArg::Type(t) => holds_function_pointer(t),
        _ => false,
    } || arg_list_holds_function_pointer(args, from + 1))
}

/// A function pointer fails loud at any depth: a type that holds
/// one in a place that is written out has no written form.
pub proof fn lemma_function_pointer_has_no_text(g: GraphView, r: Resolution, t: Type)
    requires
        holds_function_pointer(t),
    ensures
        type_text(g, r, t) is None,
    decreases t, 0nat,
{
    match t {
        Type::ResolvedPath(path) => {
            lemma_function_pointer_in_opt_args(g, r, path.args);
            assert(type_text(g, r, t) is None);
        },
        Type::Tuple(types) => {
            lemma_function_pointer_in_types(g, r, types, 0);
            assert(type_text(g, r, t) is None);
        },
        Type::Slice(inner) => {
            lemma_function_pointer_has_no_text(g, r, *inner);
            assert(type_text(g, r, t) is None);
        },
        Type::BorrowedRef { type_, .. } => {
            lemma_function_pointer_has_no_text(g, r, *type_);
            assert(type_text(g, r, t) is None);
        },
        Type::QualifiedPath { args, self_type, trait_, .. } => {
            if holds_function_pointer(*self_type) {
                lemma_function_pointer_has_no_text(g, r, *self_type);
            } else if opt_args_hold_function_pointer(args) {
                lemma_function_pointer_in_opt_args(g, r, args);
            } else {
                lemma_function_pointer_in_opt_args(g, r, trait_->Some_0.args);
                assert(path_text(g, r, trait_->Some_0) is None);
            }
            assert(type_text(g, r, t) is None);
        },
        _ => {},
    }
}

/// A list of types with a function pointer in it has no text.
proof fn lemma_function_pointer_in_types(g: GraphView, r: Resolution, types: Vec<Type>, from: nat)
    requires
        types_hold_function_pointer(types, from),
    ensures
        types_text(g, r, types, from) is None,
    decreases types, types.len() - from,
{
    if holds_function_pointer(types[from as int]) {
        lemma_function_pointer_has_no_text(g, r, types[from as int]);
    } else {
        lemma_function_pointer_in_types(g, r, types, from + 1);
    }
}

/// Generic arguments with a function pointer in them have no text.
proof fn lemma_function_pointer_in_opt_args(
    g: GraphView,
    r: Resolution,
    args: Option<Box<GenericArgs>>,
)
    requires
        opt_args_hold_function_pointer(args),
    ensures
        opt_args_text(g, r, args) is None,
    decreases args, 0nat,
{
    match *args->Some_0 {
        GenericArgs::AngleBracketed { args, .. } => {
            lemma_function_pointer_in_arg_list(g, r, args, 0);
        },
        _ => {},
    }
}

/// A list of arguments with a function pointer in it has no text.
proof fn lemma_function_pointer_in_arg_list(
    g: GraphView,
    r: Resolution,
    args: Vec<GenericArg>,
    from: nat,
)
    requires
        arg_list_holds_function_pointer(args, from),
    ensures
        arg_list_text(g, r, args, from) is None,
    decreases args, args.len() - from,
{
    let here = match args[from as int] {
        GenericArg::Type(t) => holds_function_pointer(t),
        _ => false,
    };
    if here {
        lemma_function_pointer_has_no_text(g, r, args[from as int]->Type_0);
        assert(arg_text(g, r, args[from as int]) is None);
    } else {
        lemma_function_pointer_in_arg_list(g, r, args, from + 1);
    }
}

/// Whether an input or the output of `function` holds a function
/// pointer.
pub open spec fn function_holds_function_pointer(function: Function) -> bool {
    (exists|i: int|
        0 <= i < function.inputs.len() && holds_function_pointer(
            (#[trigger] function.inputs[i]).type_,
        )) || match function.output {
        Some(t) => holds_function_pointer(t),
        None => false,
    }
}

/// A list of inputs with a function pointer in it has no text.
proof fn lemma_function_pointer_in_inputs(
    g: GraphView,
    r: Resolution,
    inputs: Seq<Param>,
    from: nat,
    at: int,
)
    requires
        from <= at < inputs.len(),
        holds_function_pointer(inputs[at].type_),
    ensures
        inputs_text(g, r, inputs, from) is None,
    decreases at - from,
{
    if from < at {
        lemma_function_pointer_in_inputs(g, r, inputs, from + 1, at);
    } else {
        lemma_function_pointer_has_no_text(g, r, inputs[at].type_);
    }
}

/// No signature leaves a function pointer out: a function with a
/// function pointer in an input or in its output, at any depth, has
/// no written signature.
pub proof fn lemma_function_pointer_has_no_signature(
    g: GraphView,
    r: Resolution,
    name: Seq<char>,
    function: Function,
)
    requires
        function_holds_function_pointer(function),
    ensures
        function_args_text(g, r, function) is None,
        function_text(g, r, name, function) is None,
{
    if exists|i: int|
        0 <= i < function.inputs.len() && holds_function_pointer(
            (#[trigger] function.inputs[i]).type_,
        ) {
        let at = choose|i: int|
            0 <= i < function.inputs.len() && holds_function_pointer(
                (#[trigger] function.inputs[i]).type_,
            );
        lemma_function_pointer_in_inputs(g, r, function.inputs@, 0, at);
    } else {
        lemma_function_pointer_has_no_text(g, r, function.output->Some_0);
    }
}

/// Whether `r` holds the text `text`, or fails where there is none.
pub open spec fn rendered(text: Option<Seq<char>>, r: Result<String, Unsupported>) -> bool {
    match text {
        Some(text) => r is Ok && r.unwrap()@ == text,
        None => r is Err,
    }
}

/// Whether a call that appends to `after` what it could render left
/// `after` as `before` and the text `text`, or, where there is no
/// text, failed and left it as `before`.
pub open spec fn appended(
    text: Option<Seq<char>>,
    before: Seq<char>,
    after: Seq<char>,
    r: Result<(), Unsupported>,
) -> bool {
    match text {
        Some(text) => r is Ok && after == before + text,
        None => r is Err && after == before,
    }
}

fn append_to(out: &mut String, text: Result<String, Unsupported>) -> (r: Result<(), Unsupported>)
    ensures
        match text {
            Ok(s) => r is Ok && final(out)@ == old(out)@ + s@,
            Err(_) => r is Err && final(out)@ == old(out)@,
        },
{
    match text {
        Ok(s) => {
            out.append(s.as_str());
            Ok(())
        },
        Err(e) => Err(e),
    }
}

fn rooted_name(resolver: &PathResolver, name: &str) -> (r: String)
    requires
        resolver.wf(),
    ensures
        r@ == rooted(resolver.graph(), name@),
{
    proof {
        resolver.lemma_root_named();
    }
    if starts_with(name, "crate::") {
        let mut out = resolver.root().name.clone();
        out.append("::");
        out.append(name.substring_char("crate::".unicode_len(), name.unicode_len()));
        out
    } else {
        name.to_owned()
    }
}

fn filled_text(text: String) -> (r: Result<String, Unsupported>)
    ensures
        rendered(filled(text@), r),
{
    if text.as_str().is_empty() {
        Err(Unsupported)
    } else {
        Ok(text)
    }
}

fn render_canonical_name(resolver: &PathResolver, id: Id) -> (r: Option<String>)
    requires
        resolver.wf(),
    ensures
        match canonical_name(resolver.graph(), resolver@, id) {
            Some(text) => r is Some && r.unwrap()@ == text,
            None => r is None,
        },
{
    match resolver.path(id) {
        Some(segments) => {
            let text = join(&segments, "::");
            if text.as_str().is_empty() {
                None
            } else {
                Some(text)
            }
        },
        None => None,
    }
}

fn render_path_name(resolver: &PathResolver, path: &Path) -> (r: Result<String, Unsupported>)
    requires
        resolver.wf(),
    ensures
        rendered(path_name(resolver.graph(), resolver@, *path), r),
{
    match render_canonical_name(resolver, path.id) {
        Some(text) => Ok(text),
        None => filled_text(path.name.clone()),
    }
}

fn render_resolved_name(resolver: &PathResolver, path: &Path) -> (r: Result<String, Unsupported>)
    requires
        resolver.wf(),
    ensures
        rendered(resolved_name(resolver.graph(), resolver@, *path), r),
{
    match render_canonical_name(resolver, path.id) {
        Some(text) => Ok(text),
        None => filled_text(rooted_name(resolver, path.name.as_str())),
    }
}

fn render_type(resolver: &PathResolver, t: &Type) -> (r: Result<String, Unsupported>)
    requires
        resolver.wf(),
    ensures
        rendered(type_text(resolver.graph(), resolver@, *t), r),
    decreases *t, 0nat,
{
    match t {
        Type::ResolvedPath(path) => {
            let mut out = render_resolved_name(resolver, path)?;
            let args = render_opt_args(resolver, &path.args)?;
            out.append(args.as_str());
            Ok(out)
        },
        Type::Generic(name) => filled_text(name.clone()),
        Type::Primitive(name) => filled_text(name.clone()),
        Type::Tuple(types) => {
            let mut out = String::from_str("(");
            let list = render_types(resolver, types, 0)?;
            out.append(list.as_str());
            if types.len() == 1 {
                out.append(",)");
            } else {
                out.append(")");
            }
            Ok(out)
        },
        Type::Slice(inner) => {
            let mut out = String::from_str("[");
            let text = render_type(resolver, inner)?;
            out.append(text.as_str());
            out.append("]");
            Ok(out)
        },
        Type::BorrowedRef { lifetime: None, mutable, type_ } => {
            let mut out = if *mutable {
                String::from_str("&mut ")
            } else {
                String::from_str("&")
            };
            let text = render_type(resolver, type_)?;
            out.append(text.as_str());
            Ok(out)
        },
        Type::QualifiedPath { name, args, self_type, trait_ } => {
            let mut out = match trait_ {
                Some(path) => {
                    let mut out = String::from_str("<");
                    let text = render_type(resolver, self_type)?;
                    out.append(text.as_str());
                    let mut cast = String::from_str(" as ");
                    let text = render_path(resolver, path)?;
                    cast.append(text.as_str());
                    out.append(cast.as_str());
                    out.append(">::");
                    out
                },
                None => {
                    let mut out = render_type(resolver, self_type)?;
                    out.append("::");
                    out
                },
            };
            out.append(name.as_str());
            let text = render_opt_args(resolver, args)?;
            out.append(text.as_str());
            Ok(out)
        },
        _ => Err(Unsupported),
    }
}

fn render_types(resolver: &PathResolver, types: &Vec<Type>, from: usize) -> (r: Result<
    String,
    Unsupported,
>)
    requires
        resolver.wf(),
    ensures
        rendered(types_text(resolver.graph(), resolver@, *types, from as nat), r),
    decreases *types, types.len() - from,
{
    if from >= types.len() {
        return Ok(String::new());
    }
    let mut out = render_type(resolver, &types[from])?;
    if from + 1 == types.len() {
        return Ok(out);
    }
    out.append(", ");
    let rest = render_types(resolver, types, from + 1)?;
    out.append(rest.as_str());
    Ok(out)
}

fn render_path(resolver: &PathResolver, path: &Path) -> (r: Result<String, Unsupported>)
    requires
        resolver.wf(),
    ensures
        rendered(path_text(resolver.graph(), resolver@, *path), r),
    decreases *path, 0nat,
{
    let mut out = render_path_name(resolver, path)?;
    let args = render_opt_args(resolver, &path.args)?;
    out.append(args.as_str());
    Ok(out)
}

fn render_opt_args(resolver: &PathResolver, args: &Option<Box<GenericArgs>>) -> (r: Result<
    String,
    Unsupported,
>)
    requires
        resolver.wf(),
    ensures
        rendered(opt_args_text(resolver.graph(), resolver@, *args), r),
    decreases *args, 0nat,
{
    match args {
        Some(args) => render_args(resolver, args),
        None => Ok(String::new()),
    }
}

fn render_args(resolver: &PathResolver, args: &GenericArgs) -> (r: Result<String, Unsupported>)
    requires
        resolver.wf(),
    ensures
        rendered(args_text(resolver.graph(), resolver@, *args), r),
    decreases *args, 0nat,
{
    match args {
        GenericArgs::AngleBracketed { args, constraints } => {
            if constraints.len() > 0 {
                return Err(Unsupported);
            }
            if args.len() == 0 {
                return Ok(String::new());
            }
            let mut out = String::from_str("<");
            let list = render_arg_list(resolver, args, 0)?;
            out.append(list.as_str());
            out.append(">");
            Ok(out)
        },
        _ => Err(Unsupported),
    }
}

fn render_arg(resolver: &PathResolver, arg: &GenericArg) -> (r: Result<String, Unsupported>)
    requires
        resolver.wf(),
    ensures
        rendered(arg_text(resolver.graph(), resolver@, *arg), r),
    decreases *arg, 0nat,
{
    match arg {
        GenericArg::Lifetime(name) => {
            let mut out = String::from_str("`");
            out.append(name.as_str());
            Ok(out)
        },
        GenericArg::Type(t) => render_type(resolver, t),
        GenericArg::Infer => Ok(String::from_str("_")),
        GenericArg::Const => Err(Unsupported),
    }
}

fn render_arg_list(resolver: &PathResolver, args: &Vec<GenericArg>, from: usize) -> (r: Result<
    String,
    Unsupported,
>)
    requires
        resolver.wf(),
    ensures
        rendered(arg_list_text(resolver.graph(), resolver@, *args, from as nat), r),
    decreases *args, args.len() - from,
{
    if from >= args.len() {
        return Ok(String::new());
    }
    let mut out = render_arg(resolver, &args[from])?;
    if from + 1 == args.len() {
        return Ok(out);
    }
    out.append(",");
    let rest = render_arg_list(resolver, args, from + 1)?;
    out.append(rest.as_str());
    Ok(out)
}

fn render_bound(resolver: &PathResolver, bound: &GenericBound) -> (r: Result<String, Unsupported>)
    requires
        resolver.wf(),
    ensures
        rendered(bound_text(resolver.graph(), resolver@, *bound), r),
{
    match bound {
        GenericBound::TraitBound { trait_, generic_params, modifier } => {
            if generic_params.len() > 0 {
                return Err(Unsupported);
            }
            match modifier {
                TraitBoundModifier::Plain => render_path(resolver, trait_),
                _ => Err(Unsupported),
            }
        },
        _ => Err(Unsupported),
    }
}

fn render_bounds(resolver: &PathResolver, bounds: &Vec<GenericBound>, from: usize) -> (r: Result<
    String,
    Unsupported,
>)
    requires
        resolver.wf(),
    ensures
        rendered(bounds_text(resolver.graph(), resolver@, bounds@, from as nat), r),
    decreases bounds.len() - from,
{
    if from >= bounds.len() {
        return Ok(String::new());
    }
    let mut out = render_bound(resolver, &bounds[from])?;
    if from + 1 == bounds.len() {
        return Ok(out);
    }
    out.append(" + ");
    let rest = render_bounds(resolver, bounds, from + 1)?;
    out.append(rest.as_str());
    Ok(out)
}

fn render_param(resolver: &PathResolver, param: &GenericParamDef) -> (r: Result<
    String,
    Unsupported,
>)
    requires
        resolver.wf(),
    ensures
        rendered(param_text(resolver.graph(), resolver@, *param), r),
{
    match &param.kind {
        GenericParamDefKind::Type { bounds, default, synthetic } => {
            if *synthetic || default.is_some() {
                return Err(Unsupported);
            }
            let mut out = param.name.clone();
            if bounds.len() == 0 {
                return Ok(out);
            }
            out.append(": ");
            let list = render_bounds(resolver, bounds, 0)?;
            out.append(list.as_str());
            Ok(out)
        },
        _ => Err(Unsupported),
    }
}

fn render_params(resolver: &PathResolver, params: &Vec<GenericParamDef>, from: usize) -> (r:
    Result<String, Unsupported>)
    requires
        resolver.wf(),
    ensures
        rendered(params_text(resolver.graph(), resolver@, params@, from as nat), r),
    decreases params.len() - from,
{
    if from >= params.len() {
        return Ok(String::new());
    }
    let mut out = render_param(resolver, &params[from])?;
    if from + 1 == params.len() {
        return Ok(out);
    }
    out.append(", ");
    let rest = render_params(resolver, params, from + 1)?;
    out.append(rest.as_str());
    Ok(out)
}

fn render_inputs(resolver: &PathResolver, inputs: &Vec<Param>, from: usize) -> (r: Result<
    String,
    Unsupported,
>)
    requires
        resolver.wf(),
    ensures
        rendered(inputs_text(resolver.graph(), resolver@, inputs@, from as nat), r),
    decreases inputs.len() - from,
{
    if from >= inputs.len() {
        return Ok(String::new());
    }
    let mut out = inputs[from].name.clone();
    out.append(": ");
    let text = render_type(resolver, &inputs[from].type_)?;
    out.append(text.as_str());
    if from + 1 == inputs.len() {
        return Ok(out);
    }
    out.append(", ");
    let rest = render_inputs(resolver, inputs, from + 1)?;
    out.append(rest.as_str());
    Ok(out)
}

fn render_function_args(resolver: &PathResolver, function: &Function) -> (r: Result<
    String,
    Unsupported,
>)
    requires
        resolver.wf(),
    ensures
        rendered(function_args_text(resolver.graph(), resolver@, *function), r),
{
    let mut out = if function.generics.len() == 0 {
        String::new()
    } else {
        let mut generics = String::from_str("<");
        let list = render_params(resolver, &function.generics, 0)?;
        generics.append(list.as_str());
        generics.append(">");
        generics
    };
    let mut inputs = String::from_str("(");
    let list = render_inputs(resolver, &function.inputs, 0)?;
    inputs.append(list.as_str());
    inputs.append(")");
    out.append(inputs.as_str());
    let output = match &function.output {
        Some(t) => {
            let mut output = String::from_str(" -> ");
            let text = render_type(resolver, t)?;
            output.append(text.as_str());
            output
        },
        None => String::new(),
    };
    out.append(output.as_str());
    Ok(out)
}

/// Appends the documentation of `item` as a comment, one line for
/// each line of the documentation.
pub fn write_doc(out: &mut String, item: &Item)
    ensures
        final(out)@ == old(out)@ + doc_text(*item),
{
    match &item.docs {
        Some(docs) => {
            let parts = split_lines(docs.as_str());
            let ghost all = lines(docs@);
            let mut i: usize = 0;
            proof {
                assert(old(out)@ + Seq::<char>::empty() =~= old(out)@);
            }
            while i < parts.len()
                invariant
                    i <= parts.len(),
                    crate::model::texts(parts@) == all,
                    out@ == old(out)@ + comment_lines(all, i as nat),
                decreases parts.len() - i,
            {
                let ghost before = out@;
                out.append("/// ");
                out.append(parts[i].as_str());
                out.append("\n");
                proof {
                    assert(all[i as int] == parts[i as int]@);
                    assert(out@ =~= old(out)@ + comment_lines(all, (i + 1) as nat));
                }
                i += 1;
            }
        },
        None => {
            proof {
                assert(old(out)@ + Seq::<char>::empty() =~= old(out)@);
            }
        },
    }
}

/// Appends a path as bounds and impl headers show it: the canonical
/// path of the item that it names, or the name it was written with
/// if the item has none, and then its generic arguments. Fails if
/// there is no name to write or the arguments have no written form;
/// on an error nothing is appended.
pub fn write_path(out: &mut String, resolver: &PathResolver, path: &Path) -> (r: Result<
    (),
    Unsupported,
>)
    requires
        resolver.wf(),
    ensures
        appended(path_text(resolver.graph(), resolver@, *path), old(out)@, final(out)@, r),
{
    append_to(out, render_path(resolver, path))
}

/// Appends a path as a type shows it: the canonical path of the
/// item that it names, or, if the item has none, the name it was
/// written with, a leading `crate::` replaced by the root's name;
/// and then its generic arguments. Fails if there is no name to
/// write or the arguments have no written form; on an error nothing
/// is appended.
pub fn write_resolved_path(out: &mut String, resolver: &PathResolver, path: &Path) -> (r: Result<
    (),
    Unsupported,
>)
    requires
        resolver.wf(),
    ensures
        appended(
            both(
                resolved_name(resolver.graph(), resolver@, *path),
                opt_args_text(resolver.graph(), resolver@, path.args),
            ),
            old(out)@,
            final(out)@,
            r,
        ),
{
    let mut text = render_resolved_name(resolver, path)?;
    let args = render_opt_args(resolver, &path.args)?;
    text.append(args.as_str());
    out.append(text.as_str());
    Ok(())
}

/// Appends a type expression. Fails, and appends nothing, on a type
/// that has no written form here.
pub fn write_type(out: &mut String, resolver: &PathResolver, item_type: &Type) -> (r: Result<
    (),
    Unsupported,
>)
    requires
        resolver.wf(),
    ensures
        appended(type_text(resolver.graph(), resolver@, *item_type), old(out)@, final(out)@, r),
{
    append_to(out, render_type(resolver, item_type))
}

/// Appends generic arguments. Fails, and appends nothing, on
/// arguments that have no written form here.
pub fn write_generic_args(out: &mut String, resolver: &PathResolver, args: &GenericArgs) -> (r:
    Result<(), Unsupported>)
    requires
        resolver.wf(),
    ensures
        appended(args_text(resolver.graph(), resolver@, *args), old(out)@, final(out)@, r),
{
    append_to(out, render_args(resolver, args))
}

/// Appends what follows a function's name in its signature. Fails,
/// and appends nothing, if a part of it has no written form here.
pub fn write_function_args(out: &mut String, resolver: &PathResolver, function: &Function) -> (r:
    Result<(), Unsupported>)
    requires
        resolver.wf(),
    ensures
        appended(
            function_args_text(resolver.graph(), resolver@, *function),
            old(out)@,
            final(out)@,
            r,
        ),
{
    append_to(out, render_function_args(resolver, function))
}

/// Appends the signature of a function named `name`. Fails, and
/// appends nothing, if a part of it has no written form here.
pub fn write_function(
    out: &mut String,
    resolver: &PathResolver,
    name: &str,
    function: &Function,
) -> (r: Result<(), Unsupported>)
    requires
        resolver.wf(),
    ensures
        appended(
            function_text(resolver.graph(), resolver@, name@, *function),
            old(out)@,
            final(out)@,
            r,
        ),
{
    let mut text = String::from_str("fn ");
    text.append(name);
    let args = render_function_args(resolver, function)?;
    text.append(args.as_str());
    out.append(text.as_str());
    Ok(())
}

} // verus!
