//! The generator driver: finds the target module, collects its
//! functions and structs, sorts them, and prints one unit of trait
//! declarations for the structs and one unit with a trait and its
//! forwarding implementation for the functions.
use crate::model::{
    texts, DocGraph, Function, GraphView, Id, Item, ItemError, ItemErrorKind, ItemKind, ItemTag,
    Param,
};
use crate::print::{
    both, doc_text, function_args_text, function_text, path_text, rendered, write_doc,
    write_function, write_function_args, write_path,
};
use crate::resolver::{
    canonical_parent_of, path_of, rank, resolve, PathResolver, Resolution,
};
use crate::text::{before, join, joined, same_text, text_before};
use crate::visitor::{item_walk, lemma_visited_outcome, outcome, visit_item, Unsupported};
use vstd::prelude::*;
use vstd::string::*;

verus! {

broadcast use vstd::std_specs::hash::group_hash_axioms;

/// Why a unit of source text could not be made.
#[derive(Debug)]
pub enum SourceError {
    /// The text could not be written; the message says why.
    Io(String),
    /// The graph is not well formed.
    ParseError(ItemError),
    /// The graph holds a construct that has no written form.
    Unsupported,
}

/// Whether `id` is an item of the graph with a name and of kind `tag`.
pub open spec fn wanted(g: GraphView, id: Id, tag: ItemTag) -> bool {
    g.index.contains_key(id) && g.index[id].kind.spec_tag() == tag && g.index[id].name is Some
}

/// The items among `items` that have a name and are of kind `tag`,
/// in the order of `items`.
pub open spec fn collected(g: GraphView, items: Seq<Id>, tag: ItemTag) -> Seq<Id> {
    items.filter(|id: Id| wanted(g, id, tag))
}

/// Collects the children of a module that have a name and are of
/// kind `tag`, in the module's order; the others are dropped.
pub fn collect(doc: &DocGraph, items: &Vec<Id>, tag: ItemTag) -> (r: Vec<Id>)
    ensures
        r@ == collected(doc@, items@, tag),
{
    let ghost g = doc@;
    let ghost keep = |id: Id| wanted(g, id, tag);
    let mut out: Vec<Id> = Vec::new();
    let mut i: usize = 0;
    proof {
        reveal(Seq::filter);
        assert(items@.take(0) =~= Seq::<Id>::empty());
    }
    while i < items.len()
        invariant
            i <= items.len(),
            g == doc@,
            keep == (|id: Id| wanted(g, id, tag)),
            out@ == items@.take(i as int).filter(keep),
        decreases items.len() - i,
    {
        let id = items[i];
        let take = match doc.index.get(&id) {
            Some(item) => item.kind.tag() == tag && item.name.is_some(),
            None => false,
        };
        proof {
            reveal(Seq::filter);
            assert(items@.take(i + 1).drop_last() =~= items@.take(i as int));
            assert(take == keep(id));
        }
        if take {
            out.push(id);
        }
        i += 1;
    }
    proof {
        assert(items@.take(i as int) =~= items@);
    }
    out
}

/// The name of `id`, or the empty text if it has none.
pub open spec fn name_of(g: GraphView, id: Id) -> Seq<char> {
    match g.declared_name(id) {
        Some(name) => name,
        None => Seq::empty(),
    }
}

/// The order of the output: by name, and by identifier where two
/// names are the same.
pub open spec fn comes_before(g: GraphView, a: Id, b: Id) -> bool {
    before(name_of(g, a), name_of(g, b)) || (name_of(g, a) == name_of(g, b) && a < b)
}

/// The first place from `from` on whose item `x` comes before, or
/// the length of `sorted` if there is none.
pub open spec fn place_for(g: GraphView, sorted: Seq<Id>, x: Id, from: nat) -> nat
    decreases sorted.len() - from,
{
    if from >= sorted.len() {
        sorted.len()
    } else if comes_before(g, x, sorted[from as int]) {
        from
    } else {
        place_for(g, sorted, x, from + 1)
    }
}

/// The first `n` of `ids` in the order of the output, each put in
/// front of the first of those before it that it comes before.
pub open spec fn sorted_prefix(g: GraphView, ids: Seq<Id>, n: nat) -> Seq<Id>
    decreases n,
{
    if n == 0 || n > ids.len() {
        Seq::empty()
    } else {
        let prev = sorted_prefix(g, ids, (n - 1) as nat);
        prev.insert(place_for(g, prev, ids[n - 1], 0) as int, ids[n - 1])
    }
}

/// `ids` in the order of the output.
pub open spec fn sorted_by_name(g: GraphView, ids: Seq<Id>) -> Seq<Id> {
    sorted_prefix(g, ids, ids.len())
}

/// The order of the output goes on from item to item.
pub proof fn lemma_comes_before_transitive(g: GraphView, a: Id, b: Id, c: Id)
    requires
        comes_before(g, a, b),
        comes_before(g, b, c),
    ensures
        comes_before(g, a, c),
{
    if before(name_of(g, a), name_of(g, b)) && before(name_of(g, b), name_of(g, c)) {
        crate::text::lemma_before_transitive(name_of(g, a), name_of(g, b), name_of(g, c), 0);
    }
}

/// Of two different items one comes before the other, and not both.
pub proof fn lemma_comes_before_total(g: GraphView, a: Id, b: Id)
    ensures
        a != b ==> comes_before(g, a, b) || comes_before(g, b, a),
        !(comes_before(g, a, b) && comes_before(g, b, a)),
{
    let x = name_of(g, a);
    let y = name_of(g, b);
    if x != y {
        crate::text::lemma_before_total(x, y, 0);
    }
    if before(x, y) && before(y, x) {
        crate::text::lemma_before_transitive(x, y, x, 0);
    }
    crate::text::lemma_before_irreflexive(x, 0);
}

/// Whether no item of `s` comes before an item that stands earlier
/// in `s`.
pub open spec fn in_order(g: GraphView, s: Seq<Id>) -> bool {
    forall|i: int, j: int| 0 <= i < j < s.len() ==> !comes_before(g, #[trigger] s[j], #[trigger] s[i])
}

/// `place_for` gives the first place whose item `x` comes before.
pub proof fn lemma_place_is_first(g: GraphView, sorted: Seq<Id>, x: Id, from: nat)
    requires
        from <= sorted.len(),
    ensures
        from <= place_for(g, sorted, x, from) <= sorted.len(),
        forall|i: int|
            from <= i < place_for(g, sorted, x, from) ==> !comes_before(g, x, #[trigger] sorted[i]),
        place_for(g, sorted, x, from) < sorted.len() ==> comes_before(
            g,
            x,
            sorted[place_for(g, sorted, x, from) as int],
        ),
    decreases sorted.len() - from,
{
    if from < sorted.len() && !comes_before(g, x, sorted[from as int]) {
        lemma_place_is_first(g, sorted, x, from + 1);
    }
}

/// The sorted list is in the order of the output: by name, and by
/// identifier where two names are the same.
pub proof fn lemma_sorted_in_order(g: GraphView, ids: Seq<Id>, n: nat)
    requires
        n <= ids.len(),
    ensures
        in_order(g, sorted_prefix(g, ids, n)),
    decreases n,
{
    if n > 0 {
        let prev = sorted_prefix(g, ids, (n - 1) as nat);
        let x = ids[n - 1];
        let at = place_for(g, prev, x, 0) as int;
        let next = prev.insert(at, x);
        lemma_sorted_in_order(g, ids, (n - 1) as nat);
        lemma_place_is_first(g, prev, x, 0);
        assert forall|i: int, j: int| 0 <= i < j < next.len() implies !comes_before(
            g,
            #[trigger] next[j],
            #[trigger] next[i],
        ) by {
            if j == at {
                assert(next[i] == prev[i]);
            } else if i == at {
                assert(next[j] == prev[j - 1]);
                if j - 1 > at {
                    assert(!comes_before(g, prev[j - 1], prev[at]));
                }
                if comes_before(g, prev[j - 1], x) {
                    lemma_comes_before_transitive(g, prev[j - 1], x, prev[at]);
                    lemma_comes_before_total(g, prev[at], prev[at]);
                }
            } else {
                let a = if i < at {
                    i
                } else {
                    i - 1
                };
                let b = if j < at {
                    j
                } else {
                    j - 1
                };
                assert(next[i] == prev[a]);
                assert(next[j] == prev[b]);
            }
        }
    }
}

/// The sorted list holds the items of the list that was sorted, each
/// as often as that list does.
pub proof fn lemma_sorted_same_items(g: GraphView, ids: Seq<Id>, n: nat)
    requires
        n <= ids.len(),
    ensures
        sorted_prefix(g, ids, n).to_multiset() == ids.take(n as int).to_multiset(),
    decreases n,
{
    broadcast use vstd::seq_lib::group_to_multiset_ensures;

    if n > 0 {
        let prev = sorted_prefix(g, ids, (n - 1) as nat);
        let x = ids[n - 1];
        let at = place_for(g, prev, x, 0) as int;
        let next = prev.insert(at, x);
        lemma_sorted_same_items(g, ids, (n - 1) as nat);
        lemma_place_is_first(g, prev, x, 0);
        assert(next.remove(at) =~= prev);
        assert(next[at] == x);
        assert(prev.to_multiset() =~= next.to_multiset().remove(x));
        assert(next.contains(x));
        assert(next.to_multiset() =~= prev.to_multiset().insert(x));
        assert(ids.take(n as int) =~= ids.take(n - 1).push(x));
    } else {
        assert(ids.take(0) =~= Seq::<Id>::empty());
    }
}

fn name_text<'a>(doc: &'a DocGraph, id: Id) -> (r: &'a str)
    ensures
        r@ == name_of(doc@, id),
{
    proof {
        reveal_strlit("");
    }
    match doc.index.get(&id) {
        Some(item) => match &item.name {
            Some(name) => name.as_str(),
            None => {
                assert(""@ =~= Seq::<char>::empty());
                ""
            },
        },
        None => {
            assert(""@ =~= Seq::<char>::empty());
            ""
        },
    }
}

/// Whether `a` comes before `b` in the order of the output.
pub fn precedes(doc: &DocGraph, a: Id, b: Id) -> (r: bool)
    ensures
        r == comes_before(doc@, a, b),
{
    let x = name_text(doc, a);
    let y = name_text(doc, b);
    if text_before(x, y) {
        true
    } else {
        same_text(x, y) && a < b
    }
}

/// Sorts `ids` by name, and by identifier where two names are the
/// same.
pub fn sort_by_name(doc: &DocGraph, ids: &Vec<Id>) -> (r: Vec<Id>)
    ensures
        r@ == sorted_by_name(doc@, ids@),
{
    let ghost g = doc@;
    let mut out: Vec<Id> = Vec::new();
    let mut i: usize = 0;
    while i < ids.len()
        invariant
            i <= ids.len(),
            g == doc@,
            out@ == sorted_prefix(g, ids@, i as nat),
            out.len() == i,
        decreases ids.len() - i,
    {
        let x = ids[i];
        let mut at: usize = 0;
        while at < out.len() && !precedes(doc, x, out[at])
            invariant
                at <= out.len(),
                g == doc@,
                place_for(g, out@, x, at as nat) == place_for(g, out@, x, 0),
            decreases out.len() - at,
        {
            at += 1;
        }
        out.insert(at, x);
        i += 1;
    }
    out
}


/// Whether a module named `name` lies on the canonical path of
/// `id`, above `id` and at most `fuel` modules beyond its parent.
pub open spec fn named_above_upto(
    g: GraphView,
    r: Resolution,
    id: Id,
    name: Seq<char>,
    fuel: nat,
) -> bool
    decreases fuel,
{
    match canonical_parent_of(g, r, id) {
        None => false,
        Some(parent) => g.declared_name(parent) == Some(name) || (fuel > 0 && named_above_upto(
            g,
            r,
            parent,
            name,
            (fuel - 1) as nat,
        )),
    }
}

/// Whether a module named `name` lies on the canonical path of
/// `id`, above `id`.
pub open spec fn has_module_named(g: GraphView, r: Resolution, id: Id, name: Seq<char>) -> bool {
    named_above_upto(g, r, id, name, rank(g, r, id))
}

/// Whether one of the modules through which `id` is resolved is
/// named `name`.
pub fn has_module_with_name(resolver: &PathResolver, id: Id, name: &str) -> (r: bool)
    requires
        resolver.wf(),
    ensures
        r == has_module_named(resolver.graph(), resolver@, id, name@),
{
    let ghost g = resolver.graph();
    let ghost res = resolver@;
    let doc = resolver.doc();
    let mut at = id;
    proof {
        resolver.lemma_wf();
    }
    loop
        invariant
            resolver.wf(),
            g == resolver.graph(),
            g == doc@,
            res == resolver@,
            res.ordered(g),
            has_module_named(g, res, at, name@) == has_module_named(g, res, id, name@),
        decreases rank(g, res, at),
    {
        match resolver.canonical_parent(at) {
            None => {
                return false;
            },
            Some(parent) => {
                proof {
                    crate::resolver::lemma_path_step(g, res, at);
                    crate::resolver::lemma_rank_is_depth(g, res, parent);
                }
                let found = match doc.index.get(&parent) {
                    Some(item) => match &item.name {
                        Some(text) => same_text(text.as_str(), name),
                        None => false,
                    },
                    None => false,
                };
                if found {
                    return true;
                }
                at = parent;
            },
        }
    }
}

/// Whether `id` is resolved through none of the modules that are
/// named for one operating system.
pub open spec fn neutral(g: GraphView, r: Resolution, id: Id) -> bool {
    &&& !has_module_named(g, r, id, "windows"@)
    &&& !has_module_named(g, r, id, "unix"@)
    &&& !has_module_named(g, r, id, "linux"@)
    &&& !has_module_named(g, r, id, "wasi"@)
}

/// Whether `id` is resolved through no module named `windows`,
/// `unix`, `linux` or `wasi`.
pub fn is_neutral(resolver: &PathResolver, id: Id) -> (r: bool)
    requires
        resolver.wf(),
    ensures
        r == neutral(resolver.graph(), resolver@, id),
{
    !has_module_with_name(resolver, id, "windows") && !has_module_with_name(resolver, id, "unix")
        && !has_module_with_name(resolver, id, "linux") && !has_module_with_name(
        resolver,
        id,
        "wasi",
    )
}

/// Whether everything that the item `id` mentions is neutral:
/// `Ok(false)` if something is not, and an error if the item holds
/// a construct that cannot be traversed before anything that is not.
pub open spec fn mentions_neutral(g: GraphView, r: Resolution, item: Item) -> Result<
    bool,
    Unsupported,
> {
    outcome(|id: Id| neutral(g, r, id), item_walk(item))
}

/// Whether everything that `item` mentions is resolved outside the
/// modules that are named for one operating system.
pub fn is_platform_neutral(resolver: &PathResolver, item: &Item) -> (r: Result<bool, Unsupported>)
    requires
        resolver.wf(),
    ensures
        r == mentions_neutral(resolver.graph(), resolver@, *item),
{
    let ghost g = resolver.graph();
    let ghost res = resolver@;
    let visitor = |id: Id| -> (pass: bool)
        ensures
            pass == neutral(resolver.graph(), resolver@, id),
        { is_neutral(resolver, id) };
    let r = visit_item(item, &visitor);
    proof {
        lemma_visited_outcome(&visitor, |id: Id| neutral(g, res, id), item_walk(*item), r);
    }
    r
}


/// The names of a function's inputs, in order.
pub open spec fn input_names(function: Function) -> Seq<Seq<char>> {
    function.inputs@.map_values(|p: Param| p.name@)
}

/// The declaration of the function `id` in the trait: an empty
/// line, its documentation, and its signature before `;`. A function
/// that is marked as deprecated has none.
pub open spec fn decl_text(g: GraphView, r: Resolution, id: Id) -> Option<Seq<char>> {
    if !g.index.contains_key(id) {
        Some(Seq::empty())
    } else {
        let item = g.index[id];
        match item.kind {
            ItemKind::Function(f) => if item.deprecated {
                Some(Seq::empty())
            } else {
                both(
                    both(Some("\n"@ + doc_text(item)), function_text(g, r, name_of(g, id), f)),
                    Some(";\n"@),
                )
            },
            _ => Some(Seq::empty()),
        }
    }
}

/// The implementation of the function `id`: an empty line, its
/// signature, and a body that hands every input, in order, to the
/// function of the same name under `native`. A function that is
/// marked as deprecated has none.
pub open spec fn body_text(g: GraphView, r: Resolution, native: Seq<char>, id: Id) -> Option<
    Seq<char>,
> {
    if !g.index.contains_key(id) {
        Some(Seq::empty())
    } else {
        let item = g.index[id];
        match item.kind {
            ItemKind::Function(f) => if item.deprecated {
                Some(Seq::empty())
            } else {
                both(
                    both(Some("\n"@), function_text(g, r, name_of(g, id), f)),
                    Some(
                        " {\n\t"@ + native + "::"@ + name_of(g, id) + "("@ + joined(
                            input_names(f),
                            ", "@,
                        ) + ")\n}\n"@,
                    ),
                )
            },
            _ => Some(Seq::empty()),
        }
    }
}

/// The declarations of `ids` from index `from` on.
pub open spec fn decls_text(g: GraphView, r: Resolution, ids: Seq<Id>, from: nat) -> Option<
    Seq<char>,
>
    decreases ids.len() - from,
{
    if from >= ids.len() {
        Some(Seq::empty())
    } else {
        both(decl_text(g, r, ids[from as int]), decls_text(g, r, ids, from + 1))
    }
}

/// The implementations of `ids` from index `from` on.
pub open spec fn bodies_text(
    g: GraphView,
    r: Resolution,
    native: Seq<char>,
    ids: Seq<Id>,
    from: nat,
) -> Option<Seq<char>>
    decreases ids.len() - from,
{
    if from >= ids.len() {
        Some(Seq::empty())
    } else {
        both(body_text(g, r, native, ids[from as int]), bodies_text(g, r, native, ids, from + 1))
    }
}

/// The unit for the functions `ids`: the trait `trait_name` with
/// one declaration for each, the struct `Native`, and the
/// implementation of the trait for it that forwards to `native`.
pub open spec fn functions_text(
    g: GraphView,
    r: Resolution,
    trait_name: Seq<char>,
    native: Seq<char>,
    ids: Seq<Id>,
) -> Option<Seq<char>> {
    both(
        both(
            both(Some("\npub trait "@ + trait_name + " {\n"@), decls_text(g, r, ids, 0)),
            Some("}\n\npub struct Native {}\n\nimpl "@ + trait_name + " for Native {\n"@),
        ),
        both(bodies_text(g, r, native, ids, 0), Some("}\n"@)),
    )
}

/// Past the place that was taken out, the declarations of a list
/// are those of the list without that place.
proof fn lemma_decls_shift(g: GraphView, r: Resolution, ids: Seq<Id>, at: int, from: nat)
    requires
        0 <= at < from <= ids.len(),
    ensures
        decls_text(g, r, ids, from) == decls_text(g, r, ids.remove(at), (from - 1) as nat),
    decreases ids.len() - from,
{
    if from < ids.len() {
        lemma_decls_shift(g, r, ids, at, from + 1);
    }
}

/// Past the place that was taken out, the implementations of a list
/// are those of the list without that place.
proof fn lemma_bodies_shift(
    g: GraphView,
    r: Resolution,
    native: Seq<char>,
    ids: Seq<Id>,
    at: int,
    from: nat,
)
    requires
        0 <= at < from <= ids.len(),
    ensures
        bodies_text(g, r, native, ids, from) == bodies_text(
            g,
            r,
            native,
            ids.remove(at),
            (from - 1) as nat,
        ),
    decreases ids.len() - from,
{
    if from < ids.len() {
        lemma_bodies_shift(g, r, native, ids, at, from + 1);
    }
}

/// A deprecated function adds nothing to the declarations.
proof fn lemma_decls_skip(g: GraphView, r: Resolution, ids: Seq<Id>, at: int, from: nat)
    requires
        from <= at < ids.len(),
        g.index.contains_key(ids[at]),
        g.index[ids[at]].deprecated,
    ensures
        decls_text(g, r, ids, from) == decls_text(g, r, ids.remove(at), from),
    decreases at - from,
{
    if from < at {
        lemma_decls_skip(g, r, ids, at, from + 1);
    } else {
        lemma_decls_shift(g, r, ids, at, (at + 1) as nat);
        match decls_text(g, r, ids, (at + 1) as nat) {
            Some(rest) => {
                assert(Seq::<char>::empty() + rest =~= rest);
            },
            None => {},
        }
    }
}

/// A deprecated function adds nothing to the implementations.
proof fn lemma_bodies_skip(
    g: GraphView,
    r: Resolution,
    native: Seq<char>,
    ids: Seq<Id>,
    at: int,
    from: nat,
)
    requires
        from <= at < ids.len(),
        g.index.contains_key(ids[at]),
        g.index[ids[at]].deprecated,
    ensures
        bodies_text(g, r, native, ids, from) == bodies_text(g, r, native, ids.remove(at), from),
    decreases at - from,
{
    if from < at {
        lemma_bodies_skip(g, r, native, ids, at, from + 1);
    } else {
        lemma_bodies_shift(g, r, native, ids, at, (at + 1) as nat);
        match bodies_text(g, r, native, ids, (at + 1) as nat) {
            Some(rest) => {
                assert(Seq::<char>::empty() + rest =~= rest);
            },
            None => {},
        }
    }
}

/// A deprecated function never shows: the unit for a list of
/// functions is the unit for the list without a function that is
/// marked as deprecated, in the trait and in its implementation.
pub proof fn lemma_deprecated_left_out(
    g: GraphView,
    r: Resolution,
    trait_name: Seq<char>,
    native: Seq<char>,
    ids: Seq<Id>,
    at: int,
)
    requires
        0 <= at < ids.len(),
        g.index.contains_key(ids[at]),
        g.index[ids[at]].deprecated,
    ensures
        functions_text(g, r, trait_name, native, ids) == functions_text(
            g,
            r,
            trait_name,
            native,
            ids.remove(at),
        ),
{
    lemma_decls_skip(g, r, ids, at, 0);
    lemma_bodies_skip(g, r, native, ids, at, 0);
}

fn render_decl(resolver: &PathResolver, id: Id) -> (r: Result<String, Unsupported>)
    requires
        resolver.wf(),
    ensures
        rendered(decl_text(resolver.graph(), resolver@, id), r),
{
    let doc = resolver.doc();
    match doc.index.get(&id) {
        Some(item) => match &item.kind {
            ItemKind::Function(f) => {
                if item.deprecated {
                    return Ok(String::new());
                }
                let mut out = String::from_str("\n");
                write_doc(&mut out, item);
                write_function(&mut out, resolver, name_text(doc, id), f)?;
                out.append(";\n");
                Ok(out)
            },
            _ => Ok(String::new()),
        },
        None => Ok(String::new()),
    }
}

fn names_of(function: &Function) -> (r: Vec<String>)
    ensures
        texts(r@) == input_names(*function),
{
    let mut out: Vec<String> = Vec::new();
    let mut i: usize = 0;
    while i < function.inputs.len()
        invariant
            i <= function.inputs.len(),
            out.len() == i,
            forall|j: int| 0 <= j < i ==> #[trigger] out[j]@ == function.inputs[j].name@,
        decreases function.inputs.len() - i,
    {
        out.push(function.inputs[i].name.clone());
        i += 1;
    }
    proof {
        assert(texts(out@) =~= input_names(*function));
    }
    out
}

fn render_body(resolver: &PathResolver, native: &str, id: Id) -> (r: Result<String, Unsupported>)
    requires
        resolver.wf(),
    ensures
        rendered(body_text(resolver.graph(), resolver@, native@, id), r),
{
    let doc = resolver.doc();
    match doc.index.get(&id) {
        Some(item) => match &item.kind {
            ItemKind::Function(f) => {
                if item.deprecated {
                    return Ok(String::new());
                }
                let name = name_text(doc, id);
                let mut out = String::from_str("\n");
                write_function(&mut out, resolver, name, f)?;
                let mut call = String::from_str(" {\n\t");
                call.append(native);
                call.append("::");
                call.append(name);
                call.append("(");
                let names = names_of(f);
                call.append(join(&names, ", ").as_str());
                call.append(")\n}\n");
                out.append(call.as_str());
                Ok(out)
            },
            _ => Ok(String::new()),
        },
        None => Ok(String::new()),
    }
}

fn render_decls(resolver: &PathResolver, ids: &Vec<Id>, from: usize) -> (r: Result<
    String,
    Unsupported,
>)
    requires
        resolver.wf(),
    ensures
        rendered(decls_text(resolver.graph(), resolver@, ids@, from as nat), r),
    decreases ids.len() - from,
{
    if from >= ids.len() {
        return Ok(String::new());
    }
    let mut out = render_decl(resolver, ids[from])?;
    let rest = render_decls(resolver, ids, from + 1)?;
    out.append(rest.as_str());
    Ok(out)
}

fn render_bodies(resolver: &PathResolver, native: &str, ids: &Vec<Id>, from: usize) -> (r: Result<
    String,
    Unsupported,
>)
    requires
        resolver.wf(),
    ensures
        rendered(bodies_text(resolver.graph(), resolver@, native@, ids@, from as nat), r),
    decreases ids.len() - from,
{
    if from >= ids.len() {
        return Ok(String::new());
    }
    let mut out = render_body(resolver, native, ids[from])?;
    let rest = render_bodies(resolver, native, ids, from + 1)?;
    out.append(rest.as_str());
    Ok(out)
}

/// Prints the unit for the functions of `function_list`: the trait
/// `trait_name` with a declaration for each function that is not
/// marked as deprecated, and its implementation for `Native`, which
/// forwards each call to the function of the same name under
/// `native`. Fails if a signature has no written form.
pub fn generate_functions(
    resolver: &PathResolver,
    function_list: &Vec<Id>,
    trait_name: &str,
    native: &str,
) -> (r: Result<String, Unsupported>)
    requires
        resolver.wf(),
    ensures
        rendered(
            functions_text(resolver.graph(), resolver@, trait_name@, native@, function_list@),
            r,
        ),
{
    let mut out = String::from_str("\npub trait ");
    out.append(trait_name);
    out.append(" {\n");
    let decls = render_decls(resolver, function_list, 0)?;
    out.append(decls.as_str());
    let mut middle = String::from_str("}\n\npub struct Native {}\n\nimpl ");
    middle.append(trait_name);
    middle.append(" for Native {\n");
    out.append(middle.as_str());
    let mut bodies = render_bodies(resolver, native, function_list, 0)?;
    bodies.append("}\n");
    out.append(bodies.as_str());
    Ok(out)
}


/// Whether the table of known paths has `id` as the marker trait
/// that the compiler adds for derived equality.
pub open spec fn denied(g: GraphView, id: Id) -> bool {
    g.table_path(id) == Some(seq!["core"@, "marker"@, "StructuralPartialEq"@])
}

/// Whether `id` is the marker trait that the compiler adds for
/// derived equality, by the table of known paths.
pub fn is_denied(doc: &DocGraph, id: Id) -> (r: bool)
    ensures
        r == denied(doc@, id),
{
    match doc.paths.get(&id) {
        Some(path) => {
            let ghost want = seq!["core"@, "marker"@, "StructuralPartialEq"@];
            if path.len() != 3 {
                proof {
                    assert(texts(path@).len() != want.len());
                }
                return false;
            }
            let same = same_text(path[0].as_str(), "core") && same_text(path[1].as_str(), "marker")
                && same_text(path[2].as_str(), "StructuralPartialEq");
            proof {
                if same {
                    assert(texts(path@) =~= want);
                } else {
                    assert(texts(path@)[0] == path[0]@);
                    assert(texts(path@)[1] == path[1]@);
                    assert(texts(path@)[2] == path[2]@);
                    assert(want[0] == "core"@ && want[1] == "marker"@ && want[2]
                        == "StructuralPartialEq"@);
                }
            }
            same
        },
        None => false,
    }
}

/// The line for a member of an impl block: a comment with the
/// signature of a function, and nothing for any other member.
pub open spec fn member_text(g: GraphView, r: Resolution, id: Id) -> Option<Seq<char>> {
    if !g.index.contains_key(id) {
        Some(Seq::empty())
    } else {
        let item = g.index[id];
        match item.kind {
            ItemKind::Function(f) => both(
                both(
                    Some(
                        "// fn "@ + match item.name {
                            Some(name) => name@,
                            None => "unknown"@,
                        },
                    ),
                    function_args_text(g, r, f),
                ),
                Some(";\n"@),
            ),
            _ => Some(Seq::empty()),
        }
    }
}

/// The lines for the members `ids` from index `from` on.
pub open spec fn members_text(g: GraphView, r: Resolution, ids: Seq<Id>, from: nat) -> Option<
    Seq<char>,
>
    decreases ids.len() - from,
{
    if from >= ids.len() {
        Some(Seq::empty())
    } else {
        both(member_text(g, r, ids[from as int]), members_text(g, r, ids, from + 1))
    }
}

/// The lines for one impl block of a struct. An impl of a trait
/// gives one comment with the trait's path, unless the trait is the
/// marker for derived equality, the impl is a blanket impl or was
/// made by the compiler, or the impl mentions an item that is not
/// neutral: then it gives nothing. An impl without a trait gives the
/// lines of its members.
pub open spec fn impl_text(g: GraphView, r: Resolution, id: Id) -> Option<Seq<char>> {
    if !g.index.contains_key(id) {
        Some(Seq::empty())
    } else {
        let item = g.index[id];
        match item.kind {
            ItemKind::Impl(block) => match block.trait_ {
                Some(path) => if denied(g, path.id) || block.blanket_impl is Some
                    || block.synthetic {
                    Some(Seq::empty())
                } else {
                    match mentions_neutral(g, r, item) {
                        Err(_) => None,
                        Ok(false) => Some(Seq::empty()),
                        Ok(true) => both(both(Some("// impl "@), path_text(g, r, path)), Some("\n"@)),
                    }
                },
                None => members_text(g, r, block.items@, 0),
            },
            _ => Some(Seq::empty()),
        }
    }
}

/// The lines for the impl blocks `ids` from index `from` on.
pub open spec fn impls_text(g: GraphView, r: Resolution, ids: Seq<Id>, from: nat) -> Option<
    Seq<char>,
>
    decreases ids.len() - from,
{
    if from >= ids.len() {
        Some(Seq::empty())
    } else {
        both(impl_text(g, r, ids[from as int]), impls_text(g, r, ids, from + 1))
    }
}

/// The trait for the struct `id`: an empty line, the struct's
/// documentation, a trait of the struct's name with the lines of
/// its impl blocks, and a comment with the impl of that trait for
/// the struct under `native`.
pub open spec fn struct_text(g: GraphView, r: Resolution, native: Seq<char>, id: Id) -> Option<
    Seq<char>,
> {
    if !g.index.contains_key(id) {
        Some(Seq::empty())
    } else {
        let item = g.index[id];
        match item.kind {
            ItemKind::Struct { impls } => both(
                both(
                    Some("\n"@ + doc_text(item) + "pub trait "@ + name_of(g, id) + " {\n"@),
                    impls_text(g, r, impls@, 0),
                ),
                Some(
                    "}\n\n// impl "@ + name_of(g, id) + " for "@ + native + "::"@ + name_of(g, id)
                        + " {}\n"@,
                ),
            ),
            _ => Some(Seq::empty()),
        }
    }
}

/// The unit for the structs `ids`, from index `from` on.
pub open spec fn structs_text(
    g: GraphView,
    r: Resolution,
    native: Seq<char>,
    ids: Seq<Id>,
    from: nat,
) -> Option<Seq<char>>
    decreases ids.len() - from,
{
    if from >= ids.len() {
        Some(Seq::empty())
    } else {
        both(struct_text(g, r, native, ids[from as int]), structs_text(g, r, native, ids, from + 1))
    }
}

fn render_member(resolver: &PathResolver, id: Id) -> (r: Result<String, Unsupported>)
    requires
        resolver.wf(),
    ensures
        rendered(member_text(resolver.graph(), resolver@, id), r),
{
    let doc = resolver.doc();
    match doc.index.get(&id) {
        Some(item) => match &item.kind {
            ItemKind::Function(f) => {
                let mut out = String::from_str("// fn ");
                match &item.name {
                    Some(name) => out.append(name.as_str()),
                    None => out.append("unknown"),
                }
                write_function_args(&mut out, resolver, f)?;
                out.append(";\n");
                Ok(out)
            },
            _ => Ok(String::new()),
        },
        None => Ok(String::new()),
    }
}

fn render_members(resolver: &PathResolver, ids: &Vec<Id>, from: usize) -> (r: Result<
    String,
    Unsupported,
>)
    requires
        resolver.wf(),
    ensures
        rendered(members_text(resolver.graph(), resolver@, ids@, from as nat), r),
    decreases ids.len() - from,
{
    if from >= ids.len() {
        return Ok(String::new());
    }
    let mut out = render_member(resolver, ids[from])?;
    let rest = render_members(resolver, ids, from + 1)?;
    out.append(rest.as_str());
    Ok(out)
}

fn render_impl(resolver: &PathResolver, id: Id) -> (r: Result<String, Unsupported>)
    requires
        resolver.wf(),
    ensures
        rendered(impl_text(resolver.graph(), resolver@, id), r),
{
    let doc = resolver.doc();
    match doc.index.get(&id) {
        Some(item) => match &item.kind {
            ItemKind::Impl(block) => match &block.trait_ {
                Some(path) => {
                    if is_denied(doc, path.id) || block.blanket_impl.is_some() || block.synthetic {
                        return Ok(String::new());
                    }
                    match is_platform_neutral(resolver, item) {
                        Err(e) => Err(e),
                        Ok(false) => Ok(String::new()),
                        Ok(true) => {
                            let mut out = String::from_str("// impl ");
                            write_path(&mut out, resolver, path)?;
                            out.append("\n");
                            Ok(out)
                        },
                    }
                },
                None => render_members(resolver, &block.items, 0),
            },
            _ => Ok(String::new()),
        },
        None => Ok(String::new()),
    }
}

fn render_impls(resolver: &PathResolver, ids: &Vec<Id>, from: usize) -> (r: Result<
    String,
    Unsupported,
>)
    requires
        resolver.wf(),
    ensures
        rendered(impls_text(resolver.graph(), resolver@, ids@, from as nat), r),
    decreases ids.len() - from,
{
    if from >= ids.len() {
        return Ok(String::new());
    }
    let mut out = render_impl(resolver, ids[from])?;
    let rest = render_impls(resolver, ids, from + 1)?;
    out.append(rest.as_str());
    Ok(out)
}

fn render_struct(resolver: &PathResolver, native: &str, id: Id) -> (r: Result<String, Unsupported>)
    requires
        resolver.wf(),
    ensures
        rendered(struct_text(resolver.graph(), resolver@, native@, id), r),
{
    let doc = resolver.doc();
    match doc.index.get(&id) {
        Some(item) => match &item.kind {
            ItemKind::Struct { impls } => {
                let name = name_text(doc, id);
                let mut out = String::from_str("\n");
                write_doc(&mut out, item);
                out.append("pub trait ");
                out.append(name);
                out.append(" {\n");
                let lines = render_impls(resolver, impls, 0)?;
                out.append(lines.as_str());
                let mut close = String::from_str("}\n\n// impl ");
                close.append(name);
                close.append(" for ");
                close.append(native);
                close.append("::");
                close.append(name);
                close.append(" {}\n");
                out.append(close.as_str());
                Ok(out)
            },
            _ => Ok(String::new()),
        },
        None => Ok(String::new()),
    }
}

fn render_structs(resolver: &PathResolver, native: &str, ids: &Vec<Id>, from: usize) -> (r: Result<
    String,
    Unsupported,
>)
    requires
        resolver.wf(),
    ensures
        rendered(structs_text(resolver.graph(), resolver@, native@, ids@, from as nat), r),
    decreases ids.len() - from,
{
    if from >= ids.len() {
        return Ok(String::new());
    }
    let mut out = render_struct(resolver, native, ids[from])?;
    let rest = render_structs(resolver, native, ids, from + 1)?;
    out.append(rest.as_str());
    Ok(out)
}

/// Prints the unit for the structs of `struct_list`: for each a
/// trait of its name that lists, as comments, the traits that the
/// struct implements and the signatures of its own functions. Impls
/// that the compiler made, blanket impls and impls that mention an
/// item from a module named for one operating system are left out.
/// Fails if an impl or a signature holds a construct without a rule.
pub fn generate_structs(resolver: &PathResolver, struct_list: &Vec<Id>, native: &str) -> (r:
    Result<String, Unsupported>)
    requires
        resolver.wf(),
    ensures
        rendered(structs_text(resolver.graph(), resolver@, native@, struct_list@, 0), r),
{
    render_structs(resolver, native, struct_list, 0)
}


/// The banner at the head of every unit.
pub const HEADER: &'static str =
    "// This file is auto-generated. DO NOT edit by hand. See README.md for more details.\n#![allow(clippy::tabs_in_doc_comments)]\n";

/// The imports at the head of the unit for the functions.
pub const FUNCTION_IMPORTS: &'static str =
    "use std::io;\nuse std::fs::Metadata;\nuse std::fs::ReadDir;\nuse std::fs::Permissions;\nuse std::path;\n";

/// The two units that are made for one module.
#[derive(Debug)]
pub struct GeneratedUnit {
    /// The traits for the module's structs.
    pub structs: String,
    /// The trait for the module's functions and its implementation.
    pub functions: String,
}

/// The texts of the two units for one module.
pub struct UnitTexts {
    pub structs: Seq<char>,
    pub functions: Seq<char>,
}

impl View for GeneratedUnit {
    type V = UnitTexts;

    open spec fn view(&self) -> UnitTexts {
        UnitTexts { structs: self.structs@, functions: self.functions@ }
    }
}

/// The texts of a list of units.
pub open spec fn unit_views(units: Seq<GeneratedUnit>) -> Seq<UnitTexts> {
    units.map_values(|u: GeneratedUnit| u@)
}

/// The units for the module `module`: its functions and its structs
/// with a name, each list sorted by name and identifier and printed
/// after the banner. The native items are named under the module's
/// canonical path.
#[verifier::opaque]
pub open spec fn unit_texts(g: GraphView, r: Resolution, trait_name: Seq<char>, module: Id) -> Result<
    UnitTexts,
    SourceError,
> {
    match (g.children(module), path_of(g, r, module)) {
        (Some(items), Some(segments)) => {
            let native = joined(segments, "::"@);
            let structs = sorted_by_name(g, collected(g, items, ItemTag::Struct));
            let functions = sorted_by_name(g, collected(g, items, ItemTag::Function));
            match (
                structs_text(g, r, native, structs, 0),
                functions_text(g, r, trait_name, native, functions),
            ) {
                (Some(s), Some(f)) => Ok(
                    UnitTexts { structs: HEADER@ + s, functions: HEADER@ + FUNCTION_IMPORTS@ + f },
                ),
                _ => Err(SourceError::Unsupported),
            }
        },
        (None, _) => Err(
            SourceError::ParseError(
                ItemError { id: module, kind: ItemErrorKind::ExpectedType(ItemTag::Module) },
            ),
        ),
        (_, None) => Err(
            SourceError::ParseError(ItemError { id: module, kind: ItemErrorKind::MissingName }),
        ),
    }
}

/// Whether `id` is a module of the graph with the name `name`.
pub open spec fn is_target(g: GraphView, id: Id, name: Seq<char>) -> bool {
    g.is_module(id) && g.declared_name(id) == Some(name)
}

/// The units for the modules named `module_name` among `items`,
/// from index `from` on, in the order of `items`; or the first error
/// that making one of them gives.
pub open spec fn units_from(
    g: GraphView,
    r: Resolution,
    module_name: Seq<char>,
    trait_name: Seq<char>,
    items: Seq<Id>,
    from: nat,
) -> Result<Seq<UnitTexts>, SourceError>
    decreases items.len() - from,
{
    if from >= items.len() {
        Ok(Seq::empty())
    } else if is_target(g, items[from as int], module_name) {
        match unit_texts(g, r, trait_name, items[from as int]) {
            Err(e) => Err(e),
            Ok(unit) => match units_from(g, r, module_name, trait_name, items, from + 1) {
                Err(e) => Err(e),
                Ok(rest) => Ok(seq![unit] + rest),
            },
        }
    } else {
        units_from(g, r, module_name, trait_name, items, from + 1)
    }
}

/// All that is generated for a graph: the units for each child of
/// the root that is a module named `module_name`, or the error that
/// stops the run.
pub open spec fn generated(g: GraphView, module_name: Seq<char>, trait_name: Seq<char>) -> Result<
    Seq<UnitTexts>,
    SourceError,
> {
    match resolve(g) {
        Err(e) => Err(SourceError::ParseError(e)),
        Ok(r) => match g.children(g.root) {
            Some(items) => units_from(g, r, module_name, trait_name, items, 0),
            None => Ok(Seq::empty()),
        },
    }
}

/// A list without a module of the name gives no unit.
proof fn lemma_no_target_in_list(
    g: GraphView,
    r: Resolution,
    module_name: Seq<char>,
    trait_name: Seq<char>,
    items: Seq<Id>,
    from: nat,
)
    requires
        forall|i: int| from <= i < items.len() ==> !is_target(g, #[trigger] items[i], module_name),
    ensures
        units_from(g, r, module_name, trait_name, items, from) == Ok::<
            Seq<UnitTexts>,
            SourceError,
        >(Seq::empty()),
    decreases items.len() - from,
{
    if from < items.len() {
        lemma_no_target_in_list(g, r, module_name, trait_name, items, from + 1);
    }
}

/// Nothing to do is no fault: for a graph that resolves and whose
/// root has no child that is a module of the name, the run succeeds
/// and gives no unit.
pub proof fn lemma_no_target_no_units(g: GraphView, module_name: Seq<char>, trait_name: Seq<char>)
    requires
        resolve(g) is Ok,
        forall|i: int|
            0 <= i < g.children(g.root).unwrap().len() ==> !is_target(
                g,
                #[trigger] g.children(g.root).unwrap()[i],
                module_name,
            ),
    ensures
        generated(g, module_name, trait_name) == Ok::<Seq<UnitTexts>, SourceError>(Seq::empty()),
{
    match g.children(g.root) {
        Some(items) => {
            lemma_no_target_in_list(g, resolve(g).unwrap(), module_name, trait_name, items, 0);
        },
        None => {},
    }
}

/// The same graph gives the same output: what is generated depends
/// on nothing but the items, the root and the table of known paths.
pub proof fn lemma_generated_is_determined(
    a: &DocGraph,
    b: &DocGraph,
    module_name: Seq<char>,
    trait_name: Seq<char>,
)
    requires
        a.root == b.root,
        a.index@ == b.index@,
        a.paths@ == b.paths@,
    ensures
        generated(a@, module_name, trait_name) == generated(b@, module_name, trait_name),
{
}

/// Makes the two units for the module `module`.
pub fn generate_unit(resolver: &PathResolver, trait_name: &str, module: Id) -> (r: Result<
    GeneratedUnit,
    SourceError,
>)
    requires
        resolver.wf(),
    ensures
        match unit_texts(resolver.graph(), resolver@, trait_name@, module) {
            Ok(texts) => r is Ok && r.unwrap()@ == texts,
            Err(e) => r == Err::<GeneratedUnit, SourceError>(e),
        },
{
    proof {
        reveal(unit_texts);
    }
    let doc = resolver.doc();
    let items = match crate::resolver::children(doc, module) {
        Some(items) => items,
        None => {
            return Err(
                SourceError::ParseError(
                    ItemError { id: module, kind: ItemErrorKind::ExpectedType(ItemTag::Module) },
                ),
            );
        },
    };
    let native = match resolver.path(module) {
        Some(segments) => join(&segments, "::"),
        None => {
            return Err(
                SourceError::ParseError(ItemError { id: module, kind: ItemErrorKind::MissingName }),
            );
        },
    };
    let struct_list = sort_by_name(doc, &collect(doc, items, ItemTag::Struct));
    let function_list = sort_by_name(doc, &collect(doc, items, ItemTag::Function));
    let structs = generate_structs(resolver, &struct_list, native.as_str());
    let functions = generate_functions(resolver, &function_list, trait_name, native.as_str());
    match (structs, functions) {
        (Ok(s), Ok(f)) => {
            let mut structs = String::from_str(HEADER);
            structs.append(s.as_str());
            let mut functions = String::from_str(HEADER);
            functions.append(FUNCTION_IMPORTS);
            functions.append(f.as_str());
            Ok(GeneratedUnit { structs, functions })
        },
        _ => Err(SourceError::Unsupported),
    }
}

/// Whether `id` is a module of the graph with the name `name`.
pub fn is_target_module(doc: &DocGraph, id: Id, name: &str) -> (r: bool)
    ensures
        r == is_target(doc@, id, name@),
{
    match doc.index.get(&id) {
        Some(item) => match (&item.kind, &item.name) {
            (ItemKind::Module { .. }, Some(text)) => same_text(text.as_str(), name),
            _ => false,
        },
        None => false,
    }
}

fn units_after(
    resolver: &PathResolver,
    module_name: &str,
    trait_name: &str,
    items: &Vec<Id>,
    from: usize,
) -> (r: Result<Vec<GeneratedUnit>, SourceError>)
    requires
        resolver.wf(),
    ensures
        match units_from(
            resolver.graph(),
            resolver@,
            module_name@,
            trait_name@,
            items@,
            from as nat,
        ) {
            Ok(texts) => r is Ok && unit_views(r.unwrap()@) == texts,
            Err(e) => r == Err::<Vec<GeneratedUnit>, SourceError>(e),
        },
    decreases items.len() - from,
{
    if from >= items.len() {
        let out: Vec<GeneratedUnit> = Vec::new();
        proof {
            assert(unit_views(out@) =~= Seq::<UnitTexts>::empty());
        }
        return Ok(out);
    }
    let id = items[from];
    if !is_target_module(resolver.doc(), id, module_name) {
        return units_after(resolver, module_name, trait_name, items, from + 1);
    }
    let unit = generate_unit(resolver, trait_name, id)?;
    let mut out = units_after(resolver, module_name, trait_name, items, from + 1)?;
    let ghost rest = out@;
    out.insert(0, unit);
    proof {
        assert(unit_views(out@) =~= seq![unit@] + unit_views(rest));
    }
    Ok(out)
}

/// Resolves the graph and makes the units for every child of the
/// root that is a module named `module_name`, in the root's order.
/// Nothing is returned unless every unit could be made: the first
/// fault in the graph, or the first construct without a written
/// form, ends the run with its error.
pub fn generate_units(doc: &DocGraph, module_name: &str, trait_name: &str) -> (r: Result<
    Vec<GeneratedUnit>,
    SourceError,
>)
    ensures
        match generated(doc@, module_name@, trait_name@) {
            Ok(texts) => r is Ok && unit_views(r.unwrap()@) == texts,
            Err(e) => r == Err::<Vec<GeneratedUnit>, SourceError>(e),
        },
{
    let resolver = match PathResolver::from(doc) {
        Ok(resolver) => resolver,
        Err(e) => {
            return Err(SourceError::ParseError(e));
        },
    };
    proof {
        resolver.lemma_wf();
    }
    match crate::resolver::children(doc, doc.root) {
        Some(items) => units_after(&resolver, module_name, trait_name, items, 0),
        None => {
            let out: Vec<GeneratedUnit> = Vec::new();
            proof {
                assert(unit_views(out@) =~= Seq::<UnitTexts>::empty());
            }
            Ok(out)
        },
    }
}


/// The first place from `from` on in `items` of an item of the
/// graph that is named `prelude`.
pub open spec fn prelude_place(g: GraphView, items: Seq<Id>, from: nat) -> Option<nat>
    decreases items.len() - from,
{
    if from >= items.len() {
        None
    } else if g.declared_name(items[from as int]) == Some("prelude"@) {
        Some(from)
    } else {
        prelude_place(g, items, from + 1)
    }
}

/// Whether `after` is `before` without the root's child at place
/// `at`: the child is gone from the root's list and from the items,
/// and nothing else has changed.
pub open spec fn without_child(before: GraphView, after: GraphView, at: nat) -> bool {
    let items = before.children(before.root).unwrap();
    let gone = items[at as int];
    &&& after.root == before.root
    &&& after.paths == before.paths
    &&& after.index.dom() == before.index.dom().remove(gone)
    &&& forall|id: Id|
        after.index.contains_key(id) && id != before.root ==> #[trigger] after.index[id]
            == before.index[id]
    &&& gone != before.root ==> {
        let old_root = before.index[before.root];
        let new_root = after.index[before.root];
        &&& new_root.id == old_root.id
        &&& new_root.name == old_root.name
        &&& new_root.docs == old_root.docs
        &&& new_root.deprecated == old_root.deprecated
        &&& after.children(before.root) == Some(items.remove(at as int))
    }
}

/// Finds the first of `items` that is an item of the graph named
/// `prelude`.
pub fn find_prelude(doc: &DocGraph, items: &Vec<Id>) -> (r: Option<usize>)
    ensures
        match r {
            Some(at) => prelude_place(doc@, items@, 0) == Some(at as nat) && at < items.len(),
            None => prelude_place(doc@, items@, 0) is None,
        },
{
    let mut i: usize = 0;
    while i < items.len()
        invariant
            i <= items.len(),
            prelude_place(doc@, items@, i as nat) == prelude_place(doc@, items@, 0),
        decreases items.len() - i,
    {
        let here = match doc.index.get(&items[i]) {
            Some(item) => match &item.name {
                Some(name) => same_text(name.as_str(), "prelude"),
                None => false,
            },
            None => false,
        };
        if here {
            return Some(i);
        }
        i += 1;
    }
    None
}

/// Takes the prelude out of the graph: the first child of the root
/// that is named `prelude` leaves the root's list and the items. A
/// graph without such a child stays as it is. It is an error, and
/// the graph stays as it is, if the root is missing, is no module
/// or has no name.
pub fn remove_preludes(doc: &mut DocGraph) -> (r: Result<(), ItemError>)
    ensures
        match old(doc)@.root_check() {
            Err(e) => r == Err::<(), ItemError>(e) && final(doc)@ == old(doc)@,
            Ok(_) => r is Ok && match prelude_place(
                old(doc)@,
                old(doc)@.children(old(doc).root).unwrap(),
                0,
            ) {
                None => final(doc)@ == old(doc)@,
                Some(at) => without_child(old(doc)@, final(doc)@, at),
            },
        },
{
    let ghost g = doc@;
    let root = doc.root;
    let found = match crate::model::root_module(doc) {
        Err(e) => {
            return Err(e);
        },
        Ok(named) => match find_prelude(doc, named.inner) {
            Some(at) => Some((at, named.inner[at])),
            None => None,
        },
    };
    let (at, gone) = match found {
        Some(pair) => pair,
        None => {
            return Ok(());
        },
    };
    match doc.index.remove(&root) {
        Some(item) => {
            let Item { id, name, docs, deprecated, kind } = item;
            match kind {
                ItemKind::Module { items } => {
                    let mut items = items;
                    items.remove(at);
                    doc.index.insert(
                        root,
                        Item { id, name, docs, deprecated, kind: ItemKind::Module { items } },
                    );
                },
                other => {
                    doc.index.insert(root, Item { id, name, docs, deprecated, kind: other });
                },
            }
        },
        None => {},
    }
    doc.index.remove(&gone);
    proof {
        assert(doc@.index.dom() =~= g.index.dom().remove(gone));
    }
    Ok(())
}

} // verus!
