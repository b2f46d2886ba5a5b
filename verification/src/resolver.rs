//! The path resolver: walks the modules of a graph once, records for
//! every item the modules that it can be reached from, and gives each
//! item one canonical path.
use crate::model::{
    get, root_module, DocGraph, GraphView, Id, Import, ItemError, ItemErrorKind, ItemKind,
    NamedItem,
};
use std::collections::{HashMap, HashSet};
use vstd::prelude::*;

verus! {

broadcast use vstd::std_specs::hash::group_hash_axioms;

/// One way to reach an item: `child` is visible in the module
/// `parent`, as a member, through a glob import, or under the name of
/// the import `via`.
#[derive(Clone, Copy, Debug)]
pub struct Edge {
    pub child: Id,
    pub parent: Id,
    pub via: Option<Id>,
}

/// What the walk over the modules has recorded.
pub struct Resolution {
    /// Every way to reach an item, in the order of the walk.
    pub edges: Seq<Edge>,
    /// For each item that can be reached, the place in `edges` of the
    /// first way to reach it.
    pub first: Map<Id, usize>,
    /// For each module that the walk found, the number of steps from
    /// the root at which it was found.
    pub depth: Map<Id, usize>,
    /// The modules in the order in which the walk found them.
    pub modules: Seq<Id>,
    /// The modules that the walk met again after it had found them.
    pub revisited: Seq<Id>,
    /// The targets of glob imports that could not be followed
    /// because they are no modules of the graph.
    pub unfollowed: Seq<Id>,
}

/// What following one glob import has collected.
pub struct Expansion {
    /// The items that the import makes visible, in order.
    pub ids: Seq<Id>,
    /// The modules whose children have been taken.
    pub visited: Set<Id>,
    /// The modules that were met again and skipped.
    pub repeats: Seq<Id>,
    /// The targets of glob imports that could not be followed.
    pub unfollowed: Seq<Id>,
}

impl Resolution {
    /// The state before the walk: only the root is known.
    pub open spec fn start(root: Id) -> Resolution {
        Resolution {
            edges: Seq::empty(),
            first: Map::empty(),
            depth: Map::empty().insert(root, 0usize),
            modules: seq![root],
            revisited: Seq::empty(),
            unfollowed: Seq::empty(),
        }
    }

    /// Records that `child` can be reached from the module `parent`.
    /// A child that is a module is found at this moment, one step
    /// below `parent`, unless it had been found before: then it is
    /// noted as met again.
    pub open spec fn record(self, g: GraphView, child: Id, parent: Id, via: Option<Id>) -> Resolution {
        let first = if self.first.contains_key(child) {
            self.first
        } else {
            self.first.insert(child, self.edges.len() as usize)
        };
        let edges = self.edges.push(Edge { child, parent, via });
        if g.is_module(child) {
            if self.depth.contains_key(child) {
                Resolution { edges, first, revisited: self.revisited.push(child), ..self }
            } else {
                Resolution {
                    edges,
                    first,
                    depth: self.depth.insert(child, (self.depth[parent] + 1) as usize),
                    modules: self.modules.push(child),
                    ..self
                }
            }
        } else {
            Resolution { edges, first, ..self }
        }
    }

    /// Records each of `ids`, from index `from` on, as reached from
    /// `parent` without a name of its own.
    pub open spec fn record_all(self, g: GraphView, ids: Seq<Id>, from: nat, parent: Id) -> Resolution
        decreases ids.len() - from,
    {
        if from >= ids.len() {
            self
        } else {
            self.record(g, ids[from as int], parent, None).record_all(g, ids, from + 1, parent)
        }
    }

    /// Notes what following a glob import has met again and what it
    /// could not follow.
    pub open spec fn note(self, found: Expansion) -> Resolution {
        Resolution {
            revisited: self.revisited + found.repeats,
            unfollowed: self.unfollowed + found.unfollowed,
            ..self
        }
    }
}

impl Expansion {
    /// The state at a glob import in `module`, before it is followed.
    pub open spec fn start(module: Id) -> Expansion {
        Expansion {
            ids: Seq::empty(),
            visited: Set::empty().insert(module),
            repeats: Seq::empty(),
            unfollowed: Seq::empty(),
        }
    }
}

/// Follows a glob import to its target. A target that is a module
/// of the graph gives what `expand_children` collects from its
/// children, unless its children were taken before: then it is
/// noted as met again. Any other target, be it an item of another
/// kind or no item of the graph, gives nothing and is noted as not
/// followed; so is a module that lies more than `fuel` imports deep,
/// which the walk rules out by the `fuel` that it gives
/// (`lemma_glob_follows_modules`). This is the one rule for every
/// glob import, whether a module of the walk holds it or another
/// glob import led to it.
pub open spec fn follow(g: GraphView, target: Id, acc: Expansion, fuel: nat) -> Expansion
    decreases fuel, 0nat,
{
    if acc.visited.contains(target) {
        Expansion { repeats: acc.repeats.push(target), ..acc }
    } else {
        match g.children(target) {
            Some(inner) => if fuel == 0 {
                Expansion { unfollowed: acc.unfollowed.push(target), ..acc }
            } else {
                expand_children(
                    g,
                    inner,
                    0,
                    Expansion { visited: acc.visited.insert(target), ..acc },
                    (fuel - 1) as nat,
                )
            },
            None => Expansion { unfollowed: acc.unfollowed.push(target), ..acc },
        }
    }
}

/// Takes the children `items` of a glob import's target from index
/// `from` on. A child that is itself a glob import is followed as
/// `follow` says; any other import contributes its target, and any
/// other child contributes itself. Children that the graph does not
/// hold contribute nothing.
pub open spec fn expand_children(
    g: GraphView,
    items: Seq<Id>,
    from: nat,
    acc: Expansion,
    fuel: nat,
) -> Expansion
    decreases fuel, items.len() - from + 1,
{
    if from >= items.len() {
        acc
    } else {
        let child = items[from as int];
        let next = if !g.index.contains_key(child) {
            acc
        } else {
            match g.index[child].kind {
                ItemKind::Import(Import { target: Some(target), glob, .. }) => if !glob {
                    Expansion { ids: acc.ids.push(target), ..acc }
                } else {
                    follow(g, target, acc, fuel)
                },
                _ => Expansion { ids: acc.ids.push(child), ..acc },
            }
        };
        expand_children(g, items, from + 1, next, fuel)
    }
}

/// What the glob import of `target` in `module` shows: what
/// following it collects, at most as many imports deep as the graph
/// has items.
pub open spec fn glob_shows(g: GraphView, module: Id, target: Id) -> Expansion {
    follow(g, target, Expansion::start(module), g.index.len())
}

/// Records what the children `items` of `module` make reachable,
/// from index `from` on: each child itself, the target of each import
/// under the import's name, and for each glob import all that
/// `glob_shows` collects from its target. The one error is a child
/// that is not in the graph. A glob import that names no module of
/// the graph is no error: it shows nothing, and its target is noted
/// as not followed.
pub open spec fn record_children(
    g: GraphView,
    module: Id,
    items: Seq<Id>,
    from: nat,
    st: Resolution,
) -> Result<Resolution, ItemError>
    decreases items.len() - from,
{
    if from >= items.len() {
        Ok(st)
    } else {
        let child = items[from as int];
        let st = st.record(g, child, module, None);
        if !g.index.contains_key(child) {
            Err(ItemError { id: child, kind: ItemErrorKind::MissingItem })
        } else {
            match g.index[child].kind {
                ItemKind::Import(Import { target: Some(target), glob, .. }) => if !glob {
                    record_children(
                        g,
                        module,
                        items,
                        from + 1,
                        st.record(g, target, module, Some(child)),
                    )
                } else {
                    let found = glob_shows(g, module, target);
                    record_children(
                        g,
                        module,
                        items,
                        from + 1,
                        st.note(found).record_all(g, found.ids, 0, module),
                    )
                },
                _ => record_children(g, module, items, from + 1, st),
            }
        }
    }
}

/// Walks the modules from place `at` of the order in which they were
/// found, breadth first, taking at most `limit` modules in all.
pub open spec fn walk_modules(g: GraphView, st: Resolution, at: nat, limit: nat) -> Result<
    Resolution,
    ItemError,
>
    decreases limit - at,
{
    if at >= st.modules.len() || at >= limit {
        Ok(st)
    } else {
        let module = st.modules[at as int];
        match g.children(module) {
            Some(items) => match record_children(g, module, items, 0, st) {
                Ok(next) => walk_modules(g, next, at + 1, limit),
                Err(e) => Err(e),
            },
            None => walk_modules(g, st, at + 1, limit),
        }
    }
}

/// What the resolver records for a graph, or the fault that stops
/// it. The faults are a root that is missing, is no module or has no
/// name, and a child of a module that the graph does not hold. A
/// module that is met again, and a glob import whose target is no
/// module of the graph, stop nothing: the first is noted in
/// `revisited`, the second shows nothing and is noted in
/// `unfollowed`, wherever the import stands.
pub open spec fn resolve(g: GraphView) -> Result<Resolution, ItemError> {
    match g.root_check() {
        Err(e) => Err(e),
        Ok(_) => walk_modules(g, Resolution::start(g.root), 0, g.index.len()),
    }
}


impl Resolution {
    /// What holds of a record during the walk and after it: every
    /// way to reach an item starts at a module that was found; the
    /// ways are recorded from modules nearer the root first; `first`
    /// names the earliest way to each item; and every module but the
    /// root was found one step below the module of its first way.
    #[verifier::opaque]
    pub open spec fn ordered(self, g: GraphView) -> bool {
        &&& self.depth.contains_key(g.root) && self.depth[g.root] == 0
        &&& forall|m: Id| #[trigger] self.depth.contains_key(m) ==> g.is_module(m)
        &&& forall|e: int|
            0 <= e < self.edges.len() ==> self.depth.contains_key(#[trigger] self.edges[e].parent)
        &&& forall|e1: int, e2: int|
            #![trigger self.edges[e1], self.edges[e2]]
            0 <= e1 <= e2 < self.edges.len() ==> self.depth[self.edges[e1].parent]
                <= self.depth[self.edges[e2].parent]
        &&& forall|id: Id| #[trigger]
            self.first.contains_key(id) ==> self.first[id] < self.edges.len()
                && self.edges[self.first[id] as int].child == id
        &&& forall|e: int|
            0 <= e < self.edges.len() ==> self.first.contains_key(#[trigger] self.edges[e].child)
                && self.first[self.edges[e].child] <= e
        &&& forall|m: Id| #[trigger]
            self.depth.contains_key(m) && m != g.root ==> self.first.contains_key(m)
                && self.depth[m] == self.depth[self.edges[self.first[m] as int].parent] + 1
        &&& forall|e: int|
            0 <= e < self.edges.len() && g.is_module(#[trigger] self.edges[e].child)
                ==> self.depth.contains_key(self.edges[e].child)
    }

    /// What holds while the walk is at the module at place `at`:
    /// modules were found in the order of their depth, none more than
    /// one step below the module at `at`, and nothing was recorded
    /// from a module below it.
    #[verifier::opaque]
    pub open spec fn walking(self, g: GraphView, at: int) -> bool {
        &&& self.ordered(g)
        &&& 0 <= at < self.modules.len()
        &&& forall|i: int|
            0 <= i < self.modules.len() ==> self.depth.contains_key(#[trigger] self.modules[i])
        &&& forall|i: int, j: int|
            #![trigger self.modules[i], self.modules[j]]
            0 <= i <= j < self.modules.len() ==> self.depth[self.modules[i]]
                <= self.depth[self.modules[j]]
        &&& forall|j: int|
            0 <= j < self.modules.len() ==> self.depth[#[trigger] self.modules[j]]
                <= self.depth[self.modules[at]] + 1
        &&& forall|e: int|
            0 <= e < self.edges.len() ==> self.depth[#[trigger] self.edges[e].parent]
                <= self.depth[self.modules[at]]
        &&& forall|m: Id| #[trigger] self.depth.contains_key(m) ==> self.depth[m] < self.modules.len()
    }

    /// What holds of the modules that the walk has found: each was
    /// found once, and each is a module of the graph whose depth is
    /// known.
    #[verifier::opaque]
    pub open spec fn found_once(self, g: GraphView) -> bool {
        &&& self.modules.no_duplicates()
        &&& forall|i: int|
            0 <= i < self.modules.len() ==> self.depth.contains_key(#[trigger] self.modules[i])
                && g.index.contains_key(self.modules[i])
    }

    /// Whether `import` is an import of the graph that is no glob
    /// and names `child` as its target.
    pub open spec fn imports(g: GraphView, import: Id, child: Id) -> bool {
        g.index.contains_key(import) && match g.index[import].kind {
            ItemKind::Import(i) => i.target == Some(child) && !i.glob,
            _ => false,
        }
    }

    /// What holds of every way that goes through an import: the
    /// import is no glob and names the child as its target.
    #[verifier::opaque]
    pub open spec fn aliased(self, g: GraphView) -> bool {
        forall|e: int|
            0 <= e < self.edges.len() && (#[trigger] self.edges[e]).via is Some
                ==> Resolution::imports(g, self.edges[e].via.unwrap(), self.edges[e].child)
    }

    /// Recording a way that goes through no import, or through an
    /// import of the child, keeps `aliased`.
    pub proof fn lemma_record_aliased(
        self,
        g: GraphView,
        child: Id,
        parent: Id,
        via: Option<Id>,
    )
        requires
            self.aliased(g),
            (via is Some) ==> Resolution::imports(g, via.unwrap(), child),
        ensures
            self.record(g, child, parent, via).aliased(g),
    {
        reveal(Resolution::aliased);
        let next = self.record(g, child, parent, via);
        assert forall|e: int|
            0 <= e < next.edges.len() && (#[trigger] next.edges[e]).via is Some implies Resolution::imports(
            g,
            next.edges[e].via.unwrap(),
            next.edges[e].child,
        ) by {
            if e < self.edges.len() {
                assert(next.edges[e] == self.edges[e]);
            }
        }
    }

    /// Recording one more way keeps `found_once`.
    pub proof fn lemma_record_found_once(
        self,
        g: GraphView,
        child: Id,
        parent: Id,
        via: Option<Id>,
    )
        requires
            self.found_once(g),
        ensures
            self.record(g, child, parent, via).found_once(g),
    {
        reveal(Resolution::found_once);
        let next = self.record(g, child, parent, via);
        if g.is_module(child) && !self.depth.contains_key(child) {
            assert forall|i: int, j: int|
                0 <= i < next.modules.len() && 0 <= j < next.modules.len() && i != j implies next.modules[i]
                != next.modules[j] by {
                if i < self.modules.len() {
                    assert(next.modules[i] == self.modules[i]);
                }
                if j < self.modules.len() {
                    assert(next.modules[j] == self.modules[j]);
                }
            }
            assert forall|i: int| 0 <= i < next.modules.len() implies next.depth.contains_key(
                #[trigger] next.modules[i],
            ) && g.index.contains_key(next.modules[i]) by {
                if i < self.modules.len() {
                    assert(next.modules[i] == self.modules[i]);
                }
            }
        }
    }

    /// The walk finds no more modules than the graph has items, so
    /// the bound on the number of modules that it takes never cuts
    /// it short.
    pub proof fn lemma_found_within_index(self, g: GraphView)
        requires
            self.found_once(g),
            g.index.dom().finite(),
        ensures
            self.modules.len() <= g.index.len(),
    {
        reveal(Resolution::found_once);
        self.modules.unique_seq_to_set();
        assert(self.modules.to_set().subset_of(g.index.dom())) by {
            assert forall|m: Id| self.modules.to_set().contains(m) implies g.index.dom().contains(
                m,
            ) by {
                let i = choose|i: int| 0 <= i < self.modules.len() && self.modules[i] == m;
                assert(g.index.contains_key(self.modules[i]));
            }
        }
        vstd::set_lib::lemma_len_subset(self.modules.to_set(), g.index.dom());
    }

    /// Recording one more way from the module at `at` keeps `walking`.
    pub proof fn lemma_record_walking(self, g: GraphView, at: int, child: Id, via: Option<Id>)
        requires
            self.walking(g, at),
            self.modules.len() <= usize::MAX,
            self.edges.len() <= usize::MAX,
        ensures
            self.record(g, child, self.modules[at], via).walking(g, at),
    {
        reveal(Resolution::ordered);
        reveal(Resolution::walking);
        let parent = self.modules[at];
        let next = self.record(g, child, parent, via);
        let n = self.edges.len() as int;
        assert(next.edges.len() == n + 1);
        assert(next.edges[n] == Edge { child, parent, via });
        assert forall|e: int| 0 <= e < n implies #[trigger] next.edges[e] == self.edges[e] by {}
        assert(self.depth.contains_key(parent));
        let found = g.is_module(child) && !self.depth.contains_key(child);
        assert forall|m: Id| self.depth.contains_key(m) implies #[trigger] next.depth.contains_key(m)
            && next.depth[m] == self.depth[m] by {}
        if found {
            assert(next.modules.len() == self.modules.len() + 1);
            assert(next.modules[self.modules.len() as int] == child);
            assert forall|i: int| 0 <= i < self.modules.len() implies #[trigger] next.modules[i]
                == self.modules[i] by {}
            assert(next.depth[child] == self.depth[parent] + 1);
            assert(!self.first.contains_key(child)) by {
                if self.first.contains_key(child) {
                    let e = self.first[child] as int;
                    assert(self.edges[e].child == child);
                }
            }
        } else {
            assert(next.modules == self.modules);
            assert(next.depth == self.depth);
        }
        assert forall|e1: int, e2: int|
            #![trigger next.edges[e1], next.edges[e2]]
            0 <= e1 <= e2 < next.edges.len() implies next.depth[next.edges[e1].parent]
            <= next.depth[next.edges[e2].parent] by {
            if e2 < n {
                assert(self.edges[e1].parent == next.edges[e1].parent);
                assert(self.edges[e2].parent == next.edges[e2].parent);
            } else if e1 < n {
                assert(self.edges[e1].parent == next.edges[e1].parent);
            }
        }
        assert forall|e: int| 0 <= e < next.edges.len() implies next.first.contains_key(
            #[trigger] next.edges[e].child,
        ) && next.first[next.edges[e].child] <= e by {
            if e < n {
                assert(self.first.contains_key(self.edges[e].child));
            }
        }
        assert forall|m: Id| #[trigger] next.depth.contains_key(m) && m != g.root implies next.first.contains_key(
            m,
        ) && next.depth[m] == next.depth[next.edges[next.first[m] as int].parent] + 1 by {
            if found && m == child {
                assert(next.first[m] == n);
            } else {
                assert(self.depth.contains_key(m));
                assert(self.first.contains_key(m));
                assert(next.first[m] == self.first[m]);
                assert(next.edges[self.first[m] as int] == self.edges[self.first[m] as int]);
            }
        }
        assert forall|e: int|
            0 <= e < next.edges.len() && g.is_module(#[trigger] next.edges[e].child) implies next.depth.contains_key(
            next.edges[e].child,
        ) by {
            if e < n {
                assert(self.edges[e].child == next.edges[e].child);
            }
        }
        assert forall|id: Id| #[trigger] next.first.contains_key(id) implies next.first[id]
            < next.edges.len() && next.edges[next.first[id] as int].child == id by {
            if self.first.contains_key(id) {
                assert(next.first[id] == self.first[id]);
                assert(next.edges[self.first[id] as int] == self.edges[self.first[id] as int]);
            }
        }
        assert forall|e: int| 0 <= e < next.edges.len() implies next.depth.contains_key(
            #[trigger] next.edges[e].parent,
        ) && next.depth[next.edges[e].parent] <= next.depth[next.modules[at]] by {
            if e < n {
                assert(self.edges[e].parent == next.edges[e].parent);
            }
        }
        assert forall|i: int, j: int|
            #![trigger next.modules[i], next.modules[j]]
            0 <= i <= j < next.modules.len() implies next.depth[next.modules[i]]
            <= next.depth[next.modules[j]] by {
            if j < self.modules.len() {
                assert(self.modules[i] == next.modules[i]);
                assert(self.modules[j] == next.modules[j]);
            } else if i < self.modules.len() {
                assert(self.modules[i] == next.modules[i]);
            }
        }
        assert forall|j: int| 0 <= j < next.modules.len() implies next.depth.contains_key(
            #[trigger] next.modules[j],
        ) && next.depth[next.modules[j]] <= next.depth[next.modules[at]] + 1 by {
            if j < self.modules.len() {
                assert(self.modules[j] == next.modules[j]);
            }
        }
    }

    /// Once the module at `at` is done, `walking` holds at the next.
    pub proof fn lemma_advance(self, g: GraphView, at: int)
        requires
            self.walking(g, at),
            at + 1 < self.modules.len(),
        ensures
            self.walking(g, at + 1),
    {
        reveal(Resolution::walking);
        assert(self.depth[self.modules[at]] <= self.depth[self.modules[at + 1]]);
    }

    /// Noting what a glob import met keeps `walking`.
    pub proof fn lemma_note_walking(self, g: GraphView, at: int, found: Expansion)
        requires
            self.walking(g, at),
        ensures
            self.note(found).walking(g, at),
            self.found_once(g) ==> self.note(found).found_once(g),
            self.aliased(g) ==> self.note(found).aliased(g),
    {
        reveal(Resolution::ordered);
        reveal(Resolution::walking);
        reveal(Resolution::found_once);
        reveal(Resolution::aliased);
    }

    /// The walk starts at the root.
    pub proof fn lemma_start_walking(g: GraphView)
        requires
            g.is_module(g.root),
        ensures
            Resolution::start(g.root).walking(g, 0),
            Resolution::start(g.root).found_once(g),
            Resolution::start(g.root).aliased(g),
    {
        reveal(Resolution::ordered);
        reveal(Resolution::walking);
        reveal(Resolution::found_once);
        reveal(Resolution::aliased);
    }

    /// While the walk is at a module, that module's depth is known.
    pub proof fn lemma_walking_at(self, g: GraphView, at: int)
        requires
            self.walking(g, at),
        ensures
            0 <= at < self.modules.len(),
            self.depth.contains_key(self.modules[at]),
            self.depth[self.modules[at]] < self.modules.len(),
            self.ordered(g),
    {
        reveal(Resolution::walking);
    }
}

impl Resolution {
    /// Whether the record holds this way to reach `child`.
    pub open spec fn has_edge(self, child: Id, parent: Id, via: Option<Id>) -> bool {
        exists|e: int|
            0 <= e < self.edges.len() && #[trigger] self.edges[e] == (Edge { child, parent, via })
    }

    /// Whether `later` holds all that this record holds, in the same
    /// places.
    pub open spec fn kept_in(self, later: Resolution) -> bool {
        self.edges.is_prefix_of(later.edges) && self.modules.is_prefix_of(later.modules)
    }

    /// A way that was recorded stays recorded.
    pub proof fn lemma_edge_kept(self, later: Resolution, child: Id, parent: Id, via: Option<Id>)
        requires
            self.kept_in(later),
            self.has_edge(child, parent, via),
        ensures
            later.has_edge(child, parent, via),
    {
        let e = choose|e: int|
            0 <= e < self.edges.len() && #[trigger] self.edges[e] == (Edge { child, parent, via });
        assert(later.edges[e] == self.edges[e]);
    }

    /// Recording a way adds it and keeps what was recorded.
    pub proof fn lemma_record_adds(self, g: GraphView, child: Id, parent: Id, via: Option<Id>)
        ensures
            self.kept_in(self.record(g, child, parent, via)),
            self.record(g, child, parent, via).has_edge(child, parent, via),
    {
        let next = self.record(g, child, parent, via);
        assert(next.edges[self.edges.len() as int] == (Edge { child, parent, via }));
    }

    /// Recording a run of ways adds each of them and keeps what was
    /// recorded.
    pub proof fn lemma_record_all_adds(self, g: GraphView, ids: Seq<Id>, from: nat, parent: Id)
        ensures
            self.kept_in(self.record_all(g, ids, from, parent)),
            forall|k: int|
                from <= k < ids.len() ==> self.record_all(g, ids, from, parent).has_edge(
                    #[trigger] ids[k],
                    parent,
                    None,
                ),
        decreases ids.len() - from,
    {
        if from < ids.len() {
            let next = self.record(g, ids[from as int], parent, None);
            let last = self.record_all(g, ids, from, parent);
            self.lemma_record_adds(g, ids[from as int], parent, None);
            next.lemma_record_all_adds(g, ids, from + 1, parent);
            next.lemma_edge_kept(last, ids[from as int], parent, None);
        }
    }
}

/// Whether the record `st` holds every way in which the module
/// `module` shows its child `child`: the child itself, the target of
/// an import under the import, and for a glob import each item that
/// following the import collects.
pub open spec fn shown(g: GraphView, st: Resolution, module: Id, child: Id) -> bool {
    &&& st.has_edge(child, module, None)
    &&& g.index.contains_key(child) ==> match g.index[child].kind {
        ItemKind::Import(Import { target: Some(target), glob, .. }) => if !glob {
            st.has_edge(target, module, Some(child))
        } else {
            forall|k: int|
                0 <= k < glob_shows(g, module, target).ids.len() ==> st.has_edge(
                    #[trigger] glob_shows(g, module, target).ids[k],
                    module,
                    None,
                )
        },
        _ => true,
    }
}

/// A record that holds more shows what the smaller record shows.
pub proof fn lemma_shown_kept(g: GraphView, st: Resolution, later: Resolution, module: Id, child: Id)
    requires
        st.kept_in(later),
        shown(g, st, module, child),
    ensures
        shown(g, later, module, child),
{
    st.lemma_edge_kept(later, child, module, None);
    if g.index.contains_key(child) {
        match g.index[child].kind {
            ItemKind::Import(Import { target: Some(target), glob, .. }) => {
                if !glob {
                    st.lemma_edge_kept(later, target, module, Some(child));
                } else {
                    let found = glob_shows(g, module, target);
                    assert forall|k: int| 0 <= k < found.ids.len() implies later.has_edge(
                        #[trigger] found.ids[k],
                        module,
                        None,
                    ) by {
                        st.lemma_edge_kept(later, found.ids[k], module, None);
                    }
                }
            },
            _ => {},
        }
    }
}

/// Recording the children of a module records every way in which
/// the module shows them, and keeps what was recorded.
pub proof fn lemma_children_shown(
    g: GraphView,
    module: Id,
    items: Seq<Id>,
    from: nat,
    st: Resolution,
)
    requires
        record_children(g, module, items, from, st) is Ok,
    ensures
        st.kept_in(record_children(g, module, items, from, st).unwrap()),
        forall|k: int|
            from <= k < items.len() ==> shown(
                g,
                record_children(g, module, items, from, st).unwrap(),
                module,
                #[trigger] items[k],
            ),
    decreases items.len() - from,
{
    if from < items.len() {
        let child = items[from as int];
        let last = record_children(g, module, items, from, st).unwrap();
        let first = st.record(g, child, module, None);
        st.lemma_record_adds(g, child, module, None);
        let next = match g.index[child].kind {
            ItemKind::Import(Import { target: Some(target), glob, .. }) => if !glob {
                first.record(g, target, module, Some(child))
            } else {
                let found = glob_shows(g, module, target);
                first.note(found).record_all(g, found.ids, 0, module)
            },
            _ => first,
        };
        assert(last == record_children(g, module, items, from + 1, next).unwrap());
        assert(first.kept_in(next) && shown(g, next, module, child)) by {
            match g.index[child].kind {
                ItemKind::Import(Import { target: Some(target), glob, .. }) => {
                    if !glob {
                        first.lemma_record_adds(g, target, module, Some(child));
                        first.lemma_edge_kept(next, child, module, None);
                    } else {
                        let found = glob_shows(g, module, target);
                        let noted = first.note(found);
                        noted.lemma_record_all_adds(g, found.ids, 0, module);
                        assert(first.kept_in(noted));
                        first.lemma_edge_kept(next, child, module, None);
                    }
                },
                _ => {},
            }
        }
        lemma_children_shown(g, module, items, from + 1, next);
        lemma_shown_kept(g, next, last, module, child);
    }
}

/// Whether the record `st` holds every way in which the modules at
/// the places from `from` up to `to` show their children.
pub open spec fn all_shown(g: GraphView, st: Resolution, from: int, to: int) -> bool {
    forall|i: int, k: int|
        #![trigger st.modules[i], g.children(st.modules[i]).unwrap()[k]]
        from <= i < to && i < st.modules.len() && g.children(st.modules[i]) is Some && 0 <= k
            < g.children(st.modules[i]).unwrap().len() ==> shown(
            g,
            st,
            st.modules[i],
            g.children(st.modules[i]).unwrap()[k],
        )
}

/// The walk records every way in which each module that it takes
/// shows its children.
pub proof fn lemma_walk_shows(g: GraphView, st: Resolution, at: nat, limit: nat)
    requires
        walk_modules(g, st, at, limit) is Ok,
    ensures
        st.kept_in(walk_modules(g, st, at, limit).unwrap()),
        all_shown(g, walk_modules(g, st, at, limit).unwrap(), at as int, limit as int),
    decreases limit - at,
{
    let last = walk_modules(g, st, at, limit).unwrap();
    if at < st.modules.len() && at < limit {
        let module = st.modules[at as int];
        match g.children(module) {
            Some(items) => {
                let next = record_children(g, module, items, 0, st).unwrap();
                lemma_children_shown(g, module, items, 0, st);
                lemma_walk_shows(g, next, at + 1, limit);
                assert forall|i: int, k: int|
                    #![trigger last.modules[i], g.children(last.modules[i]).unwrap()[k]]
                    at <= i < limit && i < last.modules.len() && g.children(last.modules[i]) is Some
                        && 0 <= k < g.children(last.modules[i]).unwrap().len() implies shown(
                    g,
                    last,
                    last.modules[i],
                    g.children(last.modules[i]).unwrap()[k],
                ) by {
                    if i == at {
                        assert(last.modules[i] == st.modules[i]);
                        lemma_shown_kept(g, next, last, module, items[k]);
                    }
                }
            },
            None => {
                lemma_walk_shows(g, st, at + 1, limit);
                assert(last.modules[at as int] == st.modules[at as int]);
            },
        }
    }
}

/// Whether none of `ids` is a module of the graph.
pub open spec fn no_modules(g: GraphView, ids: Seq<Id>) -> bool {
    forall|i: int| 0 <= i < ids.len() ==> !g.is_module(#[trigger] ids[i])
}

/// Following a glob import is never cut short: as long as `fuel` is
/// no less than the number of items whose children were not taken,
/// what is noted as not followed is no module of the graph.
proof fn lemma_follow_depth(g: GraphView, target: Id, acc: Expansion, fuel: nat)
    requires
        g.index.dom().finite(),
        g.index.dom().difference(acc.visited).len() <= fuel,
        no_modules(g, acc.unfollowed),
    ensures
        acc.visited.subset_of(follow(g, target, acc, fuel).visited),
        no_modules(g, follow(g, target, acc, fuel).unfollowed),
    decreases fuel, 0nat,
{
    let left = g.index.dom().difference(acc.visited);
    if !acc.visited.contains(target) {
        match g.children(target) {
            Some(inner) => {
                assert(left.contains(target));
                assert(left.remove(target).len() == left.len() - 1);
                let next = Expansion { visited: acc.visited.insert(target), ..acc };
                assert(g.index.dom().difference(next.visited) =~= left.remove(target));
                lemma_expand_depth(g, inner, 0, next, (fuel - 1) as nat);
            },
            None => {
                let out = follow(g, target, acc, fuel);
                assert forall|i: int| 0 <= i < out.unfollowed.len() implies !g.is_module(
                    #[trigger] out.unfollowed[i],
                ) by {
                    if i < acc.unfollowed.len() {
                        assert(out.unfollowed[i] == acc.unfollowed[i]);
                    }
                }
            },
        }
    }
}

/// Taking the children of a glob import's target is never cut
/// short either.
proof fn lemma_expand_depth(g: GraphView, items: Seq<Id>, from: nat, acc: Expansion, fuel: nat)
    requires
        g.index.dom().finite(),
        g.index.dom().difference(acc.visited).len() <= fuel,
        no_modules(g, acc.unfollowed),
    ensures
        acc.visited.subset_of(expand_children(g, items, from, acc, fuel).visited),
        no_modules(g, expand_children(g, items, from, acc, fuel).unfollowed),
    decreases fuel, items.len() - from + 1,
{
    if from < items.len() {
        let child = items[from as int];
        let next = if !g.index.contains_key(child) {
            acc
        } else {
            match g.index[child].kind {
                ItemKind::Import(Import { target: Some(target), glob, .. }) => if !glob {
                    Expansion { ids: acc.ids.push(target), ..acc }
                } else {
                    follow(g, target, acc, fuel)
                },
                _ => Expansion { ids: acc.ids.push(child), ..acc },
            }
        };
        if g.index.contains_key(child) {
            match g.index[child].kind {
                ItemKind::Import(Import { target: Some(target), glob, .. }) => {
                    if glob {
                        lemma_follow_depth(g, target, acc, fuel);
                    }
                },
                _ => {},
            }
        }
        assert(acc.visited.subset_of(next.visited));
        assert(g.index.dom().difference(next.visited).subset_of(
            g.index.dom().difference(acc.visited),
        ));
        vstd::set_lib::lemma_len_subset(
            g.index.dom().difference(next.visited),
            g.index.dom().difference(acc.visited),
        );
        lemma_expand_depth(g, items, from + 1, next, fuel);
    }
}

/// What a glob import leaves unfollowed is no module of the graph.
pub proof fn lemma_glob_follows_modules(g: GraphView, module: Id, target: Id)
    requires
        g.index.dom().finite(),
    ensures
        no_modules(g, glob_shows(g, module, target).unfollowed),
{
    let start = Expansion::start(module);
    vstd::set_lib::lemma_len_subset(g.index.dom().difference(start.visited), g.index.dom());
    lemma_follow_depth(g, target, start, g.index.len());
}

impl Resolution {
    /// Recording a run of ways leaves the notes as they are.
    pub proof fn lemma_record_all_notes(self, g: GraphView, ids: Seq<Id>, from: nat, parent: Id)
        ensures
            self.record_all(g, ids, from, parent).unfollowed == self.unfollowed,
        decreases ids.len() - from,
    {
        if from < ids.len() {
            self.record(g, ids[from as int], parent, None).lemma_record_all_notes(
                g,
                ids,
                from + 1,
                parent,
            );
        }
    }
}

/// Recording the children of a module notes nothing but targets
/// that are no modules as not followed.
proof fn lemma_children_unfollowed(
    g: GraphView,
    module: Id,
    items: Seq<Id>,
    from: nat,
    st: Resolution,
)
    requires
        g.index.dom().finite(),
        no_modules(g, st.unfollowed),
        record_children(g, module, items, from, st) is Ok,
    ensures
        no_modules(g, record_children(g, module, items, from, st).unwrap().unfollowed),
    decreases items.len() - from,
{
    if from < items.len() {
        let child = items[from as int];
        let first = st.record(g, child, module, None);
        let next = match g.index[child].kind {
            ItemKind::Import(Import { target: Some(target), glob, .. }) => if !glob {
                first.record(g, target, module, Some(child))
            } else {
                let found = glob_shows(g, module, target);
                first.note(found).record_all(g, found.ids, 0, module)
            },
            _ => first,
        };
        match g.index[child].kind {
            ItemKind::Import(Import { target: Some(target), glob, .. }) => {
                if glob {
                    let found = glob_shows(g, module, target);
                    lemma_glob_follows_modules(g, module, target);
                    first.note(found).lemma_record_all_notes(g, found.ids, 0, module);
                    assert forall|i: int| 0 <= i < next.unfollowed.len() implies !g.is_module(
                        #[trigger] next.unfollowed[i],
                    ) by {
                        if i < st.unfollowed.len() {
                            assert(next.unfollowed[i] == st.unfollowed[i]);
                        } else {
                            assert(next.unfollowed[i] == found.unfollowed[i - st.unfollowed.len()]);
                        }
                    }
                }
            },
            _ => {},
        }
        lemma_children_unfollowed(g, module, items, from + 1, next);
    }
}

/// The walk notes nothing but targets that are no modules as not
/// followed.
proof fn lemma_walk_unfollowed(g: GraphView, st: Resolution, at: nat, limit: nat)
    requires
        g.index.dom().finite(),
        no_modules(g, st.unfollowed),
        walk_modules(g, st, at, limit) is Ok,
    ensures
        no_modules(g, walk_modules(g, st, at, limit).unwrap().unfollowed),
    decreases limit - at,
{
    if at < st.modules.len() && at < limit {
        let module = st.modules[at as int];
        match g.children(module) {
            Some(items) => {
                lemma_children_unfollowed(g, module, items, 0, st);
                lemma_walk_unfollowed(
                    g,
                    record_children(g, module, items, 0, st).unwrap(),
                    at + 1,
                    limit,
                );
            },
            None => {
                lemma_walk_unfollowed(g, st, at + 1, limit);
            },
        }
    }
}

/// Every glob import of a module is followed: what the resolver
/// notes as not followed is no module of the graph.
pub proof fn lemma_unfollowed_are_no_modules(g: GraphView)
    requires
        g.index.dom().finite(),
        resolve(g) is Ok,
    ensures
        no_modules(g, resolve(g).unwrap().unfollowed),
{
    lemma_walk_unfollowed(g, Resolution::start(g.root), 0, g.index.len());
}

/// The tables of a resolver as they are filled.
struct Tables {
    edges: Vec<Edge>,
    first: HashMap<Id, usize>,
    depth: HashMap<Id, usize>,
    modules: Vec<Id>,
    revisited: Vec<Id>,
    unfollowed: Vec<Id>,
}

impl View for Tables {
    type V = Resolution;

    closed spec fn view(&self) -> Resolution {
        Resolution {
            edges: self.edges@,
            first: self.first@,
            depth: self.depth@,
            modules: self.modules@,
            revisited: self.revisited@,
            unfollowed: self.unfollowed@,
        }
    }
}

/// What following a glob import has collected so far.
struct Found {
    ids: Vec<Id>,
    visited: HashSet<Id>,
    repeats: Vec<Id>,
    unfollowed: Vec<Id>,
}

impl View for Found {
    type V = Expansion;

    closed spec fn view(&self) -> Expansion {
        Expansion {
            ids: self.ids@,
            visited: self.visited@,
            repeats: self.repeats@,
            unfollowed: self.unfollowed@,
        }
    }
}

/// Whether `id` is a module of the graph.
pub fn is_module(doc: &DocGraph, id: Id) -> (b: bool)
    ensures
        b == doc@.is_module(id),
{
    match doc.index.get(&id) {
        Some(item) => match &item.kind {
            ItemKind::Module { .. } => true,
            _ => false,
        },
        None => false,
    }
}

/// The children of `id` if it is a module of the graph.
pub fn children<'a>(doc: &'a DocGraph, id: Id) -> (r: Option<&'a Vec<Id>>)
    ensures
        match r {
            Some(items) => doc@.children(id) == Some(items@),
            None => doc@.children(id) is None,
        },
{
    match doc.index.get(&id) {
        Some(item) => match &item.kind {
            ItemKind::Module { items } => Some(items),
            _ => None,
        },
        None => None,
    }
}

impl Found {
    fn follow(&mut self, doc: &DocGraph, target: Id, fuel: usize)
        ensures
            final(self)@ == follow(doc@, target, old(self)@, fuel as nat),
        decreases fuel, 0nat,
    {
        if self.visited.contains(&target) {
            self.repeats.push(target);
            return ;
        }
        match children(doc, target) {
            Some(inner) => {
                if fuel == 0 {
                    self.unfollowed.push(target);
                } else {
                    self.visited.insert(target);
                    self.expand(doc, inner, fuel - 1);
                }
            },
            None => {
                self.unfollowed.push(target);
            },
        }
    }

    fn expand(&mut self, doc: &DocGraph, items: &Vec<Id>, fuel: usize)
        ensures
            final(self)@ == expand_children(doc@, items@, 0, old(self)@, fuel as nat),
        decreases fuel, items.len() + 1,
    {
        let ghost g = doc@;
        let ghost start = self@;
        let mut from: usize = 0;
        while from < items.len()
            invariant
                from <= items.len(),
                g == doc@,
                expand_children(g, items@, from as nat, self@, fuel as nat) == expand_children(
                    g,
                    items@,
                    0,
                    start,
                    fuel as nat,
                ),
            decreases items.len() - from,
        {
            let child = items[from];
            match doc.index.get(&child) {
                None => {},
                Some(item) => match &item.kind {
                    ItemKind::Import(Import { target: Some(target), glob, .. }) => {
                        if !*glob {
                            self.ids.push(*target);
                        } else {
                            self.follow(doc, *target, fuel);
                        }
                    },
                    _ => {
                        self.ids.push(child);
                    },
                },
            }
            from += 1;
        }
    }
}

/// Appends the identifiers `ids` to `list`.
fn append_ids(list: &mut Vec<Id>, ids: &Vec<Id>)
    ensures
        final(list)@ == old(list)@ + ids@,
{
    let mut from: usize = 0;
    proof {
        assert(ids@.take(0) =~= Seq::<Id>::empty());
        assert(old(list)@ + Seq::<Id>::empty() =~= old(list)@);
    }
    while from < ids.len()
        invariant
            from <= ids.len(),
            list@ == old(list)@ + ids@.take(from as int),
        decreases ids.len() - from,
    {
        list.push(ids[from]);
        proof {
            assert(ids@.take(from + 1) =~= ids@.take(from as int).push(ids[from as int]));
            assert(list@ =~= old(list)@ + ids@.take(from + 1));
        }
        from += 1;
    }
    proof {
        assert(ids@.take(from as int) =~= ids@);
    }
}

impl Tables {
    fn start(root: Id) -> (t: Tables)
        ensures
            t@ == Resolution::start(root),
    {
        let mut depth: HashMap<Id, usize> = HashMap::new();
        depth.insert(root, 0);
        let mut modules: Vec<Id> = Vec::new();
        modules.push(root);
        let t = Tables {
            edges: Vec::new(),
            first: HashMap::new(),
            depth,
            modules,
            revisited: Vec::new(),
            unfollowed: Vec::new(),
        };
        proof {
            assert(t@.modules =~= seq![root]);
            assert(t@.edges =~= Seq::empty());
            assert(t@.revisited =~= Seq::empty());
            assert(t@.unfollowed =~= Seq::empty());
        }
        t
    }

    fn record(&mut self, doc: &DocGraph, child: Id, parent: Id, via: Option<Id>)
        requires
            old(self)@.depth.contains_key(parent),
            old(self)@.depth[parent] < usize::MAX,
        ensures
            final(self)@ == old(self)@.record(doc@, child, parent, via),
    {
        if !self.first.contains_key(&child) {
            self.first.insert(child, self.edges.len());
        }
        self.edges.push(Edge { child, parent, via });
        if is_module(doc, child) {
            if self.depth.contains_key(&child) {
                self.revisited.push(child);
            } else {
                let above = match self.depth.get(&parent) {
                    Some(d) => *d,
                    None => 0,
                };
                self.depth.insert(child, above + 1);
                self.modules.push(child);
            }
        }
    }

    fn record_all(&mut self, doc: &DocGraph, ids: &Vec<Id>, at: usize)
        requires
            old(self)@.walking(doc@, at as int),
            old(self)@.found_once(doc@),
            old(self)@.aliased(doc@),
        ensures
            final(self)@ == old(self)@.record_all(doc@, ids@, 0, old(self)@.modules[at as int]),
            final(self)@.walking(doc@, at as int),
            final(self)@.found_once(doc@),
            final(self)@.aliased(doc@),
            final(self)@.modules[at as int] == old(self)@.modules[at as int],
    {
        let ghost g = doc@;
        let ghost start = self@;
        proof {
            self@.lemma_walking_at(g, at as int);
        }
        let module = self.modules[at];
        let mut from: usize = 0;
        while from < ids.len()
            invariant
                from <= ids.len(),
                g == doc@,
                self@.walking(g, at as int),
                self@.found_once(g),
                self@.aliased(g),
                self@.modules[at as int] == module,
                self@.record_all(g, ids@, from as nat, module) == start.record_all(
                    g,
                    ids@,
                    0,
                    module,
                ),
            decreases ids.len() - from,
        {
            proof {
                assert(self@.modules.len() == self.modules.len());
                assert(self@.edges.len() == self.edges.len());
                self@.lemma_walking_at(g, at as int);
                self@.lemma_record_walking(g, at as int, ids[from as int], None);
                self@.lemma_record_found_once(g, ids[from as int], module, None);
                self@.lemma_record_aliased(g, ids[from as int], module, None);
            }
            self.record(doc, ids[from], module, None);
            from += 1;
        }
    }

    fn note(&mut self, found: &Found)
        ensures
            final(self)@ == old(self)@.note(found@),
    {
        append_ids(&mut self.revisited, &found.repeats);
        append_ids(&mut self.unfollowed, &found.unfollowed);
    }

    fn record_children(&mut self, doc: &DocGraph, items: &Vec<Id>, at: usize) -> (r: Result<
        (),
        ItemError,
    >)
        requires
            old(self)@.walking(doc@, at as int),
            old(self)@.found_once(doc@),
            old(self)@.aliased(doc@),
            at < old(self)@.modules.len(),
        ensures
            match record_children(doc@, old(self)@.modules[at as int], items@, 0, old(self)@) {
                Ok(next) => r is Ok && final(self)@ == next && final(self)@.walking(
                    doc@,
                    at as int,
                ) && final(self)@.found_once(doc@) && final(self)@.aliased(doc@),
                Err(e) => r == Err::<(), ItemError>(e),
            },
    {
        let ghost g = doc@;
        let ghost start = self@;
        proof {
            self@.lemma_walking_at(g, at as int);
        }
        let module = self.modules[at];
        let mut from: usize = 0;
        while from < items.len()
            invariant
                from <= items.len(),
                g == doc@,
                start == old(self)@,
                at < start.modules.len(),
                module == start.modules[at as int],
                self@.walking(g, at as int),
                self@.found_once(g),
                self@.aliased(g),
                at < self@.modules.len(),
                self@.modules[at as int] == module,
                record_children(g, module, items@, from as nat, self@) == record_children(
                    g,
                    module,
                    items@,
                    0,
                    start,
                ),
            decreases items.len() - from,
        {
            let child = items[from];
            let ghost before = self@;
            proof {
                assert(self@.modules.len() == self.modules.len());
                assert(self@.edges.len() == self.edges.len());
                self@.lemma_walking_at(g, at as int);
                self@.lemma_record_walking(g, at as int, child, None);
                self@.lemma_record_found_once(g, child, module, None);
                self@.lemma_record_aliased(g, child, module, None);
            }
            self.record(doc, child, module, None);
            match doc.index.get(&child) {
                None => {
                    proof {
                        assert(record_children(g, module, items@, from as nat, before) == Err::<
                            Resolution,
                            ItemError,
                        >(ItemError { id: child, kind: ItemErrorKind::MissingItem }));
                    }
                    return Err(ItemError { id: child, kind: ItemErrorKind::MissingItem });
                },
                Some(item) => match &item.kind {
                    ItemKind::Import(Import { target: Some(target), glob, .. }) => {
                        if !*glob {
                            proof {
                                assert(self@.modules.len() == self.modules.len());
                                assert(self@.edges.len() == self.edges.len());
                                self@.lemma_walking_at(g, at as int);
                                self@.lemma_record_walking(g, at as int, *target, Some(child));
                                self@.lemma_record_found_once(g, *target, module, Some(child));
                                self@.lemma_record_aliased(g, *target, module, Some(child));
                            }
                            self.record(doc, *target, module, Some(child));
                        } else {
                            let mut visited: HashSet<Id> = HashSet::new();
                            visited.insert(module);
                            let mut found = Found {
                                ids: Vec::new(),
                                visited,
                                repeats: Vec::new(),
                                unfollowed: Vec::new(),
                            };
                            proof {
                                assert(found@.ids =~= Seq::empty());
                                assert(found@.repeats =~= Seq::empty());
                                assert(found@.unfollowed =~= Seq::empty());
                                assert(found@ == Expansion::start(module));
                            }
                            found.follow(doc, *target, doc.index.len());
                            proof {
                                self@.lemma_note_walking(g, at as int, found@);
                            }
                            self.note(&found);
                            self.record_all(doc, &found.ids, at);
                        }
                    },
                    _ => {},
                },
            }
            proof {
                self@.lemma_walking_at(g, at as int);
            }
            from += 1;
        }
        Ok(())
    }

    fn walk(&mut self, doc: &DocGraph) -> (r: Result<(), ItemError>)
        requires
            old(self)@.walking(doc@, 0),
            old(self)@.found_once(doc@),
            old(self)@.aliased(doc@),
        ensures
            match walk_modules(doc@, old(self)@, 0, doc@.index.len()) {
                Ok(next) => r is Ok && final(self)@ == next && final(self)@.ordered(doc@)
                    && final(self)@.found_once(doc@) && final(self)@.aliased(doc@),
                Err(e) => r == Err::<(), ItemError>(e),
            },
    {
        let ghost g = doc@;
        let ghost start = self@;
        let limit = doc.index.len();
        let mut at: usize = 0;
        proof {
            self@.lemma_walking_at(g, 0);
        }
        while at < self.modules.len() && at < limit
            invariant
                g == doc@,
                start == old(self)@,
                limit == g.index.len(),
                at <= self.modules.len(),
                at < self.modules.len() ==> self@.walking(g, at as int),
                self@.ordered(g),
                self@.found_once(g),
                self@.aliased(g),
                walk_modules(g, self@, at as nat, limit as nat) == walk_modules(
                    g,
                    start,
                    0,
                    limit as nat,
                ),
            decreases limit - at,
        {
            let module = self.modules[at];
            match children(doc, module) {
                Some(items) => {
                    let ghost before = self@;
                    match self.record_children(doc, items, at) {
                        Ok(_) => {},
                        Err(e) => {
                            proof {
                                assert(walk_modules(g, before, at as nat, limit as nat) == Err::<
                                    Resolution,
                                    ItemError,
                                >(e));
                            }
                            return Err(e);
                        },
                    }
                },
                None => {},
            }
            proof {
                self@.lemma_walking_at(g, at as int);
                if at + 1 < self.modules.len() {
                    self@.lemma_advance(g, at as int);
                }
            }
            at += 1;
        }
        Ok(())
    }
}


/// The name that a way to reach an item gives it: the name of the
/// import that it goes through, if any.
pub open spec fn alias_of(g: GraphView, via: Option<Id>) -> Option<Seq<char>> {
    match via {
        Some(import) => if g.index.contains_key(import) {
            match g.index[import].kind {
                ItemKind::Import(i) => Some(i.name@),
                _ => None,
            }
        } else {
            None
        },
        None => None,
    }
}

/// The last segment of the path that `edge` gives its child: the
/// import's name, or else the name that the child was declared with.
pub open spec fn segment(g: GraphView, edge: Edge) -> Option<Seq<char>> {
    match alias_of(g, edge.via) {
        Some(alias) => Some(alias),
        None => g.declared_name(edge.child),
    }
}

/// The path of the root module: its entry in the table of known
/// paths, or else its own name.
pub open spec fn root_path(g: GraphView) -> Option<Seq<Seq<char>>> {
    match g.table_path(g.root) {
        Some(path) => Some(path),
        None => match g.declared_name(g.root) {
            Some(name) => Some(seq![name]),
            None => None,
        },
    }
}

/// The module that `id` is resolved through: the start of the first
/// way that was recorded for it. The root has none.
pub open spec fn canonical_parent_of(g: GraphView, r: Resolution, id: Id) -> Option<Id> {
    if id != g.root && r.first.contains_key(id) {
        Some(r.edges[r.first[id] as int].parent)
    } else {
        None
    }
}

/// The number of modules between `id` and the root on its canonical
/// path, the root not counted.
pub open spec fn rank(g: GraphView, r: Resolution, id: Id) -> nat {
    match canonical_parent_of(g, r, id) {
        Some(parent) => r.depth[parent] as nat + 1,
        None => 0,
    }
}

/// The canonical path of `id`, followed through at most `fuel`
/// parents: the path of its canonical parent and then its own
/// segment; for an item that cannot be reached from any module, its
/// entry in the table of known paths.
pub open spec fn path_upto(g: GraphView, r: Resolution, id: Id, fuel: nat) -> Option<
    Seq<Seq<char>>,
>
    decreases fuel,
{
    if id == g.root {
        root_path(g)
    } else if r.first.contains_key(id) {
        if fuel == 0 {
            None
        } else {
            let edge = r.edges[r.first[id] as int];
            match (path_upto(g, r, edge.parent, (fuel - 1) as nat), segment(g, edge)) {
                (Some(prefix), Some(last)) => Some(prefix.push(last)),
                _ => None,
            }
        }
    } else {
        g.table_path(id)
    }
}

/// The canonical path of `id`, if it has one.
pub open spec fn path_of(g: GraphView, r: Resolution, id: Id) -> Option<Seq<Seq<char>>> {
    path_upto(g, r, id, rank(g, r, id))
}

/// The canonical parent of an item lies nearer the root than the
/// item, and the item's path is its parent's path and one segment.
pub proof fn lemma_path_step(g: GraphView, r: Resolution, id: Id)
    requires
        r.ordered(g),
        canonical_parent_of(g, r, id) is Some,
    ensures
        rank(g, r, canonical_parent_of(g, r, id).unwrap()) < rank(g, r, id),
        r.first[id] < r.edges.len(),
        r.edges[r.first[id] as int].child == id,
        r.depth.contains_key(canonical_parent_of(g, r, id).unwrap()),
        path_of(g, r, id) == match (
            path_of(g, r, canonical_parent_of(g, r, id).unwrap()),
            segment(g, r.edges[r.first[id] as int]),
        ) {
            (Some(prefix), Some(last)) => Some(prefix.push(last)),
            _ => None::<Seq<Seq<char>>>,
        },
{
    reveal(Resolution::ordered);
    let edge = r.edges[r.first[id] as int];
    let parent = edge.parent;
    assert(r.depth.contains_key(parent));
    if parent != g.root {
        assert(r.first.contains_key(parent));
        assert(rank(g, r, parent) == r.depth[parent]);
    }
}

/// The rank of a module that the walk found is its depth.
pub proof fn lemma_rank_is_depth(g: GraphView, r: Resolution, m: Id)
    requires
        r.ordered(g),
        r.depth.contains_key(m),
    ensures
        rank(g, r, m) == r.depth[m],
{
    reveal(Resolution::ordered);
}

/// The path of a module that the walk found has as many segments
/// beyond the root's path as the module's depth.
pub proof fn lemma_module_path_len(g: GraphView, r: Resolution, m: Id)
    requires
        r.ordered(g),
        r.depth.contains_key(m),
        path_of(g, r, m) is Some,
    ensures
        root_path(g) is Some,
        path_of(g, r, m).unwrap().len() == root_path(g).unwrap().len() + r.depth[m],
    decreases r.depth[m],
{
    reveal(Resolution::ordered);
    if m != g.root {
        lemma_path_step(g, r, m);
        let parent = canonical_parent_of(g, r, m).unwrap();
        lemma_module_path_len(g, r, parent);
    }
}

/// Shortest path first: the canonical path of an item is never
/// longer than a path through any other module that it can be
/// reached from.
pub proof fn lemma_shortest_path_wins(g: GraphView, r: Resolution, id: Id, other: int)
    requires
        r.ordered(g),
        id != g.root,
        0 <= other < r.edges.len(),
        r.edges[other].child == id,
        path_of(g, r, id) is Some,
        path_of(g, r, r.edges[other].parent) is Some,
    ensures
        path_of(g, r, id).unwrap().len() <= path_of(g, r, r.edges[other].parent).unwrap().len()
            + 1,
{
    reveal(Resolution::ordered);
    assert(r.first.contains_key(id));
    lemma_path_step(g, r, id);
    let chosen = r.edges[r.first[id] as int];
    assert(r.first[id] <= other);
    assert(r.depth[chosen.parent] <= r.depth[r.edges[other].parent]);
    lemma_module_path_len(g, r, chosen.parent);
    lemma_module_path_len(g, r, r.edges[other].parent);
}

/// An alias replaces the name: where the first way to an item goes
/// through an import, the import is no glob and names the item, and
/// the item's canonical path ends in the import's name, not in the
/// name that the item was declared with.
pub proof fn lemma_alias_ends_path(g: GraphView, r: Resolution, id: Id)
    requires
        r.ordered(g),
        r.aliased(g),
        canonical_parent_of(g, r, id) is Some,
        r.edges[r.first[id] as int].via is Some,
        path_of(g, r, id) is Some,
    ensures
        Resolution::imports(g, r.edges[r.first[id] as int].via.unwrap(), id),
        alias_of(g, r.edges[r.first[id] as int].via) is Some,
        path_of(g, r, id).unwrap().last() == alias_of(g, r.edges[r.first[id] as int].via).unwrap(),
{
    reveal(Resolution::aliased);
    lemma_path_step(g, r, id);
}

/// An item that cannot be reached from any module resolves to its
/// entry in the table of known paths, and to nothing without one.
pub proof fn lemma_table_fallback(g: GraphView, r: Resolution, id: Id)
    requires
        id != g.root,
        !r.first.contains_key(id),
    ensures
        path_of(g, r, id) == g.table_path(id),
{
}

/// The resolver of one graph: the graph, its root module, and what
/// the walk over its modules recorded.
pub struct PathResolver<'a> {
    doc: &'a DocGraph,
    root_module: NamedItem<'a, Vec<Id>>,
    tables: Tables,
}

impl<'a> View for PathResolver<'a> {
    type V = Resolution;

    closed spec fn view(&self) -> Resolution {
        self.tables@
    }
}

/// Copies a list of strings.
pub fn copy_strings(strings: &Vec<String>) -> (r: Vec<String>)
    ensures
        crate::model::texts(r@) == crate::model::texts(strings@),
{
    let mut out: Vec<String> = Vec::new();
    let mut i: usize = 0;
    while i < strings.len()
        invariant
            i <= strings.len(),
            out.len() == i,
            forall|j: int| 0 <= j < i ==> #[trigger] out[j]@ == strings[j]@,
        decreases strings.len() - i,
    {
        out.push(strings[i].clone());
        i += 1;
    }
    proof {
        assert(crate::model::texts(out@) =~= crate::model::texts(strings@));
    }
    out
}

impl<'a> PathResolver<'a> {
    /// The graph that this resolver was made for.
    pub closed spec fn graph(&self) -> GraphView {
        self.doc@
    }

    /// What every resolver holds: the record of the walk over its
    /// graph, with the walk's order.
    pub closed spec fn wf(&self) -> bool {
        &&& resolve(self.doc@) == Ok::<Resolution, ItemError>(self.tables@)
        &&& self.tables@.ordered(self.doc@)
        &&& self.tables@.found_once(self.doc@)
        &&& self.tables@.aliased(self.doc@)
        &&& self.doc@.root_check() is Ok
        &&& *self.root_module.base == self.doc@.index[self.doc.root]
        &&& self.root_module.base.name == Some(*self.root_module.name)
    }

    /// A resolver holds what `resolve` says of its graph.
    pub proof fn lemma_wf(&self)
        requires
            self.wf(),
        ensures
            resolve(self.graph()) == Ok::<Resolution, ItemError>(self@),
            self@.ordered(self.graph()),
            self@.found_once(self.graph()),
            self@.aliased(self.graph()),
            self@.modules.len() <= self.graph().index.len(),
            no_modules(self.graph(), self@.unfollowed),
    {
        self@.lemma_found_within_index(self.doc@);
        lemma_unfollowed_are_no_modules(self.doc@);
    }

    /// Nothing is passed over: for every module that the walk found
    /// the resolver holds every way in which the module shows its
    /// children.
    pub proof fn lemma_all_shown(&self)
        requires
            self.wf(),
        ensures
            all_shown(self.graph(), self@, 0, self@.modules.len() as int),
    {
        let g = self.doc@;
        self@.lemma_found_within_index(g);
        lemma_walk_shows(g, Resolution::start(g.root), 0, g.index.len());
    }

    /// The root module of a resolver's graph has a name.
    pub proof fn lemma_root_named(&self)
        requires
            self.wf(),
        ensures
            self.graph().root_check() is Ok,
            self.graph().declared_name(self.graph().root) is Some,
    {
    }

    /// Walks the modules of `doc` from the root, breadth first, and
    /// records every way to reach an item. Fails as `resolve` says:
    /// if the root is missing, is no module or has no name, or if a
    /// module lists a child that the graph does not hold. A module
    /// that is met again and a glob import that names no module are
    /// noted and do not stop the walk.
    pub fn from(doc: &'a DocGraph) -> (r: Result<PathResolver<'a>, ItemError>)
        ensures
            match r {
                Ok(resolver) => resolver.wf() && resolver.graph() == doc@ && resolve(doc@) == Ok::<
                    Resolution,
                    ItemError,
                >(resolver@),
                Err(e) => resolve(doc@) == Err::<Resolution, ItemError>(e),
            },
    {
        let root_module = root_module(doc)?;
        let mut tables = Tables::start(doc.root);
        proof {
            Resolution::lemma_start_walking(doc@);
        }
        match tables.walk(doc) {
            Ok(_) => Ok(PathResolver { doc, root_module, tables }),
            Err(e) => Err(e),
        }
    }

    /// The module through which `id` is resolved, if any.
    pub fn canonical_parent(&self, id: Id) -> (r: Option<Id>)
        requires
            self.wf(),
        ensures
            r == canonical_parent_of(self.graph(), self@, id),
    {
        proof {
            reveal(Resolution::ordered);
        }
        if id == self.doc.root {
            return None;
        }
        match self.tables.first.get(&id) {
            Some(at) => Some(self.tables.edges[*at].parent),
            None => None,
        }
    }

    /// The module through which `id` is resolved, if any.
    pub fn parent(&self, id: Id) -> (r: Option<Id>)
        requires
            self.wf(),
        ensures
            r == canonical_parent_of(self.graph(), self@, id),
    {
        self.canonical_parent(id)
    }

    /// The name that the first way to `id` gives it.
    fn segment(&self, id: Id) -> (r: Option<&String>)
        requires
            self.wf(),
            canonical_parent_of(self.graph(), self@, id) is Some,
        ensures
            match segment(self.graph(), self@.edges[self@.first[id] as int]) {
                Some(text) => r is Some && r.unwrap()@ == text,
                None => r is None,
            },
    {
        proof {
            reveal(Resolution::ordered);
        }
        let at = match self.tables.first.get(&id) {
            Some(at) => *at,
            None => 0,
        };
        let edge = self.tables.edges[at];
        if let Some(import) = edge.via {
            if let Some(item) = self.doc.index.get(&import) {
                if let ItemKind::Import(i) = &item.kind {
                    return Some(&i.name);
                }
            }
        }
        match self.doc.index.get(&edge.child) {
            Some(item) => match &item.name {
                Some(name) => Some(name),
                None => None,
            },
            None => None,
        }
    }

    /// The canonical path of `id`: the path of the module through
    /// which it is resolved, then the name under which that module
    /// shows it. An item that no module shows resolves to its entry
    /// in the table of known paths. `None` if there is no such path.
    pub fn path(&self, id: Id) -> (r: Option<Vec<String>>)
        requires
            self.wf(),
        ensures
            match path_of(self.graph(), self@, id) {
                Some(path) => r is Some && crate::model::texts(r.unwrap()@) == path,
                None => r is None,
            },
        decreases rank(self.graph(), self@, id),
    {
        let ghost g = self.doc@;
        if id == self.doc.root {
            return match self.doc.paths.get(&id) {
                Some(path) => Some(copy_strings(path)),
                None => {
                    let mut out: Vec<String> = Vec::new();
                    out.push(self.root_module.name.clone());
                    proof {
                        assert(crate::model::texts(out@) =~= seq![self.root_module.name@]);
                    }
                    Some(out)
                },
            };
        }
        match self.canonical_parent(id) {
            Some(parent) => {
                proof {
                    lemma_path_step(g, self@, id);
                }
                let mut out = match self.path(parent) {
                    Some(prefix) => prefix,
                    None => {
                        return None;
                    },
                };
                let last = match self.segment(id) {
                    Some(last) => last.clone(),
                    None => {
                        return None;
                    },
                };
                let ghost before = out@;
                out.push(last);
                proof {
                    assert(crate::model::texts(out@) =~= crate::model::texts(before).push(last@));
                }
                Some(out)
            },
            None => match self.doc.paths.get(&id) {
                Some(path) => Some(copy_strings(path)),
                None => None,
            },
        }
    }

    /// The root module of the graph.
    pub fn root(&self) -> (r: &NamedItem<'a, Vec<Id>>)
        requires
            self.wf(),
        ensures
            *r.base == self.graph().index[self.graph().root],
            r.base.name == Some(*r.name),
    {
        &self.root_module
    }

    /// The graph that this resolver was made for.
    pub fn doc(&self) -> (r: &'a DocGraph)
        ensures
            r@ == self.graph(),
    {
        self.doc
    }

    /// Every way to reach an item, in the order in which the walk
    /// recorded them.
    pub fn edges(&self) -> (r: &Vec<Edge>)
        ensures
            r@ == self@.edges,
    {
        &self.tables.edges
    }

    /// The modules that the walk found, in the order in which it
    /// found them.
    pub fn modules(&self) -> (r: &Vec<Id>)
        ensures
            r@ == self@.modules,
    {
        &self.tables.modules
    }

    /// The modules that the walk met again after it had found them,
    /// or met again while it followed one glob import.
    pub fn revisited(&self) -> (r: &Vec<Id>)
        ensures
            r@ == self@.revisited,
    {
        &self.tables.revisited
    }

    /// The targets of glob imports that could not be followed
    /// because they are no modules of the graph.
    pub fn unfollowed(&self) -> (r: &Vec<Id>)
        ensures
            r@ == self@.unfollowed,
    {
        &self.tables.unfollowed
    }
}

} // verus!
