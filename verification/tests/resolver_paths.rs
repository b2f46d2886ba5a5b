use regen::model::{DocGraph, Import, Item, ItemError, ItemErrorKind, ItemKind, ItemTag};
use regen::model::{get, root_module};
use regen::resolver::PathResolver;
use std::collections::HashMap;

fn item(id: u32, name: Option<&str>, kind: ItemKind) -> Item {
    Item { id, name: name.map(str::to_owned), docs: None, deprecated: false, kind }
}

fn module(id: u32, name: &str, items: Vec<u32>) -> Item {
    item(id, Some(name), ItemKind::Module { items })
}

fn import(id: u32, name: &str, target: Option<u32>, glob: bool) -> Item {
    item(id, None, ItemKind::Import(Import { name: name.to_owned(), target, glob }))
}

fn leaf(id: u32, name: &str) -> Item {
    item(id, Some(name), ItemKind::Static)
}

fn graph(root: u32, items: Vec<Item>, paths: Vec<(u32, Vec<&str>)>) -> DocGraph {
    let mut index = HashMap::new();
    for i in items {
        index.insert(i.id, i);
    }
    let mut table = HashMap::new();
    for (id, path) in paths {
        table.insert(id, path.into_iter().map(str::to_owned).collect());
    }
    DocGraph { root, index, paths: table }
}

fn path_of(resolver: &PathResolver, id: u32) -> Option<String> {
    resolver.path(id).map(|p| p.join("::"))
}

#[test]
fn direct_member_resolves_below_its_module() {
    let doc = graph(
        0,
        vec![module(0, "a", vec![1]), module(1, "b", vec![2]), leaf(2, "X")],
        vec![],
    );
    let resolver = PathResolver::from(&doc).unwrap();
    assert_eq!(path_of(&resolver, 0), Some("a".to_owned()));
    assert_eq!(path_of(&resolver, 1), Some("a::b".to_owned()));
    assert_eq!(path_of(&resolver, 2), Some("a::b::X".to_owned()));
    assert_eq!(resolver.canonical_parent(2), Some(1));
    assert_eq!(resolver.parent(1), Some(0));
    assert_eq!(resolver.canonical_parent(0), None);
    assert_eq!(resolver.modules(), &vec![0, 1]);
    assert!(resolver.revisited().is_empty());
    assert!(resolver.unfollowed().is_empty());
}

#[test]
fn glob_reexport_near_the_root_wins_over_the_nested_place() {
    // X is a child of a::b::c and is re-exported into a by a glob.
    let doc = graph(
        0,
        vec![
            module(0, "a", vec![1, 10]),
            module(1, "b", vec![2]),
            module(2, "c", vec![3]),
            leaf(3, "X"),
            import(10, "c", Some(2), true),
        ],
        vec![],
    );
    let resolver = PathResolver::from(&doc).unwrap();
    assert_eq!(path_of(&resolver, 3), Some("a::X".to_owned()));
    assert_eq!(path_of(&resolver, 2), Some("a::b::c".to_owned()));
    assert_eq!(resolver.canonical_parent(3), Some(0));
}

#[test]
fn nested_place_recorded_first_still_loses_to_the_shorter_path() {
    // The module b stands before the glob import in the root, yet the
    // root is walked before b, so the root's way to X is the first.
    let doc = graph(
        0,
        vec![
            module(0, "a", vec![1, 10]),
            module(1, "b", vec![3]),
            leaf(3, "X"),
            import(10, "b", Some(1), true),
        ],
        vec![],
    );
    let resolver = PathResolver::from(&doc).unwrap();
    assert_eq!(path_of(&resolver, 3), Some("a::X".to_owned()));
    let ways: Vec<u32> =
        resolver.edges().iter().filter(|e| e.child == 3).map(|e| e.parent).collect();
    assert_eq!(ways, vec![0, 1]);
}

#[test]
fn equal_lengths_keep_the_way_that_was_seen_first() {
    let doc = graph(
        0,
        vec![
            module(0, "a", vec![1, 2]),
            module(1, "b", vec![3]),
            module(2, "c", vec![11]),
            leaf(3, "X"),
            import(11, "X", Some(3), false),
        ],
        vec![],
    );
    let resolver = PathResolver::from(&doc).unwrap();
    assert_eq!(path_of(&resolver, 3), Some("a::b::X".to_owned()));
}

#[test]
fn alias_of_the_chosen_import_ends_the_path() {
    let doc = graph(
        0,
        vec![
            module(0, "a", vec![10, 1]),
            module(1, "b", vec![3]),
            leaf(3, "X"),
            import(10, "Y", Some(3), false),
        ],
        vec![],
    );
    let resolver = PathResolver::from(&doc).unwrap();
    assert_eq!(path_of(&resolver, 3), Some("a::Y".to_owned()));
    let first = resolver.edges().iter().find(|e| e.child == 3).unwrap();
    assert_eq!(first.via, Some(10));
    assert_eq!(first.parent, 0);
}

#[test]
fn alias_is_not_used_when_the_import_is_not_chosen() {
    let doc = graph(
        0,
        vec![
            module(0, "a", vec![3, 1]),
            module(1, "b", vec![10]),
            leaf(3, "X"),
            import(10, "Y", Some(3), false),
        ],
        vec![],
    );
    let resolver = PathResolver::from(&doc).unwrap();
    assert_eq!(path_of(&resolver, 3), Some("a::X".to_owned()));
}

#[test]
fn module_reached_sooner_through_an_import_takes_the_alias() {
    let doc = graph(
        0,
        vec![
            module(0, "a", vec![10, 1]),
            module(1, "b", vec![2]),
            module(2, "c", vec![3]),
            leaf(3, "X"),
            import(10, "short", Some(2), false),
        ],
        vec![],
    );
    let resolver = PathResolver::from(&doc).unwrap();
    assert_eq!(path_of(&resolver, 2), Some("a::short".to_owned()));
    assert_eq!(path_of(&resolver, 3), Some("a::short::X".to_owned()));
    assert_eq!(resolver.revisited(), &vec![2]);
}

#[test]
fn glob_cycle_ends_and_is_flagged() {
    let doc = graph(
        0,
        vec![
            module(0, "r", vec![1, 2]),
            module(1, "A", vec![11, 3]),
            module(2, "B", vec![12, 4]),
            leaf(3, "X"),
            leaf(4, "Y"),
            import(11, "B", Some(2), true),
            import(12, "A", Some(1), true),
        ],
        vec![],
    );
    let resolver = PathResolver::from(&doc).unwrap();
    assert_eq!(path_of(&resolver, 3), Some("r::A::X".to_owned()));
    assert_eq!(path_of(&resolver, 4), Some("r::A::Y".to_owned()));
    assert_eq!(resolver.revisited(), &vec![1, 2]);
    assert_eq!(resolver.modules(), &vec![0, 1, 2]);
}

#[test]
fn module_that_imports_itself_ends() {
    let doc = graph(
        0,
        vec![module(0, "r", vec![1]), module(1, "A", vec![11, 12]), import(11, "A", Some(1), true),
            import(12, "me", Some(1), false)],
        vec![],
    );
    let resolver = PathResolver::from(&doc).unwrap();
    assert_eq!(path_of(&resolver, 1), Some("r::A".to_owned()));
    // Met again by the glob import, which is not followed back into
    // the module that holds it, and then as the target of the import.
    assert_eq!(resolver.revisited(), &vec![1, 1]);
    assert!(resolver.unfollowed().is_empty());
    assert_eq!(resolver.edges().len(), 4);
}

#[test]
fn import_of_the_root_does_not_move_the_root() {
    let doc = graph(
        0,
        vec![module(0, "r", vec![1]), module(1, "A", vec![11]), import(11, "up", Some(0), false)],
        vec![],
    );
    let resolver = PathResolver::from(&doc).unwrap();
    assert_eq!(path_of(&resolver, 0), Some("r".to_owned()));
    assert_eq!(path_of(&resolver, 1), Some("r::A".to_owned()));
    assert_eq!(resolver.canonical_parent(0), None);
}

#[test]
fn item_without_parents_falls_back_to_the_path_table() {
    let doc = graph(
        0,
        vec![module(0, "std", vec![])],
        vec![(99, vec!["core", "option", "Option"])],
    );
    let resolver = PathResolver::from(&doc).unwrap();
    assert_eq!(path_of(&resolver, 99), Some("core::option::Option".to_owned()));
    assert_eq!(
        resolver.path(99),
        Some(vec!["core".to_owned(), "option".to_owned(), "Option".to_owned()])
    );
}

#[test]
fn item_without_parents_and_without_table_entry_is_unresolved() {
    let doc = graph(0, vec![module(0, "std", vec![]), leaf(5, "lost")], vec![]);
    let resolver = PathResolver::from(&doc).unwrap();
    assert_eq!(resolver.path(5), None);
    assert_eq!(resolver.path(77), None);
    assert_eq!(resolver.canonical_parent(5), None);
}

#[test]
fn recorded_parent_is_preferred_to_the_path_table() {
    let doc = graph(
        0,
        vec![module(0, "std", vec![10])
            , import(10, "Option", Some(99), false)],
        vec![(99, vec!["core", "option", "Option"])],
    );
    let resolver = PathResolver::from(&doc).unwrap();
    assert_eq!(path_of(&resolver, 99), Some("std::Option".to_owned()));
}

#[test]
fn root_takes_its_path_from_the_table_when_it_has_one() {
    let doc = graph(
        0,
        vec![module(0, "crate_root", vec![1]), leaf(1, "X")],
        vec![(0, vec!["std"])],
    );
    let resolver = PathResolver::from(&doc).unwrap();
    assert_eq!(path_of(&resolver, 1), Some("std::X".to_owned()));
}

#[test]
fn unnamed_child_is_unresolved() {
    let doc = graph(
        0,
        vec![module(0, "a", vec![1]), item(1, None, ItemKind::Static)],
        vec![],
    );
    let resolver = PathResolver::from(&doc).unwrap();
    assert_eq!(resolver.path(1), None);
    assert_eq!(resolver.canonical_parent(1), Some(0));
}

#[test]
fn missing_root_is_an_error() {
    let doc = graph(7, vec![module(0, "a", vec![])], vec![]);
    let e = PathResolver::from(&doc).err().unwrap();
    assert_eq!(e, ItemError { id: 7, kind: ItemErrorKind::MissingItem });
    assert_eq!(root_module(&doc).err(), Some(ItemError::new(7, ItemErrorKind::MissingItem)));
}

#[test]
fn root_that_is_no_module_is_an_error() {
    let doc = graph(0, vec![leaf(0, "a")], vec![]);
    let e = PathResolver::from(&doc).err().unwrap();
    assert_eq!(e, ItemError { id: 0, kind: ItemErrorKind::ExpectedType(ItemTag::Module) });
}

#[test]
fn root_without_a_name_is_an_error() {
    let doc = graph(0, vec![item(0, None, ItemKind::Module { items: vec![] })], vec![]);
    let e = PathResolver::from(&doc).err().unwrap();
    assert_eq!(e, ItemError { id: 0, kind: ItemErrorKind::MissingName });
}

#[test]
fn child_missing_from_the_index_is_an_error() {
    let doc = graph(0, vec![module(0, "a", vec![1]), module(1, "b", vec![42])], vec![]);
    let e = PathResolver::from(&doc).err().unwrap();
    assert_eq!(e, ItemError { id: 42, kind: ItemErrorKind::MissingItem });
}

#[test]
fn glob_import_of_an_item_that_is_no_module_is_noted_and_shows_nothing() {
    let doc = graph(
        0,
        vec![module(0, "a", vec![10, 3]), leaf(3, "X"), import(10, "X", Some(3), true)],
        vec![],
    );
    let resolver = PathResolver::from(&doc).unwrap();
    assert_eq!(resolver.unfollowed(), &vec![3]);
    assert_eq!(resolver.edges().len(), 2);
    assert_eq!(path_of(&resolver, 3), Some("a::X".to_owned()));
}

#[test]
fn glob_import_that_another_glob_leads_to_is_treated_alike() {
    // a globs b; b holds a glob import of X, which is no module, and
    // a glob import of an item outside the graph.
    let doc = graph(
        0,
        vec![
            module(0, "a", vec![10, 1]),
            module(1, "b", vec![11, 12, 3]),
            leaf(3, "X"),
            import(10, "b", Some(1), true),
            import(11, "X", Some(3), true),
            import(12, "far", Some(77), true),
        ],
        vec![],
    );
    let resolver = PathResolver::from(&doc).unwrap();
    // Once while the root's glob import is followed, once in b itself.
    assert_eq!(resolver.unfollowed(), &vec![3, 77, 3, 77]);
    assert_eq!(path_of(&resolver, 3), Some("a::X".to_owned()));
    assert!(resolver.revisited().is_empty());
}

#[test]
fn glob_import_of_an_item_outside_the_graph_is_passed_over() {
    let doc = graph(0, vec![module(0, "a", vec![10]), import(10, "far", Some(77), true)], vec![]);
    let resolver = PathResolver::from(&doc).unwrap();
    assert_eq!(resolver.edges().len(), 1);
    assert_eq!(resolver.path(77), None);
    assert_eq!(resolver.unfollowed(), &vec![77]);
}

#[test]
fn import_without_a_target_records_only_itself() {
    let doc = graph(0, vec![module(0, "a", vec![10]), import(10, "x", None, false)], vec![]);
    let resolver = PathResolver::from(&doc).unwrap();
    assert_eq!(resolver.edges().len(), 1);
    assert_eq!(resolver.edges()[0].child, 10);
}

#[test]
fn nested_glob_is_followed_through() {
    // a globs b, b globs c, X is in c: X is visible in a.
    let doc = graph(
        0,
        vec![
            module(0, "a", vec![10, 1]),
            module(1, "b", vec![11, 2]),
            module(2, "c", vec![3]),
            leaf(3, "X"),
            import(10, "b", Some(1), true),
            import(11, "c", Some(2), true),
        ],
        vec![],
    );
    let resolver = PathResolver::from(&doc).unwrap();
    assert_eq!(path_of(&resolver, 3), Some("a::X".to_owned()));
    // The module c is a child of b and so visible in a through the glob.
    assert_eq!(path_of(&resolver, 2), Some("a::c".to_owned()));
}

#[test]
fn get_finds_items_and_names_the_missing_one() {
    let doc = graph(0, vec![module(0, "a", vec![])], vec![]);
    assert_eq!(get(&doc, 0).unwrap().id, 0);
    assert_eq!(get(&doc, 9).err(), Some(ItemError { id: 9, kind: ItemErrorKind::MissingItem }));
    let root = root_module(&doc).unwrap();
    assert_eq!(root.name, "a");
    assert!(root.inner.is_empty());
    assert_eq!(resolver_root_name(&doc), "a");
}

fn resolver_root_name(doc: &DocGraph) -> String {
    let resolver = PathResolver::from(doc).unwrap();
    assert_eq!(resolver.doc().root, doc.root);
    resolver.root().name.clone()
}

#[test]
fn error_messages_name_the_item() {
    assert_eq!(ItemError::new(0, ItemErrorKind::MissingItem).message(), "could not find item: 0");
    assert_eq!(
        ItemError::new(4294967295, ItemErrorKind::MissingName).message(),
        "missing name for item: 4294967295"
    );
    assert_eq!(
        ItemError::new(1203, ItemErrorKind::ExpectedType(ItemTag::Module)).message(),
        "expected type Module for item: 1203"
    );
    assert_eq!(
        ItemError::new(10, ItemErrorKind::MultipleExports(7, 90)).message(),
        "multiple exports (example 7 and 90) for item: 10"
    );
    assert_eq!(ItemTag::AssocConst.name(), "AssocConst");
}

#[test]
fn find_item_gives_the_least_identifier_with_the_path() {
    let doc = graph(
        0,
        vec![module(0, "std", vec![])],
        vec![
            (9, vec!["core", "marker", "Send"]),
            (4, vec!["core", "marker", "Sync"]),
            (7, vec!["core", "marker", "Send"]),
            (2, vec!["core", "marker"]),
            (1, vec![]),
        ],
    );
    let name = |parts: &[&str]| parts.iter().map(|s| s.to_string()).collect::<Vec<String>>();
    assert_eq!(regen::model::find_item(&doc, &name(&["core", "marker", "Send"])), Some(7));
    assert_eq!(regen::model::find_item(&doc, &name(&["core", "marker", "Sync"])), Some(4));
    assert_eq!(regen::model::find_item(&doc, &name(&["core", "marker"])), Some(2));
    assert_eq!(regen::model::find_item(&doc, &name(&["core"])), None);
    assert_eq!(regen::model::find_item(&doc, &name(&[])), None);
    assert!(regen::model::same_texts(&name(&["a", "b"]), &name(&["a", "b"])));
    assert!(!regen::model::same_texts(&name(&["a", "b"]), &name(&["a", "c"])));
    assert!(!regen::model::same_texts(&name(&["a"]), &name(&["a", "c"])));
}
