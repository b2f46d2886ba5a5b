use regen::model::{
    AssocItemConstraint, AssocItemConstraintKind, GenericArg, GenericArgs, GenericBound,
    GenericParamDef, GenericParamDefKind, Impl, Import, Item, ItemKind, Path, PolyTrait, Term,
    TraitBoundModifier, Type,
};
use regen::visitor::{
    is_pass, visit_generic_args, visit_generic_bounds, visit_generic_params, visit_ids,
    visit_item, visit_path, visit_type, Unsupported,
};
use std::cell::RefCell;

fn item(id: u32, kind: ItemKind) -> Item {
    Item { id, name: None, docs: None, deprecated: false, kind }
}

fn path(id: u32, args: Option<GenericArgs>) -> Path {
    Path { name: format!("P{id}"), id, args: args.map(Box::new) }
}

fn named(id: u32) -> Type {
    Type::ResolvedPath(path(id, None))
}

fn angle(args: Vec<GenericArg>) -> GenericArgs {
    GenericArgs::AngleBracketed { args, constraints: vec![] }
}

fn trait_bound(id: u32) -> GenericBound {
    GenericBound::TraitBound {
        trait_: path(id, None),
        generic_params: vec![],
        modifier: TraitBoundModifier::Plain,
    }
}

/// Runs a traversal with a visitor that refuses `refused`, and gives
/// the identifiers in the order in which they were visited.
fn trace_type(t: &Type, refused: Option<u32>) -> (Result<bool, Unsupported>, Vec<u32>) {
    let seen = RefCell::new(Vec::new());
    let r = visit_type(t, &|id| {
        seen.borrow_mut().push(id);
        Some(id) != refused
    });
    (r, seen.into_inner())
}

fn trace_item(i: &Item, refused: Option<u32>) -> (Result<bool, Unsupported>, Vec<u32>) {
    let seen = RefCell::new(Vec::new());
    let r = visit_item(i, &|id| {
        seen.borrow_mut().push(id);
        Some(id) != refused
    });
    (r, seen.into_inner())
}

#[test]
fn plain_types_mention_nothing() {
    assert_eq!(trace_type(&Type::Generic("T".to_owned()), None), (Ok(true), vec![]));
    assert_eq!(trace_type(&Type::Primitive("u8".to_owned()), None), (Ok(true), vec![]));
}

#[test]
fn path_is_visited_before_its_arguments() {
    let t = Type::ResolvedPath(path(
        1,
        Some(angle(vec![
            GenericArg::Lifetime("'a".to_owned()),
            GenericArg::Type(named(2)),
            GenericArg::Infer,
            GenericArg::Const,
            GenericArg::Type(named(3)),
        ])),
    ));
    assert_eq!(trace_type(&t, None), (Ok(true), vec![1, 2, 3]));
}

#[test]
fn traversal_stops_at_the_first_refusal() {
    let t = Type::Tuple(vec![named(1), named(2), named(3)]);
    assert_eq!(trace_type(&t, Some(2)), (Ok(false), vec![1, 2]));
    assert_eq!(trace_type(&t, Some(1)), (Ok(false), vec![1]));
    assert_eq!(trace_type(&t, Some(9)), (Ok(true), vec![1, 2, 3]));
}

#[test]
fn wrappers_lead_to_the_inner_type() {
    let inner = || Box::new(named(4));
    assert_eq!(trace_type(&Type::Slice(inner()), None), (Ok(true), vec![4]));
    assert_eq!(trace_type(&Type::Array { type_: inner() }, None), (Ok(true), vec![4]));
    assert_eq!(trace_type(&Type::Pat { type_: inner() }, None), (Ok(true), vec![4]));
    assert_eq!(
        trace_type(&Type::RawPointer { mutable: true, type_: inner() }, None),
        (Ok(true), vec![4])
    );
    assert_eq!(
        trace_type(
            &Type::BorrowedRef { lifetime: Some("'a".to_owned()), mutable: false, type_: inner() },
            None
        ),
        (Ok(true), vec![4])
    );
}

#[test]
fn types_without_a_rule_fail() {
    assert_eq!(trace_type(&Type::FunctionPointer, None), (Err(Unsupported), vec![]));
    assert_eq!(trace_type(&Type::Infer, None), (Err(Unsupported), vec![]));
    assert_eq!(
        trace_type(&Type::Slice(Box::new(Type::FunctionPointer)), None),
        (Err(Unsupported), vec![])
    );
}

#[test]
fn refusal_before_a_type_without_a_rule_wins() {
    let t = Type::Tuple(vec![named(1), Type::FunctionPointer, named(2)]);
    assert_eq!(trace_type(&t, Some(1)), (Ok(false), vec![1]));
    assert_eq!(trace_type(&t, Some(2)), (Err(Unsupported), vec![1]));
    assert_eq!(trace_type(&t, None), (Err(Unsupported), vec![1]));
}

#[test]
fn qualified_path_visits_arguments_then_trait_then_self() {
    let t = Type::QualifiedPath {
        name: "Item".to_owned(),
        args: Some(Box::new(angle(vec![GenericArg::Type(named(1))]))),
        self_type: Box::new(named(3)),
        trait_: Some(path(2, None)),
    };
    assert_eq!(trace_type(&t, None), (Ok(true), vec![1, 2, 3]));
    assert_eq!(trace_type(&t, Some(2)), (Ok(false), vec![1, 2]));
}

#[test]
fn dyn_and_impl_types_visit_their_traits() {
    let dyn_type = Type::DynTrait(vec![
        PolyTrait { trait_: path(1, None), generic_params: vec![] },
        PolyTrait {
            trait_: path(2, None),
            generic_params: vec![GenericParamDef {
                name: "T".to_owned(),
                kind: GenericParamDefKind::Const { type_: named(3) },
            }],
        },
    ]);
    assert_eq!(trace_type(&dyn_type, None), (Ok(true), vec![1, 2, 3]));
    let impl_type = Type::ImplTrait(vec![
        GenericBound::Outlives("'a".to_owned()),
        trait_bound(5),
        GenericBound::Use,
        trait_bound(6),
    ]);
    assert_eq!(trace_type(&impl_type, None), (Ok(true), vec![5, 6]));
}

#[test]
fn bound_visits_the_arguments_of_its_trait() {
    let bound = GenericBound::TraitBound {
        trait_: path(1, Some(angle(vec![GenericArg::Type(named(2))]))),
        generic_params: vec![GenericParamDef {
            name: "'a".to_owned(),
            kind: GenericParamDefKind::Lifetime,
        }],
        modifier: TraitBoundModifier::Maybe,
    };
    let seen = RefCell::new(Vec::new());
    let r = visit_generic_bounds(&vec![bound], 0, &|id| {
        seen.borrow_mut().push(id);
        true
    });
    assert_eq!(r, Ok(true));
    assert_eq!(seen.into_inner(), vec![1, 2]);
}

#[test]
fn type_parameter_visits_default_before_bounds() {
    let params = vec![
        GenericParamDef { name: "'a".to_owned(), kind: GenericParamDefKind::Lifetime },
        GenericParamDef {
            name: "T".to_owned(),
            kind: GenericParamDefKind::Type {
                bounds: vec![trait_bound(2)],
                default: Some(named(1)),
                synthetic: false,
            },
        },
        GenericParamDef { name: "N".to_owned(), kind: GenericParamDefKind::Const { type_: named(3) } },
    ];
    let seen = RefCell::new(Vec::new());
    let r = visit_generic_params(&params, 0, &|id| {
        seen.borrow_mut().push(id);
        true
    });
    assert_eq!(r, Ok(true));
    assert_eq!(seen.into_inner(), vec![1, 2, 3]);
    let seen = RefCell::new(Vec::new());
    let r = visit_generic_params(&params, 2, &|id| {
        seen.borrow_mut().push(id);
        true
    });
    assert_eq!(r, Ok(true));
    assert_eq!(seen.into_inner(), vec![3]);
}

#[test]
fn generic_arguments_visit_types_then_constraints() {
    let args = GenericArgs::AngleBracketed {
        args: vec![GenericArg::Type(named(1))],
        constraints: vec![
            AssocItemConstraint {
                name: "Item".to_owned(),
                args: Some(Box::new(angle(vec![GenericArg::Type(named(2))]))),
                binding: AssocItemConstraintKind::Equality(Term::Type(named(3))),
            },
            AssocItemConstraint {
                name: "N".to_owned(),
                args: None,
                binding: AssocItemConstraintKind::Equality(Term::Constant),
            },
            AssocItemConstraint {
                name: "Out".to_owned(),
                args: None,
                binding: AssocItemConstraintKind::Constraint(vec![trait_bound(4)]),
            },
        ],
    };
    let seen = RefCell::new(Vec::new());
    let r = visit_generic_args(&args, &|id| {
        seen.borrow_mut().push(id);
        true
    });
    assert_eq!(r, Ok(true));
    assert_eq!(seen.into_inner(), vec![1, 2, 3, 4]);
}

#[test]
fn parenthesized_arguments_visit_inputs_then_output() {
    let args = GenericArgs::Parenthesized { inputs: vec![named(1), named(2)], output: Some(named(3)) };
    let seen = RefCell::new(Vec::new());
    let r = visit_generic_args(&args, &|id| {
        seen.borrow_mut().push(id);
        id != 3
    });
    assert_eq!(r, Ok(false));
    assert_eq!(seen.into_inner(), vec![1, 2, 3]);
    assert_eq!(visit_generic_args(&GenericArgs::ReturnTypeNotation, &|_| false), Ok(true));
}

#[test]
fn item_is_visited_before_what_it_mentions() {
    let m = item(1, ItemKind::Module { items: vec![2, 3] });
    assert_eq!(trace_item(&m, None), (Ok(true), vec![1, 2, 3]));
    assert_eq!(trace_item(&m, Some(1)), (Ok(false), vec![1]));
    assert_eq!(trace_item(&m, Some(3)), (Ok(false), vec![1, 2, 3]));
}

#[test]
fn import_mentions_its_target() {
    let with = item(1, ItemKind::Import(Import { name: "x".to_owned(), target: Some(7), glob: false }));
    let without = item(1, ItemKind::Import(Import { name: "x".to_owned(), target: None, glob: true }));
    assert_eq!(trace_item(&with, None), (Ok(true), vec![1, 7]));
    assert_eq!(trace_item(&with, Some(7)), (Ok(false), vec![1, 7]));
    assert_eq!(trace_item(&without, None), (Ok(true), vec![1]));
}

#[test]
fn items_that_mention_nothing_pass() {
    assert_eq!(trace_item(&item(1, ItemKind::ExternCrate), None), (Ok(true), vec![1]));
    assert_eq!(trace_item(&item(1, ItemKind::Macro), None), (Ok(true), vec![1]));
}

#[test]
fn constants_mention_their_type() {
    assert_eq!(
        trace_item(&item(1, ItemKind::Constant { type_: named(2) }), None),
        (Ok(true), vec![1, 2])
    );
    assert_eq!(
        trace_item(&item(1, ItemKind::AssocConst { type_: named(3) }), None),
        (Ok(true), vec![1, 3])
    );
}

#[test]
fn impl_visits_target_blanket_trait_members_and_parameters() {
    let block = Impl {
        generics: vec![GenericParamDef {
            name: "T".to_owned(),
            kind: GenericParamDefKind::Type {
                bounds: vec![trait_bound(6)],
                default: None,
                synthetic: false,
            },
        }],
        trait_: Some(path(3, None)),
        for_: named(1),
        items: vec![4, 5],
        synthetic: false,
        blanket_impl: Some(named(2)),
    };
    let i = item(0, ItemKind::Impl(block));
    assert_eq!(trace_item(&i, None), (Ok(true), vec![0, 1, 2, 3, 4, 5, 6]));
    assert_eq!(trace_item(&i, Some(4)), (Ok(false), vec![0, 1, 2, 3, 4]));
}

#[test]
fn union_is_visited_and_then_fails() {
    let u = item(1, ItemKind::Union { fields: vec![2], impls: vec![3] });
    assert_eq!(trace_item(&u, None), (Err(Unsupported), vec![1, 2, 3]));
    assert_eq!(trace_item(&u, Some(3)), (Ok(false), vec![1, 2, 3]));
}

#[test]
fn kinds_without_a_rule_fail_after_the_item_itself() {
    let kinds = vec![
        ItemKind::Struct { impls: vec![9] },
        ItemKind::StructField,
        ItemKind::Enum,
        ItemKind::Variant,
        ItemKind::Trait,
        ItemKind::TraitAlias,
        ItemKind::TypeAlias,
        ItemKind::Static,
        ItemKind::ExternType,
        ItemKind::ProcMacro,
        ItemKind::Primitive,
        ItemKind::AssocType,
    ];
    for kind in kinds {
        let i = item(1, kind);
        assert_eq!(trace_item(&i, None), (Err(Unsupported), vec![1]));
        assert_eq!(trace_item(&i, Some(1)), (Ok(false), vec![1]));
    }
}

#[test]
fn identifier_lists_and_paths_can_be_visited_alone() {
    assert_eq!(visit_ids(&vec![1, 2, 3], &|id| id < 3), Ok(false));
    assert_eq!(visit_ids(&vec![], &|_| false), Ok(true));
    assert_eq!(visit_path(&path(1, None), &|id| id == 1), Ok(true));
    assert!(is_pass(&Ok(true)));
    assert!(!is_pass(&Ok(false)));
    assert!(!is_pass(&Err(Unsupported)));
}

#[test]
fn element_of_a_slice_is_reached() {
    let t = Type::Slice(Box::new(named(2)));
    assert_eq!(trace_type(&t, Some(2)), (Ok(false), vec![2]));
    assert_eq!(visit_type(&t, &|id| id != 2), Ok(false));
    assert_eq!(visit_type(&t, &|id| id == 2), Ok(true));
    let nested = Type::BorrowedRef {
        lifetime: None,
        mutable: false,
        type_: Box::new(Type::Slice(Box::new(Type::Tuple(vec![named(1), named(2)])))),
    };
    assert_eq!(trace_type(&nested, None), (Ok(true), vec![1, 2]));
    assert_eq!(trace_type(&nested, Some(1)), (Ok(false), vec![1]));
}
