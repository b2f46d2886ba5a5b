use regen::model::{
    AssocItemConstraint, AssocItemConstraintKind, DocGraph, Function, GenericArg, GenericArgs,
    GenericBound, GenericParamDef, GenericParamDefKind, Import, Item, ItemKind, Param, Path, Term,
    TraitBoundModifier, Type,
};
use regen::print::{
    write_doc, write_function, write_function_args, write_generic_args, write_path,
    write_resolved_path, write_type,
};
use regen::resolver::PathResolver;
use regen::visitor::Unsupported;
use std::collections::HashMap;

fn item(id: u32, name: Option<&str>, kind: ItemKind) -> Item {
    Item { id, name: name.map(str::to_owned), docs: None, deprecated: false, kind }
}

/// A graph with the root `std`, the module `std::io` and in it
/// `Result`; `Option` is known from the table only.
fn sample() -> DocGraph {
    let mut index = HashMap::new();
    for i in vec![
        item(0, Some("std"), ItemKind::Module { items: vec![1, 10] }),
        item(1, Some("io"), ItemKind::Module { items: vec![2] }),
        item(2, Some("Result"), ItemKind::TypeAlias),
        item(3, Some("Read"), ItemKind::Trait),
        item(10, None, ItemKind::Import(Import { name: "Read".to_owned(), target: Some(3), glob: false })),
    ] {
        index.insert(i.id, i);
    }
    let mut paths = HashMap::new();
    paths.insert(99, vec!["core".to_owned(), "option".to_owned(), "Option".to_owned()]);
    DocGraph { root: 0, index, paths }
}

fn path(name: &str, id: u32, args: Option<GenericArgs>) -> Path {
    Path { name: name.to_owned(), id, args: args.map(Box::new) }
}

fn named(name: &str, id: u32) -> Type {
    Type::ResolvedPath(path(name, id, None))
}

fn angle(args: Vec<GenericArg>) -> GenericArgs {
    GenericArgs::AngleBracketed { args, constraints: vec![] }
}

fn text_of(t: &Type) -> Result<String, Unsupported> {
    let doc = sample();
    let resolver = PathResolver::from(&doc).unwrap();
    let mut out = String::from("> ");
    let r = write_type(&mut out, &resolver, t);
    match r {
        Ok(()) => Ok(out),
        Err(e) => {
            assert_eq!(out, "> ");
            Err(e)
        }
    }
}

fn ok(text: &str) -> Result<String, Unsupported> {
    Ok(format!("> {text}"))
}

#[test]
fn primitive_and_generic_print_their_name() {
    assert_eq!(text_of(&Type::Primitive("u64".to_owned())), ok("u64"));
    assert_eq!(text_of(&Type::Generic("T".to_owned())), ok("T"));
}

#[test]
fn resolved_path_prints_the_canonical_path() {
    assert_eq!(text_of(&named("io::Result", 2)), ok("std::io::Result"));
    assert_eq!(text_of(&named("Option", 99)), ok("core::option::Option"));
    assert_eq!(text_of(&named("whatever", 3)), ok("std::Read"));
}

#[test]
fn unresolved_path_prints_the_name_as_written() {
    assert_eq!(text_of(&named("P", 500)), ok("P"));
    assert_eq!(text_of(&named("io::Result<String>", 501)), ok("io::Result<String>"));
}

#[test]
fn unresolved_path_has_its_root_alias_rewritten() {
    assert_eq!(text_of(&named("crate::fs::File", 500)), ok("std::fs::File"));
    assert_eq!(text_of(&named("crate::", 500)), ok("std::"));
    assert_eq!(text_of(&named("crate", 500)), ok("crate"));
    assert_eq!(text_of(&named("my_crate::x", 500)), ok("my_crate::x"));
}

#[test]
fn generic_arguments_are_joined_by_commas() {
    let t = Type::ResolvedPath(path(
        "Map",
        500,
        Some(angle(vec![
            GenericArg::Lifetime("a".to_owned()),
            GenericArg::Type(Type::Primitive("u8".to_owned())),
            GenericArg::Infer,
        ])),
    ));
    assert_eq!(text_of(&t), ok("Map<`a,u8,_>"));
    let one = Type::ResolvedPath(path(
        "Vec",
        500,
        Some(angle(vec![GenericArg::Type(named("io::Result", 2))])),
    ));
    assert_eq!(text_of(&one), ok("Vec<std::io::Result>"));
    let none = Type::ResolvedPath(path("Vec", 500, Some(angle(vec![]))));
    assert_eq!(text_of(&none), ok("Vec"));
}

#[test]
fn tuples_slices_and_references() {
    let u8_ = || Type::Primitive("u8".to_owned());
    assert_eq!(text_of(&Type::Tuple(vec![])), ok("()"));
    assert_eq!(text_of(&Type::Tuple(vec![u8_()])), ok("(u8,)"));
    assert_eq!(text_of(&Type::Tuple(vec![u8_(), named("P", 500), u8_()])), ok("(u8, P, u8)"));
    assert_eq!(text_of(&Type::Slice(Box::new(u8_()))), ok("[u8]"));
    assert_eq!(
        text_of(&Type::BorrowedRef { lifetime: None, mutable: false, type_: Box::new(u8_()) }),
        ok("&u8")
    );
    assert_eq!(
        text_of(&Type::BorrowedRef {
            lifetime: None,
            mutable: true,
            type_: Box::new(Type::Slice(Box::new(u8_())))
        }),
        ok("&mut [u8]")
    );
}

#[test]
fn qualified_paths() {
    let with_trait = Type::QualifiedPath {
        name: "Item".to_owned(),
        args: None,
        self_type: Box::new(Type::Generic("I".to_owned())),
        trait_: Some(path("Iterator", 500, None)),
    };
    assert_eq!(text_of(&with_trait), ok("<I as Iterator>::Item"));
    let without = Type::QualifiedPath {
        name: "Output".to_owned(),
        args: Some(Box::new(angle(vec![GenericArg::Type(Type::Primitive("u8".to_owned()))]))),
        self_type: Box::new(Type::Generic("T".to_owned())),
        trait_: None,
    };
    assert_eq!(text_of(&without), ok("T::Output<u8>"));
    let resolved_trait = Type::QualifiedPath {
        name: "Error".to_owned(),
        args: None,
        self_type: Box::new(Type::Generic("R".to_owned())),
        trait_: Some(path("crate::Read", 3, None)),
    };
    assert_eq!(text_of(&resolved_trait), ok("<R as std::Read>::Error"));
}

#[test]
fn function_pointer_fails_loud() {
    assert_eq!(text_of(&Type::FunctionPointer), Err(Unsupported));
    assert_eq!(text_of(&Type::Tuple(vec![Type::Primitive("u8".to_owned()), Type::FunctionPointer])), Err(Unsupported));
    assert_eq!(text_of(&Type::Slice(Box::new(Type::FunctionPointer))), Err(Unsupported));
}

#[test]
fn other_types_without_a_written_form_fail() {
    let u8_ = || Box::new(Type::Primitive("u8".to_owned()));
    assert_eq!(text_of(&Type::Array { type_: u8_() }), Err(Unsupported));
    assert_eq!(text_of(&Type::Pat { type_: u8_() }), Err(Unsupported));
    assert_eq!(text_of(&Type::RawPointer { mutable: false, type_: u8_() }), Err(Unsupported));
    assert_eq!(text_of(&Type::Infer), Err(Unsupported));
    assert_eq!(text_of(&Type::ImplTrait(vec![])), Err(Unsupported));
    assert_eq!(text_of(&Type::DynTrait(vec![])), Err(Unsupported));
    assert_eq!(
        text_of(&Type::BorrowedRef { lifetime: Some("a".to_owned()), mutable: false, type_: u8_() }),
        Err(Unsupported)
    );
}

#[test]
fn arguments_without_a_written_form_fail() {
    let doc = sample();
    let resolver = PathResolver::from(&doc).unwrap();
    let mut out = String::from("x");
    let constant = angle(vec![GenericArg::Type(Type::Primitive("u8".to_owned())), GenericArg::Const]);
    assert_eq!(write_generic_args(&mut out, &resolver, &constant), Err(Unsupported));
    let bound = GenericArgs::AngleBracketed {
        args: vec![],
        constraints: vec![AssocItemConstraint {
            name: "Item".to_owned(),
            args: None,
            binding: AssocItemConstraintKind::Equality(Term::Constant),
        }],
    };
    assert_eq!(write_generic_args(&mut out, &resolver, &bound), Err(Unsupported));
    let call = GenericArgs::Parenthesized { inputs: vec![], output: None };
    assert_eq!(write_generic_args(&mut out, &resolver, &call), Err(Unsupported));
    assert_eq!(write_generic_args(&mut out, &resolver, &GenericArgs::ReturnTypeNotation), Err(Unsupported));
    assert_eq!(out, "x");
    let fine = angle(vec![GenericArg::Infer, GenericArg::Infer]);
    assert_eq!(write_generic_args(&mut out, &resolver, &fine), Ok(()));
    assert_eq!(out, "x<_,_>");
}

#[test]
fn path_in_a_bound_keeps_the_written_name_unchanged() {
    let doc = sample();
    let resolver = PathResolver::from(&doc).unwrap();
    let mut out = String::new();
    assert_eq!(write_path(&mut out, &resolver, &path("crate::Thing", 500, None)), Ok(()));
    assert_eq!(out, "crate::Thing");
    out.push(' ');
    assert_eq!(write_path(&mut out, &resolver, &path("x", 99, Some(angle(vec![GenericArg::Type(Type::Generic("T".to_owned()))])))), Ok(()));
    assert_eq!(out, "crate::Thing core::option::Option<T>");
    out.push(' ');
    assert_eq!(write_resolved_path(&mut out, &resolver, &path("crate::Thing", 500, None)), Ok(()));
    assert_eq!(out, "crate::Thing core::option::Option<T> std::Thing");
    assert_eq!(
        write_resolved_path(&mut out, &resolver, &path("x", 2, Some(angle(vec![GenericArg::Const])))),
        Err(Unsupported)
    );
    assert_eq!(write_path(&mut out, &resolver, &path("x", 2, Some(angle(vec![GenericArg::Const])))), Err(Unsupported));
    assert_eq!(out, "crate::Thing core::option::Option<T> std::Thing");
}

fn read_function() -> Function {
    Function {
        generics: vec![],
        inputs: vec![Param { name: "path".to_owned(), type_: named("P", 500) }],
        output: Some(named("io::Result<String>", 501)),
    }
}

#[test]
fn signature_of_read_has_the_expected_shape() {
    let doc = sample();
    let resolver = PathResolver::from(&doc).unwrap();
    let mut out = String::new();
    assert_eq!(write_function(&mut out, &resolver, "read", &read_function()), Ok(()));
    out.push(';');
    assert_eq!(out, "fn read(path: P) -> io::Result<String>;");
}

fn type_param(name: &str, bounds: Vec<GenericBound>) -> GenericParamDef {
    GenericParamDef {
        name: name.to_owned(),
        kind: GenericParamDefKind::Type { bounds, default: None, synthetic: false },
    }
}

fn bound(name: &str, id: u32, args: Option<GenericArgs>) -> GenericBound {
    GenericBound::TraitBound {
        trait_: path(name, id, args),
        generic_params: vec![],
        modifier: TraitBoundModifier::Plain,
    }
}

#[test]
fn generic_parameters_and_bounds() {
    let doc = sample();
    let resolver = PathResolver::from(&doc).unwrap();
    let f = Function {
        generics: vec![
            type_param(
                "P",
                vec![
                    bound("AsRef", 500, Some(angle(vec![GenericArg::Type(named("Path", 501))]))),
                    bound("Read", 3, None),
                ],
            ),
            type_param("Q", vec![]),
        ],
        inputs: vec![
            Param { name: "from".to_owned(), type_: Type::Generic("P".to_owned()) },
            Param { name: "to".to_owned(), type_: Type::Generic("Q".to_owned()) },
        ],
        output: None,
    };
    let mut out = String::from("fn copy");
    assert_eq!(write_function_args(&mut out, &resolver, &f), Ok(()));
    assert_eq!(out, "fn copy<P: AsRef<Path> + std::Read, Q>(from: P, to: Q)");
}

#[test]
fn function_without_inputs() {
    let doc = sample();
    let resolver = PathResolver::from(&doc).unwrap();
    let f = Function { generics: vec![], inputs: vec![], output: Some(Type::Primitive("bool".to_owned())) };
    let mut out = String::new();
    assert_eq!(write_function(&mut out, &resolver, "ready", &f), Ok(()));
    assert_eq!(out, "fn ready() -> bool");
}

#[test]
fn parameters_without_a_written_form_fail() {
    let doc = sample();
    let resolver = PathResolver::from(&doc).unwrap();
    let cases = vec![
        GenericParamDef { name: "'a".to_owned(), kind: GenericParamDefKind::Lifetime },
        GenericParamDef {
            name: "N".to_owned(),
            kind: GenericParamDefKind::Const { type_: Type::Primitive("usize".to_owned()) },
        },
        GenericParamDef {
            name: "T".to_owned(),
            kind: GenericParamDefKind::Type { bounds: vec![], default: None, synthetic: true },
        },
        GenericParamDef {
            name: "T".to_owned(),
            kind: GenericParamDefKind::Type {
                bounds: vec![],
                default: Some(Type::Primitive("u8".to_owned())),
                synthetic: false,
            },
        },
        type_param("T", vec![GenericBound::Outlives("'a".to_owned())]),
        type_param("T", vec![GenericBound::Use]),
        type_param(
            "T",
            vec![GenericBound::TraitBound {
                trait_: path("Sized", 500, None),
                generic_params: vec![],
                modifier: TraitBoundModifier::Maybe,
            }],
        ),
        type_param(
            "T",
            vec![GenericBound::TraitBound {
                trait_: path("Fn", 500, None),
                generic_params: vec![GenericParamDef {
                    name: "'a".to_owned(),
                    kind: GenericParamDefKind::Lifetime,
                }],
                modifier: TraitBoundModifier::Plain,
            }],
        ),
    ];
    for generic in cases {
        let f = Function { generics: vec![generic], inputs: vec![], output: None };
        let mut out = String::from("fn f");
        assert_eq!(write_function_args(&mut out, &resolver, &f), Err(Unsupported));
        assert_eq!(out, "fn f");
    }
    let bad_input = Function {
        generics: vec![],
        inputs: vec![Param { name: "f".to_owned(), type_: Type::FunctionPointer }],
        output: None,
    };
    let mut out = String::new();
    assert_eq!(write_function(&mut out, &resolver, "call", &bad_input), Err(Unsupported));
    assert_eq!(out, "");
    let bad_output = Function { generics: vec![], inputs: vec![], output: Some(Type::Infer) };
    assert_eq!(write_function(&mut out, &resolver, "call", &bad_output), Err(Unsupported));
    assert_eq!(out, "");
}

fn documented(docs: Option<&str>) -> Item {
    Item { id: 1, name: None, docs: docs.map(str::to_owned), deprecated: false, kind: ItemKind::Static }
}

#[test]
fn documentation_becomes_one_comment_line_per_line() {
    let mut out = String::from("x\n");
    write_doc(&mut out, &documented(Some("First.\n\nThird, after an empty line.\r\nLast")));
    assert_eq!(out, "x\n/// First.\n/// \n/// Third, after an empty line.\n/// Last\n");
}

#[test]
fn documentation_edge_cases() {
    let mut out = String::new();
    write_doc(&mut out, &documented(None));
    assert_eq!(out, "");
    write_doc(&mut out, &documented(Some("")));
    assert_eq!(out, "");
    write_doc(&mut out, &documented(Some("one\n")));
    assert_eq!(out, "/// one\n");
    out.clear();
    write_doc(&mut out, &documented(Some("\n")));
    assert_eq!(out, "/// \n");
    out.clear();
    write_doc(&mut out, &documented(Some("a\rb\r")));
    assert_eq!(out, "/// a\rb\r\n");
}

/// A graph in which the table gives identifier 60 a path without
/// segments and identifier 61 a path of one empty segment.
fn blank_paths() -> DocGraph {
    let mut doc = sample();
    doc.paths.insert(60, vec![]);
    doc.paths.insert(61, vec![String::new()]);
    doc
}

#[test]
fn empty_canonical_path_falls_back_to_the_written_name() {
    let doc = blank_paths();
    let resolver = PathResolver::from(&doc).unwrap();
    assert_eq!(resolver.path(60), Some(vec![]));
    for id in [60, 61] {
        let mut out = String::new();
        assert_eq!(write_type(&mut out, &resolver, &named("Written", id)), Ok(()));
        assert_eq!(out, "Written");
        let mut out = String::new();
        assert_eq!(write_type(&mut out, &resolver, &named("crate::Written", id)), Ok(()));
        assert_eq!(out, "std::Written");
        let mut out = String::new();
        assert_eq!(write_path(&mut out, &resolver, &path("Written", id, None)), Ok(()));
        assert_eq!(out, "Written");
    }
}

#[test]
fn nothing_is_written_for_a_name_that_is_empty() {
    let doc = blank_paths();
    let resolver = PathResolver::from(&doc).unwrap();
    let mut out = String::from("x");
    for id in [60, 61, 500] {
        assert_eq!(write_type(&mut out, &resolver, &named("", id)), Err(Unsupported));
        assert_eq!(write_path(&mut out, &resolver, &path("", id, None)), Err(Unsupported));
        assert_eq!(write_resolved_path(&mut out, &resolver, &path("", id, None)), Err(Unsupported));
    }
    assert_eq!(write_type(&mut out, &resolver, &Type::Generic(String::new())), Err(Unsupported));
    assert_eq!(write_type(&mut out, &resolver, &Type::Primitive(String::new())), Err(Unsupported));
    assert_eq!(
        write_type(&mut out, &resolver, &Type::Slice(Box::new(Type::Generic(String::new())))),
        Err(Unsupported)
    );
    assert_eq!(out, "x");
    // A canonical path is written whatever the written name is.
    assert_eq!(write_type(&mut out, &resolver, &named("", 2)), Ok(()));
    assert_eq!(out, "xstd::io::Result");
}

#[test]
fn function_pointer_fails_at_any_depth() {
    let doc = sample();
    let resolver = PathResolver::from(&doc).unwrap();
    let wrap: Vec<fn(Type) -> Type> = vec![
        |t| Type::Slice(Box::new(t)),
        |t| Type::Tuple(vec![Type::Primitive("u8".to_owned()), t]),
        |t| Type::BorrowedRef { lifetime: None, mutable: true, type_: Box::new(t) },
        |t| {
            Type::ResolvedPath(path(
                "Vec",
                500,
                Some(angle(vec![GenericArg::Lifetime("a".to_owned()), GenericArg::Type(t)])),
            ))
        },
        |t| Type::QualifiedPath {
            name: "Item".to_owned(),
            args: None,
            self_type: Box::new(t),
            trait_: None,
        },
    ];
    for outer in &wrap {
        for inner in &wrap {
            let t = outer(inner(Type::FunctionPointer));
            let f = Function {
                generics: vec![],
                inputs: vec![
                    Param { name: "a".to_owned(), type_: Type::Primitive("u8".to_owned()) },
                    Param { name: "f".to_owned(), type_: t },
                ],
                output: None,
            };
            let mut out = String::from("fn call");
            assert_eq!(write_function_args(&mut out, &resolver, &f), Err(Unsupported));
            assert_eq!(out, "fn call");
            let t = outer(inner(Type::FunctionPointer));
            let g = Function { generics: vec![], inputs: vec![], output: Some(t) };
            assert_eq!(write_function(&mut out, &resolver, "call", &g), Err(Unsupported));
            assert_eq!(out, "fn call");
        }
    }
}
