use swagger::reference::{
    join_idents, leaf_type_reference, path_type_reference, segment_type_reference, TypeReference,
};
use swagger::resolver::{
    build_type_components_from_type, collect_leaf_references, describe_field, describe_record,
    unwrap_optional, Component, ResolveError,
};
use swagger::syntax::{
    GenericArgument, Item, PathArguments, PathSegment, RecordDecl, RecordField, SourceFile,
    TypeExpr, TypePath,
};
use swagger::table::NameTable;
use swagger::traverser::AstTraverser;

fn segment(ident: &str) -> PathSegment {
    PathSegment { ident: ident.to_string(), arguments: PathArguments::Plain }
}

fn plain(name: &str) -> TypeExpr {
    TypeExpr::Path(TypePath { segments: vec![segment(name)] })
}

fn generic(name: &str, args: Vec<TypeExpr>) -> TypeExpr {
    TypeExpr::Path(TypePath {
        segments: vec![PathSegment {
            ident: name.to_string(),
            arguments: PathArguments::AngleBracketed(
                args.into_iter().map(GenericArgument::Type).collect(),
            ),
        }],
    })
}

fn field(name: &str, ty: TypeExpr) -> RecordField {
    RecordField { name: name.to_string(), ty }
}

fn record(name: &str, fields: Vec<RecordField>) -> Item {
    Item::Record(RecordDecl { name: name.to_string(), fields })
}

fn component(field_name: &str, ty: &str, required: bool) -> Component {
    Component { ty: ty.to_string(), required, field_name: Some(field_name.to_string()) }
}

fn named(text: &str) -> TypeReference {
    TypeReference::Named(text.to_string())
}

#[test]
fn optional_wrapper_is_taken_off() {
    assert_eq!(unwrap_optional("Option<String>"), Some("String".to_string()));
    assert_eq!(unwrap_optional("Option<i32>"), Some("i32".to_string()));
}

#[test]
fn optional_wrapper_is_found_anywhere_in_the_text() {
    assert_eq!(unwrap_optional("std::option::Option<Foo>"), Some("Foo".to_string()));
    assert_eq!(unwrap_optional("Vec<Option<u8>>"), Some("u8>".to_string()));
}

#[test]
fn text_without_optional_wrapper_has_nothing_inside() {
    assert_eq!(unwrap_optional("String"), None);
    assert_eq!(unwrap_optional("Vec<String>"), None);
    assert_eq!(unwrap_optional("Option<>"), None);
    assert_eq!(unwrap_optional("Option"), None);
    assert_eq!(unwrap_optional(""), None);
    assert_eq!(unwrap_optional("option<String>"), None);
}

#[test]
fn optional_field_is_not_required_and_named_by_inner_type() {
    assert_eq!(
        describe_field(false, "nick", "Option<String>".to_string(), Some("String".to_string())),
        component("nick", "String", false)
    );
}

#[test]
fn plain_field_is_required_and_named_by_its_type() {
    assert_eq!(describe_field(false, "age", "u8".to_string(), None), component("age", "u8", true));
}

#[test]
fn field_of_record_type_is_named_by_the_record() {
    assert_eq!(
        describe_field(true, "owner", "User".to_string(), None),
        component("owner", "User", true)
    );
    assert_eq!(
        describe_field(true, "owner", "Option<X>".to_string(), Some("X".to_string())),
        component("owner", "Option<X>", false)
    );
}

#[test]
fn identifiers_are_joined_by_double_colon() {
    assert_eq!(join_idents(&vec![]), "");
    assert_eq!(join_idents(&vec![segment("String")]), "String");
    assert_eq!(
        join_idents(&vec![segment("std"), segment("string"), segment("String")]),
        "std::string::String"
    );
}

#[test]
fn segment_without_arguments_is_its_identifier() {
    assert_eq!(segment_type_reference(&segment("String")), named("String"));
    let empty = PathSegment {
        ident: "Vec".to_string(),
        arguments: PathArguments::AngleBracketed(vec![]),
    };
    assert_eq!(segment_type_reference(&empty), named("Vec"));
}

#[test]
fn segment_with_argument_has_it_in_angle_brackets() {
    let TypeExpr::Path(path) = generic("Option", vec![plain("String")]) else { unreachable!() };
    assert_eq!(segment_type_reference(&path.segments[0]), named("Option<String>"));
}

#[test]
fn only_the_last_generic_argument_counts() {
    let ty = generic("HashMap", vec![plain("String"), plain("i32")]);
    assert_eq!(leaf_type_reference(&ty), named("HashMap<i32>"));
    let ty = generic("Either", vec![TypeExpr::Unknown, plain("u8")]);
    assert_eq!(leaf_type_reference(&ty), named("Either<u8>"));
}

#[test]
fn argument_path_is_joined_by_double_colon() {
    let inner = TypeExpr::Path(TypePath { segments: vec![segment("serde_json"), segment("Value")] });
    assert_eq!(leaf_type_reference(&generic("Json", vec![inner])), named("Json<serde_json::Value>"));
}

#[test]
fn arguments_of_the_inner_path_are_left_out() {
    let inner = generic("Vec", vec![plain("u8")]);
    assert_eq!(leaf_type_reference(&generic("Option", vec![inner])), named("Option<Vec>"));
}

#[test]
fn path_segments_are_joined_by_double_colon() {
    let segments = vec![
        segment("std"),
        segment("option"),
        PathSegment {
            ident: "Option".to_string(),
            arguments: PathArguments::AngleBracketed(vec![GenericArgument::Type(plain("Foo"))]),
        },
    ];
    assert_eq!(path_type_reference(&segments), named("std::option::Option<Foo>"));
    assert_eq!(path_type_reference(&vec![]), named(""));
}

#[test]
fn unsupported_arguments_are_passed_over() {
    let lifetime = TypeExpr::Path(TypePath {
        segments: vec![PathSegment {
            ident: "Cow".to_string(),
            arguments: PathArguments::AngleBracketed(vec![GenericArgument::Other]),
        }],
    });
    assert_eq!(leaf_type_reference(&lifetime), TypeReference::Ignored);
    let parenthesized = TypeExpr::Path(TypePath {
        segments: vec![PathSegment {
            ident: "Fn".to_string(),
            arguments: PathArguments::Parenthesized,
        }],
    });
    assert_eq!(leaf_type_reference(&parenthesized), TypeReference::Ignored);
    assert_eq!(
        leaf_type_reference(&generic("Option", vec![TypeExpr::Unhandled])),
        TypeReference::Ignored
    );
    assert_eq!(
        leaf_type_reference(&generic("Option", vec![TypeExpr::Tuple(vec![])])),
        TypeReference::Ignored
    );
}

#[test]
fn unknown_shapes_are_fatal() {
    assert_eq!(leaf_type_reference(&TypeExpr::Unknown), TypeReference::Fatal);
    assert_eq!(
        leaf_type_reference(&generic("Option", vec![TypeExpr::Unknown])),
        TypeReference::Fatal
    );
    assert_eq!(leaf_type_reference(&TypeExpr::Unhandled), TypeReference::Ignored);
}

#[test]
fn first_segment_without_text_decides() {
    let segments = vec![
        PathSegment { ident: "a".to_string(), arguments: PathArguments::Parenthesized },
        PathSegment {
            ident: "b".to_string(),
            arguments: PathArguments::AngleBracketed(vec![GenericArgument::Type(
                TypeExpr::Unknown,
            )]),
        },
    ];
    assert_eq!(path_type_reference(&segments), TypeReference::Ignored);
}

#[test]
fn tuples_are_flattened_from_left_to_right() {
    let ty = TypeExpr::Tuple(vec![
        plain("A"),
        TypeExpr::Tuple(vec![plain("B"), TypeExpr::Unhandled, TypeExpr::Tuple(vec![])]),
        plain("C"),
    ]);
    let mut out = vec![named("before")];
    collect_leaf_references(&ty, &mut out);
    assert_eq!(out, vec![named("before"), named("A"), named("B"), TypeReference::Ignored, named("C")]);
}

#[test]
fn type_that_is_no_tuple_is_its_own_leaf() {
    let mut out = Vec::new();
    collect_leaf_references(&plain("A"), &mut out);
    assert_eq!(out, vec![named("A")]);
}

#[test]
fn tuple_field_gives_several_descriptors_of_one_name() {
    let mut records: NameTable<u8> = NameTable::new();
    records.insert("User".to_string(), 0);
    let pair = field(
        "pair",
        TypeExpr::Tuple(vec![plain("String"), plain("User"), generic("Option", vec![plain("i32")])]),
    );
    let mut fields = Vec::new();
    let mut found = Vec::new();
    let res = build_type_components_from_type(&records, "Holder", &pair, &mut fields, &mut found);
    assert_eq!(res, Ok(()));
    assert_eq!(
        fields,
        vec![
            component("pair", "String", true),
            component("pair", "User", true),
            component("pair", "i32", false),
        ]
    );
    assert_eq!(found, vec!["User".to_string()]);
}

#[test]
fn field_of_unknown_shape_is_an_error_that_names_it() {
    let records: NameTable<u8> = NameTable::new();
    let bad = field("payload", TypeExpr::Tuple(vec![plain("A"), TypeExpr::Unknown]));
    let mut fields = Vec::new();
    let mut found = Vec::new();
    assert_eq!(
        build_type_components_from_type(&records, "Holder", &bad, &mut fields, &mut found),
        Err(ResolveError::UnknownTypeShape {
            record: "Holder".to_string(),
            field: "payload".to_string(),
        })
    );
}

#[test]
fn record_is_described_field_by_field() {
    let mut records: NameTable<u8> = NameTable::new();
    records.insert("Address".to_string(), 0);
    let fields = vec![
        field("name", plain("String")),
        field("nick", generic("Option", vec![plain("String")])),
        field("skipped", TypeExpr::Unhandled),
        field("home", plain("Address")),
        field("work", plain("Address")),
    ];
    let (components, found) = describe_record(&records, "User", &fields).unwrap();
    assert_eq!(
        components,
        vec![
            component("name", "String", true),
            component("nick", "String", false),
            component("home", "Address", true),
            component("work", "Address", true),
        ]
    );
    assert_eq!(found, vec!["Address".to_string(), "Address".to_string()]);
}

#[test]
fn record_error_names_first_field_of_unknown_shape() {
    let records: NameTable<u8> = NameTable::new();
    let fields = vec![
        field("fine", plain("String")),
        field("first", TypeExpr::Unknown),
        field("second", TypeExpr::Unknown),
    ];
    assert_eq!(
        describe_record(&records, "User", &fields),
        Err(ResolveError::UnknownTypeShape {
            record: "User".to_string(),
            field: "first".to_string(),
        })
    );
}

#[test]
fn record_without_fields_has_no_descriptors() {
    let records: NameTable<u8> = NameTable::new();
    let (components, found) = describe_record(&records, "Unit", &vec![]).unwrap();
    assert!(components.is_empty());
    assert!(found.is_empty());
}

#[test]
fn reachable_records_all_get_components() {
    let file = SourceFile {
        items: vec![
            record("A", vec![field("b", plain("B")), field("n", plain("u32"))]),
            record("B", vec![field("c", generic("Option", vec![plain("C")]))]),
            record("C", vec![field("leaf", plain("String"))]),
            record("Unused", vec![field("x", plain("String"))]),
        ],
    };
    let mut traverser = AstTraverser::new();
    traverser.traverse(&file);
    traverser.used_types.push("A".to_string());
    assert_eq!(traverser.build_type_components(), Ok(()));
    assert_eq!(traverser.components.len(), 2);
    assert_eq!(
        traverser.components.get("A"),
        Some(&vec![component("b", "B", true), component("n", "u32", true)])
    );
    // `Option<C>` names no record, so `C` is not reached through `B`.
    assert_eq!(traverser.components.get("B"), Some(&vec![component("c", "C", false)]));
    assert_eq!(traverser.components.get("C"), None);
    assert_eq!(traverser.components.get("Unused"), None);
}

#[test]
fn chain_of_records_is_followed_to_its_end() {
    let file = SourceFile {
        items: vec![
            record("A", vec![field("b", plain("B"))]),
            record("B", vec![field("c", plain("C"))]),
            record("C", vec![field("d", plain("D"))]),
            record("D", vec![]),
        ],
    };
    let mut traverser = AstTraverser::new();
    traverser.traverse(&file);
    assert_eq!(traverser.build_type_components_from_struct("A"), Ok(()));
    for name in ["A", "B", "C", "D"] {
        assert!(traverser.components.contains_key(name));
    }
    assert_eq!(traverser.components.get("D"), Some(&vec![]));
}

#[test]
fn resolving_again_changes_nothing() {
    let file = SourceFile {
        items: vec![
            record("A", vec![field("b", plain("B")), field("s", plain("String"))]),
            record("B", vec![field("n", plain("i64"))]),
        ],
    };
    let mut traverser = AstTraverser::new();
    traverser.traverse(&file);
    traverser.used_types.push("A".to_string());
    traverser.build_type_components().unwrap();
    let once = traverser.components.clone();
    traverser.build_type_components().unwrap();
    assert_eq!(traverser.components, once);
    traverser.build_type_components_from_struct("A").unwrap();
    traverser.build_type_components_from_struct("B").unwrap();
    assert_eq!(traverser.components, once);
}

#[test]
fn records_that_name_each_other_are_resolved_once_each() {
    let file = SourceFile {
        items: vec![
            record("A", vec![field("b", plain("B"))]),
            record("B", vec![field("a", plain("A"))]),
        ],
    };
    let mut traverser = AstTraverser::new();
    traverser.traverse(&file);
    traverser.used_types.push("A".to_string());
    assert_eq!(traverser.build_type_components(), Ok(()));
    assert_eq!(traverser.components.len(), 2);
    assert_eq!(traverser.components.get("A"), Some(&vec![component("b", "B", true)]));
    assert_eq!(traverser.components.get("B"), Some(&vec![component("a", "A", true)]));
}

#[test]
fn record_that_names_itself_is_resolved_once() {
    let file = SourceFile {
        items: vec![record("Node", vec![field("next", plain("Node")), field("value", plain("u8"))])],
    };
    let mut traverser = AstTraverser::new();
    traverser.traverse(&file);
    assert_eq!(traverser.build_type_components_from_struct("Node"), Ok(()));
    assert_eq!(traverser.components.len(), 1);
    assert_eq!(
        traverser.components.get("Node"),
        Some(&vec![component("next", "Node", true), component("value", "u8", true)])
    );
}

#[test]
fn unknown_type_in_use_is_an_opaque_leaf() {
    let mut traverser = AstTraverser::new();
    traverser.used_types.push("RequestBody".to_string());
    assert_eq!(traverser.build_type_components(), Ok(()));
    assert_eq!(traverser.components.len(), 1);
    assert_eq!(traverser.components.get("RequestBody"), Some(&vec![]));
}

#[test]
fn optional_unknown_type_in_use_leaves_a_stand_in_under_the_inner_name() {
    let mut traverser = AstTraverser::new();
    traverser.used_types.push("Option<Missing>".to_string());
    assert_eq!(traverser.build_type_components(), Ok(()));
    assert_eq!(traverser.components.len(), 1);
    assert_eq!(
        traverser.components.get("Missing"),
        Some(&vec![Component { ty: "Missing".to_string(), required: false, field_name: None }])
    );
}

fn wrapper_then_record() -> SourceFile {
    SourceFile {
        items: vec![
            record("A", vec![field("b", plain("B"))]),
            record("B", vec![field("deep", plain("Deep")), field("n", plain("u8"))]),
            record("Deep", vec![]),
        ],
    }
}

#[test]
fn stand_in_does_not_keep_a_record_from_being_expanded() {
    let file = wrapper_then_record();
    let mut traverser = AstTraverser::new();
    traverser.traverse(&file);
    traverser.used_types.push("Option<B>".to_string());
    traverser.used_types.push("A".to_string());
    assert_eq!(traverser.build_type_components(), Ok(()));
    assert_eq!(
        traverser.components.get("B"),
        Some(&vec![component("deep", "Deep", true), component("n", "u8", true)])
    );
    assert!(traverser.components.contains_key("Deep"));
    assert!(traverser.components.contains_key("A"));
}

#[test]
fn second_pass_leaves_components_as_the_first_left_them() {
    let file = wrapper_then_record();
    let mut traverser = AstTraverser::new();
    traverser.traverse(&file);
    traverser.used_types.push("Option<B>".to_string());
    traverser.used_types.push("A".to_string());
    assert_eq!(traverser.build_type_components(), Ok(()));
    let first = traverser.components.clone();
    assert_eq!(traverser.build_type_components(), Ok(()));
    assert_eq!(traverser.components, first);
    assert_eq!(
        traverser.components.get("B"),
        Some(&vec![component("deep", "Deep", true), component("n", "u8", true)])
    );
    assert_eq!(traverser.build_type_components(), Ok(()));
    assert_eq!(traverser.components, first);
}

#[test]
fn second_pass_with_wrapper_last_leaves_the_stand_in_both_times() {
    let file = wrapper_then_record();
    let mut traverser = AstTraverser::new();
    traverser.traverse(&file);
    traverser.used_types.push("A".to_string());
    traverser.used_types.push("Option<B>".to_string());
    assert_eq!(traverser.build_type_components(), Ok(()));
    let first = traverser.components.clone();
    assert_eq!(
        first.get("B"),
        Some(&vec![Component { ty: "B".to_string(), required: false, field_name: None }])
    );
    assert_eq!(traverser.build_type_components(), Ok(()));
    assert_eq!(traverser.components, first);
}

#[test]
fn stale_component_of_a_record_is_started_afresh() {
    let file = wrapper_then_record();
    let mut traverser = AstTraverser::new();
    traverser.traverse(&file);
    traverser.components.insert(
        "B".to_string(),
        vec![component("gone", "String", true), component("deep", "Deep", true)],
    );
    traverser.components.insert("Other".to_string(), vec![component("kept", "u8", true)]);
    assert_eq!(traverser.build_type_components_from_struct("A"), Ok(()));
    assert_eq!(
        traverser.components.get("B"),
        Some(&vec![component("deep", "Deep", true), component("n", "u8", true)])
    );
    assert_eq!(traverser.components.get("A"), Some(&vec![component("b", "B", true)]));
    assert_eq!(traverser.components.get("Deep"), Some(&vec![]));
    assert_eq!(traverser.components.get("Other"), Some(&vec![component("kept", "u8", true)]));
    assert_eq!(traverser.components.key_at(0), "B");
}

#[test]
fn record_that_changed_is_resolved_anew_after_another_traversal() {
    let before = SourceFile {
        items: vec![record("A", vec![field("old", plain("String")), field("same", plain("u8"))])],
    };
    let after = SourceFile {
        items: vec![record("A", vec![field("same", plain("u8")), field("new", plain("i32"))])],
    };
    let mut traverser = AstTraverser::new();
    traverser.traverse(&before);
    traverser.used_types.push("A".to_string());
    assert_eq!(traverser.build_type_components(), Ok(()));
    assert_eq!(
        traverser.components.get("A"),
        Some(&vec![component("old", "String", true), component("same", "u8", true)])
    );
    traverser.traverse(&after);
    assert_eq!(traverser.build_type_components(), Ok(()));
    assert_eq!(traverser.components.len(), 1);
    assert_eq!(
        traverser.components.get("A"),
        Some(&vec![component("same", "u8", true), component("new", "i32", true)])
    );
}

#[test]
fn record_reached_twice_in_one_walk_gets_one_descriptor_for_each_field() {
    let file = SourceFile {
        items: vec![
            record("Top", vec![field("left", plain("Shared")), field("right", plain("Shared"))]),
            record("Shared", vec![field("a", plain("u8")), field("b", plain("Top"))]),
        ],
    };
    let mut traverser = AstTraverser::new();
    traverser.traverse(&file);
    assert_eq!(traverser.build_type_components_from_struct("Top"), Ok(()));
    assert_eq!(traverser.components.len(), 2);
    assert_eq!(
        traverser.components.get("Shared"),
        Some(&vec![component("a", "u8", true), component("b", "Top", true)])
    );
    assert_eq!(
        traverser.components.get("Top"),
        Some(&vec![component("left", "Shared", true), component("right", "Shared", true)])
    );
}

#[test]
fn records_reachable_from_types_in_use_get_components_in_a_table_with_entries() {
    let file = wrapper_then_record();
    let mut traverser = AstTraverser::new();
    traverser.traverse(&file);
    traverser.components.insert("A".to_string(), vec![component("stale", "X", true)]);
    traverser.components.insert("Deep".to_string(), vec![component("stale", "Y", false)]);
    traverser.used_types.push("A".to_string());
    assert_eq!(traverser.build_type_components(), Ok(()));
    for name in ["A", "B", "Deep"] {
        assert!(traverser.components.contains_key(name));
    }
    assert_eq!(traverser.components.get("Deep"), Some(&vec![]));
}

#[test]
fn name_that_is_no_record_leaves_components_alone() {
    let mut traverser = AstTraverser::new();
    assert_eq!(traverser.build_type_components_from_struct("Nothing"), Ok(()));
    assert_eq!(traverser.components.len(), 0);
}

#[test]
fn unknown_shape_in_reachable_record_aborts_resolution() {
    let file = SourceFile {
        items: vec![
            record("A", vec![field("fine", plain("String")), field("b", plain("B"))]),
            record("B", vec![field("bad", TypeExpr::Unknown)]),
        ],
    };
    let mut traverser = AstTraverser::new();
    traverser.traverse(&file);
    traverser.used_types.push("A".to_string());
    assert_eq!(
        traverser.build_type_components(),
        Err(ResolveError::UnknownTypeShape { record: "B".to_string(), field: "bad".to_string() })
    );
}

#[test]
fn unknown_shape_in_unreachable_record_does_no_harm() {
    let file = SourceFile {
        items: vec![
            record("A", vec![field("fine", plain("String"))]),
            record("B", vec![field("bad", TypeExpr::Unknown)]),
        ],
    };
    let mut traverser = AstTraverser::new();
    traverser.traverse(&file);
    traverser.used_types.push("A".to_string());
    assert_eq!(traverser.build_type_components(), Ok(()));
}

#[test]
fn declarations_are_indexed_by_name() {
    let file = SourceFile {
        items: vec![
            record("A", vec![field("x", plain("u8"))]),
            Item::Other,
            record("A", vec![field("y", plain("u8"))]),
            Item::Function(swagger::syntax::FnDecl {
                name: "main".to_string(),
                params: vec![],
                body: vec![],
            }),
            Item::Function(swagger::syntax::FnDecl {
                name: "handler".to_string(),
                params: vec![],
                body: vec![],
            }),
        ],
    };
    let mut traverser = AstTraverser::new();
    traverser.traverse(&file);
    assert_eq!(traverser.structs.len(), 1);
    assert_eq!(traverser.structs.get("A").unwrap().fields[0].name, "y");
    assert_eq!(traverser.fn_declarations.len(), 1);
    assert!(traverser.fn_declarations.contains_key("handler"));
    assert!(!traverser.fn_declarations.contains_key("main"));
}
