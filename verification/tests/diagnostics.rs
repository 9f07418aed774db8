use swagger::diagnostics::{
    diagnose, diagnose_body, diagnose_params, diagnose_record, has_unsupported_type, Diagnostic,
};
use swagger::syntax::{
    Call, Expr, FnDecl, FnParam, GenericArgument, Item, MethodCall, PathArguments, PathSegment,
    Pattern, RecordDecl, RecordField, SourceFile, Stmt, TypeExpr, TypePath,
};

fn plain(name: &str) -> TypeExpr {
    TypeExpr::Path(TypePath {
        segments: vec![PathSegment { ident: name.to_string(), arguments: PathArguments::Plain }],
    })
}

fn wrapped(name: &str, inner: TypeExpr) -> TypeExpr {
    TypeExpr::Path(TypePath {
        segments: vec![PathSegment {
            ident: name.to_string(),
            arguments: PathArguments::AngleBracketed(vec![GenericArgument::Type(inner)]),
        }],
    })
}

fn route(path: &str, method: &str, handler: &str) -> Expr {
    Expr::MethodCall(MethodCall {
        method: "route".to_string(),
        args: vec![
            Expr::StrLit(path.to_string()),
            Expr::Call(Call {
                func: Box::new(Expr::Path(vec![method.to_string()])),
                args: vec![Expr::Path(vec![handler.to_string()])],
            }),
        ],
    })
}

fn call_of(method: &str, args: Vec<Expr>) -> Expr {
    Expr::MethodCall(MethodCall { method: method.to_string(), args })
}

fn function(name: &str, params: Vec<FnParam>, body: Vec<Stmt>) -> FnDecl {
    FnDecl { name: name.to_string(), params, body }
}

fn field(name: &str, ty: TypeExpr) -> RecordField {
    RecordField { name: name.to_string(), ty }
}

#[test]
fn statements_that_are_passed_over_are_reported_by_place() {
    let func = function(
        "setup",
        vec![],
        vec![
            Stmt::Semi(route("/a", "get", "a")),
            Stmt::Item,
            Stmt::Local(None),
            Stmt::Expr(route("/tail", "get", "tail")),
            Stmt::Semi(Expr::Other),
        ],
    );
    let mut out = Vec::new();
    diagnose_body(&func, &mut out);
    assert_eq!(
        out,
        vec![
            Diagnostic::StatementPassedOver { function: "setup".to_string(), statement: 1 },
            Diagnostic::StatementPassedOver { function: "setup".to_string(), statement: 3 },
        ]
    );
}

#[test]
fn calls_of_route_that_register_nothing_are_reported() {
    let func = function(
        "setup",
        vec![],
        vec![
            Stmt::Semi(call_of("route", vec![Expr::StrLit("/a".to_string())])),
            Stmt::Semi(call_of("layer", vec![])),
            Stmt::Local(Some(call_of("route", vec![Expr::Other, Expr::Other]))),
            Stmt::Local(Some(route("/fine", "get", "fine"))),
        ],
    );
    let mut out = vec![Diagnostic::StatementPassedOver { function: "x".to_string(), statement: 9 }];
    diagnose_body(&func, &mut out);
    assert_eq!(
        out,
        vec![
            Diagnostic::StatementPassedOver { function: "x".to_string(), statement: 9 },
            Diagnostic::UnrecognizedRoute { function: "setup".to_string(), statement: 0 },
            Diagnostic::UnrecognizedRoute { function: "setup".to_string(), statement: 2 },
        ]
    );
}

#[test]
fn query_parameters_that_bind_no_name_are_reported() {
    let func = function(
        "list",
        vec![
            FnParam::Typed(Pattern::Ident("q".to_string()), wrapped("Query", plain("Filter"))),
            FnParam::Typed(Pattern::Other, wrapped("Query", plain("Filter"))),
            FnParam::Typed(Pattern::Other, plain("Body")),
            FnParam::Typed(
                Pattern::TupleStruct(vec!["Query".to_string()], vec![]),
                plain("Anything"),
            ),
            FnParam::Receiver,
        ],
        vec![],
    );
    let mut out = Vec::new();
    diagnose_params(&func, &mut out);
    assert_eq!(
        out,
        vec![
            Diagnostic::UnrecognizedParameter { function: "list".to_string(), parameter: 1 },
            Diagnostic::UnrecognizedParameter { function: "list".to_string(), parameter: 3 },
        ]
    );
}

#[test]
fn types_without_a_case_are_found_inside_tuples_too() {
    assert!(has_unsupported_type(&field("a", TypeExpr::Unhandled)));
    assert!(has_unsupported_type(&field(
        "a",
        TypeExpr::Tuple(vec![plain("A"), TypeExpr::Tuple(vec![TypeExpr::Unhandled])])
    )));
    assert!(has_unsupported_type(&field("a", wrapped("Option", TypeExpr::Unhandled))));
    assert!(!has_unsupported_type(&field("a", plain("A"))));
    assert!(!has_unsupported_type(&field("a", TypeExpr::Unknown)));
    assert!(!has_unsupported_type(&field("a", TypeExpr::Tuple(vec![]))));
}

#[test]
fn fields_with_unsupported_types_are_reported_once_each() {
    let record = RecordDecl {
        name: "User".to_string(),
        fields: vec![
            field("name", plain("String")),
            field("tags", TypeExpr::Unhandled),
            field("pair", TypeExpr::Tuple(vec![TypeExpr::Unhandled, TypeExpr::Unhandled])),
        ],
    };
    let mut out = Vec::new();
    diagnose_record(&record, &mut out);
    assert_eq!(
        out,
        vec![
            Diagnostic::UnsupportedFieldType { record: "User".to_string(), field: "tags".to_string() },
            Diagnostic::UnsupportedFieldType { record: "User".to_string(), field: "pair".to_string() },
        ]
    );
}

#[test]
fn report_goes_through_the_declarations_in_order() {
    let file = SourceFile {
        items: vec![
            Item::Function(function(
                "main",
                vec![FnParam::Typed(Pattern::Other, wrapped("Query", plain("T")))],
                vec![Stmt::Expr(Expr::Other)],
            )),
            Item::Other,
            Item::Record(RecordDecl {
                name: "R".to_string(),
                fields: vec![field("f", TypeExpr::Unhandled)],
            }),
            Item::Function(function("last", vec![], vec![Stmt::Item])),
        ],
    };
    assert_eq!(
        diagnose(&file),
        vec![
            Diagnostic::UnrecognizedParameter { function: "main".to_string(), parameter: 0 },
            Diagnostic::StatementPassedOver { function: "main".to_string(), statement: 0 },
            Diagnostic::UnsupportedFieldType { record: "R".to_string(), field: "f".to_string() },
            Diagnostic::StatementPassedOver { function: "last".to_string(), statement: 0 },
        ]
    );
}

#[test]
fn file_in_which_nothing_is_passed_over_has_an_empty_report() {
    let file = SourceFile {
        items: vec![
            Item::Function(function("main", vec![], vec![Stmt::Semi(route("/a", "get", "a"))])),
            Item::Record(RecordDecl { name: "R".to_string(), fields: vec![field("f", plain("u8"))] }),
        ],
    };
    assert!(diagnose(&file).is_empty());
    assert!(diagnose(&SourceFile { items: vec![] }).is_empty());
}
