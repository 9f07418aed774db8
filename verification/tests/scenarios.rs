use swagger::schema::Type;
use swagger::syntax::{
    Call, Expr, FnDecl, FnParam, Item, MethodCall, PathArguments, PathSegment, Pattern,
    RecordDecl, RecordField, SourceFile, Stmt, TypeExpr, TypePath,
};
use swagger::traverser::AstTraverser;

fn plain_type(name: &str) -> TypeExpr {
    TypeExpr::Path(TypePath {
        segments: vec![PathSegment { ident: name.to_string(), arguments: PathArguments::Plain }],
    })
}

fn route_call(path: &str, method: &str, handler: &str) -> Expr {
    Expr::MethodCall(MethodCall {
        method: "route".to_string(),
        args: vec![
            Expr::StrLit(path.to_string()),
            Expr::Call(Call {
                func: Box::new(Expr::Path(vec![method.to_string()])),
                args: vec![Expr::Path(vec![handler.to_string()])],
            }),
        ],
    })
}

fn post_foo_file() -> SourceFile {
    SourceFile {
        items: vec![
            Item::Function(FnDecl {
                name: "main".to_string(),
                params: vec![],
                body: vec![Stmt::Local(Some(route_call("/foo", "post", "post_foo")))],
            }),
            Item::Record(RecordDecl {
                name: "PostFooRequestBody".to_string(),
                fields: vec![RecordField { name: "username".to_string(), ty: plain_type("String") }],
            }),
            Item::Function(FnDecl {
                name: "post_foo".to_string(),
                params: vec![FnParam::Typed(
                    Pattern::Ident("request_body".to_string()),
                    plain_type("PostFooRequestBody"),
                )],
                body: vec![],
            }),
        ],
    }
}

#[test]
fn post_foo_yields_path_and_component() {
    let file = post_foo_file();
    let mut traverser = AstTraverser::new();
    traverser.traverse(&file);
    traverser.collect_used_types();
    assert_eq!(traverser.used_types, vec!["PostFooRequestBody".to_string()]);
    traverser.build_type_components().unwrap();
    let document = traverser.build_resource().unwrap();

    assert_eq!(document.paths.len(), 1);
    let item = document.paths.get("/foo").unwrap();
    assert_eq!(item.method, "post");
    assert!(item.operation.request_body.required);
    assert_eq!(item.operation.request_body.reference, "#/components/schemas/TODO");

    let schema = document.components.schemas.get("PostFooRequestBody").unwrap();
    assert_eq!(schema.ty, "object");
    assert_eq!(schema.required, vec!["username".to_string()]);
    assert_eq!(schema.properties.len(), 1);
    assert_eq!(
        schema.properties.get("username"),
        Some(&Type::Primitive { ty: "string".to_string() })
    );
}
