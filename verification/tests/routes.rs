use swagger::routes::{handle_method_call, match_route_call, Controller, RouteHandler, RouteMatch};
use swagger::syntax::{Call, Expr, FnDecl, Item, MethodCall, SourceFile, Stmt};
use swagger::table::NameTable;
use swagger::traverser::AstTraverser;

fn path_expr(idents: &[&str]) -> Expr {
    Expr::Path(idents.iter().map(|ident| ident.to_string()).collect())
}

fn inner_call(method: &[&str], args: Vec<Expr>) -> Expr {
    Expr::Call(Call { func: Box::new(path_expr(method)), args })
}

fn method_call(method: &str, args: Vec<Expr>) -> MethodCall {
    MethodCall { method: method.to_string(), args }
}

fn route(path: &str, method: &str, handler: &str) -> MethodCall {
    method_call(
        "route",
        vec![Expr::StrLit(path.to_string()), inner_call(&[method], vec![path_expr(&[handler])])],
    )
}

fn function(name: &str, body: Vec<Stmt>) -> Item {
    Item::Function(FnDecl { name: name.to_string(), params: vec![], body })
}

fn handler(method: &str, name: &str) -> RouteHandler {
    RouteHandler { method: method.to_string(), handler_name: name.to_string() }
}

#[test]
fn route_call_is_recognised() {
    assert_eq!(
        match_route_call(&route("/foo", "post", "post_foo")),
        Some(RouteMatch {
            path: "/foo".to_string(),
            method: "post".to_string(),
            handler_name: "post_foo".to_string(),
        })
    );
}

#[test]
fn route_call_takes_last_identifiers_of_paths() {
    let call = method_call(
        "route",
        vec![
            Expr::StrLit("/users".to_string()),
            inner_call(&["axum", "routing", "get"], vec![path_expr(&["handlers", "list_users"])]),
        ],
    );
    let found = match_route_call(&call).unwrap();
    assert_eq!(found.method, "get");
    assert_eq!(found.handler_name, "list_users");
}

#[test]
fn route_call_uses_last_argument_of_inner_call_as_handler() {
    let call = method_call(
        "route",
        vec![
            Expr::StrLit("/a".to_string()),
            inner_call(&["get"], vec![Expr::Other, path_expr(&["second"])]),
        ],
    );
    assert_eq!(match_route_call(&call).unwrap().handler_name, "second");
}

#[test]
fn route_call_tolerates_further_arguments() {
    let mut call = route("/a", "get", "a");
    call.args.push(Expr::Other);
    assert!(match_route_call(&call).is_some());
}

#[test]
fn call_of_other_method_is_skipped() {
    let mut call = route("/foo", "post", "post_foo");
    call.method = "nest".to_string();
    assert_eq!(match_route_call(&call), None);
}

#[test]
fn route_call_with_too_few_arguments_is_skipped() {
    assert_eq!(match_route_call(&method_call("route", vec![])), None);
    assert_eq!(
        match_route_call(&method_call("route", vec![Expr::StrLit("/a".to_string())])),
        None
    );
}

#[test]
fn route_call_without_literal_path_is_skipped() {
    let call = method_call(
        "route",
        vec![path_expr(&["PATH"]), inner_call(&["get"], vec![path_expr(&["a"])])],
    );
    assert_eq!(match_route_call(&call), None);
}

#[test]
fn route_call_whose_second_argument_is_no_call_is_skipped() {
    let call = method_call("route", vec![Expr::StrLit("/a".to_string()), path_expr(&["a"])]);
    assert_eq!(match_route_call(&call), None);
}

#[test]
fn route_call_whose_callee_is_no_path_is_skipped() {
    let call = method_call(
        "route",
        vec![
            Expr::StrLit("/a".to_string()),
            Expr::Call(Call { func: Box::new(Expr::Other), args: vec![path_expr(&["a"])] }),
        ],
    );
    assert_eq!(match_route_call(&call), None);
}

#[test]
fn route_call_without_handler_argument_is_skipped() {
    let call = method_call(
        "route",
        vec![Expr::StrLit("/a".to_string()), inner_call(&["get"], vec![])],
    );
    assert_eq!(match_route_call(&call), None);
}

#[test]
fn route_call_whose_handler_is_no_path_is_skipped() {
    let call = method_call(
        "route",
        vec![
            Expr::StrLit("/a".to_string()),
            inner_call(&["get"], vec![Expr::StrLit("a".to_string())]),
        ],
    );
    assert_eq!(match_route_call(&call), None);
}

#[test]
fn route_call_with_empty_paths_is_skipped() {
    let call = method_call(
        "route",
        vec![Expr::StrLit("/a".to_string()), inner_call(&[], vec![path_expr(&["a"])])],
    );
    assert_eq!(match_route_call(&call), None);
    let call = method_call(
        "route",
        vec![Expr::StrLit("/a".to_string()), inner_call(&["get"], vec![path_expr(&[])])],
    );
    assert_eq!(match_route_call(&call), None);
}

#[test]
fn controller_table_takes_route() {
    let mut routes: NameTable<Controller> = NameTable::new();
    handle_method_call(&mut routes, &route("/foo", "post", "post_foo"));
    assert_eq!(routes.len(), 1);
    assert_eq!(
        routes.get("/foo"),
        Some(&Controller {
            method: "post".to_string(),
            name: "post_foo".to_string(),
            request_body: None,
            response_body: None,
        })
    );
}

#[test]
fn controller_table_ignores_other_calls() {
    let mut routes: NameTable<Controller> = NameTable::new();
    handle_method_call(&mut routes, &method_call("layer", vec![Expr::Other]));
    assert_eq!(routes.len(), 0);
}

#[test]
fn controller_table_last_registration_wins() {
    let mut routes: NameTable<Controller> = NameTable::new();
    handle_method_call(&mut routes, &route("/foo", "get", "first"));
    handle_method_call(&mut routes, &route("/foo", "post", "second"));
    assert_eq!(routes.len(), 1);
    let controller = routes.get("/foo").unwrap();
    assert_eq!(controller.method, "post");
    assert_eq!(controller.name, "second");
}

#[test]
fn traverser_handles_method_call() {
    let mut traverser = AstTraverser::new();
    traverser.handle_method_call(&route("/foo", "post", "post_foo"));
    traverser.handle_method_call(&method_call("with_state", vec![]));
    assert_eq!(traverser.routes.len(), 1);
    assert_eq!(traverser.routes.get("/foo"), Some(&handler("post", "post_foo")));
}

#[test]
fn one_route_per_distinct_path_and_second_registration_wins() {
    let file = SourceFile {
        items: vec![function(
            "main",
            vec![
                Stmt::Semi(Expr::MethodCall(route("/a", "get", "first_a"))),
                Stmt::Semi(Expr::MethodCall(route("/b", "get", "only_b"))),
                Stmt::Semi(Expr::MethodCall(route("/a", "post", "second_a"))),
            ],
        )],
    };
    let mut traverser = AstTraverser::new();
    traverser.traverse(&file);
    assert_eq!(traverser.routes.len(), 2);
    assert_eq!(traverser.routes.get("/a"), Some(&handler("post", "second_a")));
    assert_eq!(traverser.routes.get("/b"), Some(&handler("get", "only_b")));
    assert_eq!(traverser.routes.key_at(0), "/a");
    assert_eq!(traverser.routes.key_at(1), "/b");
}

#[test]
fn routes_are_found_in_statements_and_local_initializers_alike() {
    let file = SourceFile {
        items: vec![function(
            "setup",
            vec![
                Stmt::Local(Some(Expr::MethodCall(route("/local", "get", "a")))),
                Stmt::Semi(Expr::MethodCall(route("/semi", "put", "b"))),
            ],
        )],
    };
    let mut traverser = AstTraverser::new();
    traverser.traverse(&file);
    assert_eq!(traverser.routes.get("/local"), Some(&handler("get", "a")));
    assert_eq!(traverser.routes.get("/semi"), Some(&handler("put", "b")));
}

#[test]
fn other_statement_forms_are_skipped() {
    let file = SourceFile {
        items: vec![function(
            "setup",
            vec![
                Stmt::Item,
                Stmt::Local(None),
                Stmt::Local(Some(Expr::Other)),
                Stmt::Expr(Expr::MethodCall(route("/tail", "get", "a"))),
                Stmt::Semi(Expr::Other),
                Stmt::Semi(Expr::Call(Call { func: Box::new(Expr::Other), args: vec![] })),
            ],
        )],
    };
    let mut traverser = AstTraverser::new();
    traverser.traverse(&file);
    assert_eq!(traverser.routes.len(), 0);
}

#[test]
fn routes_of_several_functions_are_collected_in_order() {
    let file = SourceFile {
        items: vec![
            function("first", vec![Stmt::Semi(Expr::MethodCall(route("/x", "get", "one")))]),
            Item::Other,
            function("second", vec![Stmt::Semi(Expr::MethodCall(route("/x", "post", "two")))]),
        ],
    };
    let mut traverser = AstTraverser::new();
    traverser.traverse(&file);
    assert_eq!(traverser.routes.len(), 1);
    assert_eq!(traverser.routes.get("/x"), Some(&handler("post", "two")));
}
