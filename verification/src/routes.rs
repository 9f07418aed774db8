//! Route discovery: recognising the call that registers a path with an HTTP
//! method and a handler, and the table of routes that such calls build.

use crate::syntax::{Call, Expr, Item, MethodCall, Stmt};
use crate::table::{NameTable, Table};
use crate::text::str_eq;
use vstd::prelude::*;

verus! {

/// The method and the handler registered for a path.
#[derive(Debug, Clone, PartialEq, Eq)]
pub struct RouteHandler {
    pub method: String,
    pub handler_name: String,
}

/// What a `RouteHandler` holds.
pub struct Route {
    pub method: Seq<char>,
    pub handler_name: Seq<char>,
}

impl View for RouteHandler {
    type V = Route;

    open spec fn view(&self) -> Route {
        Route { method: self.method@, handler_name: self.handler_name@ }
    }
}

/// A handler with its method and the names of its request and response
/// bodies, where they are known.
#[derive(Debug, Clone, PartialEq, Eq)]
pub struct Controller {
    pub method: String,
    pub name: String,
    pub request_body: Option<String>,
    pub response_body: Option<String>,
}

/// What a `Controller` holds.
pub struct ControllerModel {
    pub method: Seq<char>,
    pub name: Seq<char>,
    pub request_body: Option<Seq<char>>,
    pub response_body: Option<Seq<char>>,
}

impl View for Controller {
    type V = ControllerModel;

    open spec fn view(&self) -> ControllerModel {
        ControllerModel {
            method: self.method@,
            name: self.name@,
            request_body: self.request_body.deep_view(),
            response_body: self.response_body.deep_view(),
        }
    }
}

/// One registration: a path, the HTTP method and the name of the handler.
pub struct Registration {
    pub path: Seq<char>,
    pub method: Seq<char>,
    pub handler: Seq<char>,
}

/// A registration found in a call, as owned texts.
#[derive(Debug, Clone, PartialEq, Eq)]
pub struct RouteMatch {
    pub path: String,
    pub method: String,
    pub handler_name: String,
}

impl View for RouteMatch {
    type V = Registration;

    open spec fn view(&self) -> Registration {
        Registration { path: self.path@, method: self.method@, handler: self.handler_name@ }
    }
}

/// The last identifier of a path, if the path has any.
pub open spec fn last_name(idents: Seq<String>) -> Option<Seq<char>> {
    if idents.len() == 0 {
        None
    } else {
        Some(idents.last()@)
    }
}

/// The method and the handler that the second argument of a registering
/// call names: a call whose callee is a path, which gives the method by its
/// last identifier, and whose last argument is a path, which gives the
/// handler in the same way.
pub open spec fn method_and_handler(target: Expr) -> Option<(Seq<char>, Seq<char>)> {
    match target {
        Expr::Call(inner) => match *inner.func {
            Expr::Path(callee) => if inner.args@.len() == 0 {
                None
            } else {
                match inner.args@.last() {
                    Expr::Path(handler) => match (last_name(callee@), last_name(handler@)) {
                        (Some(method), Some(handler)) => Some((method, handler)),
                        _ => None,
                    },
                    _ => None,
                }
            },
            _ => None,
        },
        _ => None,
    }
}

/// The registration that a method call makes: the method is `route`, the
/// first argument is a string literal and the second names method and
/// handler. Any other call makes none.
pub open spec fn registration_of(call: MethodCall) -> Option<Registration> {
    if call.method@ != "route"@ || call.args@.len() < 2 {
        None
    } else {
        match call.args@[0] {
            Expr::StrLit(path) => match method_and_handler(call.args@[1]) {
                Some((method, handler)) => Some(Registration { path: path@, method, handler }),
                None => None,
            },
            _ => None,
        }
    }
}

/// The view of a match, if there is one.
pub open spec fn match_view(found: Option<RouteMatch>) -> Option<Registration> {
    match found {
        Some(found) => Some(found@),
        None => None,
    }
}

/// The last identifier of a path, if the path has any.
fn last_ident(idents: &Vec<String>) -> (res: Option<&String>)
    ensures
        name_view_ref(res) == last_name(idents@),
{
    if idents.len() == 0 {
        None
    } else {
        Some(&idents[idents.len() - 1])
    }
}

/// The text of `name`, if there is one.
spec fn name_view_ref(name: Option<&String>) -> Option<Seq<char>> {
    match name {
        Some(name) => Some(name@),
        None => None,
    }
}

/// Reads method and handler from the second argument of a registering call.
fn read_method_and_handler(target: &Expr) -> (res: Option<(String, String)>)
    ensures
        res is Some == method_and_handler(*target) is Some,
        res matches Some(pair) ==> method_and_handler(*target) == Some((pair.0@, pair.1@)),
{
    let inner: &Call = match target {
        Expr::Call(inner) => inner,
        _ => return None,
    };
    let callee = match &*inner.func {
        Expr::Path(callee) => callee,
        _ => return None,
    };
    if inner.args.len() == 0 {
        return None;
    }
    let handler = match &inner.args[inner.args.len() - 1] {
        Expr::Path(handler) => handler,
        _ => return None,
    };
    match (last_ident(callee), last_ident(handler)) {
        (Some(method), Some(handler)) => Some((method.clone(), handler.clone())),
        _ => None,
    }
}

/// Recognises the call that registers a route. The result is the
/// registration that the call makes, and `None` for every other call.
pub fn match_route_call(call: &MethodCall) -> (res: Option<RouteMatch>)
    ensures
        match_view(res) == registration_of(*call),
{
    if !str_eq(call.method.as_str(), "route") || call.args.len() < 2 {
        return None;
    }
    let path = match &call.args[0] {
        Expr::StrLit(path) => path,
        _ => return None,
    };
    match read_method_and_handler(&call.args[1]) {
        Some((method, handler_name)) => Some(
            RouteMatch { path: path.clone(), method, handler_name },
        ),
        None => None,
    }
}

/// The controller that a registration gives: method and handler, with no
/// body known yet.
pub open spec fn controller_of(found: Registration) -> ControllerModel {
    ControllerModel {
        method: found.method,
        name: found.handler,
        request_body: None,
        response_body: None,
    }
}

/// Enters the route that `method_call` registers, if it registers one, into
/// a table of controllers. A route registered for the same path before is
/// replaced. Any other call leaves the table as it is.
pub fn handle_method_call(routes: &mut NameTable<Controller>, method_call: &MethodCall)
    requires
        old(routes).wf(),
    ensures
        final(routes).wf(),
        match registration_of(*method_call) {
            Some(found) => final(routes)@.views() == old(routes)@.views().insert(
                found.path,
                controller_of(found),
            ),
            None => final(routes)@ == old(routes)@,
        },
{
    match match_route_call(method_call) {
        Some(found) => {
            let controller = Controller {
                method: found.method,
                name: found.handler_name,
                request_body: None,
                response_body: None,
            };
            proof {
                routes@.lemma_views_insert(found.path@, controller);
            }
            routes.insert(found.path, controller);
        },
        None => {},
    }
}

/// The method call that a statement holds where route discovery looks: an
/// expression followed by a semicolon, or the initializer of a local
/// binding.
pub open spec fn statement_call(stmt: Stmt) -> Option<MethodCall> {
    match stmt {
        Stmt::Semi(Expr::MethodCall(call)) => Some(call),
        Stmt::Local(Some(Expr::MethodCall(call))) => Some(call),
        _ => None,
    }
}

/// The registration that a statement makes, if it makes one.
pub open spec fn statement_registration(stmt: Stmt) -> Option<Registration> {
    match statement_call(stmt) {
        Some(call) => registration_of(call),
        None => None,
    }
}

/// The registrations that the statements of a body make, in order.
pub open spec fn body_registrations(stmts: Seq<Stmt>) -> Seq<Registration>
    decreases stmts.len(),
{
    if stmts.len() == 0 {
        Seq::empty()
    } else {
        let before = body_registrations(stmts.drop_last());
        match statement_registration(stmts.last()) {
            Some(found) => before.push(found),
            None => before,
        }
    }
}

/// The registrations that the functions of a file make, in order. The body
/// of every function counts, that of the entry function too.
pub open spec fn file_registrations(items: Seq<Item>) -> Seq<Registration>
    decreases items.len(),
{
    if items.len() == 0 {
        Seq::empty()
    } else {
        let before = file_registrations(items.drop_last());
        match items.last() {
            Item::Function(func) => before + body_registrations(func.body@),
            _ => before,
        }
    }
}

/// The method and handler of a registration.
pub open spec fn route_of(found: Registration) -> Route {
    Route { method: found.method, handler_name: found.handler }
}

/// The route table after one registration: the route stands under its
/// path, in place of any route that stood there.
pub open spec fn register(routes: Table<Route>, found: Registration) -> Table<Route> {
    routes.insert(found.path, route_of(found))
}

/// The route table after the registrations `found`, made in order.
pub open spec fn register_all(routes: Table<Route>, found: Seq<Registration>) -> Table<Route>
    decreases found.len(),
{
    if found.len() == 0 {
        routes
    } else {
        register(register_all(routes, found.drop_last()), found.last())
    }
}

/// Registering `first` and then `second` is registering the two in a row.
pub proof fn lemma_register_all_concat(
    routes: Table<Route>,
    first: Seq<Registration>,
    second: Seq<Registration>,
)
    ensures
        register_all(routes, first + second) == register_all(register_all(routes, first), second),
    decreases second.len(),
{
    if second.len() == 0 {
        assert(first + second =~= first);
    } else {
        lemma_register_all_concat(routes, first, second.drop_last());
        assert((first + second).drop_last() =~= first + second.drop_last());
        assert((first + second).last() == second.last());
    }
}

/// Registrations keep a route table well formed.
pub proof fn lemma_register_all_wf(routes: Table<Route>, found: Seq<Registration>)
    requires
        routes.wf(),
    ensures
        register_all(routes, found).wf(),
    decreases found.len(),
{
    if found.len() > 0 {
        lemma_register_all_wf(routes, found.drop_last());
        register_all(routes, found.drop_last()).lemma_insert(
            found.last().path,
            route_of(found.last()),
        );
    }
}

/// Whether some registration of `found` is for `path`.
pub open spec fn registers(found: Seq<Registration>, path: Seq<char>) -> bool {
    exists|i: int| 0 <= i < found.len() && (#[trigger] found[i]).path == path
}

/// Whether `found[index]` is the last registration for its path.
pub open spec fn is_last_for_path(found: Seq<Registration>, index: int) -> bool {
    &&& 0 <= index < found.len()
    &&& forall|later: int|
        index < later < found.len() ==> (#[trigger] found[later]).path != found[index].path
}

/// The route table built from any sequence of registrations holds exactly
/// one route for each distinct path that was registered, and none for any
/// other path; where a path was registered more than once, the route is
/// that of the last registration.
pub proof fn lemma_last_registration_wins(found: Seq<Registration>)
    ensures
        register_all(Table::empty(), found).wf(),
        forall|path: Seq<char>| #[trigger]
            register_all(Table::empty(), found).has(path) <==> registers(found, path),
        forall|index: int|
            is_last_for_path(found, index) ==> register_all(Table::empty(), found).value_of(
                (#[trigger] found[index]).path,
            ) == route_of(found[index]),
    decreases found.len(),
{
    let table = register_all(Table::<Route>::empty(), found);
    lemma_register_all_wf(Table::empty(), found);
    if found.len() == 0 {
        assert forall|path: Seq<char>| #[trigger] table.has(path) <==> registers(found, path) by {}
    } else {
        let init = found.drop_last();
        let last = found.last();
        let before = register_all(Table::<Route>::empty(), init);
        lemma_last_registration_wins(init);
        before.lemma_insert(last.path, route_of(last));
        assert forall|path: Seq<char>| #[trigger] table.has(path) <==> registers(found, path) by {
            if registers(found, path) {
                let i = choose|i: int| 0 <= i < found.len() && (#[trigger] found[i]).path == path;
                if i < init.len() {
                    assert(init[i].path == path);
                    assert(registers(init, path));
                }
            }
            if table.has(path) && path != last.path {
                assert(before.has(path));
                assert(registers(init, path));
                let i = choose|i: int| 0 <= i < init.len() && (#[trigger] init[i]).path == path;
                assert(found[i].path == path);
            }
            if path == last.path {
                assert(found[found.len() - 1].path == path);
            }
        }
        assert forall|index: int| is_last_for_path(found, index) implies table.value_of(
            (#[trigger] found[index]).path,
        ) == route_of(found[index]) by {
            if index < init.len() {
                assert(found[found.len() - 1].path != found[index].path);
                assert(init[index] == found[index]);
                assert(is_last_for_path(init, index)) by {
                    assert forall|later: int| index < later < init.len() implies (#[trigger] init[later]).path
                        != init[index].path by {
                        assert(found[later].path != found[index].path);
                    }
                }
                assert(registers(init, init[index].path));
                assert(before.has(found[index].path));
            }
        }
    }
}

/// Enters into `routes` the routes that the statements of `body` register.
pub fn scan_body(routes: &mut NameTable<RouteHandler>, body: &Vec<Stmt>)
    requires
        old(routes).wf(),
    ensures
        final(routes).wf(),
        final(routes)@.views() == register_all(old(routes)@.views(), body_registrations(body@)),
{
    let mut index: usize = 0;
    assert(body@.take(0) =~= Seq::<Stmt>::empty());
    while index < body.len()
        invariant
            index <= body@.len(),
            routes.wf(),
            routes@.views() == register_all(
                old(routes)@.views(),
                body_registrations(body@.take(index as int)),
            ),
        decreases body@.len() - index,
    {
        let call: Option<&MethodCall> = match &body[index] {
            Stmt::Semi(Expr::MethodCall(call)) => Some(call),
            Stmt::Local(Some(Expr::MethodCall(call))) => Some(call),
            _ => None,
        };
        let found = match call {
            Some(call) => match_route_call(call),
            None => None,
        };
        proof {
            assert(body@.take(index + 1).drop_last() =~= body@.take(index as int));
            assert(body@.take(index + 1).last() == body@[index as int]);
            assert(match_view(found) == statement_registration(body@[index as int]));
        }
        match found {
            Some(found) => {
                let handler = RouteHandler { method: found.method, handler_name: found.handler_name };
                proof {
                    routes@.lemma_views_insert(found.path@, handler);
                    assert(body_registrations(body@.take(index + 1)).drop_last()
                        =~= body_registrations(body@.take(index as int)));
                }
                routes.insert(found.path, handler);
            },
            None => {},
        }
        index += 1;
    }
    assert(body@.take(index as int) =~= body@);
}

} // verus!
