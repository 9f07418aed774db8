//! The traverser: it indexes the declarations of a source file, collects
//! the routes that the file registers, resolves the components of the types
//! in use and assembles the document.

use crate::catalogue::{
    catalog_of, component_map, index_functions, index_records, lemma_component_map_insert,
    visit_record, walk_state,
};
use crate::document::{
    ComponentsSchemas, DocumentError, Info, PathItem, Resource, ResourceComponent, Server,
    assemble, build_operation, build_schema, handlers_known, path_items, schemas_of,
};
use crate::expansion::{
    expand, expansion_fails, fails_at, leads_to, lemma_walked_is_expanded, record_fails,
};
use crate::resolver::{Component, FieldDescriptor, Leaf, ResolveError, descriptors, unwrap_optional};
use crate::routes::{
    Route, RouteHandler, body_registrations, file_registrations, lemma_register_all_concat,
    match_route_call, register_all, registration_of, route_of, scan_body,
};
use crate::syntax::{FnDecl, Item, MethodCall, RecordDecl, SourceFile, name_views};
use crate::table::{NameTable, Table};
use crate::text::str_eq;
use crate::worklist::{
    fails_first_at, find_body_root, lemma_only_records_lead, resolve_roots, roots_fail, seeds,
    stub_for,
};
use vstd::prelude::*;
use vstd::string::StringExecFns;

verus! {

/// The state of one resolution run: the catalogues of records and
/// functions, the routes, the types in use and the components resolved so
/// far.
pub struct AstTraverser<'a> {
    pub structs: NameTable<&'a RecordDecl>,
    pub routes: NameTable<RouteHandler>,
    pub used_types: Vec<String>,
    pub fn_declarations: NameTable<&'a FnDecl>,
    pub components: NameTable<Vec<Component>>,
}

impl<'a> AstTraverser<'a> {
    /// Whether each table is well formed.
    pub open spec fn wf(&self) -> bool {
        &&& self.structs.wf()
        &&& self.routes.wf()
        &&& self.fn_declarations.wf()
        &&& self.components.wf()
    }

    /// The records as the resolver sees them.
    pub open spec fn catalog(&self) -> Table<Seq<Leaf>> {
        catalog_of(self.structs@)
    }

    /// The components as a map from names to descriptors.
    pub open spec fn component_map(&self) -> Map<Seq<char>, Seq<FieldDescriptor>> {
        component_map(self.components@)
    }

    /// A traverser that has seen nothing.
    pub fn new() -> (res: Self)
        ensures
            res.wf(),
            res.structs@ == Table::<&'a RecordDecl>::empty(),
            res.routes@ == Table::<RouteHandler>::empty(),
            res.used_types@ == Seq::<String>::empty(),
            res.fn_declarations@ == Table::<&'a FnDecl>::empty(),
            res.components@ == Table::<Vec<Component>>::empty(),
    {
        AstTraverser {
            structs: NameTable::new(),
            routes: NameTable::new(),
            used_types: Vec::new(),
            fn_declarations: NameTable::new(),
            components: NameTable::new(),
        }
    }

    /// Indexes the declarations of a source file and collects its routes.
    /// Every record goes into the record catalogue and every function but
    /// `main` into the function catalogue, under its name; declarations of
    /// other kinds are passed over. The routes that the statements of the
    /// function bodies register go into the route table, in order.
    pub fn traverse(&mut self, syntax: &'a SourceFile)
        requires
            old(self).wf(),
        ensures
            final(self).wf(),
            final(self).structs@ == index_records(old(self).structs@, syntax.items@),
            final(self).fn_declarations@ == index_functions(
                old(self).fn_declarations@,
                syntax.items@,
            ),
            final(self).routes@.views() == register_all(
                old(self).routes@.views(),
                file_registrations(syntax.items@),
            ),
            final(self).used_types == old(self).used_types,
            final(self).components == old(self).components,
    {
        let mut index: usize = 0;
        assert(syntax.items@.take(0) =~= Seq::<Item>::empty());
        while index < syntax.items.len()
            invariant
                index <= syntax.items@.len(),
                self.wf(),
                self.structs@ == index_records(
                    old(self).structs@,
                    syntax.items@.take(index as int),
                ),
                self.fn_declarations@ == index_functions(
                    old(self).fn_declarations@,
                    syntax.items@.take(index as int),
                ),
                self.routes@.views() == register_all(
                    old(self).routes@.views(),
                    file_registrations(syntax.items@.take(index as int)),
                ),
                self.used_types == old(self).used_types,
                self.components == old(self).components,
            decreases syntax.items@.len() - index,
        {
            proof {
                assert(syntax.items@.take(index + 1).drop_last() =~= syntax.items@.take(
                    index as int,
                ));
                assert(syntax.items@.take(index + 1).last() == syntax.items@[index as int]);
            }
            match &syntax.items[index] {
                Item::Record(record) => {
                    self.structs.insert(record.name.clone(), record);
                },
                Item::Function(func) => {
                    if !str_eq(func.name.as_str(), "main") {
                        self.fn_declarations.insert(func.name.clone(), func);
                    }
                    proof {
                        lemma_register_all_concat(
                            old(self).routes@.views(),
                            file_registrations(syntax.items@.take(index as int)),
                            body_registrations(func.body@),
                        );
                    }
                    scan_body(&mut self.routes, &func.body);
                },
                Item::Other => {},
            }
            index += 1;
        }
        assert(syntax.items@.take(index as int) =~= syntax.items@);
    }

    /// Enters the route that `method_call` registers, if it registers one.
    /// A route registered for the same path before is replaced. Any other
    /// call leaves the traverser as it is.
    pub fn handle_method_call(&mut self, method_call: &MethodCall)
        requires
            old(self).wf(),
        ensures
            final(self).wf(),
            final(self).structs == old(self).structs,
            final(self).fn_declarations == old(self).fn_declarations,
            final(self).used_types == old(self).used_types,
            final(self).components == old(self).components,
            match registration_of(*method_call) {
                Some(found) => final(self).routes@.views() == old(self).routes@.views().insert(
                    found.path,
                    route_of(found),
                ),
                None => final(self).routes@ == old(self).routes@,
            },
    {
        match match_route_call(method_call) {
            Some(found) => {
                let handler = RouteHandler { method: found.method, handler_name: found.handler_name };
                proof {
                    self.routes@.lemma_views_insert(found.path@, handler);
                }
                self.routes.insert(found.path, handler);
            },
            None => {},
        }
    }

    /// Resolves the record `name`: the record and every record that it
    /// leads to gets the descriptors of its fields as its component, in
    /// place of whatever stood under its name. The records visited are kept
    /// in a table that is made afresh for each call, so that a cycle of
    /// records is walked round once. A name that is no record leaves the
    /// components as they are. The work fails exactly where the record
    /// leads to a record with a field of unknown shape; the error names
    /// such a record and its first such field.
    pub fn build_type_components_from_struct(&mut self, name: &str) -> (res: Result<
        (),
        ResolveError,
    >)
        requires
            old(self).wf(),
        ensures
            final(self).wf(),
            final(self).structs == old(self).structs,
            final(self).fn_declarations == old(self).fn_declarations,
            final(self).used_types == old(self).used_types,
            final(self).routes == old(self).routes,
            res is Err <==> expansion_fails(old(self).catalog(), name@),
            res is Ok ==> final(self).component_map() == expand(
                old(self).catalog(),
                old(self).component_map(),
                name@,
            ),
            res matches Err(ResolveError::UnknownTypeShape { record, field }) ==> fails_at(
                old(self).catalog(),
                Set::empty(),
                name@,
                record@,
                field@,
            ),
    {
        let mut visited: NameTable<()> = NameTable::new();
        let ghost before = walk_state(visited@, self.components@);
        assert(before.visited =~= Set::<Seq<char>>::empty());
        let res = visit_record(&self.structs, &mut self.components, &mut visited, name);
        proof {
            if res is Ok {
                lemma_walked_is_expanded(
                    self.catalog(),
                    before,
                    walk_state(visited@, self.components@),
                    name@,
                );
            } else {
                assert(leads_to(self.catalog(), name@, res->Err_0->record@));
            }
        }
        res
    }

    /// Resolves the types in use, in order. A record is expanded as
    /// `build_type_components_from_struct` does, each with a table of
    /// visited records of its own. Of any other name the optional wrapper
    /// is taken off where there is one, and the name inside gets a
    /// stand-in; else the name gets a component without fields. The work
    /// fails exactly where one of the types leads to a record with a field
    /// of unknown shape; the error names such a record, which the first
    /// such type leads to, and its first such field.
    pub fn build_type_components(&mut self) -> (res: Result<(), ResolveError>)
        requires
            old(self).wf(),
        ensures
            final(self).wf(),
            final(self).structs == old(self).structs,
            final(self).fn_declarations == old(self).fn_declarations,
            final(self).used_types == old(self).used_types,
            final(self).routes == old(self).routes,
            res is Err <==> roots_fail(old(self).catalog(), name_views(old(self).used_types@)),
            res is Ok ==> final(self).component_map() == resolve_roots(
                old(self).catalog(),
                old(self).component_map(),
                name_views(old(self).used_types@),
            ),
            res matches Err(ResolveError::UnknownTypeShape { record, field }) ==> exists|
                index: int,
            |
                fails_first_at(old(self).catalog(), name_views(old(self).used_types@), index)
                    && fails_at(
                    old(self).catalog(),
                    Set::empty(),
                    #[trigger] name_views(old(self).used_types@)[index],
                    record@,
                    field@,
                ),
    {
        let ghost catalog = self.catalog();
        let ghost before = self.component_map();
        let ghost roots = name_views(self.used_types@);
        let mut index: usize = 0;
        assert(roots.take(0) =~= Seq::<Seq<char>>::empty());
        while index < self.used_types.len()
            invariant
                index <= self.used_types@.len(),
                self.wf(),
                self.structs == old(self).structs,
                self.fn_declarations == old(self).fn_declarations,
                self.used_types == old(self).used_types,
                self.routes == old(self).routes,
                catalog == old(self).catalog(),
                before == old(self).component_map(),
                roots == name_views(old(self).used_types@),
                forall|earlier: int|
                    0 <= earlier < index ==> !expansion_fails(catalog, #[trigger] roots[earlier]),
                self.component_map() == resolve_roots(catalog, before, roots.take(index as int)),
            decreases self.used_types@.len() - index,
        {
            proof {
                assert(roots.take(index + 1).drop_last() =~= roots.take(index as int));
                assert(roots.take(index + 1).last() == self.used_types@[index as int]@);
                assert(roots[index as int] == self.used_types@[index as int]@);
            }
            if self.structs.contains_key(self.used_types[index].as_str()) {
                let mut visited: NameTable<()> = NameTable::new();
                let ghost start = walk_state(visited@, self.components@);
                assert(start.visited =~= Set::<Seq<char>>::empty());
                match visit_record(
                    &self.structs,
                    &mut self.components,
                    &mut visited,
                    self.used_types[index].as_str(),
                ) {
                    Ok(()) => {
                        proof {
                            lemma_walked_is_expanded(
                                catalog,
                                start,
                                walk_state(visited@, self.components@),
                                roots[index as int],
                            );
                        }
                    },
                    Err(error) => {
                        proof {
                            assert(leads_to(catalog, roots[index as int], error->record@));
                            assert(expansion_fails(catalog, roots[index as int]));
                            assert(fails_first_at(catalog, roots, index as int));
                        }
                        return Err(error);
                    },
                }
            } else {
                proof {
                    if expansion_fails(catalog, roots[index as int]) {
                        let record = choose|record: Seq<char>| #[trigger]
                            leads_to(catalog, roots[index as int], record) && record_fails(
                                catalog,
                                record,
                            );
                        lemma_only_records_lead(catalog, roots[index as int], record);
                    }
                }
                match unwrap_optional(self.used_types[index].as_str()) {
                    Some(inner) => {
                        let stub = vec![
                            Component { ty: inner.clone(), required: false, field_name: None },
                        ];
                        proof {
                            lemma_component_map_insert(self.components@, inner@, stub);
                            assert(descriptors(stub@) =~= stub_for(inner@));
                        }
                        self.components.insert(inner, stub);
                    },
                    None => {
                        let leaf: Vec<Component> = Vec::new();
                        proof {
                            lemma_component_map_insert(
                                self.components@,
                                self.used_types@[index as int]@,
                                leaf,
                            );
                            assert(descriptors(leaf@) =~= Seq::<FieldDescriptor>::empty());
                        }
                        self.components.insert(self.used_types[index].clone(), leaf);
                    },
                }
            }
            index += 1;
        }
        assert(roots.take(index as int) =~= roots);
        Ok(())
    }

    /// Assembles the document. It holds the fixed general facts, an entry
    /// for each route, in the order of the route table, and a schema for
    /// each component, in the order of the components. A route whose
    /// handler is not among the functions makes the work fail, with an
    /// error that names the handler of the first such route.
    pub fn build_resource(&self) -> (res: Result<Resource, DocumentError>)
        requires
            self.wf(),
        ensures
            res is Ok <==> handlers_known(
                self.routes@.views(),
                self.fn_declarations@,
                self.routes@.keys.len() as int,
            ),
            res matches Ok(document) ==> document.paths.wf() && document.components.schemas.wf()
                && document.deep_view() == assemble(
                self.routes@.views(),
                self.fn_declarations@,
                self.components@.deep(),
            ),
            res matches Err(DocumentError::MissingHandler { handler }) ==> exists|i: int|
                0 <= i < self.routes@.keys.len() && handler@ == (
                #[trigger] self.routes@.values[i]).handler_name@ && !self.fn_declarations@.has(
                    handler@,
                ) && handlers_known(self.routes@.views(), self.fn_declarations@, i),
    {
        let ghost routes = self.routes@.views();
        let ghost functions = self.fn_declarations@;
        let ghost goal = path_items(routes, functions, self.component_map());
        let mut paths: NameTable<PathItem> = NameTable::new();
        let mut index: usize = 0;
        assert(paths.deep_view().keys =~= goal.keys.take(0));
        assert(paths.deep_view().values =~= goal.values.take(0));
        while index < self.routes.len()
            invariant
                index <= self.routes@.keys.len(),
                self.wf(),
                routes == self.routes@.views(),
                functions == self.fn_declarations@,
                goal == path_items(routes, functions, self.component_map()),
                paths.wf(),
                handlers_known(routes, functions, index as int),
                paths.deep_view().keys == goal.keys.take(index as int),
                paths.deep_view().values == goal.values.take(index as int),
            decreases self.routes@.keys.len() - index,
        {
            let path = self.routes.key_at(index);
            let route = self.routes.value_at(index);
            assert(routes.values[index as int] == route@);
            let func: &FnDecl = match self.fn_declarations.get(route.handler_name.as_str()) {
                Some(func) => *func,
                None => {
                    return Err(
                        DocumentError::MissingHandler { handler: route.handler_name.clone() },
                    );
                },
            };
            let item = PathItem {
                method: route.method.clone(),
                operation: build_operation(&self.components, func),
            };
            proof {
                assert(item.deep_view() == goal.values[index as int]);
                assert(!paths@.has(path@)) by {
                    if paths@.has(path@) {
                        let j = choose|j: int| 0 <= j < paths@.keys.len() && paths@.keys[j] == path@;
                        assert(paths.deep_view().keys[j] == goal.keys[j]);
                        assert(self.routes@.keys[j] == self.routes@.keys[index as int]);
                    }
                }
                paths@.lemma_deep_insert(path@, item);
                assert(goal.keys.take(index + 1) =~= goal.keys.take(index as int).push(path@));
                assert(goal.values.take(index + 1) =~= goal.values.take(index as int).push(
                    item.deep_view(),
                ));
            }
            paths.insert(path.clone(), item);
            index += 1;
        }
        assert(goal.keys.take(index as int) =~= goal.keys);
        assert(goal.values.take(index as int) =~= goal.values);
        let ghost wanted = schemas_of(self.components@.deep());
        let mut schemas: NameTable<ResourceComponent> = NameTable::new();
        let mut at: usize = 0;
        assert(schemas.deep_view().keys =~= wanted.keys.take(0));
        assert(schemas.deep_view().values =~= wanted.values.take(0));
        while at < self.components.len()
            invariant
                at <= self.components@.keys.len(),
                self.wf(),
                wanted == schemas_of(self.components@.deep()),
                schemas.wf(),
                schemas.deep_view().keys == wanted.keys.take(at as int),
                schemas.deep_view().values == wanted.values.take(at as int),
            decreases self.components@.keys.len() - at,
        {
            let name = self.components.key_at(at);
            let fields = self.components.value_at(at);
            let schema = build_schema(fields);
            proof {
                assert(fields.deep_view() =~= descriptors(fields@));
                assert(schema.deep_view() == wanted.values[at as int]);
                assert(!schemas@.has(name@)) by {
                    if schemas@.has(name@) {
                        let j = choose|j: int|
                            0 <= j < schemas@.keys.len() && schemas@.keys[j] == name@;
                        assert(schemas.deep_view().keys[j] == wanted.keys[j]);
                        assert(self.components@.keys[j] == self.components@.keys[at as int]);
                    }
                }
                schemas@.lemma_deep_insert(name@, schema);
                assert(wanted.keys.take(at + 1) =~= wanted.keys.take(at as int).push(name@));
                assert(wanted.values.take(at + 1) =~= wanted.values.take(at as int).push(
                    schema.deep_view(),
                ));
            }
            schemas.insert(name.clone(), schema);
            at += 1;
        }
        assert(wanted.keys.take(at as int) =~= wanted.keys);
        assert(wanted.values.take(at as int) =~= wanted.values);
        let servers: Vec<Server> = Vec::new();
        assert(servers.deep_view() =~= Seq::<Seq<char>>::empty());
        Ok(
            Resource {
                openapi: String::from_str("3.0.3"),
                info: Info {
                    title: String::from_str("My rest API"),
                    description: String::from_str("i don't know"),
                    version: String::from_str("0.1.0"),
                },
                servers,
                paths,
                components: ComponentsSchemas { schemas },
            },
        )
    }

    /// Puts in use the types of the request bodies of the routes: for each
    /// route whose handler is among the functions, in the order of the
    /// route table, the type of the request body of the handler goes to the
    /// end of the types in use.
    pub fn collect_used_types(&mut self)
        requires
            old(self).wf(),
        ensures
            final(self).wf(),
            final(self).structs == old(self).structs,
            final(self).fn_declarations == old(self).fn_declarations,
            final(self).routes == old(self).routes,
            final(self).components == old(self).components,
            name_views(final(self).used_types@) == name_views(old(self).used_types@) + seeds(
                old(self).routes@.views().values,
                old(self).fn_declarations@,
            ),
    {
        let ghost routes = self.routes@.views().values;
        let ghost functions = self.fn_declarations@;
        let ghost start = name_views(self.used_types@);
        let mut index: usize = 0;
        assert(routes.take(0) =~= Seq::<Route>::empty());
        assert(name_views(self.used_types@) =~= start + seeds(routes.take(0), functions));
        while index < self.routes.len()
            invariant
                index <= self.routes@.keys.len(),
                self.wf(),
                self.structs == old(self).structs,
                self.fn_declarations == old(self).fn_declarations,
                self.routes == old(self).routes,
                self.components == old(self).components,
                routes == old(self).routes@.views().values,
                functions == old(self).fn_declarations@,
                start == name_views(old(self).used_types@),
                name_views(self.used_types@) == start + seeds(routes.take(index as int), functions),
            decreases self.routes@.keys.len() - index,
        {
            let ghost now = name_views(self.used_types@);
            proof {
                assert(routes.take(index + 1).drop_last() =~= routes.take(index as int));
                assert(routes.take(index + 1).last() == self.routes@.values[index as int]@);
            }
            let route = self.routes.value_at(index);
            let found: Option<String> = match self.fn_declarations.get(
                route.handler_name.as_str(),
            ) {
                Some(func) => find_body_root(&func.params),
                None => None,
            };
            match found {
                Some(text) => {
                    self.used_types.push(text);
                    assert(name_views(self.used_types@) =~= now.push(text@));
                    assert(name_views(self.used_types@) =~= start + seeds(
                        routes.take(index + 1),
                        functions,
                    ));
                },
                None => {},
            }
            index += 1;
        }
        assert(routes.take(index as int) =~= routes);
    }
}

/// Why a run gave no document.
#[derive(Debug, Clone, PartialEq, Eq)]
pub enum RunError {
    /// Resolution came to a record with a field of unknown shape.
    Resolve(ResolveError),
    /// A route names a handler that is not among the functions.
    Document(DocumentError),
}

/// The routes that a file registers.
pub open spec fn routes_of(items: Seq<Item>) -> Table<Route> {
    register_all(Table::empty(), file_registrations(items))
}

/// The components of a file: what resolving the types that its routes put
/// in use gives, starting from nothing.
pub open spec fn components_of(items: Seq<Item>) -> Map<Seq<char>, Seq<FieldDescriptor>> {
    resolve_roots(
        catalog_of(index_records(Table::empty(), items)),
        Map::empty(),
        seeds(routes_of(items).values, index_functions(Table::empty(), items)),
    )
}

/// Whether resolving the types that the routes of a file put in use comes
/// to a record with a field of unknown shape.
pub open spec fn resolution_fails(items: Seq<Item>) -> bool {
    roots_fail(
        catalog_of(index_records(Table::empty(), items)),
        seeds(routes_of(items).values, index_functions(Table::empty(), items)),
    )
}

/// Whether the handler of each route of a file is among its functions.
pub open spec fn handlers_declared(items: Seq<Item>) -> bool {
    handlers_known(
        routes_of(items),
        index_functions(Table::empty(), items),
        routes_of(items).keys.len() as int,
    )
}

/// Derives the document of a source file: indexes its declarations,
/// collects its routes, puts the types of the request bodies in use,
/// resolves them and assembles the document. The run fails where resolution
/// comes to a record with a field of unknown shape, and else where a route
/// names a handler that is not among the functions. A document that is
/// given holds an entry for each route and a schema for each component.
pub fn run(syntax: &SourceFile) -> (res: Result<Resource, RunError>)
    ensures
        res matches Err(RunError::Resolve(_)) <==> resolution_fails(syntax.items@),
        res matches Err(RunError::Document(_)) <==> !resolution_fails(syntax.items@)
            && !handlers_declared(syntax.items@),
        res matches Ok(document) ==> exists|components: Table<Seq<FieldDescriptor>>|
            components.wf() && components.as_map() == components_of(syntax.items@)
                && #[trigger] assemble(
                routes_of(syntax.items@),
                index_functions(Table::empty(), syntax.items@),
                components,
            ) == document.deep_view(),
        res matches Err(RunError::Resolve(ResolveError::UnknownTypeShape { record, field }))
            ==> record_fails(catalog_of(index_records(Table::empty(), syntax.items@)), record@),
        res matches Err(RunError::Document(DocumentError::MissingHandler { handler }))
            ==> !index_functions(Table::empty(), syntax.items@).has(handler@),
{
    let mut traverser = AstTraverser::new();
    proof {
        assert(traverser.routes@.views().keys =~= Table::<Route>::empty().keys);
        assert(traverser.routes@.views().values =~= Table::<Route>::empty().values);
        assert(traverser.component_map() =~= Map::<Seq<char>, Seq<FieldDescriptor>>::empty());
        assert(name_views(traverser.used_types@) =~= Seq::<Seq<char>>::empty());
    }
    traverser.traverse(syntax);
    traverser.collect_used_types();
    proof {
        let roots = seeds(
            routes_of(syntax.items@).values,
            index_functions(Table::empty(), syntax.items@),
        );
        assert(name_views(traverser.used_types@) =~= roots);
    }
    match traverser.build_type_components() {
        Ok(()) => {},
        Err(error) => {
            return Err(RunError::Resolve(error));
        },
    }
    match traverser.build_resource() {
        Ok(document) => {
            proof {
                let components = traverser.components@.deep();
                assert(components.wf());
                assert(assemble(
                    routes_of(syntax.items@),
                    index_functions(Table::empty(), syntax.items@),
                    components,
                ) == document.deep_view());
            }
            Ok(document)
        },
        Err(error) => Err(RunError::Document(error)),
    }
}

} // verus!
