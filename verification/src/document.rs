//! The document: what is said of each path and of each component, and the
//! assembly of the whole from routes, functions and components.

use crate::catalogue::component_map;
use crate::params::{
    ParameterSchema, ParameterSchemaModel, arg_to_parameter_schema, binding_name, is_query,
    is_query_param, param_name, parameter_schemas, schema_views,
};
use crate::resolver::{Component, FieldDescriptor, descriptors};
use crate::routes::Route;
use crate::schema::{Type, TypeModel, openapi_type, rust_type_to_openapi_type};
use crate::syntax::{FnDecl, FnParam};
use crate::table::{NameTable, Table};
use vstd::prelude::*;
use vstd::string::StringExecFns;

verus! {

/// The general facts of a document.
#[derive(Debug, Clone, PartialEq, Eq)]
pub struct Info {
    pub title: String,
    pub description: String,
    pub version: String,
}

/// What an `Info` holds.
pub struct InfoModel {
    pub title: Seq<char>,
    pub description: Seq<char>,
    pub version: Seq<char>,
}

impl DeepView for Info {
    type V = InfoModel;

    open spec fn deep_view(&self) -> InfoModel {
        InfoModel { title: self.title@, description: self.description@, version: self.version@ }
    }
}

/// A server at which the service is offered.
#[derive(Debug, Clone, PartialEq, Eq)]
pub struct Server {
    pub url: String,
}

impl DeepView for Server {
    type V = Seq<char>;

    open spec fn deep_view(&self) -> Seq<char> {
        self.url@
    }
}

/// One parameter of an operation.
#[derive(Debug, Clone, PartialEq, Eq)]
pub struct Parameter {
    pub name: String,
    pub location: String,
    pub description: String,
    pub required: bool,
    pub explode: bool,
    pub schema: ParameterSchema,
}

/// What a `Parameter` holds.
pub struct ParameterModel {
    pub name: Seq<char>,
    pub location: Seq<char>,
    pub description: Seq<char>,
    pub required: bool,
    pub explode: bool,
    pub schema: ParameterSchemaModel,
}

impl DeepView for Parameter {
    type V = ParameterModel;

    open spec fn deep_view(&self) -> ParameterModel {
        ParameterModel {
            name: self.name@,
            location: self.location@,
            description: self.description@,
            required: self.required,
            explode: self.explode,
            schema: self.schema.deep_view(),
        }
    }
}

/// The body of a request: JSON whose schema is the component that
/// `reference` names.
#[derive(Debug, Clone, PartialEq, Eq)]
pub struct RequestBody {
    pub required: bool,
    pub reference: String,
}

/// What a `RequestBody` holds.
pub struct RequestBodyModel {
    pub required: bool,
    pub reference: Seq<char>,
}

impl DeepView for RequestBody {
    type V = RequestBodyModel;

    open spec fn deep_view(&self) -> RequestBodyModel {
        RequestBodyModel { required: self.required, reference: self.reference@ }
    }
}

/// One response of an operation: the status and what is said of it.
#[derive(Debug, Clone, PartialEq, Eq)]
pub struct Response {
    pub status: String,
    pub description: String,
}

/// What a `Response` holds.
pub struct ResponseModel {
    pub status: Seq<char>,
    pub description: Seq<char>,
}

impl DeepView for Response {
    type V = ResponseModel;

    open spec fn deep_view(&self) -> ResponseModel {
        ResponseModel { status: self.status@, description: self.description@ }
    }
}

/// What the document says of the operation at one path.
#[derive(Debug, Clone, PartialEq, Eq)]
pub struct Path {
    pub summary: Option<String>,
    pub description: String,
    pub parameters: Vec<Parameter>,
    pub request_body: RequestBody,
    pub responses: Vec<Response>,
}

/// What a `Path` holds.
pub struct PathModel {
    pub summary: Option<Seq<char>>,
    pub description: Seq<char>,
    pub parameters: Seq<ParameterModel>,
    pub request_body: RequestBodyModel,
    pub responses: Seq<ResponseModel>,
}

impl DeepView for Path {
    type V = PathModel;

    open spec fn deep_view(&self) -> PathModel {
        PathModel {
            summary: self.summary.deep_view(),
            description: self.description@,
            parameters: self.parameters.deep_view(),
            request_body: self.request_body.deep_view(),
            responses: self.responses.deep_view(),
        }
    }
}

/// The entry of one path: the HTTP method and the operation under it.
#[derive(Debug, Clone, PartialEq, Eq)]
pub struct PathItem {
    pub method: String,
    pub operation: Path,
}

/// What a `PathItem` holds.
pub struct PathItemModel {
    pub method: Seq<char>,
    pub operation: PathModel,
}

impl DeepView for PathItem {
    type V = PathItemModel;

    open spec fn deep_view(&self) -> PathItemModel {
        PathItemModel { method: self.method@, operation: self.operation.deep_view() }
    }
}

/// The schema of one component.
#[derive(Debug, Clone, PartialEq, Eq)]
pub struct ResourceComponent {
    pub ty: String,
    pub required: Vec<String>,
    pub properties: NameTable<Type>,
}

/// What a `ResourceComponent` holds.
pub struct SchemaModel {
    pub ty: Seq<char>,
    pub required: Seq<Seq<char>>,
    pub properties: Table<TypeModel>,
}

impl DeepView for ResourceComponent {
    type V = SchemaModel;

    open spec fn deep_view(&self) -> SchemaModel {
        SchemaModel {
            ty: self.ty@,
            required: self.required.deep_view(),
            properties: self.properties.deep_view(),
        }
    }
}

/// The schemas of the components, by name.
#[derive(Debug, Clone, PartialEq, Eq)]
pub struct ComponentsSchemas {
    pub schemas: NameTable<ResourceComponent>,
}

/// The document.
#[derive(Debug, Clone, PartialEq, Eq)]
pub struct Resource {
    pub openapi: String,
    pub info: Info,
    pub servers: Vec<Server>,
    pub paths: NameTable<PathItem>,
    pub components: ComponentsSchemas,
}

/// What a `Resource` holds.
pub struct ResourceModel {
    pub openapi: Seq<char>,
    pub info: InfoModel,
    pub servers: Seq<Seq<char>>,
    pub paths: Table<PathItemModel>,
    pub schemas: Table<SchemaModel>,
}

impl DeepView for Resource {
    type V = ResourceModel;

    open spec fn deep_view(&self) -> ResourceModel {
        ResourceModel {
            openapi: self.openapi@,
            info: self.info.deep_view(),
            servers: self.servers.deep_view(),
            paths: self.paths.deep_view(),
            schemas: self.components.schemas.deep_view(),
        }
    }
}

/// Why no document can be assembled.
#[derive(Debug, Clone, PartialEq, Eq)]
pub enum DocumentError {
    /// A route names a handler that is not among the functions.
    MissingHandler { handler: String },
}

/// The names of the required fields of a component, in order. A descriptor
/// without a name has none to give.
pub open spec fn required_names(fields: Seq<FieldDescriptor>) -> Seq<Seq<char>>
    decreases fields.len(),
{
    if fields.len() == 0 {
        Seq::empty()
    } else {
        let before = required_names(fields.drop_last());
        match fields.last().field_name {
            Some(name) => if fields.last().required {
                before.push(name)
            } else {
                before
            },
            None => before,
        }
    }
}

/// The properties of a component: under the name of each field the
/// rendering of its type. Of two descriptors of one name the later one
/// counts; a descriptor without a name is passed over.
pub open spec fn properties_of(fields: Seq<FieldDescriptor>) -> Table<TypeModel>
    decreases fields.len(),
{
    if fields.len() == 0 {
        Table::empty()
    } else {
        let before = properties_of(fields.drop_last());
        match fields.last().field_name {
            Some(name) => before.insert(name, openapi_type(fields.last().ty)),
            None => before,
        }
    }
}

/// The schema of a component: an object where the component has
/// descriptors, a string where it has none.
pub open spec fn schema_of(fields: Seq<FieldDescriptor>) -> SchemaModel {
    SchemaModel {
        ty: if fields.len() > 0 {
            "object"@
        } else {
            "string"@
        },
        required: required_names(fields),
        properties: properties_of(fields),
    }
}

/// The query parameter with the schema `schema` that the parameter `name`
/// of a handler stands for.
pub open spec fn query_parameter(name: Seq<char>, schema: ParameterSchemaModel) -> ParameterModel {
    ParameterModel {
        name,
        location: "query"@,
        description: "TODO"@,
        required: true,
        explode: false,
        schema,
    }
}

/// The query parameters that one parameter of a handler stands for: none
/// unless it is bound to the query and binds a name; else one for each of
/// its schemas, under the name that it binds.
pub open spec fn parameters_for(
    components: Map<Seq<char>, Seq<FieldDescriptor>>,
    param: FnParam,
) -> Seq<ParameterModel> {
    if is_query(param) && binding_name(param) is Some {
        Seq::new(
            parameter_schemas(components, param).len(),
            |i: int| query_parameter(binding_name(param)->0, parameter_schemas(components, param)[i]),
        )
    } else {
        Seq::empty()
    }
}

/// The query parameters of a handler with the parameters `params`.
pub open spec fn parameters_of(
    components: Map<Seq<char>, Seq<FieldDescriptor>>,
    params: Seq<FnParam>,
) -> Seq<ParameterModel>
    decreases params.len(),
{
    if params.len() == 0 {
        Seq::empty()
    } else {
        parameters_of(components, params.drop_last()) + parameters_for(components, params.last())
    }
}

/// What the document says of the operation that `func` handles.
pub open spec fn operation_for(
    components: Map<Seq<char>, Seq<FieldDescriptor>>,
    func: FnDecl,
) -> PathModel {
    PathModel {
        summary: Some("TODO"@),
        description: "TODO"@,
        parameters: parameters_of(components, func.params@),
        request_body: RequestBodyModel { required: true, reference: "#/components/schemas/TODO"@ },
        responses: seq![ResponseModel { status: "200"@, description: "OK"@ }],
    }
}

/// The entries of the paths: under each path of the route table the method
/// of its route and the operation that the handler of the route handles.
pub open spec fn path_items<'a>(
    routes: Table<Route>,
    functions: Table<&'a FnDecl>,
    components: Map<Seq<char>, Seq<FieldDescriptor>>,
) -> Table<PathItemModel> {
    Table {
        keys: routes.keys,
        values: Seq::new(
            routes.values.len(),
            |i: int|
                PathItemModel {
                    method: routes.values[i].method,
                    operation: operation_for(
                        components,
                        *functions.value_of(routes.values[i].handler_name),
                    ),
                },
        ),
    }
}

/// The schemas of the components: under each name the schema of its
/// component.
pub open spec fn schemas_of(components: Table<Seq<FieldDescriptor>>) -> Table<SchemaModel> {
    Table {
        keys: components.keys,
        values: Seq::new(components.values.len(), |i: int| schema_of(components.values[i])),
    }
}

/// The document for the given routes, functions and components: the fixed
/// general facts, no servers, an entry for each path and a schema for each
/// component.
pub open spec fn assemble<'a>(
    routes: Table<Route>,
    functions: Table<&'a FnDecl>,
    components: Table<Seq<FieldDescriptor>>,
) -> ResourceModel {
    ResourceModel {
        openapi: "3.0.3"@,
        info: InfoModel { title: "My rest API"@, description: "i don't know"@, version: "0.1.0"@ },
        servers: Seq::empty(),
        paths: path_items(routes, functions, components.as_map()),
        schemas: schemas_of(components),
    }
}

/// Whether the handler of each of the first `count` routes is among the
/// functions.
pub open spec fn handlers_known<'a>(
    routes: Table<Route>,
    functions: Table<&'a FnDecl>,
    count: int,
) -> bool {
    forall|i: int| 0 <= i < count ==> functions.has((#[trigger] routes.values[i]).handler_name)
}

/// Builds the schema of a component from its descriptors.
pub fn build_schema(fields: &Vec<Component>) -> (res: ResourceComponent)
    ensures
        res.properties.wf(),
        res.deep_view() == schema_of(descriptors(fields@)),
{
    let ty = if fields.len() > 0 {
        String::from_str("object")
    } else {
        String::from_str("string")
    };
    let mut required: Vec<String> = Vec::new();
    let mut properties: NameTable<Type> = NameTable::new();
    let mut index: usize = 0;
    let ghost all = descriptors(fields@);
    assert(all.take(0) =~= Seq::<FieldDescriptor>::empty());
    assert(required.deep_view() =~= Seq::<Seq<char>>::empty());
    assert(properties.deep_view().keys =~= Table::<TypeModel>::empty().keys);
    assert(properties.deep_view().values =~= Table::<TypeModel>::empty().values);
    while index < fields.len()
        invariant
            index <= fields@.len(),
            all == descriptors(fields@),
            properties.wf(),
            required.deep_view() == required_names(all.take(index as int)),
            properties.deep_view() == properties_of(all.take(index as int)),
        decreases fields@.len() - index,
    {
        proof {
            assert(all.take(index + 1).drop_last() =~= all.take(index as int));
            assert(all.take(index + 1).last() == fields@[index as int].deep_view());
        }
        let ghost required_before = required.deep_view();
        match &fields[index].field_name {
            Some(name) => {
                if fields[index].required {
                    required.push(name.clone());
                    assert(required.deep_view() =~= required_before.push(name@));
                }
                let rendered = rust_type_to_openapi_type(fields[index].ty.as_str());
                proof {
                    properties@.lemma_deep_insert(name@, rendered);
                }
                properties.insert(name.clone(), rendered);
            },
            None => {},
        }
        index += 1;
    }
    assert(all.take(index as int) =~= all);
    ResourceComponent { ty, required, properties }
}

/// Builds the query parameters that one parameter of a handler stands for.
pub fn build_parameters_for(
    components: &NameTable<Vec<Component>>,
    param: &FnParam,
    out: &mut Vec<Parameter>,
)
    requires
        components.wf(),
    ensures
        final(out).deep_view() == old(out).deep_view() + parameters_for(
            component_map(components@),
            *param,
        ),
{
    let ghost start = out.deep_view();
    if !is_query_param(param) {
        assert(out.deep_view() =~= start + Seq::<ParameterModel>::empty());
        return ;
    }
    let name = match param_name(param) {
        Some(name) => name,
        None => {
            assert(out.deep_view() =~= start + Seq::<ParameterModel>::empty());
            return ;
        },
    };
    let mut schemas = arg_to_parameter_schema(components, param);
    let ghost all = schema_views(schemas@);
    let ghost goal = parameters_for(component_map(components@), *param);
    let ghost mut done: int = 0;
    assert(goal.take(0) =~= Seq::<ParameterModel>::empty());
    assert(all.skip(0) =~= all);
    assert(out.deep_view() =~= start + goal.take(0));
    while schemas.len() > 0
        invariant
            0 <= done <= all.len(),
            goal.len() == all.len(),
            forall|i: int| 0 <= i < all.len() ==> goal[i] == query_parameter(name@, #[trigger] all[i]),
            schema_views(schemas@) == all.skip(done),
            out.deep_view() == start + goal.take(done),
        decreases schemas@.len(),
    {
        let ghost before = out.deep_view();
        let ghost rest = schema_views(schemas@);
        proof {
            assert(rest.len() == schemas@.len());
            assert(all.skip(done).len() == all.len() - done);
            assert(done < all.len());
        }
        let ghost remaining = schemas@;
        let schema = schemas.remove(0);
        proof {
            assert(schema.deep_view() == rest[0]);
            assert(rest[0] == all[done]);
            assert forall|i: int| 0 <= i < schemas@.len() implies schema_views(schemas@)[i]
                == all.skip(done + 1)[i] by {
                assert(schemas@[i] == remaining[i + 1]);
                assert(rest[i + 1] == all[done + i + 1]);
            }
            assert(schema_views(schemas@) =~= all.skip(done + 1));
        }
        let parameter = Parameter {
            name: name.clone(),
            location: String::from_str("query"),
            description: String::from_str("TODO"),
            required: true,
            explode: false,
            schema,
        };
        out.push(parameter);
        proof {
            assert(out.deep_view() =~= before.push(parameter.deep_view()));
            assert(goal.take(done + 1) =~= goal.take(done).push(goal[done]));
            assert(out.deep_view() =~= start + goal.take(done + 1));
            done = done + 1;
        }
    }
    assert(goal.take(done) =~= goal);
}

/// Builds what the document says of the operation that `func` handles.
pub fn build_operation(components: &NameTable<Vec<Component>>, func: &FnDecl) -> (res: Path)
    requires
        components.wf(),
    ensures
        res.deep_view() == operation_for(component_map(components@), *func),
{
    let mut parameters: Vec<Parameter> = Vec::new();
    let mut index: usize = 0;
    assert(func.params@.take(0) =~= Seq::<FnParam>::empty());
    assert(parameters.deep_view() =~= Seq::<ParameterModel>::empty());
    while index < func.params.len()
        invariant
            index <= func.params@.len(),
            components.wf(),
            parameters.deep_view() == parameters_of(
                component_map(components@),
                func.params@.take(index as int),
            ),
        decreases func.params@.len() - index,
    {
        proof {
            assert(func.params@.take(index + 1).drop_last() =~= func.params@.take(index as int));
            assert(func.params@.take(index + 1).last() == func.params@[index as int]);
        }
        build_parameters_for(components, &func.params[index], &mut parameters);
        index += 1;
    }
    assert(func.params@.take(index as int) =~= func.params@);
    let mut responses: Vec<Response> = Vec::new();
    responses.push(Response { status: String::from_str("200"), description: String::from_str("OK") });
    assert(responses.deep_view() =~= seq![ResponseModel { status: "200"@, description: "OK"@ }]);
    Path {
        summary: Some(String::from_str("TODO")),
        description: String::from_str("TODO"),
        parameters,
        request_body: RequestBody {
            required: true,
            reference: String::from_str("#/components/schemas/TODO"),
        },
        responses,
    }
}

} // verus!
