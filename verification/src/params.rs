//! Parameter classification: what the binding pattern and the declared
//! type of a handler's parameter say, whether the parameter is bound to the
//! query, and the schemas of the parameters that it stands for.

use crate::catalogue::{component_map, lemma_component_map};
use crate::resolver::{Component, FieldDescriptor, descriptors};
use crate::routes::last_name;
use crate::schema::{Type, TypeModel, primitive_of, rust_type_to_openapi_type};
use crate::syntax::{FnDecl, FnParam, GenericArgument, PathArguments, Pattern, TypeExpr, name_views};
use crate::table::NameTable;
use crate::text::{join, str_eq};
use vstd::prelude::*;
use vstd::string::StringExecFns;

verus! {

/// The schema of one query parameter.
#[derive(Debug, Clone, PartialEq, Eq)]
pub enum ParameterSchema {
    /// One of a list of values, with a default.
    Enum { ty: String, default: String, values: Vec<String> },
    /// A list of items.
    Array { ty: String, items: Type },
    /// A primitive type.
    Primitive { ty: String },
}

/// What a `ParameterSchema` holds.
pub enum ParameterSchemaModel {
    Enum { ty: Seq<char>, default: Seq<char>, values: Seq<Seq<char>> },
    Array { ty: Seq<char>, items: TypeModel },
    Primitive { ty: Seq<char> },
}

impl DeepView for ParameterSchema {
    type V = ParameterSchemaModel;

    open spec fn deep_view(&self) -> ParameterSchemaModel {
        match self {
            ParameterSchema::Enum { ty, default, values } => ParameterSchemaModel::Enum {
                ty: ty@,
                default: default@,
                values: values.deep_view(),
            },
            ParameterSchema::Array { ty, items } => ParameterSchemaModel::Array {
                ty: ty@,
                items: items@,
            },
            ParameterSchema::Primitive { ty } => ParameterSchemaModel::Primitive { ty: ty@ },
        }
    }
}

/// The wrapper through which a parameter is taken apart: the last
/// identifier of the path of a wrapper pattern. A parameter that is bound
/// in another way has none.
pub open spec fn wrapper_name(param: FnParam) -> Option<Seq<char>> {
    match param {
        FnParam::Typed(Pattern::TupleStruct(path, _), _) => last_name(path@),
        _ => None,
    }
}

/// The outermost identifier of the declared type of a parameter: the
/// identifier of the last segment of a type path. A parameter with a type
/// of another shape has none.
pub open spec fn base_type_name(param: FnParam) -> Option<Seq<char>> {
    match param {
        FnParam::Typed(_, TypeExpr::Path(path)) => if path.segments@.len() == 0 {
            None
        } else {
            Some(path.segments@.last().ident@)
        },
        _ => None,
    }
}

/// The type inside the wrapper type of a parameter: where the declared
/// type is a path whose last segment has generic arguments, the last of
/// which is a type path, the identifier of the last segment of that path,
/// and the identifier of the wrapper itself where that path is empty.
pub open spec fn inner_type_name(param: FnParam) -> Option<Seq<char>> {
    match param {
        FnParam::Typed(_, TypeExpr::Path(path)) => if path.segments@.len() == 0 {
            None
        } else {
            match path.segments@.last().arguments {
                PathArguments::AngleBracketed(args) => if args@.len() == 0 {
                    None
                } else {
                    match args@.last() {
                        GenericArgument::Type(TypeExpr::Path(inner)) => if inner.segments@.len()
                            == 0 {
                            Some(path.segments@.last().ident@)
                        } else {
                            Some(inner.segments@.last().ident@)
                        },
                        _ => None,
                    }
                },
                _ => None,
            }
        },
        _ => None,
    }
}

/// The name that a parameter binds: the plain name, or the name that is the
/// last pattern inside a wrapper pattern.
pub open spec fn binding_name(param: FnParam) -> Option<Seq<char>> {
    match param {
        FnParam::Typed(Pattern::Ident(name), _) => Some(name@),
        FnParam::Typed(Pattern::TupleStruct(_, elems), _) => if elems@.len() == 0 {
            None
        } else {
            match elems@.last() {
                Pattern::Ident(name) => Some(name@),
                _ => None,
            }
        },
        _ => None,
    }
}

/// Whether a parameter is bound to the query: it is taken apart through the
/// wrapper `Query`, or its declared type is `Query`.
pub open spec fn is_query(param: FnParam) -> bool {
    wrapper_name(param) == Some("Query"@) || base_type_name(param) == Some("Query"@)
}

/// The schema that stands for a type of which nothing is known.
pub open spec fn unknown_schema() -> ParameterSchemaModel {
    ParameterSchemaModel::Enum {
        ty: "string"@,
        default: "unknown"@,
        values: seq!["unknown"@],
    }
}

/// The schema of one field of a component: its primitive type where it
/// has one, and the schema for the unknown otherwise.
pub open spec fn field_schema(field: FieldDescriptor) -> ParameterSchemaModel {
    match primitive_of(field.ty) {
        Some(ty) => ParameterSchemaModel::Primitive { ty },
        None => unknown_schema(),
    }
}

/// The schemas of the fields of a component: one for each field, in order.
pub open spec fn field_schemas(fields: Seq<FieldDescriptor>) -> Seq<ParameterSchemaModel> {
    Seq::new(fields.len(), |i: int| field_schema(fields[i]))
}

/// The schemas of the query parameters that `param` stands for: one for
/// each field of the component of its inner type where there is one, and a
/// single schema for the unknown otherwise.
pub open spec fn parameter_schemas(
    components: Map<Seq<char>, Seq<FieldDescriptor>>,
    param: FnParam,
) -> Seq<ParameterSchemaModel> {
    match inner_type_name(param) {
        Some(inner) => if components.dom().contains(inner) {
            field_schemas(components[inner])
        } else {
            seq![unknown_schema()]
        },
        None => seq![unknown_schema()],
    }
}

/// The deep views of `schemas`, in order.
pub open spec fn schema_views(schemas: Seq<ParameterSchema>) -> Seq<ParameterSchemaModel> {
    Seq::new(schemas.len(), |i: int| schemas[i].deep_view())
}

/// The wrapper through which a parameter is taken apart, as in
/// `Query(query): Query<T>`, without the path before it.
pub fn pattern_type_without_path(arg: &FnParam) -> (res: Option<String>)
    ensures
        res.deep_view() == wrapper_name(*arg),
{
    match arg {
        FnParam::Typed(Pattern::TupleStruct(path, _), _) => {
            if path.len() == 0 {
                None
            } else {
                Some(path[path.len() - 1].clone())
            }
        },
        _ => None,
    }
}

/// The type inside the wrapper type of a parameter, as `T` in
/// `Query(query): Query<T>`, without the path before it.
pub fn inner_type_without_path(arg: &FnParam) -> (res: Option<String>)
    ensures
        res.deep_view() == inner_type_name(*arg),
{
    let path = match arg {
        FnParam::Typed(_, TypeExpr::Path(path)) => path,
        _ => return None,
    };
    if path.segments.len() == 0 {
        return None;
    }
    let segment = &path.segments[path.segments.len() - 1];
    let args = match &segment.arguments {
        PathArguments::AngleBracketed(args) => args,
        _ => return None,
    };
    if args.len() == 0 {
        return None;
    }
    match &args[args.len() - 1] {
        GenericArgument::Type(TypeExpr::Path(inner)) => {
            if inner.segments.len() == 0 {
                Some(segment.ident.clone())
            } else {
                Some(inner.segments[inner.segments.len() - 1].ident.clone())
            }
        },
        _ => None,
    }
}

/// Whether the type inside the wrapper type of a parameter is `Option`.
pub fn has_option_type(arg: &FnParam) -> (res: bool)
    ensures
        res == (inner_type_name(*arg) == Some("Option"@)),
{
    match inner_type_without_path(arg) {
        Some(inner) => str_eq(inner.as_str(), "Option"),
        None => false,
    }
}

/// The outermost identifier of the declared type of a parameter, as
/// `Query` in `query: axum::Query<T>`.
pub fn arg_base_type_without_path(arg: &FnParam) -> (res: Option<String>)
    ensures
        res.deep_view() == base_type_name(*arg),
{
    match arg {
        FnParam::Typed(_, TypeExpr::Path(path)) => {
            if path.segments.len() == 0 {
                None
            } else {
                Some(path.segments[path.segments.len() - 1].ident.clone())
            }
        },
        _ => None,
    }
}

/// The name that a parameter binds.
pub fn param_name(arg: &FnParam) -> (res: Option<String>)
    ensures
        res.deep_view() == binding_name(*arg),
{
    match arg {
        FnParam::Typed(Pattern::Ident(name), _) => Some(name.clone()),
        FnParam::Typed(Pattern::TupleStruct(_, elems), _) => {
            if elems.len() == 0 {
                None
            } else {
                match &elems[elems.len() - 1] {
                    Pattern::Ident(name) => Some(name.clone()),
                    _ => None,
                }
            }
        },
        _ => None,
    }
}

/// Whether a parameter is bound to the query, as in
/// `Query(params): Query<T>` and in `params: Query<T>`.
pub fn is_query_param(arg: &FnParam) -> (res: bool)
    ensures
        res == is_query(*arg),
{
    let by_pattern = match pattern_type_without_path(arg) {
        Some(wrapper) => str_eq(wrapper.as_str(), "Query"),
        None => false,
    };
    if by_pattern {
        return true;
    }
    match arg_base_type_without_path(arg) {
        Some(base) => str_eq(base.as_str(), "Query"),
        None => false,
    }
}

/// The schema for a type of which nothing is known.
pub fn unknown_parameter_schema() -> (res: ParameterSchema)
    ensures
        res.deep_view() == unknown_schema(),
{
    let mut values: Vec<String> = Vec::new();
    values.push(String::from_str("unknown"));
    let res = ParameterSchema::Enum {
        ty: String::from_str("string"),
        default: String::from_str("unknown"),
        values,
    };
    assert(values.deep_view() =~= seq!["unknown"@]);
    res
}

/// The schemas of the query parameters that `arg` stands for. Where the
/// type inside its wrapper type has a component, each field of the
/// component gives one schema, in order: that of its primitive type, or
/// that for the unknown where its type is no primitive. Where there is no
/// such component there is one schema, that for the unknown.
pub fn arg_to_parameter_schema(components: &NameTable<Vec<Component>>, arg: &FnParam) -> (res: Vec<
    ParameterSchema,
>)
    requires
        components.wf(),
    ensures
        schema_views(res@) == parameter_schemas(component_map(components@), *arg),
{
    let mut schemas: Vec<ParameterSchema> = Vec::new();
    let found: Option<&Vec<Component>> = match inner_type_without_path(arg) {
        Some(inner) => {
            proof {
                lemma_component_map(components@, inner@);
            }
            components.get(inner.as_str())
        },
        None => None,
    };
    match found {
        Some(fields) => {
            let mut index: usize = 0;
            assert(schema_views(schemas@) =~= field_schemas(descriptors(fields@)).take(0));
            while index < fields.len()
                invariant
                    index <= fields@.len(),
                    schema_views(schemas@) == field_schemas(descriptors(fields@)).take(
                        index as int,
                    ),
                decreases fields@.len() - index,
            {
                let ghost before = schema_views(schemas@);
                let ghost all = field_schemas(descriptors(fields@));
                let schema = match rust_type_to_openapi_type(fields[index].ty.as_str()) {
                    Type::Primitive { ty } => ParameterSchema::Primitive { ty },
                    Type::Ref { .. } => unknown_parameter_schema(),
                };
                proof {
                    assert(schema.deep_view() == all[index as int]);
                    assert(all.take(index + 1) =~= all.take(index as int).push(all[index as int]));
                }
                schemas.push(schema);
                assert(schema_views(schemas@) =~= before.push(schema.deep_view()));
                index += 1;
            }
            assert(field_schemas(descriptors(fields@)).take(index as int) =~= field_schemas(
                descriptors(fields@),
            ));
        },
        None => {
            let schema = unknown_parameter_schema();
            schemas.push(schema);
            assert(schema_views(schemas@) =~= seq![unknown_schema()]);
        },
    }
    schemas
}

/// How a parameter is taken apart: the path of the wrapper, joined by
/// `::`, and the names bound inside it, joined by a comma and a blank.
#[derive(Debug, Clone, PartialEq, Eq)]
pub struct ArgumentBinding {
    pub wrapper: String,
    pub names: String,
}

/// What an `ArgumentBinding` holds.
pub struct ArgumentBindingModel {
    pub wrapper: Seq<char>,
    pub names: Seq<char>,
}

impl DeepView for ArgumentBinding {
    type V = ArgumentBindingModel;

    open spec fn deep_view(&self) -> ArgumentBindingModel {
        ArgumentBindingModel { wrapper: self.wrapper@, names: self.names@ }
    }
}

/// The names that the patterns bind, where each of them is a plain name.
pub open spec fn pattern_names(patterns: Seq<Pattern>) -> Option<Seq<Seq<char>>>
    decreases patterns.len(),
{
    if patterns.len() == 0 {
        Some(Seq::empty())
    } else {
        match (pattern_names(patterns.drop_last()), patterns.last()) {
            (Some(before), Pattern::Ident(name)) => Some(before.push(name@)),
            _ => None,
        }
    }
}

/// How a parameter is taken apart, where it is taken apart through a
/// wrapper inside which plain names alone are bound.
pub open spec fn argument_binding(param: FnParam) -> Option<ArgumentBindingModel> {
    match param {
        FnParam::Typed(Pattern::TupleStruct(path, elems), _) => match pattern_names(elems@) {
            Some(names) => Some(
                ArgumentBindingModel {
                    wrapper: join(name_views(path@), "::"@),
                    names: join(names, ", "@),
                },
            ),
            None => None,
        },
        _ => None,
    }
}

/// The bindings of the parameters of a function that are taken apart
/// through a wrapper, in order.
pub open spec fn argument_bindings(params: Seq<FnParam>) -> Seq<ArgumentBindingModel>
    decreases params.len(),
{
    if params.len() == 0 {
        Seq::empty()
    } else {
        let before = argument_bindings(params.drop_last());
        match argument_binding(params.last()) {
            Some(binding) => before.push(binding),
            None => before,
        }
    }
}

/// Joins `names` with `sep` between each two.
pub fn join_names(names: &Vec<String>, sep: &str) -> (res: String)
    ensures
        res@ == join(name_views(names@), sep@),
{
    let mut text = String::new();
    let mut index: usize = 0;
    assert(name_views(names@.take(0)) =~= Seq::<Seq<char>>::empty());
    while index < names.len()
        invariant
            index <= names@.len(),
            text@ == join(name_views(names@.take(index as int)), sep@),
        decreases names@.len() - index,
    {
        proof {
            let now = name_views(names@.take(index + 1));
            assert(now.drop_last() =~= name_views(names@.take(index as int)));
            assert(now.last() == names@[index as int]@);
            if index == 0 {
                assert(text@ + names@[0]@ =~= names@[0]@);
            }
        }
        if index > 0 {
            text.append(sep);
        }
        text.append(names[index].as_str());
        index += 1;
    }
    assert(names@.take(index as int) =~= names@);
    text
}

/// Once some of the first patterns is no plain name, the patterns bind no
/// list of names.
pub proof fn lemma_pattern_names_stop(patterns: Seq<Pattern>, count: int)
    requires
        0 <= count <= patterns.len(),
        pattern_names(patterns.take(count)) is None,
    ensures
        pattern_names(patterns) is None,
    decreases patterns.len(),
{
    if count == patterns.len() {
        assert(patterns.take(count) =~= patterns);
    } else {
        assert(patterns.drop_last().take(count) =~= patterns.take(count));
        lemma_pattern_names_stop(patterns.drop_last(), count);
    }
}

/// The names that the patterns bind, where each of them is a plain name.
pub fn collect_pattern_names(patterns: &Vec<Pattern>) -> (res: Option<Vec<String>>)
    ensures
        res is Some == pattern_names(patterns@) is Some,
        res matches Some(names) ==> pattern_names(patterns@) == Some(name_views(names@)),
{
    let mut names: Vec<String> = Vec::new();
    let mut index: usize = 0;
    assert(patterns@.take(0) =~= Seq::<Pattern>::empty());
    assert(name_views(names@) =~= Seq::<Seq<char>>::empty());
    while index < patterns.len()
        invariant
            index <= patterns@.len(),
            pattern_names(patterns@.take(index as int)) == Some(name_views(names@)),
        decreases patterns@.len() - index,
    {
        proof {
            assert(patterns@.take(index + 1).drop_last() =~= patterns@.take(index as int));
            assert(patterns@.take(index + 1).last() == patterns@[index as int]);
        }
        let ghost before = name_views(names@);
        match &patterns[index] {
            Pattern::Ident(name) => {
                names.push(name.clone());
                assert(name_views(names@) =~= before.push(name@));
            },
            _ => {
                proof {
                    lemma_pattern_names_stop(patterns@, index + 1);
                }
                return None;
            },
        }
        index += 1;
    }
    assert(patterns@.take(index as int) =~= patterns@);
    Some(names)
}

/// How the parameters of a function are taken apart: for each parameter
/// that is taken apart through a wrapper inside which plain names alone are
/// bound, in order, the path of the wrapper and the names. Any other
/// parameter is passed over.
pub fn get_fn_arguments(func: &FnDecl) -> (res: Vec<ArgumentBinding>)
    ensures
        res.deep_view() == argument_bindings(func.params@),
{
    let mut bindings: Vec<ArgumentBinding> = Vec::new();
    let mut index: usize = 0;
    assert(func.params@.take(0) =~= Seq::<FnParam>::empty());
    assert(bindings.deep_view() =~= Seq::<ArgumentBindingModel>::empty());
    while index < func.params.len()
        invariant
            index <= func.params@.len(),
            bindings.deep_view() == argument_bindings(func.params@.take(index as int)),
        decreases func.params@.len() - index,
    {
        proof {
            assert(func.params@.take(index + 1).drop_last() =~= func.params@.take(index as int));
            assert(func.params@.take(index + 1).last() == func.params@[index as int]);
        }
        let ghost before = bindings.deep_view();
        match &func.params[index] {
            FnParam::Typed(Pattern::TupleStruct(path, elems), _) => {
                match collect_pattern_names(elems) {
                    Some(names) => {
                        let binding = ArgumentBinding {
                            wrapper: join_names(path, "::"),
                            names: join_names(&names, ", "),
                        };
                        bindings.push(binding);
                        assert(bindings.deep_view() =~= before.push(binding.deep_view()));
                    },
                    None => {},
                }
            },
            _ => {},
        }
        index += 1;
    }
    assert(func.params@.take(index as int) =~= func.params@);
    bindings
}

} // verus!
