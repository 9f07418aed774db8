//! The types in use: how the routes put types in use, what resolving them
//! in order gives, and what holds of the components after it.

use crate::expansion::{expand, expansion_fails, is_open_path, leads_to};
use crate::params::{is_query, is_query_param};
use crate::reference::{Reference, TypeReference, leaf_type_reference, type_reference};
use crate::resolver::{FieldDescriptor, Leaf, optional_inner};
use crate::routes::Route;
use crate::syntax::{FnDecl, FnParam};
use crate::table::Table;
use vstd::prelude::*;

verus! {

/// The component that stands in for the type inside an optional wrapper.
pub open spec fn stub_for(inner: Seq<char>) -> Seq<FieldDescriptor> {
    seq![FieldDescriptor { field_name: None, ty: inner, required: false }]
}

/// The catalogue of components once one type in use was resolved. A record
/// is expanded. For any other name: where it matches the optional wrapper,
/// the name inside the wrapper gets a stand-in; otherwise the name itself
/// gets a component without fields, as a type of which nothing is known.
pub open spec fn resolve_root(
    catalog: Table<Seq<Leaf>>,
    components: Map<Seq<char>, Seq<FieldDescriptor>>,
    root: Seq<char>,
) -> Map<Seq<char>, Seq<FieldDescriptor>> {
    if catalog.has(root) {
        expand(catalog, components, root)
    } else {
        match optional_inner(root) {
            Some(inner) => components.insert(inner, stub_for(inner)),
            None => components.insert(root, Seq::empty()),
        }
    }
}

/// The catalogue of components once the types in use `roots` were
/// resolved, in order.
pub open spec fn resolve_roots(
    catalog: Table<Seq<Leaf>>,
    components: Map<Seq<char>, Seq<FieldDescriptor>>,
    roots: Seq<Seq<char>>,
) -> Map<Seq<char>, Seq<FieldDescriptor>>
    decreases roots.len(),
{
    if roots.len() == 0 {
        components
    } else {
        resolve_root(catalog, resolve_roots(catalog, components, roots.drop_last()), roots.last())
    }
}

/// Whether one of the types in use `roots` leads to a record with a field
/// of unknown shape.
pub open spec fn roots_fail(catalog: Table<Seq<Leaf>>, roots: Seq<Seq<char>>) -> bool {
    exists|index: int| 0 <= index < roots.len() && expansion_fails(catalog, #[trigger] roots[index])
}

/// Whether `roots[index]` is the first of the types in use that leads to a
/// record with a field of unknown shape.
pub open spec fn fails_first_at(catalog: Table<Seq<Leaf>>, roots: Seq<Seq<char>>, index: int) -> bool {
    &&& 0 <= index < roots.len()
    &&& expansion_fails(catalog, roots[index])
    &&& forall|earlier: int|
        0 <= earlier < index ==> !expansion_fails(catalog, #[trigger] roots[earlier])
}

/// Whether resolving the type in use `root` enters a component under the
/// name `name`.
pub open spec fn writes(catalog: Table<Seq<Leaf>>, root: Seq<char>, name: Seq<char>) -> bool {
    if catalog.has(root) {
        leads_to(catalog, root, name)
    } else {
        match optional_inner(root) {
            Some(inner) => name == inner,
            None => name == root,
        }
    }
}

/// Whether resolving one of the types in use `roots` enters a component
/// under the name `name`.
pub open spec fn written(catalog: Table<Seq<Leaf>>, roots: Seq<Seq<char>>, name: Seq<char>) -> bool
    decreases roots.len(),
{
    roots.len() > 0 && (written(catalog, roots.drop_last(), name) || writes(
        catalog,
        roots.last(),
        name,
    ))
}

/// The type that a parameter of a handler puts in use: the canonical text
/// of its declared type, unless the parameter is bound to the query or its
/// type has no canonical text.
pub open spec fn param_root(param: FnParam) -> Option<Seq<char>> {
    if is_query(param) {
        None
    } else {
        match param {
            FnParam::Typed(_, ty) => match type_reference(ty) {
                Reference::Named(text) => Some(text),
                _ => None,
            },
            _ => None,
        }
    }
}

/// The type of the request body of a handler: what the first of its
/// parameters that puts a type in use puts in use.
pub open spec fn body_root(params: Seq<FnParam>) -> Option<Seq<char>>
    decreases params.len(),
{
    if params.len() == 0 {
        None
    } else {
        match param_root(params[0]) {
            Some(text) => Some(text),
            None => body_root(params.drop_first()),
        }
    }
}

/// The types that the routes put in use, in the order of the routes: for
/// each route whose handler is among the functions, the type of the request
/// body of the handler, where it has one.
pub open spec fn seeds<'a>(routes: Seq<Route>, functions: Table<&'a FnDecl>) -> Seq<Seq<char>>
    decreases routes.len(),
{
    if routes.len() == 0 {
        Seq::empty()
    } else {
        let before = seeds(routes.drop_last(), functions);
        if functions.has(routes.last().handler_name) {
            match body_root(functions.value_of(routes.last().handler_name).params@) {
                Some(text) => before.push(text),
                None => before,
            }
        } else {
            before
        }
    }
}

/// The request body of a handler is given by the first parameter that puts
/// a type in use.
pub proof fn lemma_body_root(params: Seq<FnParam>, index: int)
    requires
        0 <= index <= params.len(),
        forall|i: int| 0 <= i < index ==> param_root(#[trigger] params[i]) is None,
    ensures
        index == params.len() ==> body_root(params) is None,
        index < params.len() && param_root(params[index]) is Some ==> body_root(params)
            == param_root(params[index]),
    decreases params.len(),
{
    if params.len() > 0 && index > 0 {
        let rest = params.drop_first();
        assert(param_root(params[0]) is None);
        assert forall|i: int| 0 <= i < index - 1 implies param_root(#[trigger] rest[i]) is None by {
            assert(rest[i] == params[i + 1]);
        }
        lemma_body_root(rest, index - 1);
        if index < params.len() {
            assert(rest[index - 1] == params[index]);
        }
    }
}

/// The type of the request body of a handler with the parameters `params`.
pub fn find_body_root(params: &Vec<FnParam>) -> (res: Option<String>)
    ensures
        res.deep_view() == body_root(params@),
{
    let mut index: usize = 0;
    while index < params.len()
        invariant
            index <= params@.len(),
            forall|i: int| 0 <= i < index ==> param_root(#[trigger] params@[i]) is None,
        decreases params@.len() - index,
    {
        if !is_query_param(&params[index]) {
            match &params[index] {
                FnParam::Typed(_, ty) => match leaf_type_reference(ty) {
                    TypeReference::Named(text) => {
                        proof {
                            lemma_body_root(params@, index as int);
                        }
                        return Some(text);
                    },
                    _ => {},
                },
                _ => {},
            }
        }
        index += 1;
    }
    proof {
        lemma_body_root(params@, index as int);
    }
    None
}

/// A type in use that is no record leads to nothing.
pub proof fn lemma_only_records_lead(catalog: Table<Seq<Leaf>>, root: Seq<char>, to: Seq<char>)
    requires
        leads_to(catalog, root, to),
    ensures
        catalog.has(root),
{
    let path = choose|path: Seq<Seq<char>>| #[trigger]
        is_open_path(catalog, Set::empty(), path) && path[0] == root && path.last() == to;
    assert(catalog.has(path[0]));
}

/// Resolving types in use keeps every name in the catalogue of components,
/// whatever the catalogue held before; and every record that one of the
/// types leads to has a component after it.
pub proof fn lemma_roots_cover(
    catalog: Table<Seq<Leaf>>,
    components: Map<Seq<char>, Seq<FieldDescriptor>>,
    roots: Seq<Seq<char>>,
)
    ensures
        forall|k: Seq<char>|
            components.dom().contains(k) ==> #[trigger] resolve_roots(
                catalog,
                components,
                roots,
            ).dom().contains(k),
        forall|index: int, to: Seq<char>|
            0 <= index < roots.len() && #[trigger] leads_to(catalog, roots[index], to)
                ==> resolve_roots(catalog, components, roots).dom().contains(to),
    decreases roots.len(),
{
    if roots.len() > 0 {
        let first = roots.drop_last();
        let middle = resolve_roots(catalog, components, first);
        let after = resolve_roots(catalog, components, roots);
        lemma_roots_cover(catalog, components, first);
        assert forall|k: Seq<char>| components.dom().contains(k) implies #[trigger] after.dom().contains(
            k,
        ) by {
            assert(middle.dom().contains(k));
        }
        assert forall|index: int, to: Seq<char>|
            0 <= index < roots.len() && #[trigger] leads_to(
                catalog,
                roots[index],
                to,
            ) implies after.dom().contains(to) by {
            if index < first.len() {
                assert(first[index] == roots[index]);
                assert(middle.dom().contains(to));
            } else {
                lemma_only_records_lead(catalog, roots[index], to);
            }
        }
    }
}

/// Once the types in use were resolved, whatever the catalogue of
/// components held before, every record that one of them leads to has a
/// component: the record itself, the records that its fields name, and so
/// on.
pub proof fn lemma_reachable_records_are_resolved(
    catalog: Table<Seq<Leaf>>,
    components: Map<Seq<char>, Seq<FieldDescriptor>>,
    roots: Seq<Seq<char>>,
    index: int,
    to: Seq<char>,
)
    requires
        0 <= index < roots.len(),
        leads_to(catalog, roots[index], to),
    ensures
        resolve_roots(catalog, components, roots).dom().contains(to),
{
    lemma_roots_cover(catalog, components, roots);
}

/// What resolution leaves under a name does not depend on what the
/// catalogue of components held before, where resolution enters a component
/// under the name; and it is what the catalogue held, where it enters none.
pub proof fn lemma_resolution_overwrites(
    catalog: Table<Seq<Leaf>>,
    first: Map<Seq<char>, Seq<FieldDescriptor>>,
    second: Map<Seq<char>, Seq<FieldDescriptor>>,
    roots: Seq<Seq<char>>,
)
    ensures
        forall|k: Seq<char>| #[trigger]
            written(catalog, roots, k) ==> {
                &&& resolve_roots(catalog, first, roots).dom().contains(k)
                &&& resolve_roots(catalog, second, roots).dom().contains(k)
                &&& resolve_roots(catalog, first, roots)[k] == resolve_roots(
                    catalog,
                    second,
                    roots,
                )[k]
            },
        forall|k: Seq<char>|
            !(#[trigger] written(catalog, roots, k)) ==> {
                &&& resolve_roots(catalog, first, roots).dom().contains(k) == first.dom().contains(
                    k,
                )
                &&& first.dom().contains(k) ==> resolve_roots(catalog, first, roots)[k] == first[k]
            },
    decreases roots.len(),
{
    if roots.len() > 0 {
        lemma_resolution_overwrites(catalog, first, second, roots.drop_last());
        let root = roots.last();
        let one = resolve_roots(catalog, first, roots.drop_last());
        let two = resolve_roots(catalog, second, roots.drop_last());
        assert forall|k: Seq<char>| #[trigger] written(catalog, roots, k) implies {
            &&& resolve_root(catalog, one, root).dom().contains(k)
            &&& resolve_root(catalog, two, root).dom().contains(k)
            &&& resolve_root(catalog, one, root)[k] == resolve_root(catalog, two, root)[k]
        } by {
            if !writes(catalog, root, k) {
                assert(written(catalog, roots.drop_last(), k));
            }
        }
        assert forall|k: Seq<char>| !(#[trigger] written(catalog, roots, k)) implies {
            &&& resolve_root(catalog, one, root).dom().contains(k) == first.dom().contains(k)
            &&& first.dom().contains(k) ==> resolve_root(catalog, one, root)[k] == first[k]
        } by {
            assert(!written(catalog, roots.drop_last(), k));
        }
    }
}

/// To resolve the types in use a second time leaves every component as the
/// first time left it, whatever the catalogue held before the first time.
pub proof fn lemma_resolve_again(
    catalog: Table<Seq<Leaf>>,
    components: Map<Seq<char>, Seq<FieldDescriptor>>,
    roots: Seq<Seq<char>>,
)
    ensures
        resolve_roots(catalog, resolve_roots(catalog, components, roots), roots) == resolve_roots(
            catalog,
            components,
            roots,
        ),
{
    let once = resolve_roots(catalog, components, roots);
    let twice = resolve_roots(catalog, once, roots);
    lemma_resolution_overwrites(catalog, once, components, roots);
    assert forall|k: Seq<char>| twice.dom().contains(k) == once.dom().contains(k) by {
        if written(catalog, roots, k) {
        }
    }
    assert forall|k: Seq<char>| twice.dom().contains(k) implies twice[k] == once[k] by {
        if written(catalog, roots, k) {
        }
    }
    assert(twice =~= once);
}

} // verus!
