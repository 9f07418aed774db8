//! The catalogues of a run: the records and functions of a file by name,
//! the components resolved so far, and the walk that expands a record.

use crate::expansion::{
    Walk, entered, fails_at, in_progress, lemma_expansion_ends, lemma_expansion_makes_progress,
    lemma_expansion_starts, lemma_expansion_steps, lemma_failure_passes_up, lemma_nothing_to_do,
    lemma_reaches_itself, record_refs, unresolved, walked,
};
use crate::resolver::{
    Component, FieldDescriptor, Leaf, ResolveError, describe_record, descriptors, record_entries,
};
use crate::syntax::{FnDecl, Item, RecordDecl, name_views};
use crate::table::{NameTable, Table, lemma_position_of};
use vstd::prelude::*;

verus! {

/// The records of a catalogue as the resolver sees them: under each name
/// the leaves of the fields of the record.
pub open spec fn catalog_of<'a>(records: Table<&'a RecordDecl>) -> Table<Seq<Leaf>> {
    Table {
        keys: records.keys,
        values: Seq::new(records.values.len(), |i: int| record_entries(records.values[i].fields@)),
    }
}

/// The catalogue of components as a map from names to descriptors.
pub open spec fn component_map(components: Table<Vec<Component>>) -> Map<
    Seq<char>,
    Seq<FieldDescriptor>,
> {
    components.deep().as_map()
}

/// What the map of components holds under a name of the table.
pub proof fn lemma_component_map(components: Table<Vec<Component>>, name: Seq<char>)
    requires
        components.wf(),
    ensures
        component_map(components).dom().contains(name) == components.has(name),
        components.has(name) ==> component_map(components)[name] == descriptors(
            components.value_of(name)@,
        ),
{
    lemma_position_of(components.keys, name);
    if components.has(name) {
        assert(component_map(components)[name] =~= descriptors(components.value_of(name)@));
    }
}

/// What the map of components holds once a component was entered.
pub proof fn lemma_component_map_insert(
    components: Table<Vec<Component>>,
    name: Seq<char>,
    fields: Vec<Component>,
)
    requires
        components.wf(),
    ensures
        component_map(components.insert(name, fields)) == component_map(components).insert(
            name,
            descriptors(fields@),
        ),
{
    components.lemma_deep_insert(name, fields);
    components.deep().lemma_insert(name, fields.deep_view());
    assert(fields.deep_view() =~= descriptors(fields@));
}

/// The state of a walk: the names of the table of visited records, and the
/// map of components.
pub open spec fn walk_state(visited: Table<()>, components: Table<Vec<Component>>) -> Walk {
    Walk { visited: visited.names(), components: component_map(components) }
}

/// Walks from the record `name`, depth first: the record is entered among
/// the visited records, its component is entered in place of whatever
/// stood under its name, and the walk goes on from each record that its
/// fields name. A name that is no record, and a record that was visited, is
/// passed over, which ends every walk round a cycle of records.
pub(crate) fn visit_record<'a>(
    records: &NameTable<&'a RecordDecl>,
    components: &mut NameTable<Vec<Component>>,
    visited: &mut NameTable<()>,
    name: &str,
) -> (res: Result<(), ResolveError>)
    requires
        records.wf(),
        old(components).wf(),
        old(visited).wf(),
    ensures
        final(components).wf(),
        final(visited).wf(),
        res is Ok ==> walked(
            catalog_of(records@),
            walk_state(old(visited)@, old(components)@),
            walk_state(final(visited)@, final(components)@),
            name@,
        ),
        res matches Err(ResolveError::UnknownTypeShape { record, field }) ==> fails_at(
            catalog_of(records@),
            old(visited)@.names(),
            name@,
            record@,
            field@,
        ),
    decreases unresolved(records@.keys, old(visited)@.names()),
{
    let ghost catalog = catalog_of(records@);
    let ghost before = walk_state(visited@, components@);
    let decl: &RecordDecl = match records.get(name) {
        Some(decl) => *decl,
        None => {
            proof {
                lemma_nothing_to_do(catalog, before, name@);
            }
            return Ok(());
        },
    };
    if visited.contains_key(name) {
        proof {
            lemma_nothing_to_do(catalog, before, name@);
        }
        return Ok(());
    }
    proof {
        lemma_position_of(records@.keys, name@);
        assert(catalog.value_of(name@) == record_entries(decl.fields@));
    }
    let (fields, found) = match describe_record(records, name, &decl.fields) {
        Ok(pair) => pair,
        Err(error) => {
            proof {
                lemma_reaches_itself(catalog, before.visited, name@);
            }
            return Err(error);
        },
    };
    proof {
        lemma_component_map_insert(components@, name@, fields);
        visited@.lemma_insert(name@, ());
        lemma_expansion_starts(catalog, before, name@);
    }
    visited.insert(name.to_owned(), ());
    components.insert(name.to_owned(), fields);
    assert(walk_state(visited@, components@) == entered(catalog, before, name@));
    let mut index: usize = 0;
    while index < found.len()
        invariant
            records.wf(),
            components.wf(),
            visited.wf(),
            catalog == catalog_of(records@),
            before == walk_state(old(visited)@, old(components)@),
            name_views(found@) == record_refs(catalog, name@),
            in_progress(catalog, before, walk_state(visited@, components@), name@, index as int),
        decreases found@.len() - index,
    {
        let ghost middle = walk_state(visited@, components@);
        proof {
            lemma_expansion_makes_progress(catalog, before, middle, name@, index as int);
            assert(found@[index as int]@ == record_refs(catalog, name@)[index as int]);
        }
        match visit_record(records, components, visited, found[index].as_str()) {
            Ok(()) => {
                proof {
                    lemma_expansion_steps(
                        catalog,
                        before,
                        middle,
                        walk_state(visited@, components@),
                        name@,
                        index as int,
                    );
                }
            },
            Err(error) => {
                proof {
                    lemma_failure_passes_up(
                        catalog,
                        before,
                        middle,
                        name@,
                        index as int,
                        error->record@,
                        error->field@,
                    );
                }
                return Err(error);
            },
        }
        index += 1;
    }
    proof {
        lemma_expansion_ends(catalog, before, walk_state(visited@, components@), name@);
    }
    Ok(())
}

/// The record catalogue once the records among `items` were entered, each
/// under its name. A later record takes the place of an earlier record of
/// the same name.
pub open spec fn index_records<'a>(records: Table<&'a RecordDecl>, items: Seq<Item>) -> Table<
    &'a RecordDecl,
>
    decreases items.len(),
{
    if items.len() == 0 {
        records
    } else {
        let before = index_records(records, items.drop_last());
        match items.last() {
            Item::Record(record) => before.insert(record.name@, &record),
            _ => before,
        }
    }
}

/// The function catalogue once the functions among `items` were entered,
/// each under its name, but for the entry function `main`.
pub open spec fn index_functions<'a>(functions: Table<&'a FnDecl>, items: Seq<Item>) -> Table<
    &'a FnDecl,
>
    decreases items.len(),
{
    if items.len() == 0 {
        functions
    } else {
        let before = index_functions(functions, items.drop_last());
        match items.last() {
            Item::Function(func) => if func.name@ == "main"@ {
                before
            } else {
                before.insert(func.name@, &func)
            },
            _ => before,
        }
    }
}

} // verus!
