//! The expansion of records into components, as mathematics: which records
//! a name leads to, and what the catalogue of components holds once they
//! were expanded.

use crate::resolver::{FieldDescriptor, Leaf, describe, first_fatal, has_fatal, nested};
use crate::table::Table;
use vstd::prelude::*;

verus! {

/// The descriptors of the record `name` of `catalog`.
pub open spec fn record_fields(catalog: Table<Seq<Leaf>>, name: Seq<char>) -> Seq<FieldDescriptor> {
    describe(catalog.keys, catalog.value_of(name))
}

/// The records that the fields of the record `name` name, in order.
pub open spec fn record_refs(catalog: Table<Seq<Leaf>>, name: Seq<char>) -> Seq<Seq<char>> {
    nested(catalog.keys, catalog.value_of(name))
}

/// Whether a field of the record `name` has a type of unknown shape.
pub open spec fn record_fails(catalog: Table<Seq<Leaf>>, name: Seq<char>) -> bool {
    has_fatal(catalog.value_of(name))
}

/// Whether `path` is a chain of records of `catalog`, none of them among
/// `done`, each but the first named by a field of the one before it.
pub open spec fn is_open_path(
    catalog: Table<Seq<Leaf>>,
    done: Set<Seq<char>>,
    path: Seq<Seq<char>>,
) -> bool {
    &&& path.len() > 0
    &&& forall|i: int|
        0 <= i < path.len() ==> catalog.has(#[trigger] path[i]) && !done.contains(path[i])
    &&& forall|i: int|
        0 < i < path.len() ==> record_refs(catalog, path[i - 1]).contains(#[trigger] path[i])
}

/// Whether a walk from `from` that passes over the records among `done`
/// comes to `to`: a chain of records that are not among `done` leads from
/// the one to the other.
pub open spec fn reaches(
    catalog: Table<Seq<Leaf>>,
    done: Set<Seq<char>>,
    from: Seq<char>,
    to: Seq<char>,
) -> bool {
    exists|path: Seq<Seq<char>>| #[trigger]
        is_open_path(catalog, done, path) && path[0] == from && path.last() == to
}

/// Whether the record `from` leads to the record `to`: `to` is `from`, or a
/// record that a field of `from` names, or one that a field of such a
/// record names, and so on.
pub open spec fn leads_to(catalog: Table<Seq<Leaf>>, from: Seq<char>, to: Seq<char>) -> bool {
    reaches(catalog, Set::empty(), from, to)
}

/// The catalogue of components once the record `name` was expanded: every
/// record that `name` leads to has its descriptors as its component,
/// whatever stood under its name before, and every other name is as it was.
pub open spec fn expand(
    catalog: Table<Seq<Leaf>>,
    components: Map<Seq<char>, Seq<FieldDescriptor>>,
    name: Seq<char>,
) -> Map<Seq<char>, Seq<FieldDescriptor>> {
    Map::new(
        |k: Seq<char>| components.dom().contains(k) || leads_to(catalog, name, k),
        |k: Seq<char>|
            if leads_to(catalog, name, k) {
                record_fields(catalog, k)
            } else {
                components[k]
            },
    )
}

/// Whether a walk from `name` that passes over the records among `done`
/// comes to the record `record`, the first field of unknown shape of which
/// is `field`.
pub open spec fn fails_at(
    catalog: Table<Seq<Leaf>>,
    done: Set<Seq<char>>,
    name: Seq<char>,
    record: Seq<char>,
    field: Seq<char>,
) -> bool {
    &&& reaches(catalog, done, name, record)
    &&& record_fails(catalog, record)
    &&& field == catalog.value_of(record)[first_fatal(catalog.value_of(record))].field
}

/// Whether `name` leads to a record with a field of unknown shape.
pub open spec fn expansion_fails(catalog: Table<Seq<Leaf>>, name: Seq<char>) -> bool {
    exists|record: Seq<char>| #[trigger]
        leads_to(catalog, name, record) && record_fails(catalog, record)
}

/// The number of `keys` that are not among `done`.
pub open spec fn unresolved(keys: Seq<Seq<char>>, done: Set<Seq<char>>) -> nat
    decreases keys.len(),
{
    if keys.len() == 0 {
        0
    } else {
        unresolved(keys.drop_last(), done) + if done.contains(keys.last()) {
            0nat
        } else {
            1nat
        }
    }
}

/// The state of a walk: the records visited so far and the components.
pub struct Walk {
    pub visited: Set<Seq<char>>,
    pub components: Map<Seq<char>, Seq<FieldDescriptor>>,
}

/// Whether `name` was visited between `before` and `after`.
pub open spec fn is_new(before: Walk, after: Walk, name: Seq<char>) -> bool {
    after.visited.contains(name) && !before.visited.contains(name)
}

/// Whether every record that a field of `name` names was visited.
pub open spec fn closed_at(catalog: Table<Seq<Leaf>>, after: Walk, name: Seq<char>) -> bool {
    forall|i: int|
        0 <= i < record_refs(catalog, name).len() ==> after.visited.contains(
            #[trigger] record_refs(catalog, name)[i],
        )
}

/// What holds of one name `k` between the state `before` a walk from
/// `from` and the state `after` it, or in the course of it: a visited name
/// stays visited and a name with a component keeps one; a name that was not
/// visited in between is as it was; and a name that was visited in between
/// is a record that the walk came to, with its descriptors as component.
pub open spec fn step_ok(
    catalog: Table<Seq<Leaf>>,
    before: Walk,
    after: Walk,
    from: Seq<char>,
    k: Seq<char>,
) -> bool {
    &&& before.visited.contains(k) ==> after.visited.contains(k)
    &&& before.components.dom().contains(k) ==> after.components.dom().contains(k)
    &&& !is_new(before, after, k) && after.components.dom().contains(k)
        ==> before.components.dom().contains(k) && after.components[k] == before.components[k]
    &&& is_new(before, after, k) ==> {
        &&& catalog.has(k)
        &&& after.components.dom().contains(k)
        &&& after.components[k] == record_fields(catalog, k)
        &&& !record_fails(catalog, k)
        &&& reaches(catalog, before.visited, from, k)
    }
}

/// What holds once the walk from `from` is done.
pub open spec fn walked(catalog: Table<Seq<Leaf>>, before: Walk, after: Walk, from: Seq<char>) -> bool {
    &&& forall|k: Seq<char>| #[trigger] step_ok(catalog, before, after, from, k)
    &&& forall|k: Seq<char>| is_new(before, after, k) ==> #[trigger] closed_at(catalog, after, k)
    &&& catalog.has(from) ==> after.visited.contains(from)
}

/// What holds in the course of the walk from `from`, once the first
/// `count` records that its fields name were walked from.
pub open spec fn in_progress(
    catalog: Table<Seq<Leaf>>,
    before: Walk,
    after: Walk,
    from: Seq<char>,
    count: int,
) -> bool {
    &&& catalog.has(from)
    &&& !before.visited.contains(from)
    &&& after.visited.contains(from)
    &&& 0 <= count <= record_refs(catalog, from).len()
    &&& forall|k: Seq<char>| #[trigger] step_ok(catalog, before, after, from, k)
    &&& forall|k: Seq<char>|
        is_new(before, after, k) && k != from ==> #[trigger] closed_at(catalog, after, k)
    &&& forall|j: int|
        0 <= j < count ==> after.visited.contains(#[trigger] record_refs(catalog, from)[j])
}

/// The records that a record names are records of the catalogue.
pub proof fn lemma_nested_are_records(records: Seq<Seq<char>>, entries: Seq<Leaf>)
    ensures
        forall|i: int|
            0 <= i < nested(records, entries).len() ==> records.contains(
                #[trigger] nested(records, entries)[i],
            ),
    decreases entries.len(),
{
    if entries.len() > 0 {
        let before = nested(records, entries.drop_last());
        let all = nested(records, entries);
        lemma_nested_are_records(records, entries.drop_last());
        assert forall|i: int| 0 <= i < all.len() implies records.contains(#[trigger] all[i]) by {
            if i < before.len() {
                assert(all[i] == before[i]);
            }
        }
    }
}

/// A record that is not among `done` is reached from itself.
pub proof fn lemma_reaches_itself(catalog: Table<Seq<Leaf>>, done: Set<Seq<char>>, name: Seq<char>)
    requires
        catalog.has(name),
        !done.contains(name),
    ensures
        reaches(catalog, done, name, name),
{
    let path = seq![name];
    assert(is_open_path(catalog, done, path));
    assert(path[0] == name && path.last() == name);
}

/// A record reached from a record that `from` names is reached from
/// `from`, also where fewer records are done.
pub proof fn lemma_reaches_through(
    catalog: Table<Seq<Leaf>>,
    done: Set<Seq<char>>,
    more_done: Set<Seq<char>>,
    from: Seq<char>,
    next: Seq<char>,
    to: Seq<char>,
)
    requires
        catalog.has(from),
        !done.contains(from),
        record_refs(catalog, from).contains(next),
        forall|k: Seq<char>| done.contains(k) ==> more_done.contains(k),
        reaches(catalog, more_done, next, to),
    ensures
        reaches(catalog, done, from, to),
{
    let tail = choose|path: Seq<Seq<char>>| #[trigger]
        is_open_path(catalog, more_done, path) && path[0] == next && path.last() == to;
    let path = seq![from] + tail;
    assert forall|i: int| 0 <= i < path.len() implies catalog.has(#[trigger] path[i])
        && !done.contains(path[i]) by {
        if i > 0 {
            assert(path[i] == tail[i - 1]);
        }
    }
    assert forall|i: int| 0 < i < path.len() implies record_refs(catalog, path[i - 1]).contains(
        #[trigger] path[i],
    ) by {
        assert(path[i] == tail[i - 1]);
        if i > 1 {
            assert(path[i - 1] == tail[i - 2]);
        }
    }
    assert(is_open_path(catalog, done, path));
    assert(path[0] == from && path.last() == to);
}

/// Fewer keys are unresolved where more are done, and strictly fewer where
/// one of the keys is done that was not.
pub proof fn lemma_unresolved_shrinks(
    keys: Seq<Seq<char>>,
    done: Set<Seq<char>>,
    more_done: Set<Seq<char>>,
)
    requires
        forall|k: Seq<char>| done.contains(k) ==> more_done.contains(k),
    ensures
        unresolved(keys, more_done) <= unresolved(keys, done),
        (exists|i: int|
            0 <= i < keys.len() && more_done.contains(#[trigger] keys[i]) && !done.contains(keys[i]))
            ==> unresolved(keys, more_done) < unresolved(keys, done),
    decreases keys.len(),
{
    if keys.len() > 0 {
        let rest = keys.drop_last();
        lemma_unresolved_shrinks(rest, done, more_done);
        if exists|i: int|
            0 <= i < keys.len() && more_done.contains(#[trigger] keys[i]) && !done.contains(keys[i]) {
            let i = choose|i: int|
                0 <= i < keys.len() && more_done.contains(#[trigger] keys[i]) && !done.contains(
                    keys[i],
                );
            if i < rest.len() {
                assert(rest[i] == keys[i]);
            }
        }
    }
}

/// A walk that has nothing to do leaves the state as it is: the name is no
/// record, or it was visited.
pub proof fn lemma_nothing_to_do(catalog: Table<Seq<Leaf>>, state: Walk, name: Seq<char>)
    requires
        !catalog.has(name) || state.visited.contains(name),
    ensures
        walked(catalog, state, state, name),
{
    assert forall|k: Seq<char>| #[trigger] step_ok(catalog, state, state, name, k) by {}
}

/// The state once the record `name` was visited and its component entered.
pub open spec fn entered(catalog: Table<Seq<Leaf>>, before: Walk, name: Seq<char>) -> Walk {
    Walk {
        visited: before.visited.insert(name),
        components: before.components.insert(name, record_fields(catalog, name)),
    }
}

/// Visiting the record `name` and entering its component starts the walk
/// from it.
pub proof fn lemma_expansion_starts(catalog: Table<Seq<Leaf>>, before: Walk, name: Seq<char>)
    requires
        catalog.has(name),
        !before.visited.contains(name),
        !record_fails(catalog, name),
    ensures
        in_progress(catalog, before, entered(catalog, before, name), name, 0),
{
    let after = entered(catalog, before, name);
    lemma_reaches_itself(catalog, before.visited, name);
    assert forall|k: Seq<char>| #[trigger] step_ok(catalog, before, after, name, k) by {
        if k != name {
            assert(after.components.dom().contains(k) == before.components.dom().contains(k));
        }
    }
}

/// The walk from the next record that `from` names carries the walk from
/// `from` one step on.
pub proof fn lemma_expansion_steps(
    catalog: Table<Seq<Leaf>>,
    before: Walk,
    middle: Walk,
    after: Walk,
    from: Seq<char>,
    count: int,
)
    requires
        in_progress(catalog, before, middle, from, count),
        count < record_refs(catalog, from).len(),
        walked(catalog, middle, after, record_refs(catalog, from)[count]),
    ensures
        in_progress(catalog, before, after, from, count + 1),
{
    let next = record_refs(catalog, from)[count];
    lemma_nested_are_records(catalog.keys, catalog.value_of(from));
    assert(catalog.has(next));
    assert(step_ok(catalog, middle, after, next, from));
    assert forall|k: Seq<char>| before.visited.contains(k) implies middle.visited.contains(k) by {
        assert(step_ok(catalog, before, middle, from, k));
    }
    assert forall|k: Seq<char>| middle.visited.contains(k) implies after.visited.contains(k) by {
        assert(step_ok(catalog, middle, after, next, k));
    }
    assert forall|k: Seq<char>| #[trigger] step_ok(catalog, before, after, from, k) by {
        assert(step_ok(catalog, before, middle, from, k));
        assert(step_ok(catalog, middle, after, next, k));
        if is_new(before, after, k) && !middle.visited.contains(k) {
            assert(is_new(middle, after, k));
            lemma_reaches_through(catalog, before.visited, middle.visited, from, next, k);
        }
    }
    assert forall|k: Seq<char>| is_new(before, after, k) && k != from implies #[trigger] closed_at(
        catalog,
        after,
        k,
    ) by {
        assert(step_ok(catalog, before, middle, from, k));
        assert(step_ok(catalog, middle, after, next, k));
        if middle.visited.contains(k) {
            assert(is_new(before, middle, k));
            assert(closed_at(catalog, middle, k));
        } else {
            assert(is_new(middle, after, k));
        }
    }
    assert forall|j: int| 0 <= j < count + 1 implies after.visited.contains(
        #[trigger] record_refs(catalog, from)[j],
    ) by {}
}

/// Once every record that `from` names was walked from, the walk from
/// `from` is done.
pub proof fn lemma_expansion_ends(
    catalog: Table<Seq<Leaf>>,
    before: Walk,
    after: Walk,
    from: Seq<char>,
)
    requires
        in_progress(catalog, before, after, from, record_refs(catalog, from).len() as int),
    ensures
        walked(catalog, before, after, from),
{
    assert(closed_at(catalog, after, from));
    assert forall|k: Seq<char>| is_new(before, after, k) implies #[trigger] closed_at(
        catalog,
        after,
        k,
    ) by {}
}

/// In the course of a walk fewer records of the catalogue are unvisited
/// than before it.
pub proof fn lemma_expansion_makes_progress(
    catalog: Table<Seq<Leaf>>,
    before: Walk,
    after: Walk,
    from: Seq<char>,
    count: int,
)
    requires
        in_progress(catalog, before, after, from, count),
    ensures
        unresolved(catalog.keys, after.visited) < unresolved(catalog.keys, before.visited),
{
    assert forall|k: Seq<char>| before.visited.contains(k) implies after.visited.contains(k) by {
        assert(step_ok(catalog, before, after, from, k));
    }
    let i = choose|i: int| 0 <= i < catalog.keys.len() && catalog.keys[i] == from;
    assert(after.visited.contains(catalog.keys[i]) && !before.visited.contains(catalog.keys[i]));
    lemma_unresolved_shrinks(catalog.keys, before.visited, after.visited);
}

/// A failure in the walk from a record that `from` names is a failure in
/// the walk from `from`.
pub proof fn lemma_failure_passes_up(
    catalog: Table<Seq<Leaf>>,
    before: Walk,
    middle: Walk,
    from: Seq<char>,
    count: int,
    record: Seq<char>,
    field: Seq<char>,
)
    requires
        in_progress(catalog, before, middle, from, count),
        count < record_refs(catalog, from).len(),
        fails_at(catalog, middle.visited, record_refs(catalog, from)[count], record, field),
    ensures
        fails_at(catalog, before.visited, from, record, field),
{
    assert forall|k: Seq<char>| before.visited.contains(k) implies middle.visited.contains(k) by {
        assert(step_ok(catalog, before, middle, from, k));
    }
    lemma_reaches_through(
        catalog,
        before.visited,
        middle.visited,
        from,
        record_refs(catalog, from)[count],
        record,
    );
}

/// Every record on a chain from `from` was visited in the walk from
/// `from`.
pub proof fn lemma_path_is_covered(
    catalog: Table<Seq<Leaf>>,
    before: Walk,
    after: Walk,
    from: Seq<char>,
    path: Seq<Seq<char>>,
    index: int,
)
    requires
        walked(catalog, before, after, from),
        is_open_path(catalog, before.visited, path),
        path[0] == from,
        0 <= index < path.len(),
    ensures
        is_new(before, after, path[index]),
    decreases index,
{
    if index > 0 {
        lemma_path_is_covered(catalog, before, after, from, path, index - 1);
        let prev = path[index - 1];
        assert(closed_at(catalog, after, prev));
        let j = choose|j: int|
            0 <= j < record_refs(catalog, prev).len() && record_refs(catalog, prev)[j]
                == path[index];
        assert(after.visited.contains(record_refs(catalog, prev)[j]));
    } else {
        assert(catalog.has(path[0]));
    }
}

/// A walk that starts with no record visited and is done gives the
/// catalogue that `expand` states, and came to no record with a field of
/// unknown shape.
pub proof fn lemma_walked_is_expanded(
    catalog: Table<Seq<Leaf>>,
    before: Walk,
    after: Walk,
    from: Seq<char>,
)
    requires
        before.visited == Set::<Seq<char>>::empty(),
        walked(catalog, before, after, from),
    ensures
        after.components == expand(catalog, before.components, from),
        !expansion_fails(catalog, from),
{
    let goal = expand(catalog, before.components, from);
    assert forall|k: Seq<char>| leads_to(catalog, from, k) implies is_new(before, after, k) by {
        let path = choose|path: Seq<Seq<char>>| #[trigger]
            is_open_path(catalog, Set::empty(), path) && path[0] == from && path.last() == k;
        lemma_path_is_covered(catalog, before, after, from, path, path.len() - 1);
    }
    assert forall|k: Seq<char>| after.components.dom().contains(k) == goal.dom().contains(k) by {
        assert(step_ok(catalog, before, after, from, k));
    }
    assert forall|k: Seq<char>| after.components.dom().contains(k) implies after.components[k]
        == goal[k] by {
        assert(step_ok(catalog, before, after, from, k));
    }
    assert(after.components =~= goal);
    if expansion_fails(catalog, from) {
        let record = choose|record: Seq<char>| #[trigger]
            leads_to(catalog, from, record) && record_fails(catalog, record);
        assert(step_ok(catalog, before, after, from, record));
    }
}

/// To expand a record a second time changes nothing, whatever the
/// catalogue held before the first time.
pub proof fn lemma_expand_twice(
    catalog: Table<Seq<Leaf>>,
    components: Map<Seq<char>, Seq<FieldDescriptor>>,
    name: Seq<char>,
)
    ensures
        expand(catalog, expand(catalog, components, name), name) == expand(
            catalog,
            components,
            name,
        ),
{
    assert(expand(catalog, expand(catalog, components, name), name) =~= expand(
        catalog,
        components,
        name,
    ));
}

/// Expansion starts the component of a record afresh: whatever stood under
/// the name of a record that `name` leads to, its component is the
/// descriptors of its fields, one for each leaf with a canonical text, and
/// the record `name` itself is among those records.
pub proof fn lemma_expand_replaces(
    catalog: Table<Seq<Leaf>>,
    components: Map<Seq<char>, Seq<FieldDescriptor>>,
    name: Seq<char>,
    record: Seq<char>,
)
    requires
        leads_to(catalog, name, record),
    ensures
        expand(catalog, components, name).dom().contains(record),
        expand(catalog, components, name)[record] == record_fields(catalog, record),
        catalog.has(name) ==> leads_to(catalog, name, name),
{
    if catalog.has(name) {
        lemma_reaches_itself(catalog, Set::empty(), name);
    }
}

} // verus!
