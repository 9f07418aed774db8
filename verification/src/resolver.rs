//! Schema resolution: the field descriptors of a record, and the expansion
//! of the records that a name leads to into a catalogue of components.

use crate::reference::{
    Reference, TypeReference, leaf_references, leaf_type_reference, reference_views,
    type_reference,
};
use crate::syntax::{RecordField, TypeExpr, leaves_of_first, name_views};
use crate::table::NameTable;
use crate::text::{capture_group, captured_group};
use vstd::prelude::*;

verus! {

/// One field of a component: its name, the name of its type and whether a
/// value has to be there.
pub struct FieldDescriptor {
    pub field_name: Option<Seq<char>>,
    pub ty: Seq<char>,
    pub required: bool,
}

/// One field of a component, with the texts owned.
#[derive(Debug, Clone, PartialEq, Eq)]
pub struct Component {
    pub ty: String,
    pub required: bool,
    pub field_name: Option<String>,
}

impl DeepView for Component {
    type V = FieldDescriptor;

    open spec fn deep_view(&self) -> FieldDescriptor {
        FieldDescriptor {
            field_name: self.field_name.deep_view(),
            ty: self.ty@,
            required: self.required,
        }
    }
}

/// Why resolution cannot go on.
#[derive(Debug, Clone, PartialEq, Eq)]
pub enum ResolveError {
    /// A field of a record has a type of a shape outside the known set.
    UnknownTypeShape { record: String, field: String },
}

/// The name inside the optional wrapper, where `name` is the text of a type
/// inside that wrapper: what the first group of the pattern
/// `Option<(.+)>` captures in `name`.
pub open spec fn optional_inner(name: Seq<char>) -> Option<Seq<char>> {
    captured_group("Option<(.+)>"@, name, 1)
}

/// Tests a type name against the pattern of the optional wrapper and gives
/// the name inside the wrapper where it matches.
pub fn unwrap_optional(name: &str) -> (res: Option<String>)
    ensures
        res.deep_view() == optional_inner(name@),
{
    capture_group("Option<(.+)>", name, 1)
}

/// The descriptor of a field whose type has the canonical text
/// `canonical`, given whether that text names a record and what the
/// optional wrapper holds, if the text matches it. The field is required
/// unless the text matches the wrapper. Its type is the record where the
/// text names one, else the name inside the wrapper where there is one,
/// else the text itself.
pub open spec fn descriptor(
    is_record: bool,
    field: Seq<char>,
    canonical: Seq<char>,
    inner: Option<Seq<char>>,
) -> FieldDescriptor {
    FieldDescriptor {
        field_name: Some(field),
        ty: if is_record {
            canonical
        } else {
            match inner {
                Some(inner) => inner,
                None => canonical,
            }
        },
        required: inner is None,
    }
}

/// A field whose type matches the optional wrapper is not required, and
/// where its type names no record its descriptor names the type inside the
/// wrapper; every other field is required, and its descriptor names its
/// own type.
pub proof fn lemma_optional_fields(records: Seq<Seq<char>>, field: Seq<char>, canonical: Seq<char>)
    ensures
        ({
            let found = descriptor(
                records.contains(canonical),
                field,
                canonical,
                optional_inner(canonical),
            );
            &&& found.field_name == Some(field)
            &&& optional_inner(canonical) is Some ==> !found.required
            &&& optional_inner(canonical) is Some && !records.contains(canonical) ==> found.ty
                == optional_inner(canonical)->0
            &&& optional_inner(canonical) is None ==> found.required && found.ty == canonical
        }),
{
}

/// Builds the descriptor of a field from the canonical text of its type,
/// whether that text names a record, and the name inside the optional
/// wrapper where the text matches it.
pub fn describe_field(is_record: bool, field: &str, canonical: String, inner: Option<String>) -> (res:
    Component)
    ensures
        res.deep_view() == descriptor(is_record, field@, canonical@, inner.deep_view()),
{
    let required = inner.is_none();
    let ty = if is_record {
        canonical
    } else {
        match inner {
            Some(inner) => inner,
            None => canonical,
        }
    };
    Component { ty, required, field_name: Some(field.to_owned()) }
}

/// Appends to `out` the references of the non-tuple types that `ty` is made
/// of, from left to right.
pub fn collect_leaf_references(ty: &TypeExpr, out: &mut Vec<TypeReference>)
    ensures
        reference_views(final(out)@) == reference_views(old(out)@) + leaf_references(*ty),
    decreases ty,
{
    match ty {
        TypeExpr::Tuple(elems) => {
            let mut index: usize = 0;
            let ghost start = reference_views(out@);
            assert(leaves_of_first(*ty, 0) =~= Seq::<TypeExpr>::empty());
            while index < elems.len()
                invariant
                    index <= elems@.len(),
                    *ty == TypeExpr::Tuple(*elems),
                    reference_views(out@) =~= start + Seq::new(
                        leaves_of_first(*ty, index as nat).len(),
                        |i: int| type_reference(leaves_of_first(*ty, index as nat)[i]),
                    ),
                decreases elems@.len() - index,
            {
                collect_leaf_references(&elems[index], out);
                index += 1;
            }
        },
        _ => {
            out.push(leaf_type_reference(ty));
        },
    }
}

/// One type that a field is made of: the name of the field and the
/// reference of the type.
pub struct Leaf {
    pub field: Seq<char>,
    pub reference: Reference,
}

/// The leaves of one field: each non-tuple type that its type is made of,
/// under the name of the field. A field of tuple type has several.
pub open spec fn field_entries(field: RecordField) -> Seq<Leaf> {
    Seq::new(
        leaf_references(field.ty).len(),
        |i: int| Leaf { field: field.name@, reference: leaf_references(field.ty)[i] },
    )
}

/// The leaves of the fields of a record, in order.
pub open spec fn record_entries(fields: Seq<RecordField>) -> Seq<Leaf>
    decreases fields.len(),
{
    if fields.len() == 0 {
        Seq::empty()
    } else {
        record_entries(fields.drop_last()) + field_entries(fields.last())
    }
}

/// Whether a leaf has a type of unknown shape.
pub open spec fn has_fatal(entries: Seq<Leaf>) -> bool {
    exists|i: int| 0 <= i < entries.len() && (#[trigger] entries[i]).reference is Fatal
}

/// The place of the first leaf with a type of unknown shape, or the number
/// of leaves where there is none.
pub open spec fn first_fatal(entries: Seq<Leaf>) -> int
    decreases entries.len(),
{
    if entries.len() == 0 {
        0
    } else if entries[0].reference is Fatal {
        0
    } else {
        1 + first_fatal(entries.drop_first())
    }
}

/// The descriptors that the leaves of a record give, in order, where
/// `records` are the names of the known records: one for each leaf with a
/// canonical text, none for a leaf that is passed over.
pub open spec fn describe(records: Seq<Seq<char>>, entries: Seq<Leaf>) -> Seq<FieldDescriptor>
    decreases entries.len(),
{
    if entries.len() == 0 {
        Seq::empty()
    } else {
        let before = describe(records, entries.drop_last());
        match entries.last().reference {
            Reference::Named(canonical) => before.push(
                descriptor(
                    records.contains(canonical),
                    entries.last().field,
                    canonical,
                    optional_inner(canonical),
                ),
            ),
            _ => before,
        }
    }
}

/// The known records that the leaves of a record name, in order.
pub open spec fn nested(records: Seq<Seq<char>>, entries: Seq<Leaf>) -> Seq<Seq<char>>
    decreases entries.len(),
{
    if entries.len() == 0 {
        Seq::empty()
    } else {
        let before = nested(records, entries.drop_last());
        match entries.last().reference {
            Reference::Named(canonical) => if records.contains(canonical) {
                before.push(canonical)
            } else {
                before
            },
            _ => before,
        }
    }
}

/// Whether `found` is the descriptor that the leaf `entry` gives.
pub open spec fn comes_from(records: Seq<Seq<char>>, entry: Leaf, found: FieldDescriptor) -> bool {
    entry.reference matches Reference::Named(canonical) && found == descriptor(
        records.contains(canonical),
        entry.field,
        canonical,
        optional_inner(canonical),
    )
}

/// Each descriptor of a record is the descriptor that one of its leaves
/// gives.
pub proof fn lemma_descriptors_come_from_leaves(records: Seq<Seq<char>>, entries: Seq<Leaf>)
    ensures
        forall|i: int|
            0 <= i < describe(records, entries).len() ==> exists|j: int|
                0 <= j < entries.len() && comes_from(
                    records,
                    #[trigger] entries[j],
                    #[trigger] describe(records, entries)[i],
                ),
    decreases entries.len(),
{
    if entries.len() > 0 {
        let first = entries.drop_last();
        let before = describe(records, first);
        let all = describe(records, entries);
        lemma_descriptors_come_from_leaves(records, first);
        assert forall|i: int| 0 <= i < all.len() implies exists|j: int|
            0 <= j < entries.len() && comes_from(records, #[trigger] entries[j], #[trigger] all[i]) by {
            if i < before.len() {
                assert(all[i] == before[i]);
                let j = choose|j: int|
                    0 <= j < first.len() && comes_from(records, #[trigger] first[j], before[i]);
                assert(entries[j] == first[j]);
                assert(comes_from(records, entries[j], all[i]));
            } else {
                assert(comes_from(records, entries[entries.len() - 1], all[i]));
            }
        }
    }
}

/// The deep views of `components`, in order.
pub open spec fn descriptors(components: Seq<Component>) -> Seq<FieldDescriptor> {
    Seq::new(components.len(), |i: int| components[i].deep_view())
}

/// The leaves of the first fields of a record are the first leaves of the
/// record.
pub proof fn lemma_record_entries_prefix(fields: Seq<RecordField>, count: int)
    requires
        0 <= count <= fields.len(),
    ensures
        record_entries(fields.take(count)).is_prefix_of(record_entries(fields)),
    decreases fields.len(),
{
    if count == fields.len() {
        assert(fields.take(count) =~= fields);
    } else {
        assert(fields.drop_last().take(count) =~= fields.take(count));
        lemma_record_entries_prefix(fields.drop_last(), count);
    }
}

/// Works out what one type of a field contributes to the component of its
/// record: the descriptors of the leaves of `ty`, appended to `fields`, and
/// the known records among them, appended to `found`. Leaves without a case
/// are passed over. The first leaf of unknown shape ends the work with an
/// error that names `record` and `field`.
pub fn build_type_components_from_type<V>(
    records: &NameTable<V>,
    record: &str,
    field: &RecordField,
    fields: &mut Vec<Component>,
    found: &mut Vec<String>,
) -> (res: Result<(), ResolveError>)
    ensures
        res is Err <==> has_fatal(field_entries(*field)),
        res is Ok ==> descriptors(final(fields)@) == descriptors(old(fields)@) + describe(
            records@.keys,
            field_entries(*field),
        ) && name_views(final(found)@) == name_views(old(found)@) + nested(
            records@.keys,
            field_entries(*field),
        ),
        res matches Err(ResolveError::UnknownTypeShape { record: in_record, field: in_field })
            ==> in_record@ == record@ && in_field@ == field.name@,
{
    let mut references: Vec<TypeReference> = Vec::new();
    collect_leaf_references(&field.ty, &mut references);
    let ghost entries = field_entries(*field);
    let ghost fields_before = descriptors(fields@);
    let ghost found_before = name_views(found@);
    assert(reference_views(references@) =~= leaf_references(field.ty));
    let mut index: usize = 0;
    assert(entries.take(0) =~= Seq::<Leaf>::empty());
    while index < references.len()
        invariant
            index <= references@.len(),
            entries == field_entries(*field),
            entries.len() == references@.len(),
            reference_views(references@) == leaf_references(field.ty),
            forall|i: int| 0 <= i < index ==> !((#[trigger] entries[i]).reference is Fatal),
            descriptors(fields@) == fields_before + describe(
                records@.keys,
                entries.take(index as int),
            ),
            name_views(found@) == found_before + nested(records@.keys, entries.take(index as int)),
        decreases references@.len() - index,
    {
        proof {
            assert(entries.take(index + 1).drop_last() =~= entries.take(index as int));
            assert(entries.take(index + 1).last() == entries[index as int]);
            assert(entries[index as int].reference == references@[index as int]@);
            assert(entries[index as int].field == field.name@);
        }
        let ghost fields_now = descriptors(fields@);
        let ghost found_now = name_views(found@);
        match &references[index] {
            TypeReference::Named(canonical) => {
                let is_record = records.contains_key(canonical.as_str());
                let inner = unwrap_optional(canonical.as_str());
                let component = describe_field(
                    is_record,
                    field.name.as_str(),
                    canonical.clone(),
                    inner,
                );
                fields.push(component);
                assert(descriptors(fields@) =~= fields_now.push(component.deep_view()));
                if is_record {
                    found.push(canonical.clone());
                    assert(name_views(found@) =~= found_now.push(canonical@));
                }
                assert(descriptors(fields@) =~= fields_before + describe(
                    records@.keys,
                    entries.take(index + 1),
                ));
                assert(name_views(found@) =~= found_before + nested(
                    records@.keys,
                    entries.take(index + 1),
                ));
            },
            TypeReference::Ignored => {},
            TypeReference::Fatal => {
                return Err(
                    ResolveError::UnknownTypeShape {
                        record: record.to_owned(),
                        field: field.name.clone(),
                    },
                );
            },
        }
        index += 1;
    }
    assert(entries.take(index as int) =~= entries);
    Ok(())
}

/// Where a leaf has a type of unknown shape, the first such leaf is one of
/// the leaves, and no leaf before it has such a type.
pub proof fn lemma_first_fatal_found(entries: Seq<Leaf>)
    requires
        has_fatal(entries),
    ensures
        0 <= first_fatal(entries) < entries.len(),
        entries[first_fatal(entries)].reference is Fatal,
        forall|i: int|
            0 <= i < first_fatal(entries) ==> !((#[trigger] entries[i]).reference is Fatal),
    decreases entries.len(),
{
    let witness = choose|i: int| 0 <= i < entries.len() && (#[trigger] entries[i]).reference is Fatal;
    if !(entries[0].reference is Fatal) {
        let rest = entries.drop_first();
        assert(rest[witness - 1] == entries[witness]);
        lemma_first_fatal_found(rest);
        assert(entries[first_fatal(entries)] == rest[first_fatal(rest)]);
        assert forall|i: int| 0 <= i < first_fatal(entries) implies !((#[trigger] entries[i]).reference is Fatal) by {
            if i > 0 {
                assert(entries[i] == rest[i - 1]);
            }
        }
    }
}

/// The descriptors and the nested records of two runs of leaves in a row
/// are those of the first run followed by those of the second.
pub proof fn lemma_describe_concat(records: Seq<Seq<char>>, first: Seq<Leaf>, second: Seq<Leaf>)
    ensures
        describe(records, first + second) == describe(records, first) + describe(records, second),
        nested(records, first + second) == nested(records, first) + nested(records, second),
    decreases second.len(),
{
    if second.len() == 0 {
        assert(first + second =~= first);
        assert(describe(records, first) + describe(records, second) =~= describe(records, first));
        assert(nested(records, first) + nested(records, second) =~= nested(records, first));
    } else {
        lemma_describe_concat(records, first, second.drop_last());
        assert((first + second).drop_last() =~= first + second.drop_last());
        assert((first + second).last() == second.last());
        assert(describe(records, first + second) =~= describe(records, first) + describe(
            records,
            second,
        ));
        assert(nested(records, first + second) =~= nested(records, first) + nested(
            records,
            second,
        ));
    }
}

/// Works out the component of a record: the descriptors of its fields, in
/// order, and the known records that its fields name. A field with a type
/// of unknown shape makes it fail, with an error that names the record and
/// the first such field.
pub fn describe_record<V>(records: &NameTable<V>, record: &str, decl_fields: &Vec<RecordField>) -> (res:
    Result<(Vec<Component>, Vec<String>), ResolveError>)
    ensures
        res is Err <==> has_fatal(record_entries(decl_fields@)),
        res matches Ok(pair) ==> descriptors(pair.0@) == describe(
            records@.keys,
            record_entries(decl_fields@),
        ) && name_views(pair.1@) == nested(records@.keys, record_entries(decl_fields@)),
        res matches Err(ResolveError::UnknownTypeShape { record: in_record, field: in_field })
            ==> in_record@ == record@ && in_field@ == record_entries(decl_fields@)[first_fatal(
            record_entries(decl_fields@),
        )].field,
{
    let mut fields: Vec<Component> = Vec::new();
    let mut found: Vec<String> = Vec::new();
    let mut index: usize = 0;
    let ghost all = record_entries(decl_fields@);
    assert(decl_fields@.take(0) =~= Seq::<RecordField>::empty());
    assert(descriptors(fields@) =~= Seq::<FieldDescriptor>::empty());
    assert(name_views(found@) =~= Seq::<Seq<char>>::empty());
    while index < decl_fields.len()
        invariant
            index <= decl_fields@.len(),
            all == record_entries(decl_fields@),
            !has_fatal(record_entries(decl_fields@.take(index as int))),
            descriptors(fields@) == describe(
                records@.keys,
                record_entries(decl_fields@.take(index as int)),
            ),
            name_views(found@) == nested(records@.keys, record_entries(decl_fields@.take(index as int))),
        decreases decl_fields@.len() - index,
    {
        let ghost done = record_entries(decl_fields@.take(index as int));
        let ghost next = field_entries(decl_fields@[index as int]);
        proof {
            assert(decl_fields@.take(index + 1).drop_last() =~= decl_fields@.take(index as int));
            assert(decl_fields@.take(index + 1).last() == decl_fields@[index as int]);
            assert(record_entries(decl_fields@.take(index + 1)) == done + next);
            lemma_describe_concat(records@.keys, done, next);
            lemma_record_entries_prefix(decl_fields@, index + 1);
        }
        match build_type_components_from_type(
            records,
            record,
            &decl_fields[index],
            &mut fields,
            &mut found,
        ) {
            Ok(()) => {
                proof {
                    if has_fatal(done + next) {
                        let i = choose|i: int|
                            0 <= i < (done + next).len() && (#[trigger] (done + next)[i]).reference is Fatal;
                        if i < done.len() {
                            assert(done[i].reference is Fatal);
                        } else {
                            assert(next[i - done.len()].reference is Fatal);
                        }
                    }
                }
            },
            Err(error) => {
                proof {
                    let j = choose|j: int| 0 <= j < next.len() && (#[trigger] next[j]).reference is Fatal;
                    let at = done.len() + j;
                    let head = all.subrange(0, (done + next).len() as int);
                    assert(head == done + next);
                    assert((done + next)[at] == next[j]);
                    assert(all[at] == head[at]);
                    assert(has_fatal(all));
                    lemma_first_fatal_found(all);
                    let first = first_fatal(all);
                    assert(first <= at);
                    assert(all[first] == head[first]);
                    if first < done.len() {
                        assert(done[first] == (done + next)[first]);
                        assert(has_fatal(done));
                    }
                    assert((done + next)[first] == next[first - done.len()]);
                }
                return Err(error);
            },
        }
        index += 1;
    }
    assert(decl_fields@.take(index as int) =~= decl_fields@);
    Ok((fields, found))
}

} // verus!
