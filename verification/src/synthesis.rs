//! What the placeholder of a document is: the example JSON value of a
//! record, and the notes on what was papered over on the way.
//!
//! A reference to a record is resolved by name, to the first record of that
//! name. A record is never expanded inside its own expansion: the set of
//! records under expansion is carried along, and a reference back into it
//! yields `null` and a note. So the placeholder is defined for every
//! document, also for one whose references run in a circle.

use vstd::prelude::*;
use crate::ast::{FieldModel, StructModel, TypeModel};
use crate::error::DiagnosticModel;
use crate::json::{lemma_members_insert_keys, member_keys, members_insert, Json};

verus! {

/// A JSON value and the notes that came up while it was built.
pub struct Synthesis {
    pub json: Json,
    pub notes: Seq<DiagnosticModel>,
}

/// The members of an object and the notes that came up while they were built.
pub struct Members {
    pub members: Seq<(Seq<char>, Json)>,
    pub notes: Seq<DiagnosticModel>,
}

/// The index of the first record named `name` at or after `from`.
pub open spec fn find_struct(doc: Seq<StructModel>, name: Seq<char>, from: int) -> Option<int>
    decreases doc.len() - from,
{
    if from < 0 || from >= doc.len() {
        None
    } else if doc[from].name == name {
        Some(from)
    } else {
        find_struct(doc, name, from + 1)
    }
}

/// The records among the first `count` that are not under expansion.
pub open spec fn unvisited(count: nat, visiting: Set<int>) -> Set<int> {
    Set::new(|i: int| 0 <= i < count && !visiting.contains(i))
}

/// The placeholder of a primitive type; `null` for any other type.
pub open spec fn primitive(ty: TypeModel) -> Json {
    match ty {
        TypeModel::String => Json::String("example"@),
        TypeModel::Int => Json::Number(0),
        TypeModel::Bool => Json::Bool(true),
        _ => Json::Null,
    }
}

/// The placeholder of a reference to the record named `name`: an empty
/// object where no record has the name, `null` where the record is under
/// expansion, the object of the record otherwise.
pub open spec fn synth_reference(
    doc: Seq<StructModel>,
    name: Seq<char>,
    visiting: Set<int>,
) -> Synthesis
    decreases unvisited(doc.len(), visiting).len(), 0int, 0int,
{
    match find_struct(doc, name, 0) {
        None => Synthesis {
            json: Json::Object(Seq::empty()),
            notes: seq![DiagnosticModel::UnresolvedReference(name)],
        },
        Some(index) => if visiting.contains(index) {
            Synthesis { json: Json::Null, notes: seq![DiagnosticModel::RecursiveReference(name)] }
        } else {
            proof {
                lemma_find_struct(doc, name, 0);
                lemma_unvisited_shrinks(doc.len(), visiting, index);
            }
            synth_record(doc, index, visiting)
        },
    }
}

/// The placeholder of a value of type `ty`. An array has one element; an
/// array of arrays has `null` for it.
pub open spec fn synth_type(doc: Seq<StructModel>, ty: TypeModel, visiting: Set<int>) -> Synthesis
    decreases unvisited(doc.len(), visiting).len(), 1int, 0int,
{
    match ty {
        TypeModel::Custom(name) => synth_reference(doc, name, visiting),
        TypeModel::Array(inner) => match *inner {
            TypeModel::Custom(name) => {
                let element = synth_reference(doc, name, visiting);
                Synthesis { json: Json::Array(seq![element.json]), notes: element.notes }
            },
            TypeModel::Array(_) => Synthesis {
                json: Json::Array(seq![primitive(*inner)]),
                notes: seq![DiagnosticModel::NestedArray],
            },
            _ => Synthesis { json: Json::Array(seq![primitive(*inner)]), notes: Seq::empty() },
        },
        _ => Synthesis { json: primitive(ty), notes: Seq::empty() },
    }
}

/// The members that `fields` give, one after the other: each field inserts
/// its name with the placeholder of its type.
pub open spec fn synth_fields(
    doc: Seq<StructModel>,
    fields: Seq<FieldModel>,
    visiting: Set<int>,
) -> Members
    decreases unvisited(doc.len(), visiting).len(), 2int, fields.len(),
{
    if fields.len() == 0 {
        Members { members: Seq::empty(), notes: Seq::empty() }
    } else {
        let before = synth_fields(doc, fields.drop_last(), visiting);
        let value = synth_type(doc, fields.last().ty, visiting);
        Members {
            members: members_insert(before.members, fields.last().name, value.json),
            notes: before.notes + value.notes,
        }
    }
}

/// The placeholder of the record at `index`: an object with the members
/// that its fields give, built with the record itself under expansion.
pub open spec fn synth_record(doc: Seq<StructModel>, index: int, visiting: Set<int>) -> Synthesis
    decreases unvisited(doc.len(), visiting.insert(index)).len(), 3int, 0int,
{
    let inside = synth_fields(doc, doc[index].fields, visiting.insert(index));
    Synthesis { json: Json::Object(inside.members), notes: inside.notes }
}

/// The placeholder of a document with the record at `root` as its root: an
/// empty object where there is no such record.
pub open spec fn placeholder(doc: Seq<StructModel>, root: int) -> Synthesis {
    if 0 <= root < doc.len() {
        synth_record(doc, root, Set::empty())
    } else {
        Synthesis { json: Json::Object(Seq::empty()), notes: Seq::empty() }
    }
}

/// The placeholder of a document: that of its last record.
pub open spec fn document_placeholder(doc: Seq<StructModel>) -> Synthesis {
    placeholder(doc, doc.len() - 1)
}

/// What `find_struct` finds is the first record of that name at or after
/// `from`, and it finds one wherever there is one.
pub proof fn lemma_find_struct(doc: Seq<StructModel>, name: Seq<char>, from: int)
    requires
        0 <= from,
    ensures
        match find_struct(doc, name, from) {
            Some(index) => {
                &&& from <= index < doc.len()
                &&& doc[index].name == name
                &&& forall|i: int| from <= i < index ==> (#[trigger] doc[i]).name != name
            },
            None => forall|i: int| from <= i < doc.len() ==> (#[trigger] doc[i]).name != name,
        },
    decreases doc.len() - from,
{
    if from < doc.len() && doc[from].name != name {
        lemma_find_struct(doc, name, from + 1);
    }
}

/// The set of records not under expansion is finite, and loses one element
/// when a record of it comes under expansion.
pub proof fn lemma_unvisited_shrinks(count: nat, visiting: Set<int>, index: int)
    requires
        0 <= index < count,
        !visiting.contains(index),
    ensures
        unvisited(count, visiting).finite(),
        unvisited(count, visiting.insert(index)).len() < unvisited(count, visiting).len(),
{
    let all = vstd::set_lib::set_int_range(0, count as int);
    vstd::set_lib::lemma_int_range(0, count as int);
    vstd::set_lib::lemma_len_subset(unvisited(count, visiting), all);
    assert(unvisited(count, visiting.insert(index)) =~= unvisited(count, visiting).remove(index));
}

/// The names of `fields`, in order.
pub open spec fn field_names(fields: Seq<FieldModel>) -> Seq<Seq<char>> {
    fields.map_values(|field: FieldModel| field.name)
}

/// `names` without the repetitions: each name where it first occurs.
pub open spec fn first_occurrences(names: Seq<Seq<char>>) -> Seq<Seq<char>>
    decreases names.len(),
{
    if names.len() == 0 {
        Seq::empty()
    } else {
        let before = first_occurrences(names.drop_last());
        if before.contains(names.last()) {
            before
        } else {
            before.push(names.last())
        }
    }
}

/// Every name is among its first occurrences, and nothing else is.
pub proof fn lemma_first_occurrences_hold(names: Seq<Seq<char>>, name: Seq<char>)
    ensures
        first_occurrences(names).contains(name) <==> names.contains(name),
    decreases names.len(),
{
    if names.len() > 0 {
        let front = names.drop_last();
        let last = names.last();
        let before = first_occurrences(front);
        let all = first_occurrences(names);
        lemma_first_occurrences_hold(front, name);
        if all.contains(name) {
            let j = choose|j: int| 0 <= j < all.len() && all[j] == name;
            if j < before.len() {
                assert(before[j] == name);
                let i = choose|i: int| 0 <= i < front.len() && front[i] == name;
                assert(names[i] == name);
            } else {
                assert(names[names.len() - 1] == name);
            }
            assert(names.contains(name));
        }
        if names.contains(name) {
            let i = choose|i: int| 0 <= i < names.len() && names[i] == name;
            if i < names.len() - 1 {
                assert(front[i] == name);
                let k = choose|k: int| 0 <= k < before.len() && before[k] == name;
                assert(all[k] == name);
            } else if before.contains(last) {
                assert(all == before);
            } else {
                assert(all[before.len() as int] == name);
            }
            assert(all.contains(name));
        }
    }
}

/// Names that do not repeat are their own first occurrences.
pub proof fn lemma_first_occurrences_of_distinct(names: Seq<Seq<char>>)
    requires
        names.no_duplicates(),
    ensures
        first_occurrences(names) == names,
    decreases names.len(),
{
    if names.len() > 0 {
        let front = names.drop_last();
        lemma_first_occurrences_of_distinct(front);
        lemma_first_occurrences_hold(front, names.last());
        if front.contains(names.last()) {
            let i = choose|i: int| 0 <= i < front.len() && front[i] == names.last();
            assert(names[i] == names[names.len() - 1]);
        }
        assert(front.push(names.last()) =~= names);
    }
}

/// The keys that `fields` give are the names of the fields in source order,
/// each where it first occurs.
pub proof fn lemma_member_order(doc: Seq<StructModel>, fields: Seq<FieldModel>, visiting: Set<int>)
    ensures
        member_keys(synth_fields(doc, fields, visiting).members) == first_occurrences(
            field_names(fields),
        ),
    decreases fields.len(),
{
    if fields.len() == 0 {
        assert(member_keys(Seq::<(Seq<char>, Json)>::empty()) =~= Seq::empty());
    } else {
        let before = synth_fields(doc, fields.drop_last(), visiting);
        let value = synth_type(doc, fields.last().ty, visiting);
        lemma_member_order(doc, fields.drop_last(), visiting);
        lemma_members_insert_keys(before.members, fields.last().name, value.json);
        assert(field_names(fields).drop_last() =~= field_names(fields.drop_last()));
    }
}

/// The placeholder of a document is an object whose keys are the field
/// names of the last record and no others, in source order: each name
/// stands where it first occurs among the fields.
pub proof fn lemma_placeholder_keys(doc: Seq<StructModel>)
    requires
        doc.len() > 0,
    ensures
        document_placeholder(doc).json matches Json::Object(members) && member_keys(members)
            == first_occurrences(field_names(doc.last().fields)),
        field_names(doc.last().fields).no_duplicates() ==> (document_placeholder(doc).json
            matches Json::Object(members) && member_keys(members) == field_names(
            doc.last().fields,
        )),
{
    let root = doc.len() - 1;
    lemma_member_order(doc, doc[root].fields, Set::<int>::empty().insert(root));
    if field_names(doc.last().fields).no_duplicates() {
        lemma_first_occurrences_of_distinct(field_names(doc.last().fields));
    }
}

/// A record without fields gives an empty object and no notes, whatever
/// stands around it.
pub proof fn lemma_record_without_fields(doc: Seq<StructModel>, index: int, visiting: Set<int>)
    requires
        doc[index].fields.len() == 0,
    ensures
        synth_record(doc, index, visiting) == (Synthesis {
            json: Json::Object(Seq::empty()),
            notes: Seq::empty(),
        }),
{
}

/// Whether no reference was cut: none of `notes` is a recursive reference.
pub open spec fn uncut(notes: Seq<DiagnosticModel>) -> bool {
    forall|i: int| 0 <= i < notes.len() ==> !((#[trigger] notes[i]) is RecursiveReference)
}

/// Where no reference was cut, the placeholder of a reference is the same
/// with fewer records under expansion.
pub proof fn lemma_uncut_reference(
    doc: Seq<StructModel>,
    name: Seq<char>,
    visiting: Set<int>,
    fewer: Set<int>,
)
    requires
        fewer.subset_of(visiting),
        uncut(synth_reference(doc, name, visiting).notes),
    ensures
        synth_reference(doc, name, fewer) == synth_reference(doc, name, visiting),
    decreases unvisited(doc.len(), visiting).len(), 0int, 0int,
{
    match find_struct(doc, name, 0) {
        None => {},
        Some(index) => {
            if visiting.contains(index) {
                assert(synth_reference(doc, name, visiting).notes[0] is RecursiveReference);
            } else {
                lemma_find_struct(doc, name, 0);
                lemma_unvisited_shrinks(doc.len(), visiting, index);
                lemma_uncut_record(doc, index, visiting, fewer);
            }
        },
    }
}

/// Where no reference was cut, the placeholder of a type is the same with
/// fewer records under expansion.
pub proof fn lemma_uncut_type(
    doc: Seq<StructModel>,
    ty: TypeModel,
    visiting: Set<int>,
    fewer: Set<int>,
)
    requires
        fewer.subset_of(visiting),
        uncut(synth_type(doc, ty, visiting).notes),
    ensures
        synth_type(doc, ty, fewer) == synth_type(doc, ty, visiting),
    decreases unvisited(doc.len(), visiting).len(), 1int, 0int,
{
    match ty {
        TypeModel::Custom(name) => lemma_uncut_reference(doc, name, visiting, fewer),
        TypeModel::Array(inner) => match *inner {
            TypeModel::Custom(name) => lemma_uncut_reference(doc, name, visiting, fewer),
            _ => {},
        },
        _ => {},
    }
}

/// Where no reference was cut, the members that fields give are the same
/// with fewer records under expansion.
pub proof fn lemma_uncut_fields(
    doc: Seq<StructModel>,
    fields: Seq<FieldModel>,
    visiting: Set<int>,
    fewer: Set<int>,
)
    requires
        fewer.subset_of(visiting),
        uncut(synth_fields(doc, fields, visiting).notes),
    ensures
        synth_fields(doc, fields, fewer) == synth_fields(doc, fields, visiting),
    decreases unvisited(doc.len(), visiting).len(), 2int, fields.len(),
{
    if fields.len() > 0 {
        let before = synth_fields(doc, fields.drop_last(), visiting);
        let value = synth_type(doc, fields.last().ty, visiting);
        let all = before.notes + value.notes;
        assert forall|i: int| 0 <= i < before.notes.len() implies !((
        #[trigger] before.notes[i]) is RecursiveReference) by {
            assert(all[i] == before.notes[i]);
        }
        assert forall|i: int| 0 <= i < value.notes.len() implies !((
        #[trigger] value.notes[i]) is RecursiveReference) by {
            assert(all[before.notes.len() + i] == value.notes[i]);
        }
        lemma_uncut_fields(doc, fields.drop_last(), visiting, fewer);
        lemma_uncut_type(doc, fields.last().ty, visiting, fewer);
    }
}

/// Where no reference was cut, the placeholder of a record does not depend
/// on which records were under expansion: it is what plain recursion gives.
/// So the bookkeeping changes the placeholder only of a document whose
/// references run in a circle.
pub proof fn lemma_uncut_record(
    doc: Seq<StructModel>,
    index: int,
    visiting: Set<int>,
    fewer: Set<int>,
)
    requires
        fewer.subset_of(visiting),
        uncut(synth_record(doc, index, visiting).notes),
    ensures
        synth_record(doc, index, fewer) == synth_record(doc, index, visiting),
    decreases unvisited(doc.len(), visiting.insert(index)).len(), 3int, 0int,
{
    lemma_uncut_fields(doc, doc[index].fields, visiting.insert(index), fewer.insert(index));
}

/// Whether two documents have the same records but for their decorators:
/// the same names and the same fields, position by position.
pub open spec fn same_records(first: Seq<StructModel>, second: Seq<StructModel>) -> bool {
    &&& first.len() == second.len()
    &&& forall|i: int|
        0 <= i < first.len() ==> (#[trigger] first[i]).name == second[i].name && first[i].fields
            == second[i].fields
}

/// A name is found at the same place in documents with the same records.
pub proof fn lemma_find_ignores_decorators(
    first: Seq<StructModel>,
    second: Seq<StructModel>,
    name: Seq<char>,
    from: int,
)
    requires
        same_records(first, second),
    ensures
        find_struct(first, name, from) == find_struct(second, name, from),
    decreases first.len() - from,
{
    if 0 <= from < first.len() {
        assert(first[from].name == second[from].name);
        if first[from].name != name {
            lemma_find_ignores_decorators(first, second, name, from + 1);
        }
    }
}

/// The placeholder of a reference does not read the decorators.
pub proof fn lemma_reference_ignores_decorators(
    first: Seq<StructModel>,
    second: Seq<StructModel>,
    name: Seq<char>,
    visiting: Set<int>,
)
    requires
        same_records(first, second),
    ensures
        synth_reference(first, name, visiting) == synth_reference(second, name, visiting),
    decreases unvisited(first.len(), visiting).len(), 0int, 0int,
{
    lemma_find_ignores_decorators(first, second, name, 0);
    if let Some(index) = find_struct(first, name, 0) {
        if !visiting.contains(index) {
            lemma_find_struct(first, name, 0);
            lemma_unvisited_shrinks(first.len(), visiting, index);
            lemma_record_ignores_decorators(first, second, index, visiting);
        }
    }
}

/// The placeholder of a type does not read the decorators.
pub proof fn lemma_type_ignores_decorators(
    first: Seq<StructModel>,
    second: Seq<StructModel>,
    ty: TypeModel,
    visiting: Set<int>,
)
    requires
        same_records(first, second),
    ensures
        synth_type(first, ty, visiting) == synth_type(second, ty, visiting),
    decreases unvisited(first.len(), visiting).len(), 1int, 0int,
{
    match ty {
        TypeModel::Custom(name) => lemma_reference_ignores_decorators(
            first,
            second,
            name,
            visiting,
        ),
        TypeModel::Array(inner) => match *inner {
            TypeModel::Custom(name) => lemma_reference_ignores_decorators(
                first,
                second,
                name,
                visiting,
            ),
            _ => {},
        },
        _ => {},
    }
}

/// The members that fields give do not read the decorators.
pub proof fn lemma_fields_ignore_decorators(
    first: Seq<StructModel>,
    second: Seq<StructModel>,
    fields: Seq<FieldModel>,
    visiting: Set<int>,
)
    requires
        same_records(first, second),
    ensures
        synth_fields(first, fields, visiting) == synth_fields(second, fields, visiting),
    decreases unvisited(first.len(), visiting).len(), 2int, fields.len(),
{
    if fields.len() > 0 {
        lemma_fields_ignore_decorators(first, second, fields.drop_last(), visiting);
        lemma_type_ignores_decorators(first, second, fields.last().ty, visiting);
    }
}

/// The placeholder of a record does not read the decorators: in documents
/// with the same records but for their decorators, the record at one place
/// has one placeholder and one list of notes.
pub proof fn lemma_record_ignores_decorators(
    first: Seq<StructModel>,
    second: Seq<StructModel>,
    index: int,
    visiting: Set<int>,
)
    requires
        same_records(first, second),
        0 <= index < first.len(),
    ensures
        synth_record(first, index, visiting) == synth_record(second, index, visiting),
    decreases unvisited(first.len(), visiting.insert(index)).len(), 3int, 0int,
{
    assert(first[index].fields == second[index].fields);
    lemma_fields_ignore_decorators(first, second, first[index].fields, visiting.insert(index));
}

} // verus!
