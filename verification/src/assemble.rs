//! The record assembler: from a value tree and its schema to the sparse
//! document that is handed on for storage.

use crate::failure::Failure;
use crate::schema::{lemma_view_of_collections, same_descriptor, trees_of};
use crate::schema::{Descriptor, Field, NumericKind, Value};
use vstd::prelude::*;

verus! {

/// An assembled document.
#[derive(Debug)]
pub enum Document {
    Text(Vec<u8>),
    Integer(i64),
    /// The 64 bits of a double-precision number.
    Float(u64),
    Boolean(bool),
    List(Vec<Document>),
    /// Keys with their documents, in the order of the schema's fields.
    Object(Vec<Entry>),
}

/// One key of a document with what it holds.
#[derive(Debug)]
pub struct Entry {
    pub key: String,
    pub value: Document,
}

/// The number of values among the first `n` that are not absent.
pub open spec fn present_before(values: Seq<Value>, n: int) -> int
    decreases n,
{
    if n <= 0 {
        0
    } else if values[n - 1] is Absent {
        present_before(values, n - 1)
    } else {
        present_before(values, n - 1) + 1
    }
}

impl Descriptor {
    /// The value tree has the structure that the descriptor lays down. An
    /// absent value is in place only as the value of an optional field of a
    /// record.
    pub open spec fn shapes(&self, value: Value) -> bool
        decreases self,
    {
        match self {
            Descriptor::Literal(_) => value is Text,
            Descriptor::Numeric(kind, _) => if *kind is Float {
                value is Float
            } else {
                value is Integer
            },
            Descriptor::Boolean => value is Boolean,
            Descriptor::Optional(inner, _) => !(value is Absent) && inner.shapes(value),
            Descriptor::Sequence(inner, _, _) => {
                &&& value is List
                &&& forall|i: int|
                    0 <= i < value->List_0@.len() ==> inner.shapes(#[trigger] value->List_0@[i])
            },
            Descriptor::Record(fields) => {
                &&& value is Record
                &&& value->Record_0@.len() == fields@.len()
                &&& forall|i: int|
                    0 <= i < fields@.len() ==> ((#[trigger] fields@[i]).descriptor is Optional
                        && value->Record_0@[i] is Absent) || fields@[i].descriptor.shapes(
                        value->Record_0@[i],
                    )
            },
        }
    }

    /// The document is the assembled form of the value tree: texts, numbers
    /// and truth values as they are, lists item by item, and a record as the
    /// keys of its fields whose value is not absent, in the order of the
    /// fields.
    pub open spec fn renders(&self, value: Value, document: Document) -> bool
        decreases self,
    {
        match self {
            Descriptor::Literal(_) => document is Text && document->Text_0@ == value->Text_0@,
            Descriptor::Numeric(kind, _) => if *kind is Float {
                document is Float && document->Float_0 == value->Float_0
            } else {
                document is Integer && document->Integer_0 == value->Integer_0
            },
            Descriptor::Boolean => document is Boolean && document->Boolean_0
                == value->Boolean_0,
            Descriptor::Optional(inner, _) => inner.renders(value, document),
            Descriptor::Sequence(inner, _, _) => {
                &&& document is List
                &&& document->List_0@.len() == value->List_0@.len()
                &&& forall|i: int|
                    0 <= i < value->List_0@.len() ==> inner.renders(
                        value->List_0@[i],
                        #[trigger] document->List_0@[i],
                    )
            },
            Descriptor::Record(fields) => {
                &&& document is Object
                &&& document->Object_0@.len() == present_before(
                    value->Record_0@,
                    fields@.len() as int,
                )
                &&& forall|i: int|
                    0 <= i < fields@.len() && !(value->Record_0@[i] is Absent) ==> (
                    #[trigger] fields@[i]).descriptor.renders(
                        value->Record_0@[i],
                        document->Object_0@[present_before(value->Record_0@, i)].value,
                    )
                &&& forall|i: int|
                    0 <= i < fields@.len() && !(value->Record_0@[i] is Absent) ==> (
                    #[trigger] fields@[i]).key@ == document->Object_0@[present_before(
                        value->Record_0@,
                        i,
                    )].key@
            },
        }
    }
}

/// The count of values that are not absent is at least zero and at most the
/// number of values counted.
pub proof fn lemma_present_before_bounds(values: Seq<Value>, n: int)
    requires
        0 <= n,
    ensures
        0 <= present_before(values, n) <= n,
    decreases n,
{
    if n > 0 {
        lemma_present_before_bounds(values, n - 1);
    }
}

fn copy_text(text: &Vec<u8>) -> (copy: Vec<u8>)
    ensures
        copy@ == text@,
{
    let mut copy: Vec<u8> = Vec::new();
    let mut i: usize = 0;
    while i < text.len()
        invariant
            i <= text@.len(),
            copy@ == text@.subrange(0, i as int),
        decreases text@.len() - i,
    {
        copy.push(text[i]);
        assert(copy@ =~= text@.subrange(0, i + 1));
        i = i + 1;
    }
    assert(text@.subrange(0, i as int) =~= text@);
    copy
}

/// Assembles the document of a value tree under its descriptor. The tree must
/// have the structure of the descriptor; where it has not, nothing is
/// assembled.
pub fn assemble(descriptor: &Descriptor, value: &Value) -> (outcome: Result<Document, Failure>)
    ensures
        outcome is Ok <==> descriptor.shapes(*value),
        outcome matches Ok(document) ==> descriptor.renders(*value, document),
        outcome matches Err(failure) ==> failure == Failure::AssemblyInconsistency,
    decreases descriptor,
{
    match descriptor {
        Descriptor::Literal(_) => match value {
            Value::Text(text) => Ok(Document::Text(copy_text(text))),
            _ => Err(Failure::AssemblyInconsistency),
        },
        Descriptor::Numeric(kind, _) => match kind {
            NumericKind::Float => match value {
                Value::Float(bits) => Ok(Document::Float(*bits)),
                _ => Err(Failure::AssemblyInconsistency),
            },
            _ => match value {
                Value::Integer(x) => Ok(Document::Integer(*x)),
                _ => Err(Failure::AssemblyInconsistency),
            },
        },
        Descriptor::Boolean => match value {
            Value::Boolean(b) => Ok(Document::Boolean(*b)),
            _ => Err(Failure::AssemblyInconsistency),
        },
        Descriptor::Optional(inner, _) => match value {
            Value::Absent => Err(Failure::AssemblyInconsistency),
            _ => assemble(inner, value),
        },
        Descriptor::Sequence(inner, _, _) => match value {
            Value::List(items) => {
                let mut documents: Vec<Document> = Vec::new();
                while documents.len() < items.len()
                    invariant
                        documents@.len() <= items@.len(),
                        descriptor is Sequence,
                        descriptor->Sequence_0 == *inner,
                        *value == Value::List(*items),
                        forall|i: int|
                            0 <= i < documents@.len() ==> inner.shapes(#[trigger] items@[i]),
                        forall|i: int|
                            0 <= i < documents@.len() ==> inner.renders(
                                items@[i],
                                #[trigger] documents@[i],
                            ),
                    decreases items@.len() - documents@.len(),
                {
                    let i: usize = documents.len();
                    assert(decreases_to!(*descriptor => descriptor->Sequence_0));
                    match assemble(inner, &items[i]) {
                        Ok(document) => {
                            documents.push(document);
                        },
                        Err(failure) => {
                            assert(!inner.shapes(value->List_0@[i as int]));
                            return Err(failure);
                        },
                    }
                }
                assert(value->List_0@ == items@);
                Ok(Document::List(documents))
            },
            _ => Err(Failure::AssemblyInconsistency),
        },
        Descriptor::Record(fields) => match value {
            Value::Record(values) => {
                if values.len() != fields.len() {
                    return Err(Failure::AssemblyInconsistency);
                }
                let mut entries: Vec<Entry> = Vec::new();
                let mut i: usize = 0;
                while i < fields.len()
                    invariant
                        i <= fields@.len(),
                        values@.len() == fields@.len(),
                        descriptor is Record,
                        descriptor->Record_0 == *fields,
                        *value == Value::Record(*values),
                        entries@.len() == present_before(values@, i as int),
                        forall|j: int|
                            0 <= j < i ==> ((#[trigger] fields@[j]).descriptor is Optional
                                && values@[j] is Absent) || fields@[j].descriptor.shapes(values@[j]),
                        forall|j: int|
                            0 <= j < i && !(values@[j] is Absent) ==> 0 <= present_before(
                                values@,
                                j,
                            ) < entries@.len() && (#[trigger] fields@[j]).descriptor.renders(
                                values@[j],
                                entries@[present_before(values@, j)].value,
                            ),
                        forall|j: int|
                            0 <= j < i && !(values@[j] is Absent) ==> 0 <= present_before(
                                values@,
                                j,
                            ) < entries@.len() && (#[trigger] fields@[j]).key@
                                == entries@[present_before(values@, j)].key@,
                    decreases fields@.len() - i,
                {
                    let field: &Field = &fields[i];
                    let held: &Value = &values[i];
                    assert(decreases_to!(*descriptor => descriptor->Record_0));
                    assert(decreases_to!(fields => fields@[i as int]));
                    proof {
                        lemma_present_before_bounds(values@, i as int);
                    }
                    let skip: bool = matches!(held, Value::Absent) && matches!(
                        field.descriptor,
                        Descriptor::Optional(_, _)
                    );
                    if !skip {
                        match assemble(&field.descriptor, held) {
                            Ok(document) => {
                                entries.push(Entry { key: field.key.clone(), value: document });
                            },
                            Err(failure) => {
                                assert(!descriptor->Record_0@[i as int].descriptor.shapes(
                                    value->Record_0@[i as int],
                                ));
                                return Err(failure);
                            },
                        }
                    }
                    i = i + 1;
                }
                assert(value->Record_0@ == values@);
                assert(descriptor->Record_0@ == fields@);
                Ok(Document::Object(entries))
            },
            _ => Err(Failure::AssemblyInconsistency),
        },
    }
}

/// No two of the fields have the same key.
pub open spec fn distinct_keys(fields: Seq<Field>) -> bool {
    forall|a: int, b: int|
        0 <= a < b < fields.len() ==> (#[trigger] fields[a]).key@ != (#[trigger] fields[b]).key@
}

/// Tells whether no two of the fields have the same key.
pub fn has_distinct_keys(fields: &Vec<Field>) -> (distinct: bool)
    ensures
        distinct == distinct_keys(fields@),
{
    let mut b: usize = 0;
    while b < fields.len()
        invariant
            b <= fields@.len(),
            forall|x: int, y: int|
                0 <= x < y < b ==> (#[trigger] fields@[x]).key@ != (#[trigger] fields@[y]).key@,
        decreases fields@.len() - b,
    {
        let mut a: usize = 0;
        while a < b
            invariant
                a <= b < fields@.len(),
                forall|x: int| 0 <= x < a ==> (#[trigger] fields@[x]).key@ != fields@[b as int].key@,
            decreases b - a,
        {
            if fields[a].key == fields[b].key {
                return false;
            }
            a = a + 1;
        }
        b = b + 1;
    }
    true
}

impl Descriptor {
    /// Absent values can arise only where the assembler leaves them out: the
    /// descriptor is not optional at its top, and below it no sequence has
    /// optional items.
    pub open spec fn sparse(&self) -> bool {
        !(self is Optional) && self.sparse_below()
    }

    /// Below the descriptor no sequence has optional items.
    pub open spec fn sparse_below(&self) -> bool
        decreases self,
    {
        match self {
            Descriptor::Optional(inner, _) => inner.sparse_below(),
            Descriptor::Sequence(inner, _, _) => !(**inner is Optional) && inner.sparse_below(),
            Descriptor::Record(fields) => forall|i: int|
                0 <= i < fields@.len() ==> (#[trigger] fields@[i]).descriptor.sparse_below(),
            _ => true,
        }
    }
}

/// Only an optional descriptor is satisfied by the absent value.
pub proof fn lemma_only_optional_admits_absent(descriptor: Descriptor)
    requires
        descriptor.conforms(Value::Absent),
    ensures
        descriptor is Optional,
{
}

/// A value tree that satisfies a descriptor and is not absent has the
/// structure of the descriptor, provided that no sequence below the
/// descriptor has optional items: assembling it cannot fail.
pub proof fn lemma_conforming_value_is_shaped(descriptor: Descriptor, value: Value)
    requires
        descriptor.sparse_below(),
        descriptor.conforms(value),
        !(value is Absent),
    ensures
        descriptor.shapes(value),
    decreases descriptor,
{
    match descriptor {
        Descriptor::Optional(inner, _) => {
            lemma_conforming_value_is_shaped(*inner, value);
        },
        Descriptor::Sequence(inner, _, _) => {
            let items = value->List_0@;
            assert forall|i: int| 0 <= i < items.len() implies inner.shapes(#[trigger] items[i]) by {
                if items[i] is Absent {
                    lemma_only_optional_admits_absent(*inner);
                }
                lemma_conforming_value_is_shaped(*inner, items[i]);
            }
        },
        Descriptor::Record(fields) => {
            let values = value->Record_0@;
            assert forall|i: int| 0 <= i < fields@.len() implies ((#[trigger] fields@[i]).descriptor
                is Optional && values[i] is Absent) || fields@[i].descriptor.shapes(values[i]) by {
                if values[i] is Absent {
                    lemma_only_optional_admits_absent(fields@[i].descriptor);
                } else {
                    lemma_conforming_value_is_shaped(fields@[i].descriptor, values[i]);
                }
            }
        },
        _ => {},
    }
}

/// A value that is not absent has a slot of its own among the counted ones.
pub proof fn lemma_present_slot_in_range(values: Seq<Value>, i: int, n: int)
    requires
        0 <= i < n,
        !(values[i] is Absent),
    ensures
        0 <= present_before(values, i) < present_before(values, n),
    decreases n,
{
    lemma_present_before_bounds(values, i);
    if i < n - 1 {
        lemma_present_slot_in_range(values, i, n - 1);
    }
}

/// Every slot below the count belongs to a value that is not absent.
pub proof fn lemma_slot_has_value(values: Seq<Value>, n: int, slot: int) -> (i: int)
    requires
        0 <= n,
        0 <= slot < present_before(values, n),
    ensures
        0 <= i < n,
        !(values[i] is Absent),
        present_before(values, i) == slot,
    decreases n,
{
    if !(values[n - 1] is Absent) && present_before(values, n - 1) == slot {
        n - 1
    } else {
        lemma_slot_has_value(values, n - 1, slot)
    }
}

/// Every field of a record that is not optional has its key in the assembled
/// document.
pub proof fn lemma_required_field_present(
    descriptor: Descriptor,
    value: Value,
    document: Document,
    i: int,
) -> (slot: int)
    requires
        descriptor is Record,
        descriptor.conforms(value),
        descriptor.renders(value, document),
        0 <= i < descriptor->Record_0@.len(),
        !(descriptor->Record_0@[i].descriptor is Optional),
    ensures
        document is Object,
        0 <= slot < document->Object_0@.len(),
        document->Object_0@[slot].key@ == descriptor->Record_0@[i].key@,
{
    let fields = descriptor->Record_0@;
    let values = value->Record_0@;
    assert(fields[i].descriptor.conforms(values[i]));
    if values[i] is Absent {
        lemma_only_optional_admits_absent(fields[i].descriptor);
    }
    lemma_present_slot_in_range(values, i, fields.len() as int);
    present_before(values, i)
}

/// No key of the assembled document belongs to a field whose value is
/// absent, where the keys of the record's fields are distinct.
pub proof fn lemma_absent_field_omitted(
    descriptor: Descriptor,
    value: Value,
    document: Document,
    i: int,
    slot: int,
)
    requires
        descriptor is Record,
        value is Record,
        value->Record_0@.len() == descriptor->Record_0@.len(),
        descriptor.renders(value, document),
        distinct_keys(descriptor->Record_0@),
        0 <= i < descriptor->Record_0@.len(),
        value->Record_0@[i] is Absent,
        0 <= slot < document->Object_0@.len(),
    ensures
        document->Object_0@[slot].key@ != descriptor->Record_0@[i].key@,
{
    let fields = descriptor->Record_0@;
    let values = value->Record_0@;
    let j = lemma_slot_has_value(values, fields.len() as int, slot);
    assert(fields[j].key@ == document->Object_0@[slot].key@);
    if j < i {
        assert(fields[j].key@ != fields[i].key@);
    } else {
        assert(fields[i].key@ != fields[j].key@);
    }
}

/// Two documents hold the same: the same text, number or truth value, lists
/// of equal length that hold the same item by item, or objects with the same
/// keys in the same order that hold the same under each key.
pub open spec fn same_document(first: Document, second: Document) -> bool
    decreases first,
{
    match first {
        Document::Text(text) => second is Text && second->Text_0@ == text@,
        Document::Integer(x) => second is Integer && second->Integer_0 == x,
        Document::Float(bits) => second is Float && second->Float_0 == bits,
        Document::Boolean(b) => second is Boolean && second->Boolean_0 == b,
        Document::List(items) => {
            &&& second is List
            &&& second->List_0@.len() == items@.len()
            &&& forall|i: int|
                0 <= i < items@.len() ==> same_document(
                    #[trigger] items@[i],
                    second->List_0@[i],
                )
        },
        Document::Object(entries) => {
            &&& second is Object
            &&& second->Object_0@.len() == entries@.len()
            &&& forall|i: int|
                0 <= i < entries@.len() ==> (#[trigger] entries@[i]).key@
                    == second->Object_0@[i].key@ && same_document(
                    entries@[i].value,
                    second->Object_0@[i].value,
                )
        },
    }
}

/// A value is absent exactly where its content is.
pub proof fn lemma_absent_content(value: Value)
    ensures
        value is Absent <==> value@ is Absent,
{
    match value {
        Value::List(items) => {
            assert(items@.len() == items.len());
        },
        Value::Record(items) => {
            assert(items@.len() == items.len());
        },
        _ => {},
    }
}

/// Values of equal content are absent together, so that equally many of
/// them are counted.
pub proof fn lemma_present_before_same(first: Seq<Value>, second: Seq<Value>, n: int)
    requires
        0 <= n <= first.len(),
        trees_of(first) == trees_of(second),
    ensures
        present_before(first, n) == present_before(second, n),
    decreases n,
{
    assert(trees_of(first).len() == first.len());
    assert(trees_of(second).len() == second.len());
    if n > 0 {
        lemma_present_before_same(first, second, n - 1);
        assert(trees_of(first)[n - 1] == first[n - 1]@);
        assert(trees_of(second)[n - 1] == second[n - 1]@);
        lemma_absent_content(first[n - 1]);
        lemma_absent_content(second[n - 1]);
    }
}

/// Whether a value tree has the structure of a descriptor depends on its
/// content alone.
pub proof fn lemma_equal_content_same_shape(descriptor: Descriptor, first: Value, second: Value)
    requires
        first@ == second@,
        descriptor.shapes(first),
    ensures
        descriptor.shapes(second),
    decreases descriptor,
{
    lemma_absent_content(first);
    lemma_absent_content(second);
    match descriptor {
        Descriptor::Optional(inner, _) => {
            lemma_equal_content_same_shape(*inner, first, second);
        },
        Descriptor::Sequence(inner, _, _) => {
            let a = first->List_0;
            lemma_view_of_collections(a);
            match second {
                Value::List(b) => {
                    lemma_view_of_collections(b);
                    assert(trees_of(a@).len() == trees_of(b@).len());
                    assert forall|i: int| 0 <= i < b@.len() implies inner.shapes(
                        #[trigger] b@[i],
                    ) by {
                        assert(trees_of(a@)[i] == a@[i]@);
                        assert(trees_of(b@)[i] == b@[i]@);
                        lemma_equal_content_same_shape(*inner, a@[i], b@[i]);
                    }
                },
                Value::Record(b) => {
                    lemma_view_of_collections(b);
                },
                _ => {},
            }
        },
        Descriptor::Record(fields) => {
            let a = first->Record_0;
            lemma_view_of_collections(a);
            match second {
                Value::Record(b) => {
                    lemma_view_of_collections(b);
                    assert(trees_of(a@).len() == trees_of(b@).len());
                    assert forall|i: int| 0 <= i < fields@.len() implies ((
                    #[trigger] fields@[i]).descriptor is Optional && b@[i] is Absent)
                        || fields@[i].descriptor.shapes(b@[i]) by {
                        assert(trees_of(a@)[i] == a@[i]@);
                        assert(trees_of(b@)[i] == b@[i]@);
                        lemma_absent_content(a@[i]);
                        lemma_absent_content(b@[i]);
                        if !(a@[i] is Absent) {
                            lemma_equal_content_same_shape(fields@[i].descriptor, a@[i], b@[i]);
                        }
                    }
                },
                Value::List(b) => {
                    lemma_view_of_collections(b);
                },
                _ => {},
            }
        },
        _ => {},
    }
}

/// Descriptors that lay down the same assemble the same: a value tree of the
/// structure of the one has the structure of the other, and its document
/// under the one is its document under the other.
pub proof fn lemma_same_descriptor_assembles_alike(
    first: Descriptor,
    second: Descriptor,
    value: Value,
    document: Document,
)
    requires
        same_descriptor(first, second),
        first.shapes(value),
        first.renders(value, document),
    ensures
        second.shapes(value),
        second.renders(value, document),
    decreases first,
{
    match first {
        Descriptor::Optional(inner, _) => {
            lemma_same_descriptor_assembles_alike(*inner, *second->Optional_0, value, document);
        },
        Descriptor::Sequence(inner, _, _) => {
            let other = *second->Sequence_0;
            let items = value->List_0@;
            assert forall|i: int| 0 <= i < items.len() implies other.shapes(#[trigger] items[i])
                && other.renders(items[i], document->List_0@[i]) by {
                lemma_same_descriptor_assembles_alike(*inner, other, items[i], document->List_0@[i]);
            }
            assert forall|i: int| 0 <= i < items.len() implies other.renders(
                items[i],
                #[trigger] document->List_0@[i],
            ) by {
                assert(other.shapes(items[i]));
            }
        },
        Descriptor::Record(fields) => {
            let others = second->Record_0@;
            let values = value->Record_0@;
            let entries = document->Object_0@;
            reveal_with_fuel(same_descriptor, 2);
            reveal_with_fuel(Descriptor::shapes, 2);
            assert forall|i: int| 0 <= i < others.len() implies ((
            #[trigger] others[i]).descriptor is Optional && values[i] is Absent)
                || others[i].descriptor.shapes(values[i]) by {
                assert(same_descriptor(fields@[i].descriptor, others[i].descriptor));
                if !(values[i] is Absent) {
                    lemma_present_slot_in_range(values, i, fields@.len() as int);
                    lemma_same_descriptor_assembles_alike(
                        fields@[i].descriptor,
                        others[i].descriptor,
                        values[i],
                        entries[present_before(values, i)].value,
                    );
                }
            }
            assert forall|i: int| 0 <= i < others.len() && !(values[i] is Absent) implies (
            #[trigger] others[i]).descriptor.renders(
                values[i],
                entries[present_before(values, i)].value,
            ) && others[i].key@ == entries[present_before(values, i)].key@ by {
                assert(same_descriptor(fields@[i].descriptor, others[i].descriptor));
                assert(fields@[i].key@ == others[i].key@);
                lemma_present_slot_in_range(values, i, fields@.len() as int);
                lemma_same_descriptor_assembles_alike(
                    fields@[i].descriptor,
                    others[i].descriptor,
                    values[i],
                    entries[present_before(values, i)].value,
                );
            }
        },
        _ => {},
    }
}

/// The assembled document depends on the content of the value tree alone:
/// two value trees of equal content, both of the structure of the
/// descriptor, assemble to documents that hold the same.
pub proof fn lemma_equal_content_assembles_alike(
    descriptor: Descriptor,
    first: Value,
    second: Value,
    one: Document,
    other: Document,
)
    requires
        first@ == second@,
        descriptor.shapes(first),
        descriptor.shapes(second),
        descriptor.renders(first, one),
        descriptor.renders(second, other),
    ensures
        same_document(one, other),
    decreases descriptor,
{
    match descriptor {
        Descriptor::Optional(inner, _) => {
            lemma_equal_content_assembles_alike(*inner, first, second, one, other);
        },
        Descriptor::Sequence(inner, _, _) => {
            let a = first->List_0;
            let b = second->List_0;
            lemma_view_of_collections(a);
            lemma_view_of_collections(b);
            assert(trees_of(a@).len() == trees_of(b@).len());
            assert forall|i: int| 0 <= i < one->List_0@.len() implies same_document(
                #[trigger] one->List_0@[i],
                other->List_0@[i],
            ) by {
                assert(trees_of(a@)[i] == a@[i]@);
                assert(trees_of(b@)[i] == b@[i]@);
                lemma_equal_content_assembles_alike(
                    *inner,
                    a@[i],
                    b@[i],
                    one->List_0@[i],
                    other->List_0@[i],
                );
            }
        },
        Descriptor::Record(fields) => {
            let a = first->Record_0;
            let b = second->Record_0;
            let n = fields@.len() as int;
            lemma_view_of_collections(a);
            lemma_view_of_collections(b);
            assert(trees_of(a@).len() == trees_of(b@).len());
            lemma_present_before_same(a@, b@, n);
            assert forall|k: int| 0 <= k < one->Object_0@.len() implies (
            #[trigger] one->Object_0@[k]).key@ == other->Object_0@[k].key@ && same_document(
                one->Object_0@[k].value,
                other->Object_0@[k].value,
            ) by {
                let j = lemma_slot_has_value(a@, n, k);
                lemma_present_before_same(a@, b@, j);
                assert(trees_of(a@)[j] == a@[j]@);
                assert(trees_of(b@)[j] == b@[j]@);
                lemma_absent_content(a@[j]);
                lemma_absent_content(b@[j]);
                assert(!(b@[j] is Absent));
                assert(fields@[j].descriptor.shapes(a@[j]));
                assert(fields@[j].descriptor.shapes(b@[j]));
                lemma_equal_content_assembles_alike(
                    fields@[j].descriptor,
                    a@[j],
                    b@[j],
                    one->Object_0@[k].value,
                    other->Object_0@[k].value,
                );
            }
        },
        _ => {},
    }
}

} // verus!
