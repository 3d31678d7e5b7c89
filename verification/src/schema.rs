//! The constraint schema: a tree of field descriptors, and the value trees
//! that conform to it.

use crate::failure::Failure;
use crate::grammar::Grammar;
use vstd::prelude::*;

verus! {

/// The numeric type of a field.
#[derive(Clone, Copy, Debug)]
pub enum NumericKind {
    /// An unsigned 8-bit integer.
    Byte,
    /// A signed 64-bit integer.
    Integer,
    /// A double-precision number, held as its 64 bits.
    Float,
}

/// The acceptance predicate of a numeric field.
#[derive(Clone, Copy, Debug)]
pub enum Predicate {
    /// Every candidate is accepted.
    Any,
    /// An integer strictly greater than the bound.
    Above(i64),
    /// A double-precision number that is neither infinite nor NaN.
    Finite,
}

/// How the value of one field is produced.
#[derive(Debug)]
pub enum Descriptor {
    /// A text of the grammar.
    Literal(Grammar),
    /// A number of the kind that the predicate accepts.
    Numeric(NumericKind, Predicate),
    /// True or false.
    Boolean,
    /// The inner value, present in the given percentage of cases, else absent.
    Optional(Box<Descriptor>, u8),
    /// Between `min` and `max` inner values, both ends included.
    Sequence(Box<Descriptor>, usize, usize),
    /// One value for each field, in the order of the fields.
    Record(Vec<Field>),
}

/// A named field of a record.
#[derive(Debug)]
pub struct Field {
    /// The name inside the schema.
    pub name: String,
    /// The key in the assembled document.
    pub key: String,
    pub descriptor: Descriptor,
}

/// A generated value tree.
#[derive(Debug)]
pub enum Value {
    Text(Vec<u8>),
    Integer(i64),
    /// The 64 bits of a double-precision number.
    Float(u64),
    Boolean(bool),
    /// The marker of an optional value that was not generated.
    Absent,
    List(Vec<Value>),
    /// The values of a record's fields, in the order of the fields.
    Record(Vec<Value>),
}

/// The mathematical content of a value tree.
pub enum Tree {
    Text(Seq<u8>),
    Integer(i64),
    Float(u64),
    Boolean(bool),
    Absent,
    List(Seq<Tree>),
    Record(Seq<Tree>),
}

/// The rank of a part of a value among the parts of that value: the whole
/// value ranks above each count of its items.
pub open spec fn part_rank(part: Option<nat>) -> nat {
    match part {
        None => (usize::MAX + 1) as nat,
        Some(n) => n,
    }
}

/// The content of a value tree, as a sequence of one; or, with a part `n`
/// named, the contents of the first `n` items of a list or a record.
pub open spec fn content(value: Value, part: Option<nat>) -> Seq<Tree>
    decreases value, part_rank(part),
{
    match part {
        Some(n) => if n == 0 || n > usize::MAX {
            Seq::empty()
        } else {
            match value {
                Value::List(items) => if n <= items@.len() {
                    content(value, Some((n - 1) as nat)) + content(items@[n - 1], None)
                } else {
                    Seq::empty()
                },
                Value::Record(items) => if n <= items@.len() {
                    content(value, Some((n - 1) as nat)) + content(items@[n - 1], None)
                } else {
                    Seq::empty()
                },
                _ => Seq::empty(),
            }
        },
        None => seq![
            match value {
                Value::Text(text) => Tree::Text(text@),
                Value::Integer(x) => Tree::Integer(x),
                Value::Float(bits) => Tree::Float(bits),
                Value::Boolean(b) => Tree::Boolean(b),
                Value::Absent => Tree::Absent,
                Value::List(items) => if items@.len() <= usize::MAX {
                    Tree::List(content(value, Some(items@.len())))
                } else {
                    Tree::Absent
                },
                Value::Record(items) => if items@.len() <= usize::MAX {
                    Tree::Record(content(value, Some(items@.len())))
                } else {
                    Tree::Absent
                },
            },
        ],
    }
}

impl View for Value {
    type V = Tree;

    open spec fn view(&self) -> Tree {
        content(*self, None)[0]
    }
}

/// The contents of the values, one by one.
pub open spec fn trees_of(values: Seq<Value>) -> Seq<Tree> {
    Seq::new(values.len(), |i: int| values[i]@)
}

/// The contents of the first `n` items of a list or a record are the
/// contents of those items, one by one.
pub proof fn lemma_content_of_items(value: Value, items: Vec<Value>, n: nat)
    requires
        value == Value::List(items) || value == Value::Record(items),
        n <= items@.len(),
    ensures
        content(value, Some(n)) == trees_of(items@).subrange(0, n as int),
    decreases n,
{
    assert(items@.len() == items.len());
    if n > 0 {
        lemma_content_of_items(value, items, (n - 1) as nat);
        assert(content(items@[n - 1], None) =~= seq![items@[n - 1]@]);
        assert(content(value, Some(n)) =~= trees_of(items@).subrange(0, n as int));
    } else {
        assert(content(value, Some(n)) =~= trees_of(items@).subrange(0, n as int));
    }
}

/// The content of a list is the contents of its items, and so for a record.
pub proof fn lemma_view_of_collections(values: Vec<Value>)
    ensures
        Value::List(values)@ == Tree::List(trees_of(values@)),
        Value::Record(values)@ == Tree::Record(trees_of(values@)),
{
    assert(values@.len() == values.len());
    lemma_content_of_items(Value::List(values), values, values@.len());
    lemma_content_of_items(Value::Record(values), values, values@.len());
    assert(trees_of(values@).subrange(0, values@.len() as int) =~= trees_of(values@));
}

/// The signed integer with the same 64 bits as `draw`.
pub open spec fn signed_of(draw: u64) -> i64 {
    if draw <= 0x7fff_ffff_ffff_ffff {
        draw as i64
    } else {
        (draw - 0x1_0000_0000_0000_0000) as i64
    }
}

/// The exponent bits of a double-precision number.
pub open spec fn exponent_of(bits: u64) -> u64 {
    (bits >> 52) & 0x7ff
}

/// The candidate of the kind that a draw stands for.
pub open spec fn candidate(kind: NumericKind, draw: u64) -> Value {
    match kind {
        NumericKind::Byte => Value::Integer((draw % 256) as i64),
        NumericKind::Integer => Value::Integer(signed_of(draw)),
        NumericKind::Float => Value::Float(draw),
    }
}

/// The value is a number of the kind.
pub open spec fn of_kind(kind: NumericKind, value: Value) -> bool {
    match kind {
        NumericKind::Byte => value matches Value::Integer(x) && 0 <= x < 256,
        NumericKind::Integer => value is Integer,
        NumericKind::Float => value is Float,
    }
}

/// The predicate accepts the value.
pub open spec fn admits(predicate: Predicate, value: Value) -> bool {
    match predicate {
        Predicate::Any => true,
        Predicate::Above(bound) => value matches Value::Integer(x) && x > bound,
        Predicate::Finite => value matches Value::Float(bits) && exponent_of(bits) != 0x7ff,
    }
}

impl Descriptor {
    /// The descriptor can be generated from: its grammars describe texts, its
    /// bounds are in order, and its percentages are at most a hundred.
    pub open spec fn wf(&self) -> bool
        decreases self,
    {
        match self {
            Descriptor::Literal(grammar) => grammar.wf(),
            Descriptor::Numeric(_, _) => true,
            Descriptor::Boolean => true,
            Descriptor::Optional(inner, percent) => *percent <= 100 && inner.wf(),
            Descriptor::Sequence(inner, min, max) => *min <= *max && inner.wf(),
            Descriptor::Record(fields) => forall|i: int|
                0 <= i < fields@.len() ==> (#[trigger] fields@[i]).descriptor.wf(),
        }
    }

    /// Some numeric field below the descriptor has a predicate that can reject.
    pub open spec fn filtered(&self) -> bool
        decreases self,
    {
        match self {
            Descriptor::Literal(_) => false,
            Descriptor::Numeric(_, predicate) => !(predicate is Any),
            Descriptor::Boolean => false,
            Descriptor::Optional(inner, _) => inner.filtered(),
            Descriptor::Sequence(inner, _, _) => inner.filtered(),
            Descriptor::Record(fields) => exists|i: int|
                0 <= i < fields@.len() && (#[trigger] fields@[i]).descriptor.filtered(),
        }
    }

    /// The value tree satisfies the descriptor.
    pub open spec fn conforms(&self, value: Value) -> bool
        decreases self,
    {
        match self {
            Descriptor::Literal(grammar) => value matches Value::Text(text) && grammar.accepts(
                text@,
            ),
            Descriptor::Numeric(kind, predicate) => of_kind(*kind, value) && admits(
                *predicate,
                value,
            ),
            Descriptor::Boolean => value is Boolean,
            Descriptor::Optional(inner, _) => value is Absent || inner.conforms(value),
            Descriptor::Sequence(inner, min, max) => {
                &&& value is List
                &&& *min <= value->List_0@.len()
                &&& value->List_0@.len() <= *max
                &&& forall|i: int|
                    0 <= i < value->List_0@.len() ==> inner.conforms(#[trigger] value->List_0@[i])
            },
            Descriptor::Record(fields) => {
                &&& value is Record
                &&& value->Record_0@.len() == fields@.len()
                &&& forall|i: int|
                    0 <= i < fields@.len() ==> (#[trigger] fields@[i]).descriptor.conforms(
                        value->Record_0@[i],
                    )
            },
        }
    }

    /// The fields of a record descriptor, in their fixed order; none for a
    /// descriptor of another kind.
    pub fn fields(&self) -> (fields: Option<&Vec<Field>>)
        ensures
            match fields {
                Some(held) => *self == Descriptor::Record(*held),
                None => !(self is Record),
            },
    {
        match self {
            Descriptor::Record(fields) => Some(fields),
            _ => None,
        }
    }

    /// Checks that the descriptor can be generated from.
    pub fn check(&self) -> (outcome: Result<(), Failure>)
        ensures
            outcome is Ok <==> self.wf(),
            outcome is Err ==> outcome == Err::<(), Failure>(Failure::MalformedGrammar),
        decreases self,
    {
        match self {
            Descriptor::Literal(grammar) => grammar.check(),
            Descriptor::Numeric(_, _) => Ok(()),
            Descriptor::Boolean => Ok(()),
            Descriptor::Optional(inner, percent) => {
                if *percent > 100 {
                    Err(Failure::MalformedGrammar)
                } else {
                    inner.check()
                }
            },
            Descriptor::Sequence(inner, min, max) => {
                if *min > *max {
                    Err(Failure::MalformedGrammar)
                } else {
                    inner.check()
                }
            },
            Descriptor::Record(fields) => {
                let mut i: usize = 0;
                while i < fields.len()
                    invariant
                        i <= fields@.len(),
                        *self == Descriptor::Record(*fields),
                        forall|j: int| 0 <= j < i ==> (#[trigger] fields@[j]).descriptor.wf(),
                    decreases fields@.len() - i,
                {
                    assert(decreases_to!(*self => self->Record_0));
                    assert(decreases_to!(fields => fields@[i as int]));
                    let inner = fields[i].descriptor.check();
                    if inner.is_err() {
                        assert(!fields@[i as int].descriptor.wf());
                        return inner;
                    }
                    i = i + 1;
                }
                Ok(())
            },
        }
    }
}

/// Two descriptors lay down the same: texts of the same pieces, numbers of
/// the same kind under the same predicate, the same presence and bounds, and
/// records of equally many fields with the same keys, field by field.
pub open spec fn same_descriptor(first: Descriptor, second: Descriptor) -> bool
    decreases first,
{
    match first {
        Descriptor::Literal(grammar) => second is Literal && second->Literal_0@ == grammar@,
        Descriptor::Numeric(kind, predicate) => second is Numeric && second->Numeric_0 == kind
            && second->Numeric_1 == predicate,
        Descriptor::Boolean => second is Boolean,
        Descriptor::Optional(inner, percent) => second is Optional && second->Optional_1
            == percent && same_descriptor(*inner, *second->Optional_0),
        Descriptor::Sequence(inner, min, max) => second is Sequence && second->Sequence_1 == min
            && second->Sequence_2 == max && same_descriptor(*inner, *second->Sequence_0),
        Descriptor::Record(fields) => {
            &&& second is Record
            &&& second->Record_0@.len() == fields@.len()
            &&& forall|i: int|
                0 <= i < fields@.len() ==> (#[trigger] fields@[i]).key@
                    == second->Record_0@[i].key@
            &&& forall|i: int|
                0 <= i < fields@.len() ==> same_descriptor(
                    (#[trigger] fields@[i]).descriptor,
                    second->Record_0@[i].descriptor,
                )
        },
    }
}

} // verus!
