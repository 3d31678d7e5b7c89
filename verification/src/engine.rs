//! The generation engine: from a descriptor and a random source to a value
//! tree that conforms to the descriptor.

use crate::assemble::{assemble, lemma_conforming_value_is_shaped};
use crate::assemble::{lemma_equal_content_assembles_alike, same_document};
use crate::assemble::lemma_equal_content_same_shape;
use crate::assemble::{lemma_only_optional_admits_absent, Document};
use crate::failure::Failure;
use crate::grammar::{pieces_draws, pieces_text};
use crate::schema::{admits, candidate, of_kind};
use crate::schema::{lemma_view_of_collections, part_rank, same_descriptor, trees_of};
use crate::schema::{Descriptor, NumericKind, Predicate, Tree, Value};
use crate::source::pick_between;
use crate::source::{lemma_advanced_add, RandomSource};
use vstd::prelude::*;

verus! {

/// The number of candidates that a filtered field tries before it gives up.
pub const RETRY_BOUND: u64 = 10_000;

/// The candidate that the `n`-th draw from `source` stands for.
pub open spec fn candidate_at(kind: NumericKind, source: RandomSource, n: nat) -> Value {
    candidate(kind, source.advanced(n).peek())
}

/// The predicate rejects each of the first `n` candidates drawn from `source`.
pub open spec fn rejects_first(
    kind: NumericKind,
    predicate: Predicate,
    source: RandomSource,
    n: nat,
) -> bool {
    forall|j: nat| j < n ==> !admits(predicate, #[trigger] candidate_at(kind, source, j))
}

/// The outcome of a numeric field drawn from `source`: the first candidate
/// that the predicate accepts, with the source moved past it; or, where the
/// predicate rejects `RETRY_BOUND` candidates in a row, exhaustion, with the
/// source moved past them all.
pub open spec fn first_admitted(
    kind: NumericKind,
    predicate: Predicate,
    source: RandomSource,
    outcome: Result<Value, Failure>,
    after: RandomSource,
) -> bool {
    match outcome {
        Ok(value) => exists|n: nat|
            {
                &&& n < RETRY_BOUND
                &&& rejects_first(kind, predicate, source, n)
                &&& value == #[trigger] candidate_at(kind, source, n)
                &&& admits(predicate, value)
                &&& of_kind(kind, value)
                &&& after == source.advanced(n + 1)
            },
        Err(failure) => {
            &&& failure == Failure::GenerationExhausted
            &&& rejects_first(kind, predicate, source, RETRY_BOUND as nat)
            &&& after == source.advanced(RETRY_BOUND as nat)
            &&& !(predicate is Any)
        },
    }
}

/// The place of the first of the first `limit` candidates drawn from `source`
/// that the predicate accepts, if there is one.
pub open spec fn first_hit(
    kind: NumericKind,
    predicate: Predicate,
    source: RandomSource,
    limit: nat,
) -> Option<nat>
    decreases limit,
{
    if limit == 0 {
        None
    } else {
        match first_hit(kind, predicate, source, (limit - 1) as nat) {
            Some(n) => Some(n),
            None => if admits(predicate, candidate_at(kind, source, (limit - 1) as nat)) {
                Some((limit - 1) as nat)
            } else {
                None
            },
        }
    }
}

/// What a run of generation yields: the contents generated, whether every
/// field found its value, and the number of draws taken.
pub struct Run {
    pub trees: Seq<Tree>,
    pub done: bool,
    pub draws: nat,
}

/// The run `before` followed by the run `one` of a single value.
pub open spec fn extended(before: Run, one: Run) -> Run {
    Run {
        trees: if one.done {
            before.trees + one.trees
        } else {
            before.trees
        },
        done: one.done,
        draws: before.draws + one.draws,
    }
}

/// A run of a single value after `lead` draws that decided on it.
pub open spec fn wrapped_run(lead: nat, inner: Run, tree: Tree) -> Run {
    Run {
        trees: if inner.done {
            seq![tree]
        } else {
            Seq::empty()
        },
        done: inner.done,
        draws: lead + inner.draws,
    }
}

/// What generation from `descriptor` yields on the draws of `source`. With no
/// part named it is the run of the whole value: one content, or none where a
/// filtered field was exhausted. With a part `n` named it is the run of the
/// first `n` items of a sequence or fields of a record, which stops at the
/// first that is exhausted.
pub open spec fn generated(descriptor: Descriptor, part: Option<nat>, source: RandomSource) -> Run
    decreases descriptor, part_rank(part),
{
    match part {
        Some(n) => {
            if n == 0 || n > usize::MAX {
                Run { trees: Seq::empty(), done: true, draws: 0 }
            } else {
                let before = generated(descriptor, Some((n - 1) as nat), source);
                if !before.done {
                    before
                } else {
                    match descriptor {
                        Descriptor::Sequence(inner, _, _) => extended(
                            before,
                            generated(*inner, None, source.advanced(before.draws)),
                        ),
                        Descriptor::Record(fields) => if n <= fields@.len() {
                            extended(
                                before,
                                generated(
                                    fields@[n - 1].descriptor,
                                    None,
                                    source.advanced(before.draws),
                                ),
                            )
                        } else {
                            before
                        },
                        _ => before,
                    }
                }
            }
        },
        None => match descriptor {
            Descriptor::Literal(grammar) => Run {
                trees: seq![Tree::Text(pieces_text(grammar@, source))],
                done: true,
                draws: pieces_draws(grammar@, source),
            },
            Descriptor::Numeric(kind, predicate) => match first_hit(
                kind,
                predicate,
                source,
                RETRY_BOUND as nat,
            ) {
                Some(n) => Run {
                    trees: seq![candidate_at(kind, source, n)@],
                    done: true,
                    draws: n + 1,
                },
                None => Run { trees: Seq::empty(), done: false, draws: RETRY_BOUND as nat },
            },
            Descriptor::Boolean => Run {
                trees: seq![Tree::Boolean(source.peek() % 100 < 50)],
                done: true,
                draws: 1,
            },
            Descriptor::Optional(inner, percent) => if source.peek() % 100 < percent {
                let run = generated(*inner, None, source.advanced(1));
                Run { trees: run.trees, done: run.done, draws: 1 + run.draws }
            } else {
                Run { trees: seq![Tree::Absent], done: true, draws: 1 }
            },
            Descriptor::Sequence(_, min, max) => {
                let count = pick_between(source.peek(), min as u64, max as u64);
                if count <= usize::MAX {
                    let run = generated(descriptor, Some(count as nat), source.advanced(1));
                    wrapped_run(1, run, Tree::List(run.trees))
                } else {
                    Run { trees: Seq::empty(), done: false, draws: 1 }
                }
            },
            Descriptor::Record(fields) => if fields@.len() <= usize::MAX {
                let run = generated(descriptor, Some(fields@.len()), source);
                wrapped_run(0, run, Tree::Record(run.trees))
            } else {
                Run { trees: Seq::empty(), done: false, draws: 0 }
            },
        },
    }
}

/// Once a candidate is accepted, a higher limit finds the same one.
pub proof fn lemma_hit_stays(
    kind: NumericKind,
    predicate: Predicate,
    source: RandomSource,
    k: nat,
    m: nat,
)
    requires
        k <= m,
        first_hit(kind, predicate, source, k) is Some,
    ensures
        first_hit(kind, predicate, source, m) == first_hit(kind, predicate, source, k),
    decreases m,
{
    if m > k {
        lemma_hit_stays(kind, predicate, source, k, (m - 1) as nat);
    }
}

/// Once an item or a field is exhausted, the run stops there: counting more
/// items or fields changes nothing.
pub proof fn lemma_failure_stays(descriptor: Descriptor, source: RandomSource, k: nat, m: nat)
    requires
        k <= m <= usize::MAX,
        !generated(descriptor, Some(k), source).done,
    ensures
        generated(descriptor, Some(m), source) == generated(descriptor, Some(k), source),
    decreases m,
{
    if m > k {
        lemma_failure_stays(descriptor, source, k, (m - 1) as nat);
    }
}

/// Descriptors that lay down the same generate the same from every source:
/// the same contents, the same failure, and equally many draws.
pub proof fn lemma_same_descriptor_generates_alike(
    first: Descriptor,
    second: Descriptor,
    part: Option<nat>,
    source: RandomSource,
)
    requires
        same_descriptor(first, second),
    ensures
        generated(first, part, source) == generated(second, part, source),
    decreases first, part_rank(part),
{
    match part {
        Some(n) => {
            if !(n == 0 || n > usize::MAX) {
                lemma_same_descriptor_generates_alike(first, second, Some((n - 1) as nat), source);
                let before = generated(first, Some((n - 1) as nat), source);
                if before.done {
                    match first {
                        Descriptor::Sequence(inner, _, _) => {
                            lemma_same_descriptor_generates_alike(
                                *inner,
                                *second->Sequence_0,
                                None,
                                source.advanced(before.draws),
                            );
                        },
                        Descriptor::Record(fields) => {
                            if n <= fields@.len() {
                                lemma_same_descriptor_generates_alike(
                                    fields@[n - 1].descriptor,
                                    second->Record_0@[n - 1].descriptor,
                                    None,
                                    source.advanced(before.draws),
                                );
                            }
                        },
                        _ => {},
                    }
                }
            }
        },
        None => match first {
            Descriptor::Optional(inner, _) => {
                lemma_same_descriptor_generates_alike(
                    *inner,
                    *second->Optional_0,
                    None,
                    source.advanced(1),
                );
            },
            Descriptor::Sequence(_, min, max) => {
                let count = pick_between(source.peek(), min as u64, max as u64);
                if count <= usize::MAX {
                    lemma_same_descriptor_generates_alike(
                        first,
                        second,
                        Some(count as nat),
                        source.advanced(1),
                    );
                }
            },
            Descriptor::Record(fields) => {
                if fields@.len() <= usize::MAX {
                    lemma_same_descriptor_generates_alike(
                        first,
                        second,
                        Some(fields@.len()),
                        source,
                    );
                }
            },
            _ => {},
        },
    }
}

/// Turns a draw into the candidate of the kind.
pub fn candidate_of(kind: &NumericKind, draw: u64) -> (value: Value)
    ensures
        value == candidate(*kind, draw),
        of_kind(*kind, value),
{
    match kind {
        NumericKind::Byte => Value::Integer((draw % 256) as i64),
        NumericKind::Integer => {
            if draw <= 0x7fff_ffff_ffff_ffff {
                Value::Integer(draw as i64)
            } else {
                let low: u64 = draw - 0x8000_0000_0000_0000;
                Value::Integer((low as i64) + i64::MIN)
            }
        },
        NumericKind::Float => Value::Float(draw),
    }
}

/// Tells whether the predicate accepts the value.
pub fn accepts(predicate: &Predicate, value: &Value) -> (ok: bool)
    ensures
        ok == admits(*predicate, *value),
{
    match predicate {
        Predicate::Any => true,
        Predicate::Above(bound) => match value {
            Value::Integer(x) => *x > *bound,
            _ => false,
        },
        Predicate::Finite => match value {
            Value::Float(bits) => (*bits >> 52) & 0x7ff != 0x7ff,
            _ => false,
        },
    }
}

/// Draws candidates of the kind until the predicate accepts one, at most
/// `RETRY_BOUND` times: the result is the first accepted candidate, and the
/// source has moved past it; where all are rejected the field fails.
pub fn generate_numeric(kind: &NumericKind, predicate: &Predicate, source: &mut RandomSource) -> (outcome:
    Result<Value, Failure>)
    ensures
        final(source).seed == old(source).seed,
        (forall|value: Value| !admits(*predicate, value)) ==> outcome is Err,
        first_admitted(*kind, *predicate, *old(source), outcome, *final(source)),
        match first_hit(*kind, *predicate, *old(source), RETRY_BOUND as nat) {
            Some(n) => outcome == Ok::<Value, Failure>(candidate_at(*kind, *old(source), n))
                && *final(source) == old(source).advanced(n + 1),
            None => outcome is Err,
        },
{
    let mut attempt: u64 = 0;
    while attempt < RETRY_BOUND
        invariant
            attempt <= RETRY_BOUND,
            first_hit(*kind, *predicate, *old(source), attempt as nat) is None,
            *source == old(source).advanced(attempt as nat),
            rejects_first(*kind, *predicate, *old(source), attempt as nat),
            attempt > 0 ==> !(*predicate is Any),
        decreases RETRY_BOUND - attempt,
    {
        let ghost here = *source;
        let draw = source.next_u64();
        let value = candidate_of(kind, draw);
        proof {
            lemma_advanced_add(*old(source), attempt as nat, 1);
            assert(value == candidate_at(*kind, *old(source), attempt as nat));
        }
        if accepts(predicate, &value) {
            proof {
                lemma_hit_stays(
                    *kind,
                    *predicate,
                    *old(source),
                    (attempt + 1) as nat,
                    RETRY_BOUND as nat,
                );
            }
            return Ok(value);
        }
        attempt = attempt + 1;
    }
    proof {
        lemma_advanced_add(*old(source), attempt as nat, 0);
    }
    Err(Failure::GenerationExhausted)
}

/// Generates one value tree of the descriptor, depth first and in the order
/// of the fields. The tree conforms to the descriptor. Generation fails only
/// where a filtered numeric field exhausts its retry bound.
pub fn generate(descriptor: &Descriptor, source: &mut RandomSource) -> (outcome: Result<
    Value,
    Failure,
>)
    requires
        descriptor.wf(),
    ensures
        final(source).seed == old(source).seed,
        outcome matches Ok(value) ==> descriptor.conforms(value),
        outcome matches Err(failure) ==> failure == Failure::GenerationExhausted
            && descriptor.filtered(),
        *final(source) == old(source).advanced(generated(*descriptor, None, *old(source)).draws),
        outcome is Ok <==> generated(*descriptor, None, *old(source)).done,
        outcome matches Ok(value) ==> generated(*descriptor, None, *old(source)).trees
            == seq![value@],
        descriptor matches Descriptor::Literal(grammar) ==> {
            &&& outcome matches Ok(Value::Text(text))
            &&& text@ == pieces_text(grammar@, *old(source))
            &&& *final(source) == old(source).advanced(pieces_draws(grammar@, *old(source)))
        },
        descriptor matches Descriptor::Numeric(kind, predicate) ==> first_admitted(
            *kind,
            *predicate,
            *old(source),
            outcome,
            *final(source),
        ),
        descriptor is Boolean ==> {
            &&& outcome matches Ok(Value::Boolean(b))
            &&& b == (old(source).peek() % 100 < 50)
            &&& *final(source) == old(source).advanced(1)
        },
        descriptor matches Descriptor::Optional(_, percent) && !(old(source).peek() % 100
            < *percent) ==> {
            &&& outcome matches Ok(Value::Absent)
            &&& *final(source) == old(source).advanced(1)
        },
    decreases descriptor,
{
    match descriptor {
        Descriptor::Literal(grammar) => Ok(Value::Text(grammar.sample(source))),
        Descriptor::Numeric(kind, predicate) => generate_numeric(kind, predicate, source),
        Descriptor::Boolean => Ok(Value::Boolean(source.chance(50))),
        Descriptor::Optional(inner, percent) => {
            if source.chance(*percent) {
                let ghost start = *source;
                let outcome = generate(inner, source);
                proof {
                    lemma_advanced_add(
                        *old(source),
                        1,
                        generated(**inner, None, start).draws,
                    );
                }
                outcome
            } else {
                Ok(Value::Absent)
            }
        },
        Descriptor::Sequence(inner, min, max) => {
            let count: usize = source.between(*min as u64, *max as u64) as usize;
            let ghost start = *source;
            let mut items: Vec<Value> = Vec::new();
            assert(trees_of(items@) =~= Seq::<Tree>::empty());
            while items.len() < count
                invariant
                    items@.len() <= count,
                    inner.wf(),
                    *descriptor == Descriptor::Sequence(*inner, *min, *max),
                    source.seed == old(source).seed,
                    start == old(source).advanced(1),
                    count == pick_between(old(source).peek(), *min as u64, *max as u64),
                    generated(*descriptor, Some(items@.len()), start).done,
                    generated(*descriptor, Some(items@.len()), start).trees == trees_of(items@),
                    *source == start.advanced(
                        generated(*descriptor, Some(items@.len()), start).draws,
                    ),
                    forall|i: int| 0 <= i < items@.len() ==> inner.conforms(#[trigger] items@[i]),
                decreases count - items@.len(),
            {
                assert(decreases_to!(*descriptor => descriptor->Sequence_0));
                let ghost n = items@.len();
                let ghost before = generated(*descriptor, Some(n), start);
                let ghost one = generated(**inner, None, *source);
                proof {
                    lemma_advanced_add(start, before.draws, one.draws);
                    assert(generated(*descriptor, Some(n + 1), start) == extended(before, one));
                }
                match generate(inner, source) {
                    Ok(item) => {
                        items.push(item);
                        assert(trees_of(items@) =~= before.trees + one.trees);
                    },
                    Err(failure) => {
                        proof {
                            lemma_failure_stays(*descriptor, start, n + 1, count as nat);
                            lemma_advanced_add(*old(source), 1, before.draws + one.draws);
                        }
                        return Err(failure);
                    },
                }
            }
            proof {
                lemma_view_of_collections(items);
                lemma_advanced_add(
                    *old(source),
                    1,
                    generated(*descriptor, Some(count as nat), start).draws,
                );
            }
            Ok(Value::List(items))
        },
        Descriptor::Record(fields) => {
            let mut values: Vec<Value> = Vec::new();
            let ghost start = *source;
            assert(trees_of(values@) =~= Seq::<Tree>::empty());
            while values.len() < fields.len()
                invariant
                    values@.len() <= fields@.len(),
                    descriptor.wf(),
                    *descriptor == Descriptor::Record(*fields),
                    source.seed == old(source).seed,
                    start == *old(source),
                    generated(*descriptor, Some(values@.len()), start).done,
                    generated(*descriptor, Some(values@.len()), start).trees == trees_of(values@),
                    *source == start.advanced(
                        generated(*descriptor, Some(values@.len()), start).draws,
                    ),
                    forall|i: int|
                        0 <= i < values@.len() ==> (#[trigger] fields@[i]).descriptor.conforms(
                            values@[i],
                        ),
                decreases fields@.len() - values@.len(),
            {
                let i: usize = values.len();
                assert(decreases_to!(*descriptor => descriptor->Record_0));
                assert(decreases_to!(fields => fields@[i as int]));
                assert(fields@[i as int].descriptor.wf());
                let ghost before = generated(*descriptor, Some(i as nat), start);
                let ghost one = generated(fields@[i as int].descriptor, None, *source);
                proof {
                    lemma_advanced_add(start, before.draws, one.draws);
                    assert(generated(*descriptor, Some((i + 1) as nat), start) == extended(
                        before,
                        one,
                    ));
                }
                match generate(&fields[i].descriptor, source) {
                    Ok(value) => {
                        values.push(value);
                        assert(trees_of(values@) =~= before.trees + one.trees);
                    },
                    Err(failure) => {
                        assert(fields@[i as int].descriptor.filtered());
                        proof {
                            lemma_failure_stays(
                                *descriptor,
                                start,
                                (i + 1) as nat,
                                fields@.len(),
                            );
                        }
                        return Err(failure);
                    },
                }
            }
            proof {
                lemma_view_of_collections(values);
            }
            Ok(Value::Record(values))
        },
    }
}

/// The content that generation yields from `source` has the structure of the
/// descriptor, so that its document can be assembled.
pub open spec fn assembles(descriptor: Descriptor, source: RandomSource) -> bool {
    exists|value: Value|
        generated(descriptor, None, source).trees == seq![value@] && #[trigger] descriptor.shapes(
            value,
        )
}

/// What one production from `source` comes to. It succeeds exactly where
/// generation runs to its end and yields content of the structure of the
/// descriptor. Its document is then the assembled form of a value tree of
/// that content, which conforms to the descriptor. Where it fails, a
/// filtered field was exhausted, or the descriptor is optional at its top or
/// has a sequence of optional items and an absent value came up there.
pub open spec fn produced(
    descriptor: Descriptor,
    source: RandomSource,
    outcome: Result<Document, Failure>,
) -> bool {
    &&& outcome is Ok <==> generated(descriptor, None, source).done && assembles(
        descriptor,
        source,
    )
    &&& descriptor.sparse() ==> (outcome is Ok <==> generated(descriptor, None, source).done)
    &&& outcome matches Ok(document) ==> exists|value: Value|
        {
            &&& descriptor.conforms(value)
            &&& descriptor.shapes(value)
            &&& generated(descriptor, None, source).trees == seq![value@]
            &&& #[trigger] descriptor.renders(value, document)
        }
    &&& outcome matches Err(failure) ==> (failure == Failure::GenerationExhausted
        && descriptor.filtered() && !generated(descriptor, None, source).done) || (failure
        == Failure::AssemblyInconsistency && !descriptor.sparse() && generated(
        descriptor,
        None,
        source,
    ).done)
}

/// The source after `n` productions in a row, each of which starts where the
/// one before it stopped.
pub open spec fn after_runs(descriptor: Descriptor, source: RandomSource, n: nat) -> RandomSource
    decreases n,
{
    if n == 0 {
        source
    } else {
        let before = after_runs(descriptor, source, (n - 1) as nat);
        before.advanced(generated(descriptor, None, before).draws)
    }
}

/// Generates one value tree of the descriptor and assembles its document.
/// Nothing is assembled where a filtered field is exhausted, nor where an
/// absent value stands outside a record.
pub fn produce(descriptor: &Descriptor, source: &mut RandomSource) -> (outcome: Result<
    Document,
    Failure,
>)
    requires
        descriptor.wf(),
    ensures
        final(source).seed == old(source).seed,
        *final(source) == old(source).advanced(generated(*descriptor, None, *old(source)).draws),
        produced(*descriptor, *old(source), outcome),
{
    match generate(descriptor, source) {
        Ok(value) => {
            proof {
                if descriptor.sparse() {
                    if value is Absent {
                        lemma_only_optional_admits_absent(*descriptor);
                    }
                    lemma_conforming_value_is_shaped(*descriptor, value);
                }
                if assembles(*descriptor, *old(source)) {
                    let other = choose|other: Value|
                        generated(*descriptor, None, *old(source)).trees == seq![other@]
                            && #[trigger] descriptor.shapes(other);
                    assert(seq![other@][0] == seq![value@][0]);
                    lemma_equal_content_same_shape(*descriptor, other, value);
                }
            }
            assemble(descriptor, &value)
        },
        Err(failure) => Err(failure),
    }
}

/// Produces `count` documents in a row from one source. Each production
/// starts where the one before it stopped and stands on its own: one that
/// fails leaves its failure in its place and does not touch the others.
pub fn produce_many(descriptor: &Descriptor, source: &mut RandomSource, count: u32) -> (outcomes:
    Vec<Result<Document, Failure>>)
    requires
        descriptor.wf(),
    ensures
        final(source).seed == old(source).seed,
        outcomes@.len() == count,
        forall|i: int|
            0 <= i < count ==> produced(
                *descriptor,
                after_runs(*descriptor, *old(source), i as nat),
                #[trigger] outcomes@[i],
            ),
        *final(source) == after_runs(*descriptor, *old(source), count as nat),
{
    let mut outcomes: Vec<Result<Document, Failure>> = Vec::new();
    let mut n: u32 = 0;
    while n < count
        invariant
            n <= count,
            descriptor.wf(),
            outcomes@.len() == n,
            source.seed == old(source).seed,
            *source == after_runs(*descriptor, *old(source), n as nat),
            forall|i: int|
                0 <= i < n ==> produced(
                    *descriptor,
                    after_runs(*descriptor, *old(source), i as nat),
                    #[trigger] outcomes@[i],
                ),
        decreases count - n,
    {
        let outcome = produce(descriptor, source);
        outcomes.push(outcome);
        n = n + 1;
    }
    outcomes
}

/// Two productions under one descriptor from equal sources assemble
/// documents that hold the same: whatever value trees stand for the content
/// that the source yields, their documents agree key by key and value by
/// value.
pub proof fn lemma_equal_sources_produce_alike(
    descriptor: Descriptor,
    source: RandomSource,
    first: Value,
    second: Value,
    one: Document,
    other: Document,
)
    requires
        generated(descriptor, None, source).trees == seq![first@],
        generated(descriptor, None, source).trees == seq![second@],
        descriptor.shapes(first),
        descriptor.shapes(second),
        descriptor.renders(first, one),
        descriptor.renders(second, other),
    ensures
        same_document(one, other),
{
    assert(seq![first@][0] == seq![second@][0]);
    lemma_equal_content_assembles_alike(descriptor, first, second, one, other);
}

/// Under a predicate that accepts nothing no candidate is hit, whatever the
/// limit.
pub proof fn lemma_nothing_admitted_nothing_hit(
    kind: NumericKind,
    predicate: Predicate,
    source: RandomSource,
    limit: nat,
)
    requires
        forall|value: Value| !admits(predicate, value),
    ensures
        first_hit(kind, predicate, source, limit) is None,
    decreases limit,
{
    if limit > 0 {
        lemma_nothing_admitted_nothing_hit(kind, predicate, source, (limit - 1) as nat);
    }
}

/// A record with a numeric field whose predicate accepts nothing is never
/// generated: where the fields before that field find their values,
/// generation stops at it after `RETRY_BOUND` draws for it, and yields no
/// content, not even that of the fields before.
pub proof fn lemma_unsatisfiable_field_exhausts(
    descriptor: Descriptor,
    source: RandomSource,
    n: nat,
)
    requires
        descriptor is Record,
        n < descriptor->Record_0@.len(),
        descriptor->Record_0@[n as int].descriptor is Numeric,
        forall|value: Value|
            !admits(descriptor->Record_0@[n as int].descriptor->Numeric_1, value),
        generated(descriptor, Some(n), source).done,
    ensures
        !generated(descriptor, None, source).done,
        generated(descriptor, None, source).trees.len() == 0,
        generated(descriptor, None, source).draws == generated(descriptor, Some(n), source).draws
            + RETRY_BOUND,
{
    let fields = descriptor->Record_0;
    assert(fields@.len() == fields.len());
    let before = generated(descriptor, Some(n), source);
    let field = fields@[n as int].descriptor;
    lemma_nothing_admitted_nothing_hit(
        field->Numeric_0,
        field->Numeric_1,
        source.advanced(before.draws),
        RETRY_BOUND as nat,
    );
    let one = generated(field, None, source.advanced(before.draws));
    assert(!one.done && one.draws == RETRY_BOUND);
    assert(generated(descriptor, Some(n + 1), source) == extended(before, one));
    lemma_failure_stays(descriptor, source, n + 1, fields@.len());
}

/// No 64-bit integer lies above the greatest one: under such a bound every
/// candidate is rejected, and the field fails when the retry bound is reached.
pub proof fn lemma_bound_above_maximum_rejects_all(value: Value)
    ensures
        !admits(Predicate::Above(i64::MAX), value),
{
}

/// A value that satisfies a positive integer field is an integer above zero.
pub proof fn lemma_positive_field_is_positive(kind: NumericKind, value: Value)
    requires
        Descriptor::Numeric(kind, Predicate::Above(0)).conforms(value),
    ensures
        value is Integer,
        value->Integer_0 > 0,
{
}

/// A value that satisfies a sequence descriptor is a list whose length lies
/// within the bounds, both ends included, and whose items satisfy the inner
/// descriptor.
pub proof fn lemma_sequence_within_bounds(
    inner: Descriptor,
    min: usize,
    max: usize,
    value: Value,
)
    requires
        Descriptor::Sequence(Box::new(inner), min, max).conforms(value),
    ensures
        value is List,
        min <= value->List_0@.len() <= max,
        forall|i: int| 0 <= i < value->List_0@.len() ==> inner.conforms(#[trigger] value->List_0@[i]),
{
}

} // verus!
