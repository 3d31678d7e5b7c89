use camp_seed::assemble::assemble;
use camp_seed::engine::{accepts, candidate_of, generate, generate_numeric, produce};
use camp_seed::engine::{produce_many, RETRY_BOUND};
use camp_seed::failure::Failure;
use camp_seed::grammar::{span, Grammar, Piece};
use camp_seed::schema::{Descriptor, Field, NumericKind, Predicate, Value};
use camp_seed::source::RandomSource;

fn field(name: &str, key: &str, descriptor: Descriptor) -> Field {
    Field { name: name.to_string(), key: key.to_string(), descriptor }
}

#[test]
fn candidates_of_each_kind() {
    assert!(matches!(candidate_of(&NumericKind::Byte, 0x1234), Value::Integer(0x34)));
    assert!(matches!(candidate_of(&NumericKind::Integer, 5), Value::Integer(5)));
    assert!(matches!(candidate_of(&NumericKind::Integer, u64::MAX), Value::Integer(-1)));
    assert!(matches!(
        candidate_of(&NumericKind::Integer, 0x8000_0000_0000_0000),
        Value::Integer(i64::MIN)
    ));
    assert!(matches!(
        candidate_of(&NumericKind::Integer, 0x7fff_ffff_ffff_ffff),
        Value::Integer(i64::MAX)
    ));
    assert!(matches!(candidate_of(&NumericKind::Float, 77), Value::Float(77)));
}

#[test]
fn predicates_accept_and_reject() {
    assert!(accepts(&Predicate::Any, &Value::Integer(-3)));
    assert!(accepts(&Predicate::Any, &Value::Absent));
    assert!(accepts(&Predicate::Above(0), &Value::Integer(1)));
    assert!(!accepts(&Predicate::Above(0), &Value::Integer(0)));
    assert!(!accepts(&Predicate::Above(0), &Value::Float(1)));
    assert!(accepts(&Predicate::Finite, &Value::Float(1.5f64.to_bits())));
    assert!(!accepts(&Predicate::Finite, &Value::Float(f64::NAN.to_bits())));
    assert!(!accepts(&Predicate::Finite, &Value::Float(f64::INFINITY.to_bits())));
    assert!(!accepts(&Predicate::Finite, &Value::Float(f64::NEG_INFINITY.to_bits())));
    assert!(!accepts(&Predicate::Finite, &Value::Integer(1)));
}

#[test]
fn unsatisfiable_predicate_exhausts_retry_bound() {
    let mut source = RandomSource::seeded(1);
    let outcome = generate_numeric(&NumericKind::Integer, &Predicate::Above(i64::MAX), &mut source);
    assert!(matches!(outcome, Err(Failure::GenerationExhausted)));
    assert_eq!(RETRY_BOUND, 10_000);
    assert_eq!(source.position, RETRY_BOUND);
    let descriptor = Descriptor::Record(vec![
        field("a", "a", Descriptor::Boolean),
        field("b", "b", Descriptor::Numeric(NumericKind::Byte, Predicate::Above(255))),
        field("c", "c", Descriptor::Boolean),
    ]);
    let mut source = RandomSource::seeded(2);
    assert!(matches!(generate(&descriptor, &mut source), Err(Failure::GenerationExhausted)));
    assert_eq!(source.position, 1 + RETRY_BOUND);
    let mut source = RandomSource::seeded(2);
    assert!(matches!(produce(&descriptor, &mut source), Err(Failure::GenerationExhausted)));
}

#[test]
fn numeric_is_first_accepted_candidate() {
    let mut source = RandomSource::seeded(21);
    let mut mirror = RandomSource::seeded(21);
    for _ in 0..200 {
        let outcome = generate_numeric(&NumericKind::Integer, &Predicate::Above(0), &mut source);
        let expected = loop {
            let draw = mirror.next_u64() as i64;
            if draw > 0 {
                break draw;
            }
        };
        match outcome {
            Ok(Value::Integer(x)) => assert_eq!(x, expected),
            other => panic!("no positive integer: {:?}", other),
        }
        assert_eq!(source, mirror);
    }
}

#[test]
fn positive_dates_are_positive() {
    let descriptor = Descriptor::Numeric(NumericKind::Integer, Predicate::Above(0));
    let mut source = RandomSource::seeded(3);
    for _ in 0..1000 {
        match generate(&descriptor, &mut source) {
            Ok(Value::Integer(x)) => assert!(x > 0),
            other => panic!("no positive integer: {:?}", other),
        }
    }
}

#[test]
fn bytes_and_doubles_are_in_range() {
    let mut source = RandomSource::seeded(4);
    for _ in 0..1000 {
        match generate(&Descriptor::Numeric(NumericKind::Byte, Predicate::Any), &mut source) {
            Ok(Value::Integer(x)) => assert!((0..256).contains(&x)),
            other => panic!("no byte: {:?}", other),
        }
        match generate(&Descriptor::Numeric(NumericKind::Float, Predicate::Finite), &mut source) {
            Ok(Value::Float(bits)) => assert!(f64::from_bits(bits).is_finite()),
            other => panic!("no double: {:?}", other),
        }
    }
}

#[test]
fn sequence_counts_stay_within_bounds_and_reach_both_ends() {
    let descriptor = Descriptor::Sequence(Box::new(Descriptor::Boolean), 2, 9);
    let mut source = RandomSource::seeded(5);
    let mut least = usize::MAX;
    let mut most = 0;
    for _ in 0..10_000 {
        match generate(&descriptor, &mut source) {
            Ok(Value::List(items)) => {
                assert!(items.len() >= 2 && items.len() <= 9);
                assert!(items.iter().all(|item| matches!(item, Value::Boolean(_))));
                least = least.min(items.len());
                most = most.max(items.len());
            },
            other => panic!("no list: {:?}", other),
        }
    }
    assert_eq!(least, 2);
    assert_eq!(most, 9);
}

#[test]
fn sequence_of_fixed_count() {
    let descriptor = Descriptor::Sequence(Box::new(Descriptor::Boolean), 8, 8);
    let mut source = RandomSource::seeded(6);
    for _ in 0..100 {
        match generate(&descriptor, &mut source) {
            Ok(Value::List(items)) => assert_eq!(items.len(), 8),
            other => panic!("no list: {:?}", other),
        }
    }
}

#[test]
fn optional_values_are_present_and_absent() {
    let descriptor = Descriptor::Optional(Box::new(Descriptor::Boolean), 50);
    let mut source = RandomSource::seeded(7);
    let mut present = 0;
    let mut absent = 0;
    for _ in 0..1000 {
        match generate(&descriptor, &mut source) {
            Ok(Value::Absent) => absent += 1,
            Ok(Value::Boolean(_)) => present += 1,
            other => panic!("neither absent nor a truth value: {:?}", other),
        }
    }
    assert!(present > 100);
    assert!(absent > 100);
}

#[test]
fn presence_percentage_is_configurable() {
    let never = Descriptor::Optional(Box::new(Descriptor::Boolean), 0);
    let always = Descriptor::Optional(Box::new(Descriptor::Boolean), 100);
    let mut source = RandomSource::seeded(8);
    for _ in 0..200 {
        assert!(matches!(generate(&never, &mut source), Ok(Value::Absent)));
        assert!(matches!(generate(&always, &mut source), Ok(Value::Boolean(_))));
    }
}

#[test]
fn booleans_take_both_values() {
    let mut source = RandomSource::seeded(9);
    let mut seen = [false; 2];
    for _ in 0..200 {
        match generate(&Descriptor::Boolean, &mut source) {
            Ok(Value::Boolean(b)) => seen[b as usize] = true,
            other => panic!("no truth value: {:?}", other),
        }
    }
    assert_eq!(seen, [true, true]);
}

#[test]
fn literal_yields_text_of_grammar() {
    let grammar = Grammar::of(vec![Piece::repeat(span(b'0', b'9'), 24, 24)]);
    let mut source = RandomSource::seeded(10);
    match generate(&Descriptor::Literal(grammar), &mut source) {
        Ok(Value::Text(text)) => {
            assert_eq!(text.len(), 24);
            assert!(text.iter().all(|b| b.is_ascii_digit()));
        },
        other => panic!("no text: {:?}", other),
    }
}

#[test]
fn record_generates_fields_in_order() {
    let descriptor = Descriptor::Record(vec![
        field("first", "first", Descriptor::Numeric(NumericKind::Byte, Predicate::Any)),
        field("second", "second", Descriptor::Boolean),
    ]);
    let mut source = RandomSource::seeded(11);
    let mut mirror = RandomSource::seeded(11);
    let byte = (mirror.next_u64() % 256) as i64;
    let flag = mirror.next_u64() % 100 < 50;
    match generate(&descriptor, &mut source) {
        Ok(Value::Record(values)) => {
            assert_eq!(values.len(), 2);
            assert!(matches!(values[0], Value::Integer(x) if x == byte));
            assert!(matches!(values[1], Value::Boolean(b) if b == flag));
        },
        other => panic!("no record: {:?}", other),
    }
    assert_eq!(source, mirror);
}

#[test]
fn check_accepts_well_formed_and_rejects_malformed() {
    let good = Descriptor::Record(vec![
        field("a", "a", Descriptor::Optional(Box::new(Descriptor::Boolean), 100)),
        field("b", "b", Descriptor::Sequence(Box::new(Descriptor::Boolean), 0, 0)),
    ]);
    assert_eq!(good.check(), Ok(()));
    let percent = Descriptor::Optional(Box::new(Descriptor::Boolean), 101);
    assert_eq!(percent.check(), Err(Failure::MalformedGrammar));
    let crossed = Descriptor::Sequence(Box::new(Descriptor::Boolean), 3, 2);
    assert_eq!(crossed.check(), Err(Failure::MalformedGrammar));
    let nested = Descriptor::Record(vec![
        field("a", "a", Descriptor::Boolean),
        field("b", "b", Descriptor::Literal(Grammar::of(vec![Piece::repeat(Vec::new(), 1, 1)]))),
    ]);
    assert_eq!(nested.check(), Err(Failure::MalformedGrammar));
}

#[test]
fn batch_is_one_production_after_another() {
    let descriptor = Descriptor::Record(vec![
        field("a", "a", Descriptor::Numeric(NumericKind::Byte, Predicate::Any)),
        field("b", "b", Descriptor::Optional(Box::new(Descriptor::Boolean), 50)),
        field("c", "c", Descriptor::Numeric(NumericKind::Byte, Predicate::Above(255))),
    ]);
    let plain = Descriptor::Sequence(Box::new(Descriptor::Boolean), 0, 4);
    for descriptor in [descriptor, plain] {
        let mut source = RandomSource::seeded(17);
        let mut mirror = RandomSource::seeded(17);
        let batch = produce_many(&descriptor, &mut source, 4);
        assert_eq!(batch.len(), 4);
        for outcome in &batch {
            let alone = produce(&descriptor, &mut mirror);
            assert_eq!(format!("{:?}", outcome), format!("{:?}", alone));
        }
        assert_eq!(source, mirror);
        assert!(produce_many(&descriptor, &mut source, 0).is_empty());
        assert_eq!(source, mirror);
    }
}

#[test]
fn production_fails_exactly_where_an_absent_item_comes_up() {
    let descriptor = Descriptor::Sequence(
        Box::new(Descriptor::Optional(Box::new(Descriptor::Boolean), 50)),
        0,
        3,
    );
    let mut source = RandomSource::seeded(23);
    let mut mirror = RandomSource::seeded(23);
    let mut failed = 0;
    let mut passed = 0;
    for _ in 0..200 {
        let value = generate(&descriptor, &mut mirror).unwrap();
        let shaped = assemble(&descriptor, &value).is_ok();
        let absent = match &value {
            Value::List(items) => items.iter().any(|item| matches!(item, Value::Absent)),
            other => panic!("no list: {:?}", other),
        };
        assert_eq!(shaped, !absent);
        match produce(&descriptor, &mut source) {
            Ok(_) => {
                assert!(shaped);
                passed += 1;
            },
            Err(failure) => {
                assert!(!shaped);
                assert_eq!(failure, Failure::AssemblyInconsistency);
                failed += 1;
            },
        }
        assert_eq!(source, mirror);
    }
    assert!(passed > 20 && failed > 20);
}
