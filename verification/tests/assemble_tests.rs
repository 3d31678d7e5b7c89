use camp_seed::assemble::{assemble, has_distinct_keys, Document, Entry};
use camp_seed::engine::generate;
use camp_seed::failure::Failure;
use camp_seed::schema::{Descriptor, Field, NumericKind, Predicate, Value};
use camp_seed::source::RandomSource;
use camp_seed::user::completed_challenge_schema;

fn field(name: &str, key: &str, descriptor: Descriptor) -> Field {
    Field { name: name.to_string(), key: key.to_string(), descriptor }
}

fn keys(entries: &[Entry]) -> Vec<&str> {
    entries.iter().map(|entry| entry.key.as_str()).collect()
}

fn sample_record() -> Descriptor {
    Descriptor::Record(vec![
        field("about_me", "aboutMe", Descriptor::Optional(Box::new(Descriptor::Boolean), 50)),
        field("is_banned", "isBanned", Descriptor::Boolean),
        field(
            "points",
            "points",
            Descriptor::Optional(
                Box::new(Descriptor::Numeric(NumericKind::Integer, Predicate::Any)),
                50,
            ),
        ),
        field("rand", "rand", Descriptor::Numeric(NumericKind::Float, Predicate::Finite)),
    ])
}

#[test]
fn absent_fields_are_omitted_and_present_ones_renamed() {
    let value = Value::Record(vec![
        Value::Absent,
        Value::Boolean(true),
        Value::Integer(-4),
        Value::Float(2.5f64.to_bits()),
    ]);
    match assemble(&sample_record(), &value) {
        Ok(Document::Object(entries)) => {
            assert_eq!(keys(&entries), vec!["isBanned", "points", "rand"]);
            assert!(matches!(entries[0].value, Document::Boolean(true)));
            assert!(matches!(entries[1].value, Document::Integer(-4)));
            assert!(matches!(entries[2].value, Document::Float(bits) if f64::from_bits(bits) == 2.5));
        },
        other => panic!("no document: {:?}", other),
    }
}

#[test]
fn all_optional_fields_absent_leaves_required_ones() {
    let value = Value::Record(vec![
        Value::Absent,
        Value::Boolean(false),
        Value::Absent,
        Value::Float(0),
    ]);
    match assemble(&sample_record(), &value) {
        Ok(Document::Object(entries)) => assert_eq!(keys(&entries), vec!["isBanned", "rand"]),
        other => panic!("no document: {:?}", other),
    }
}

#[test]
fn texts_and_lists_keep_their_shape() {
    let descriptor = Descriptor::Sequence(
        Box::new(Descriptor::Literal(camp_seed::grammar::Grammar::of(Vec::new()))),
        0,
        5,
    );
    let value = Value::List(vec![Value::Text(b"ab".to_vec()), Value::Text(Vec::new())]);
    match assemble(&descriptor, &value) {
        Ok(Document::List(items)) => {
            assert_eq!(items.len(), 2);
            assert!(matches!(&items[0], Document::Text(text) if text == b"ab"));
            assert!(matches!(&items[1], Document::Text(text) if text.is_empty()));
        },
        other => panic!("no list: {:?}", other),
    }
}

#[test]
fn mismatched_shapes_are_inconsistent() {
    let inconsistent = |descriptor: &Descriptor, value: &Value| {
        matches!(assemble(descriptor, value), Err(Failure::AssemblyInconsistency))
    };
    assert!(inconsistent(&Descriptor::Boolean, &Value::Integer(1)));
    assert!(inconsistent(&Descriptor::Boolean, &Value::Absent));
    assert!(inconsistent(
        &Descriptor::Numeric(NumericKind::Float, Predicate::Any),
        &Value::Integer(1)
    ));
    assert!(inconsistent(
        &Descriptor::Numeric(NumericKind::Byte, Predicate::Any),
        &Value::Float(1)
    ));
    assert!(inconsistent(
        &Descriptor::Optional(Box::new(Descriptor::Boolean), 50),
        &Value::Absent
    ));
    assert!(inconsistent(
        &Descriptor::Sequence(Box::new(Descriptor::Boolean), 0, 3),
        &Value::List(vec![Value::Boolean(true), Value::Absent])
    ));
    let short = Value::Record(vec![Value::Absent, Value::Boolean(true)]);
    assert!(inconsistent(&sample_record(), &short));
    let required_absent = Value::Record(vec![
        Value::Absent,
        Value::Absent,
        Value::Absent,
        Value::Float(0),
    ]);
    assert!(inconsistent(&sample_record(), &required_absent));
    assert!(inconsistent(&sample_record(), &Value::List(Vec::new())));
}

#[test]
fn assembly_does_not_check_constraints() {
    let descriptor = Descriptor::Numeric(NumericKind::Integer, Predicate::Above(0));
    assert!(matches!(assemble(&descriptor, &Value::Integer(-1)), Ok(Document::Integer(-1))));
}

fn check_sparse(schema: &Descriptor, source: &mut RandomSource) -> (usize, usize) {
    let value = generate(schema, source).unwrap();
    let document = assemble(schema, &value).unwrap();
    let (fields, values, entries) = match (schema, &value, &document) {
        (Descriptor::Record(f), Value::Record(v), Document::Object(e)) => (f, v, e),
        _ => panic!("no record"),
    };
    let mut expected = Vec::new();
    let mut absent = 0;
    for (field, value) in fields.iter().zip(values.iter()) {
        if matches!(value, Value::Absent) {
            assert!(matches!(field.descriptor, Descriptor::Optional(_, _)));
            assert!(entries.iter().all(|entry| entry.key != field.key));
            absent += 1;
        } else {
            expected.push(field.key.as_str());
        }
    }
    assert_eq!(keys(entries), expected);
    (absent, entries.len())
}

#[test]
fn thousand_records_omit_every_absent_optional_field() {
    let schema = sample_record();
    let mut source = RandomSource::seeded(2024);
    let mut by_absent = [0; 3];
    for _ in 0..1000 {
        let (absent, present) = check_sparse(&schema, &mut source);
        assert_eq!(absent + present, 4);
        by_absent[absent] += 1;
    }
    assert!(by_absent.iter().all(|count| *count > 100));
}

#[test]
fn completed_challenges_omit_absent_links() {
    let schema = completed_challenge_schema();
    let mut source = RandomSource::seeded(2024);
    let mut with_link = 0;
    for _ in 0..100 {
        let (absent, present) = check_sparse(&schema, &mut source);
        assert_eq!(absent + present, 7);
        assert!(absent <= 1);
        with_link += 1 - absent;
    }
    assert!(with_link > 10 && with_link < 90);
}

#[test]
fn user_omits_absent_optional_fields() {
    let schema = camp_seed::user::user_schema();
    let mut source = RandomSource::seeded(185);
    let (absent, present) = check_sparse(&schema, &mut source);
    assert_eq!(absent + present, 46);
    assert!(absent <= 14);
    assert!(present >= 32);
}

#[test]
fn distinct_keys_are_told_from_repeated_ones() {
    assert!(has_distinct_keys(&Vec::new()));
    assert!(has_distinct_keys(&vec![field("a", "x", Descriptor::Boolean)]));
    assert!(has_distinct_keys(&vec![
        field("a", "x", Descriptor::Boolean),
        field("a", "y", Descriptor::Boolean),
    ]));
    assert!(!has_distinct_keys(&vec![
        field("a", "x", Descriptor::Boolean),
        field("b", "y", Descriptor::Boolean),
        field("c", "x", Descriptor::Boolean),
    ]));
    match camp_seed::user::user_schema() {
        Descriptor::Record(fields) => assert!(has_distinct_keys(&fields)),
        other => panic!("no record: {:?}", other),
    }
}
