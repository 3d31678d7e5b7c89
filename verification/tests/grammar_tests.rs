use camp_seed::failure::Failure;
use camp_seed::grammar::{joined, span, Grammar, Piece};
use camp_seed::source::RandomSource;

#[test]
fn span_lists_bytes_in_rising_order() {
    assert_eq!(span(b'a', b'e'), b"abcde".to_vec());
    assert_eq!(span(b'x', b'x'), b"x".to_vec());
    assert_eq!(span(b'z', b'a'), Vec::<u8>::new());
    assert_eq!(span(0, 255).len(), 256);
}

#[test]
fn joined_appends_second_to_first() {
    assert_eq!(joined(b"ab".to_vec(), &b"cd".to_vec()), b"abcd".to_vec());
    assert_eq!(joined(Vec::new(), &b"cd".to_vec()), b"cd".to_vec());
}

#[test]
fn literal_piece_yields_its_text() {
    let grammar = Grammar::of(vec![Piece::literal("https://"), Piece::literal(".com")]);
    assert_eq!(grammar.check(), Ok(()));
    let mut source = RandomSource::seeded(1);
    assert_eq!(grammar.sample(&mut source), b"https://.com".to_vec());
}

#[test]
fn choice_piece_yields_one_of_its_texts() {
    let grammar = Grammar::of(vec![Piece::choice("com", "org", "edu")]);
    let mut source = RandomSource::seeded(2);
    let mut seen = [false; 3];
    for _ in 0..200 {
        let text = grammar.sample(&mut source);
        match text.as_slice() {
            b"com" => seen[0] = true,
            b"org" => seen[1] = true,
            b"edu" => seen[2] = true,
            other => panic!("outside the choice: {:?}", other),
        }
    }
    assert_eq!(seen, [true, true, true]);
}

#[test]
fn repeat_piece_respects_class_and_counts() {
    let grammar = Grammar::of(vec![Piece::repeat(span(b'a', b'c'), 2, 4)]);
    let mut source = RandomSource::seeded(3);
    let mut lengths = [false; 5];
    for _ in 0..500 {
        let text = grammar.sample(&mut source);
        assert!(text.len() >= 2 && text.len() <= 4);
        assert!(text.iter().all(|b| (b'a'..=b'c').contains(b)));
        lengths[text.len()] = true;
    }
    assert_eq!(lengths, [false, false, true, true, true]);
}

#[test]
fn repeat_piece_draws_count_then_each_byte() {
    let grammar = Grammar::of(vec![Piece::repeat(span(b'a', b'z'), 1, 3)]);
    let mut source = RandomSource::seeded(4);
    let mut mirror = RandomSource::seeded(4);
    let text = grammar.sample(&mut source);
    let count = 1 + mirror.next_u64() % 3;
    let mut expected = Vec::new();
    for _ in 0..count {
        expected.push(b'a' + (mirror.next_u64() % 26) as u8);
    }
    assert_eq!(text, expected);
    assert_eq!(source, mirror);
}

#[test]
fn empty_grammar_yields_empty_text() {
    let grammar = Grammar::of(Vec::new());
    assert_eq!(grammar.check(), Ok(()));
    let mut source = RandomSource::seeded(5);
    assert_eq!(grammar.sample(&mut source), Vec::<u8>::new());
    assert_eq!(source.position, 0);
}

#[test]
fn malformed_grammars_are_rejected() {
    let empty_class = Grammar::of(vec![Piece::repeat(Vec::new(), 1, 2)]);
    assert_eq!(empty_class.check(), Err(Failure::MalformedGrammar));
    let crossed = Grammar::of(vec![Piece::repeat(span(b'a', b'z'), 3, 2)]);
    assert_eq!(crossed.check(), Err(Failure::MalformedGrammar));
    let no_options = Grammar::of(vec![Piece::literal("a"), Piece::OneOf { options: Vec::new() }]);
    assert_eq!(no_options.check(), Err(Failure::MalformedGrammar));
    assert!(!Piece::OneOf { options: Vec::new() }.is_wf());
    assert!(Piece::repeat(span(b'a', b'z'), 2, 2).is_wf());
}

#[test]
fn failure_descriptions() {
    assert_eq!(Failure::MalformedGrammar.describe(), "malformed grammar");
    assert_eq!(Failure::GenerationExhausted.describe(), "generation exhausted");
    assert_eq!(Failure::AssemblyInconsistency.describe(), "assembly inconsistency");
}
