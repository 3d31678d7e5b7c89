use camp_seed::failure::Failure;
use camp_seed::grammar::{Grammar, Piece};
use camp_seed::pattern::{parse, COUNT_LIMIT};
use camp_seed::source::RandomSource;

fn pieces(pattern: &str) -> Vec<Piece> {
    parse(pattern.as_bytes()).unwrap().pieces
}

fn repeat(piece: &Piece) -> (&[u8], usize, usize) {
    match piece {
        Piece::Repeat { class, min, max } => (class.as_slice(), *min, *max),
        other => panic!("no repetition: {:?}", other),
    }
}

fn malformed(pattern: &str) -> bool {
    matches!(parse(pattern.as_bytes()), Err(Failure::MalformedGrammar))
}

#[test]
fn class_with_ranges_and_counts() {
    let parsed = pieces("[a-zA-Z0-9 ]{20,100}");
    assert_eq!(parsed.len(), 1);
    let (class, min, max) = repeat(&parsed[0]);
    let expected: Vec<u8> = (b'a'..=b'z').chain(b'A'..=b'Z').chain(b'0'..=b'9').chain([b' ']).collect();
    assert_eq!(class, expected.as_slice());
    assert_eq!((min, max), (20, 100));
}

#[test]
fn exact_count_and_default_count() {
    let parsed = pieces("[a-z]{24}x");
    assert_eq!(parsed.len(), 2);
    assert_eq!(repeat(&parsed[0]).1, 24);
    assert_eq!(repeat(&parsed[0]).2, 24);
    assert_eq!(repeat(&parsed[1]), (&b"x"[..], 1, 1));
}

#[test]
fn email_pattern_has_five_pieces() {
    let parsed = pieces("[a-zA-Z0-9]{2,20}@[a-z]{2,10}\\.(com|org|edu)");
    assert_eq!(parsed.len(), 5);
    assert_eq!(repeat(&parsed[0]).1, 2);
    assert_eq!(repeat(&parsed[0]).2, 20);
    assert_eq!(repeat(&parsed[1]), (&b"@"[..], 1, 1));
    assert_eq!(repeat(&parsed[2]).0, (b'a'..=b'z').collect::<Vec<u8>>().as_slice());
    assert_eq!(repeat(&parsed[3]), (&b"."[..], 1, 1));
    match &parsed[4] {
        Piece::OneOf { options } => {
            assert_eq!(options, &vec![b"com".to_vec(), b"org".to_vec(), b"edu".to_vec()]);
        },
        other => panic!("no choice: {:?}", other),
    }
}

#[test]
fn escapes_inside_and_outside_classes() {
    let parsed = pieces("https://github\\.com/[a-zA-Z\\-]{1,20}");
    assert_eq!(parsed.len(), 20);
    assert_eq!(repeat(&parsed[14]), (&b"."[..], 1, 1));
    let (class, min, max) = repeat(&parsed[19]);
    assert_eq!(class.len(), 53);
    assert_eq!(class[52], b'-');
    assert_eq!((min, max), (1, 20));
    let parsed = pieces("[a\\]b]\\{{2}");
    assert_eq!(repeat(&parsed[0]), (&b"a]b"[..], 1, 1));
    assert_eq!(repeat(&parsed[1]), (&b"{"[..], 2, 2));
}

#[test]
fn hyphen_at_the_end_of_a_class_stands_for_itself() {
    let parsed = pieces("[a-]");
    assert_eq!(repeat(&parsed[0]), (&b"a-"[..], 1, 1));
    let parsed = pieces("[-a]");
    assert_eq!(repeat(&parsed[0]), (&b"-a"[..], 1, 1));
}

#[test]
fn choice_may_hold_empty_texts() {
    match &pieces("(|a|)")[0] {
        Piece::OneOf { options } => {
            assert_eq!(options, &vec![Vec::new(), b"a".to_vec(), Vec::new()]);
        },
        other => panic!("no choice: {:?}", other),
    }
    match &pieces("()")[0] {
        Piece::OneOf { options } => assert_eq!(options, &vec![Vec::<u8>::new()]),
        other => panic!("no choice: {:?}", other),
    }
}

#[test]
fn empty_pattern_is_empty_grammar() {
    assert!(pieces("").is_empty());
}

#[test]
fn malformed_patterns_are_rejected() {
    for pattern in [
        "[", "[]", "[a-z", "[z-a]", "[a\\", "(", "(a|b", "a{", "a{}", "a{2", "a{2,", "a{2,}",
        "a{3,2}", "a{,2}", "a{x}", "\\", "]", ")", "}", "{2}", "|", ".", "a*", "a+", "a?", "^a",
        "a$", "(a){2}", "a{100001}", "a{2}{3}",
    ] {
        assert!(malformed(pattern), "accepted {:?}", pattern);
    }
    assert!(!malformed("a{100000}"));
    assert_eq!(COUNT_LIMIT, 100_000);
}

#[test]
fn parsed_grammar_generates_matching_text() {
    let grammar = parse(b"20[12][0-9]").unwrap();
    assert_eq!(grammar.check(), Ok(()));
    let mut source = RandomSource::seeded(77);
    for _ in 0..200 {
        let text = grammar.sample(&mut source);
        assert_eq!(text.len(), 4);
        assert_eq!(&text[..2], b"20");
        assert!(text[2] == b'1' || text[2] == b'2');
        assert!(text[3].is_ascii_digit());
    }
}

#[test]
fn parsed_pattern_equals_built_grammar() {
    let parsed = parse(b"[a-c]{2,4}").unwrap();
    let built = Grammar::of(vec![Piece::repeat(b"abc".to_vec(), 2, 4)]);
    assert_eq!(format!("{:?}", parsed), format!("{:?}", built));
    let mut a = RandomSource::seeded(3);
    let mut b = RandomSource::seeded(3);
    assert_eq!(parsed.sample(&mut a), built.sample(&mut b));
}
