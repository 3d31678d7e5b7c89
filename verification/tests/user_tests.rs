use camp_seed::assemble::{Document, Entry};
use camp_seed::engine::produce;
use camp_seed::schema::Descriptor;
use camp_seed::source::RandomSource;
use camp_seed::user::{generate_user_from, generate_users, schema_of};
use camp_seed::user::{user_schema, Entity};

fn entries(document: &Document) -> &Vec<Entry> {
    match document {
        Document::Object(entries) => entries,
        other => panic!("no object: {:?}", other),
    }
}

fn get<'a>(document: &'a Document, key: &str) -> Option<&'a Document> {
    entries(document).iter().find(|entry| entry.key == key).map(|entry| &entry.value)
}

fn text<'a>(document: &'a Document, key: &str) -> &'a [u8] {
    match get(document, key) {
        Some(Document::Text(text)) => text,
        other => panic!("no text under {}: {:?}", key, other),
    }
}

fn list<'a>(document: &'a Document, key: &str) -> &'a [Document] {
    match get(document, key) {
        Some(Document::List(items)) => items,
        other => panic!("no list under {}: {:?}", key, other),
    }
}

fn is_id(text: &[u8]) -> bool {
    text.len() == 24 && text.iter().all(|b| b.is_ascii_alphanumeric())
}

fn is_username(text: &[u8]) -> bool {
    text.len() >= 2
        && text.len() <= 26
        && text[0].is_ascii_lowercase()
        && text[1..].iter().all(|b| b.is_ascii_lowercase() || b.is_ascii_digit() || *b == b'_')
}

fn is_email(text: &[u8]) -> bool {
    let at = match text.iter().position(|b| *b == b'@') {
        Some(at) => at,
        None => return false,
    };
    let (local, rest) = (&text[..at], &text[at + 1..]);
    let dot = match rest.iter().position(|b| *b == b'.') {
        Some(dot) => dot,
        None => return false,
    };
    let (domain, top) = (&rest[..dot], &rest[dot + 1..]);
    (2..=20).contains(&local.len())
        && local.iter().all(|b| b.is_ascii_alphanumeric())
        && (2..=10).contains(&domain.len())
        && domain.iter().all(|b| b.is_ascii_lowercase())
        && (top == b"com" || top == b"org" || top == b"edu")
}

fn positive(document: &Document, key: &str) -> bool {
    matches!(get(document, key), Some(Document::Integer(x)) if *x > 0)
}

const REQUIRED: [&str; 32] = [
    "acceptedPrivacyTerms", "completedChallenges", "email", "isApisMicroservicesCert",
    "isBackEndCert", "isBanned", "isCheater", "isCollegeAlgebraPyCertV8",
    "isDataAnalysisPyCertV7", "isDataVisCert", "isDonating", "isFrontEndCert",
    "isFrontEndLibsCert", "isFullStackCert", "isFoundationalCSharpCertV8", "isHonest",
    "isInfosecCertV7", "isInfosecQaCert", "isJsAlgoDataStructCert", "isJsAlgoDataStructCertV8",
    "isMachineLearningPyCertV7", "isQaCertV7", "isRelationalDatabaseCertV8",
    "isRespWebDesignCert", "isSciCompPyCertV7", "is2018DataVisCert", "is2018FullStackCert",
    "profileUI", "progressTimestamps", "rand", "sendQuincyEmail", "username",
];

const OPTIONAL: [&str; 18] = [
    "about", "githubProfile", "keyboardShortcuts", "linkedin", "name", "needsModeration",
    "partiallyCompletedChallenges", "picture", "savedChallenges", "sound", "twitter",
    "usernameDisplay", "website", "yearsTopContributor", "githubLink", "", "", "",
];

fn check_user(document: &Document) {
    for key in REQUIRED {
        assert!(get(document, key).is_some(), "missing {}", key);
    }
    for entry in entries(document) {
        assert!(
            REQUIRED.contains(&entry.key.as_str()) || OPTIONAL.contains(&entry.key.as_str()),
            "unknown key {}",
            entry.key
        );
    }
    assert!(is_username(text(document, "username")));
    assert!(is_email(text(document, "email")));
    let completed = list(document, "completedChallenges");
    assert!(completed.len() <= 999);
    for challenge in completed {
        assert!(is_id(text(challenge, "id")));
        assert!(positive(challenge, "completedDate"));
        assert!(matches!(get(challenge, "challengeType"), Some(Document::Integer(x)) if (0..256).contains(x)));
        let solution = text(challenge, "solution");
        assert!(solution.len() >= 50 && solution.len() <= 300);
        let files = list(challenge, "files");
        assert!(files.len() <= 9);
        for file in files {
            let ext = text(file, "ext");
            assert!(ext[0] == b'.' && ext.len() >= 3 && ext.len() <= 5);
            for key in ["contents", "key", "name", "path"] {
                assert!(get(file, key).is_some());
            }
        }
    }
    let stamps = list(document, "progressTimestamps");
    assert!(stamps.len() <= 999);
    for stamp in stamps {
        assert!(is_id(text(stamp, "id")));
        assert!(positive(stamp, "completedDate"));
    }
    if let Some(Document::List(saved)) = get(document, "savedChallenges") {
        assert!(saved.len() <= 9);
        for challenge in saved {
            assert!(is_id(text(challenge, "id")));
            assert!(positive(challenge, "lastSavedDate"));
        }
    }
    if let Some(Document::List(years)) = get(document, "yearsTopContributor") {
        assert_eq!(years.len(), 8);
        for year in years {
            match year {
                Document::Text(y) => {
                    assert!(y.len() == 4 && &y[..2] == b"20" && (y[2] == b'1' || y[2] == b'2'));
                },
                other => panic!("no year: {:?}", other),
            }
        }
    }
    assert!(matches!(get(document, "rand"), Some(Document::Float(bits)) if f64::from_bits(*bits).is_finite()));
    let profile = get(document, "profileUI").unwrap();
    assert_eq!(entries(profile).len(), 10);
    assert!(matches!(get(profile, "isLocked"), Some(Document::Boolean(_))));
    assert!(matches!(get(profile, "showTimeLine"), Some(Document::Boolean(_))));
}

#[test]
fn one_user_from_fixed_seed() {
    let mut source = RandomSource::seeded(185);
    let document = generate_user_from(&mut source).unwrap();
    check_user(&document);
    assert_eq!(source.position, 14990);
    assert_eq!(list(&document, "completedChallenges").len(), 19);
}

#[test]
fn several_records_share_one_source() {
    let schema = schema_of(Entity::SavedChallenge);
    let mut source = RandomSource::seeded(99);
    let mut last = 0;
    for _ in 0..5 {
        let document = produce(&schema, &mut source).unwrap();
        assert!(is_id(text(&document, "id")));
        assert!(positive(&document, "lastSavedDate"));
        assert!(list(&document, "files").len() <= 9);
        assert!(source.position > last);
        last = source.position;
    }
}

#[test]
fn users_from_other_seeds() {
    for seed in [54, 211] {
        let mut source = RandomSource::seeded(seed);
        let document = generate_user_from(&mut source).unwrap();
        check_user(&document);
    }
}

#[test]
fn equal_seeds_give_equal_documents() {
    let mut a = RandomSource::seeded(199);
    let mut b = RandomSource::seeded(199);
    let first = generate_user_from(&mut a).unwrap();
    let second = generate_user_from(&mut b).unwrap();
    assert_eq!(format!("{:?}", first), format!("{:?}", second));
    assert_eq!(a, b);
}

#[test]
fn different_seeds_give_different_documents() {
    let schema = schema_of(Entity::CompletedChallenge);
    let mut a = RandomSource::seeded(5150);
    let mut b = RandomSource::seeded(5151);
    let mut c = RandomSource::seeded(5150);
    let first = produce(&schema, &mut a).unwrap();
    let second = produce(&schema, &mut b).unwrap();
    let third = produce(&schema, &mut c).unwrap();
    assert_ne!(format!("{:?}", first), format!("{:?}", second));
    assert_eq!(format!("{:?}", first), format!("{:?}", third));
}

#[test]
fn user_schema_is_well_formed_with_distinct_keys() {
    let schema = user_schema();
    assert_eq!(schema.check(), Ok(()));
    let fields = match &schema {
        Descriptor::Record(fields) => fields,
        other => panic!("no record: {:?}", other),
    };
    assert_eq!(fields.len(), 46);
    assert_eq!(fields[0].name, "about");
    assert_eq!(fields[1].name, "accepted_privacy_terms");
    assert_eq!(fields[1].key, "acceptedPrivacyTerms");
    assert_eq!(fields[35].name, "profile_ui");
    assert_eq!(fields[35].key, "profileUI");
    assert_eq!(fields[45].key, "yearsTopContributor");
    for (i, a) in fields.iter().enumerate() {
        for b in &fields[i + 1..] {
            assert_ne!(a.key, b.key);
            assert_ne!(a.name, b.name);
        }
    }
    assert!(matches!(fields[2].descriptor, Descriptor::Sequence(_, 0, 999)));
    assert!(matches!(fields[36].descriptor, Descriptor::Sequence(_, 0, 999)));
}

#[test]
fn registry_holds_every_entity() {
    let sizes = [
        (Entity::User, 46),
        (Entity::Timestamp, 2),
        (Entity::ProfileSettings, 10),
        (Entity::CompletedChallenge, 7),
        (Entity::SavedChallenge, 4),
        (Entity::File, 5),
    ];
    for (entity, size) in sizes {
        let schema = schema_of(entity);
        assert_eq!(schema.check(), Ok(()));
        match schema {
            Descriptor::Record(fields) => {
                assert_eq!(fields.len(), size);
                assert!(camp_seed::assemble::has_distinct_keys(&fields));
            },
            other => panic!("no record: {:?}", other),
        }
    }
}

#[test]
fn batch_generates_each_user_in_turn() {
    let mut source = RandomSource::seeded(168);
    let batch = generate_users(&mut source, 1);
    assert_eq!(batch.len(), 1);
    let mut mirror = RandomSource::seeded(168);
    for outcome in &batch {
        let document = outcome.as_ref().unwrap();
        check_user(document);
        let alone = generate_user_from(&mut mirror).unwrap();
        assert_eq!(format!("{:?}", document), format!("{:?}", alone));
    }
    assert_eq!(source, mirror);
    assert!(generate_users(&mut source, 0).is_empty());
    assert_eq!(source, mirror);
}

#[test]
fn record_fields_are_traversed_in_order() {
    let schema = schema_of(Entity::Timestamp);
    let fields = schema.fields().unwrap();
    let keys: Vec<&str> = fields.iter().map(|field| field.key.as_str()).collect();
    assert_eq!(keys, vec!["completedDate", "id"]);
    assert!(fields[0].descriptor.fields().is_none());
    let schema = schema_of(Entity::File);
    let keys: Vec<&str> = schema.fields().unwrap().iter().map(|f| f.key.as_str()).collect();
    assert_eq!(keys, vec!["contents", "ext", "key", "name", "path"]);
}
