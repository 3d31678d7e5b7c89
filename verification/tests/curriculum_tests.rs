use camp_seed::cli::{Args, SubCommand};
use camp_seed::curriculum::{has_distinct_names, is_well_formed};
use camp_seed::curriculum::{
    blocks_in_order, position_of, certification_challenges, certification_tests, get_challenges, superblock_names, Block,
    CertBlock, CertChallenge, CertTest, Certifications, Challenge, ChallengeOrder, Curriculum,
    Meta, Superblock,
};

fn challenge(id: &str) -> Challenge {
    Challenge { id: id.to_string(), title: format!("Title {}", id), dashed_name: format!("title-{}", id) }
}

fn block(name: &str, order: u16, ids: &[&str]) -> (String, Block) {
    let meta = Meta {
        name: name.to_string(),
        dashed_name: name.to_lowercase(),
        challenge_order: ids
            .iter()
            .map(|id| ChallengeOrder { id: id.to_string(), title: format!("Title {}", id) })
            .collect(),
        order,
    };
    (name.to_lowercase(), Block { meta, challenges: ids.iter().map(|id| challenge(id)).collect() })
}

fn cert(id: &str, tests: &[&str]) -> CertChallenge {
    CertChallenge {
        id: id.to_string(),
        title: format!("Cert {}", id),
        tests: tests
            .iter()
            .map(|t| CertTest { id: t.to_string(), title: format!("Test {}", t) })
            .collect(),
    }
}

fn sample() -> Curriculum {
    Curriculum {
        certifications: Certifications {
            blocks: vec![
                ("web".to_string(), CertBlock { challenges: vec![cert("c1", &["t1", "t2"])] }),
                ("empty".to_string(), CertBlock { challenges: Vec::new() }),
                (
                    "data".to_string(),
                    CertBlock { challenges: vec![cert("c2", &[]), cert("c3", &["t3"])] },
                ),
            ],
        },
        superblocks: vec![
            (
                "responsive-web-design".to_string(),
                Superblock { blocks: vec![block("Basic", 1, &["a", "b"]), block("Forms", 0, &["c"])] },
            ),
            ("bare".to_string(), Superblock { blocks: Vec::new() }),
            ("algorithms".to_string(), Superblock { blocks: vec![block("Sorting", 0, &["d"])] }),
        ],
    }
}

#[test]
fn challenges_are_flattened_in_order() {
    let challenges = get_challenges(&sample());
    let ids: Vec<&str> = challenges.iter().map(|c| c.id.as_str()).collect();
    assert_eq!(ids, vec!["a", "b", "c", "d"]);
    assert_eq!(challenges[2].title, "Title c");
    assert_eq!(challenges[2].dashed_name, "title-c");
}

#[test]
fn empty_curriculum_has_no_challenges() {
    let curriculum = Curriculum {
        certifications: Certifications { blocks: Vec::new() },
        superblocks: Vec::new(),
    };
    assert!(get_challenges(&curriculum).is_empty());
    assert!(certification_challenges(&curriculum).is_empty());
    assert!(superblock_names(&curriculum).is_empty());
}

#[test]
fn certification_challenges_are_flattened_in_order() {
    let curriculum = sample();
    let certs = certification_challenges(&curriculum);
    let ids: Vec<&str> = certs.iter().map(|c| c.id.as_str()).collect();
    assert_eq!(ids, vec!["c1", "c2", "c3"]);
    assert_eq!(certs[0].tests.len(), 2);
}

#[test]
fn tests_of_chosen_certifications() {
    let chosen = vec![cert("c1", &["t1", "t2"]), cert("c2", &[]), cert("c3", &["t3"])];
    let tests = certification_tests(&chosen);
    let ids: Vec<&str> = tests.iter().map(|t| t.id.as_str()).collect();
    assert_eq!(ids, vec!["t1", "t2", "t3"]);
    assert_eq!(tests[2].title, "Test t3");
}

#[test]
fn superblock_names_in_order() {
    assert_eq!(
        superblock_names(&sample()),
        vec!["responsive-web-design".to_string(), "bare".to_string(), "algorithms".to_string()]
    );
}

#[test]
fn labels_are_titles_and_names() {
    let curriculum = sample();
    let (_, basic) = &curriculum.superblocks[0].1.blocks[0];
    assert_eq!(basic.label(), "Basic");
    assert_eq!(basic.challenges[0].label(), "Title a");
    let c = cert("c1", &["t1"]);
    assert_eq!(c.label(), "Cert c1");
    assert_eq!(c.tests[0].label(), "Test t1");
    let copy = basic.challenges[1].duplicate();
    assert_eq!(copy.id, "b");
    assert_eq!(c.tests[0].duplicate().id, "t1");
}

#[test]
fn default_arguments() {
    let args = Args::with_defaults(SubCommand::AddUsers { count: 3 });
    assert_eq!(args.uri, "mongodb://127.0.0.1:27017/freecodecamp?directConnection=true");
    assert_eq!(args.username, "developmentuser");
    assert_eq!(args.curriculum_path, "shared/config/curriculum.json");
    assert_eq!(args.sub_commands, SubCommand::AddUsers { count: 3 });
    assert_eq!(args.sub_commands.users_to_add(), 3);
    assert_eq!(SubCommand::ClaimCerts.users_to_add(), 0);
    assert_eq!(SubCommand::FinishFreeCodeCamp.users_to_add(), 0);
    assert_eq!(SubCommand::AddChallenges.users_to_add(), 0);
}

#[test]
fn blocks_are_ordered_by_order_and_ties_keep_their_place() {
    let blocks = vec![
        block("E", 3, &[]),
        block("A", 1, &[]),
        block("C", 2, &[]),
        block("B", 1, &[]),
        block("D", 2, &[]),
        block("Z", 0, &[]),
    ];
    assert_eq!(blocks_in_order(&blocks), vec![5, 1, 3, 2, 4, 0]);
    let names: Vec<String> = blocks_in_order(&blocks).iter().map(|at| blocks[*at].1.label()).collect();
    assert_eq!(names, vec!["Z", "A", "B", "C", "D", "E"]);
    assert_eq!(blocks_in_order(&Vec::new()), Vec::<usize>::new());
    assert_eq!(blocks_in_order(&vec![block("A", 9, &[])]), vec![0]);
    let curriculum = sample();
    assert_eq!(blocks_in_order(&curriculum.superblocks[0].1.blocks), vec![1, 0]);
}

#[test]
fn position_of_finds_first_entry_of_name() {
    let curriculum = sample();
    assert_eq!(position_of(&curriculum.superblocks, &"bare".to_string()), Some(1));
    assert_eq!(position_of(&curriculum.superblocks, &"algorithms".to_string()), Some(2));
    assert_eq!(position_of(&curriculum.superblocks, &"missing".to_string()), None);
    let twice = vec![("a".to_string(), 1), ("b".to_string(), 2), ("a".to_string(), 3)];
    assert_eq!(position_of(&twice, &"a".to_string()), Some(0));
    assert_eq!(position_of(&curriculum.superblocks[0].1.blocks, &"forms".to_string()), Some(1));
}

#[test]
fn distinct_names_are_told_from_repeated_ones() {
    let none: Vec<(String, u8)> = Vec::new();
    assert!(has_distinct_names(&none));
    assert!(has_distinct_names(&vec![("a".to_string(), 1), ("b".to_string(), 1)]));
    assert!(!has_distinct_names(&vec![
        ("a".to_string(), 1),
        ("b".to_string(), 2),
        ("a".to_string(), 3),
    ]));
}

#[test]
fn curriculum_with_repeated_names_is_not_well_formed() {
    assert!(is_well_formed(&sample()));
    let mut twice = sample();
    twice.superblocks.push(("bare".to_string(), Superblock { blocks: Vec::new() }));
    assert!(!is_well_formed(&twice));
    let mut twice = sample();
    twice.certifications.blocks.push(("web".to_string(), CertBlock { challenges: Vec::new() }));
    assert!(!is_well_formed(&twice));
    let mut twice = sample();
    twice.superblocks[2].1.blocks.push(block("Sorting", 4, &[]));
    assert!(!is_well_formed(&twice));
    let empty = Curriculum {
        certifications: Certifications { blocks: Vec::new() },
        superblocks: Vec::new(),
    };
    assert!(is_well_formed(&empty));
}
