use fsgen::{
    generate_file, validate_config, GenError, ItemConfig, Probability, ResolvedItem, RngConfig,
};

fn literal(s: &str) -> RngConfig {
    RngConfig::StringGen { value: s.to_string() }
}

#[test]
fn file_node_resolves_name_and_content() {
    // End to end: a file named "a.txt" with cyclic content [1,2,3] of length
    // 7 resolves to exactly one file holding [1,2,3,1,2,3,1].
    let conf = ItemConfig::FileConfig {
        name: literal("a.txt"),
        rand_gen: RngConfig::CycleGen { value: vec![1, 2, 3], length: 7 },
    };
    let existing: Vec<String> = Vec::new();
    match generate_file(&conf, &existing).unwrap() {
        ResolvedItem::ResolvedFile { name, content } => {
            assert_eq!(name, "a.txt");
            assert_eq!(content, vec![1, 2, 3, 1, 2, 3, 1]);
        },
        ResolvedItem::ResolvedDir { .. } => panic!("expected a file"),
    }
}

#[test]
fn directory_node_resolves_children_in_order() {
    // End to end: directory "d" containing file "x" with content "hi".
    let conf = ItemConfig::DirectoryConfig {
        name: literal("d"),
        items: vec![ItemConfig::FileConfig {
            name: literal("x"),
            rand_gen: literal("hi"),
        }],
    };
    let existing: Vec<String> = Vec::new();
    match generate_file(&conf, &existing).unwrap() {
        ResolvedItem::ResolvedDir { name, children } => {
            assert_eq!(name, "d");
            assert_eq!(children.len(), 1);
            match &children[0] {
                ResolvedItem::ResolvedFile { name, content } => {
                    assert_eq!(name, "x");
                    assert_eq!(content, &vec![104, 105]);
                },
                ResolvedItem::ResolvedDir { .. } => panic!("expected a file child"),
            }
        },
        ResolvedItem::ResolvedFile { .. } => panic!("expected a directory"),
    }
}

#[test]
fn duplicate_sibling_names_rejected() {
    // Two children resolving to the same name fail the whole directory, and
    // nothing at all is resolved for materialization.
    let conf = ItemConfig::DirectoryConfig {
        name: literal("d"),
        items: vec![
            ItemConfig::FileConfig { name: literal("x"), rand_gen: literal("one") },
            ItemConfig::FileConfig {
                name: RngConfig::CycleGen { value: "x".to_string().into_bytes(), length: 1 },
                rand_gen: literal("two"),
            },
        ],
    };
    let existing: Vec<String> = Vec::new();
    assert_eq!(generate_file(&conf, &existing).unwrap_err(), GenError::DuplicateName);
}

#[test]
fn existing_entry_name_rejected() {
    // A target directory that already holds an entry with the root's
    // resolved name fails with AlreadyExists before anything is resolved.
    let conf = ItemConfig::FileConfig { name: literal("a.txt"), rand_gen: literal("data") };
    let existing: Vec<String> = vec!["b.txt".to_string(), "a.txt".to_string()];
    assert_eq!(generate_file(&conf, &existing).unwrap_err(), GenError::AlreadyExists);
}

#[test]
fn random_name_rule_rejected_in_tree() {
    let conf = ItemConfig::FileConfig {
        name: RngConfig::BitTrain {
            probability: Probability { numerator: 1, denominator: 2 },
            seed: None,
            length: 4,
        },
        rand_gen: literal("data"),
    };
    let existing: Vec<String> = Vec::new();
    assert_eq!(generate_file(&conf, &existing).unwrap_err(), GenError::InvalidRule);
}

#[test]
fn child_content_error_propagates() {
    let conf = ItemConfig::DirectoryConfig {
        name: literal("d"),
        items: vec![ItemConfig::FileConfig {
            name: literal("x"),
            rand_gen: RngConfig::CycleGen { value: vec![], length: 5 },
        }],
    };
    let existing: Vec<String> = Vec::new();
    assert_eq!(generate_file(&conf, &existing).unwrap_err(), GenError::InvalidRule);
}

#[test]
fn validate_accepts_well_formed_tree() {
    let conf = ItemConfig::DirectoryConfig {
        name: literal("d"),
        items: vec![ItemConfig::FileConfig {
            name: RngConfig::CycleGen { value: vec![97], length: 3 },
            rand_gen: RngConfig::BitTrain {
                probability: Probability { numerator: 1, denominator: 2 },
                seed: Some(vec![1, 2]),
                length: 9,
            },
        }],
    };
    assert!(validate_config(&conf).is_ok());
}

#[test]
fn validate_rejects_random_name_rule() {
    let conf = ItemConfig::FileConfig {
        name: RngConfig::RangeGen { value: vec![vec![1]], seed: None, length: 2 },
        rand_gen: literal("data"),
    };
    assert!(validate_config(&conf).is_err());
}

#[test]
fn validate_rejects_invalid_probability() {
    let conf = ItemConfig::FileConfig {
        name: literal("f"),
        rand_gen: RngConfig::BitTrain {
            probability: Probability { numerator: 2, denominator: 1 },
            seed: None,
            length: 1,
        },
    };
    let err = validate_config(&conf).unwrap_err();
    assert_eq!(err.message(), "Wrong config data");
}
