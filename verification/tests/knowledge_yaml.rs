use markharness::knowledge::{
    contains_non_ascii, is_valid_slug, normalize_slug_candidate,
    serialize_behavior, serialize_feature, serialize_requirement, serialize_scenario,
    strip_redundant_scenario_prefix, Behavior, Feature, GeneratedBy, Phase, Procedure,
    ProcedureMap, Requirement, Scenario, StepItem, VerifiedBy,
};

fn sample_scenario() -> Scenario {
    Scenario {
        id: "player-jump-jump-ground".to_string(),
        behavior: "player-jump-jump".to_string(),
        label: "ground".to_string(),
        description: "Jump from the ground and land.".to_string(),
        phases: vec![Phase {
            steps: vec![StepItem::Action {
                action: "Land on the ground.".to_string(),
            }],
            results: vec!["Player is standing on the ground.".to_string()],
        }],
        implementation_note: None,
        generated_by: None,
        verified_by: None,
        uid: None,
    }
}

#[test]
fn serializes_requirement_to_deterministic_yaml() {
    let requirement = Requirement {
        id: "account-management".to_string(),
        label: "account-management".to_string(),
        axis: vec!["security".to_string()],
        description: None,
        source: None,
        related_issues: Vec::new(),
        uid: None,
    };

    let yaml = serialize_requirement(&requirement);

    assert_eq!(
        yaml,
        "id: account-management\nlabel: account-management\naxis: [security]\n"
    );
}

#[test]
fn serializes_requirement_with_description_when_present() {
    let requirement = Requirement {
        id: "account-management".to_string(),
        label: "アカウント管理".to_string(),
        axis: vec!["security".to_string()],
        description: Some("Account related requirements.".to_string()),
        source: None,
        related_issues: Vec::new(),
        uid: None,
    };

    let yaml = serialize_requirement(&requirement);

    assert_eq!(
        yaml,
        "id: account-management\nlabel: アカウント管理\naxis: [security]\ndescription: |\n  Account related requirements.\n"
    );
}

#[test]
fn serializes_feature_to_deterministic_yaml() {
    let feature = Feature {
        id: "player-jump".to_string(),
        requirement_uids: vec!["player-controls".to_string()],
        label: "player-jump".to_string(),
        axis: vec!["gameplay".to_string(), "animation".to_string()],
        description: None,
        forked_from: None,
        uid: None,
    };

    let yaml = serialize_feature(&feature);

    assert_eq!(
        yaml,
        "id: player-jump\nrequirement_uids: [player-controls]\nlabel: player-jump\naxis: [gameplay, animation]\n"
    );
}

#[test]
fn serializes_feature_with_description_when_present() {
    let feature = Feature {
        id: "player-jump".to_string(),
        requirement_uids: vec!["player-controls".to_string()],
        label: "プレイヤージャンプ".to_string(),
        axis: vec!["gameplay".to_string()],
        description: Some("Jump related behaviors.".to_string()),
        forked_from: None,
        uid: None,
    };

    let yaml = serialize_feature(&feature);

    assert_eq!(
        yaml,
        "id: player-jump\nrequirement_uids: [player-controls]\nlabel: プレイヤージャンプ\naxis: [gameplay]\ndescription: |\n  Jump related behaviors.\n"
    );
}

#[test]
fn serializes_feature_with_forked_from_when_present() {
    let feature = Feature {
        id: "player-double-jump".to_string(),
        requirement_uids: vec!["player-controls".to_string()],
        label: "player-double-jump".to_string(),
        axis: vec!["gameplay".to_string()],
        description: None,
        forked_from: Some("player-jump".to_string()),
        uid: None,
    };

    let yaml = serialize_feature(&feature);

    assert_eq!(
        yaml,
        "id: player-double-jump\nrequirement_uids: [player-controls]\nlabel: player-double-jump\naxis: [gameplay]\nforked_from: player-jump\n"
    );
}

#[test]
fn serializes_scenario_to_deterministic_yaml() {
    let scenario = sample_scenario();

    let yaml = serialize_scenario(&scenario);

    assert_eq!(
        yaml,
        "id: player-jump-jump-ground\nbehavior: player-jump-jump\nlabel: ground\ndescription: |\n  Jump from the ground and land.\nphases:\n  - steps:\n      - action: \"Land on the ground.\"\n    results:\n      - \"Player is standing on the ground.\"\n"
    );
}

#[test]
fn rejects_empty_slug() {
    assert!(!is_valid_slug(""));
}

#[test]
fn rejects_slug_with_invalid_characters() {
    assert!(!is_valid_slug("Player Jump!"));
}

#[test]
fn accepts_lowercase_alphanumeric_hyphen_slug() {
    assert!(is_valid_slug("player-jump-001"));
}

#[test]
fn strips_redundant_prefix_when_scenario_id_starts_with_feature_id() {
    assert_eq!(
        strip_redundant_scenario_prefix("player-jump", "player-jump-ground"),
        Some("ground".to_string())
    );
}

#[test]
fn does_not_strip_when_scenario_id_has_no_matching_prefix() {
    assert_eq!(
        strip_redundant_scenario_prefix("player-jump", "jump-ground"),
        None
    );
}

#[test]
fn does_not_strip_when_remainder_would_be_empty() {
    assert_eq!(
        strip_redundant_scenario_prefix("player-jump", "player-jump-"),
        None
    );
}

#[test]
fn contains_non_ascii_is_false_for_ascii_string() {
    assert!(!contains_non_ascii("player-jump-001"));
}

#[test]
fn contains_non_ascii_is_true_for_string_with_japanese() {
    assert!(contains_non_ascii("プレイヤーがジャンプする"));
}

#[test]
fn normalize_slug_candidate_replaces_spaces_with_hyphens() {
    assert_eq!(
        normalize_slug_candidate("pureiyaa ga janpu suru"),
        "pureiyaa-ga-janpu-suru"
    );
}

#[test]
fn normalize_slug_candidate_lowercases_mixed_case_input() {
    assert_eq!(
        normalize_slug_candidate("Pureiyaa GA Janpu"),
        "pureiyaa-ga-janpu"
    );
}

#[test]
fn normalize_slug_candidate_strips_unsupported_symbols() {
    assert_eq!(normalize_slug_candidate("Player!! Jump??"), "player-jump");
}

#[test]
fn serializes_requirement_with_uid_last() {
    let requirement = Requirement {
        id: "r".to_string(),
        label: "R".to_string(),
        axis: vec![],
        description: None,
        source: None,
        related_issues: Vec::new(),
        uid: Some("01ARZ3NDEKTSV4RRFFQ69G5FR0".to_string()),
    };
    assert_eq!(
        serialize_requirement(&requirement),
        "id: r\nlabel: R\naxis: []\nuid: 01ARZ3NDEKTSV4RRFFQ69G5FR0\n"
    );
}

#[test]
fn serializes_behavior_with_quoted_procedure_steps() {
    let mut procedures = ProcedureMap::new();
    procedures.insert(
        "login".to_string(),
        Procedure {
            steps: vec!["Say \"hi\"".to_string()],
        },
    );
    let behavior = Behavior {
        id: "jump".to_string(),
        feature: "player-jump".to_string(),
        label: "jump".to_string(),
        axis: vec!["gameplay".to_string()],
        description: "Player presses jump.\r\nTwice.".to_string(),
        procedures,
        uid: None,
    };
    assert_eq!(
        serialize_behavior(&behavior),
        "id: jump\nfeature: player-jump\nlabel: jump\naxis: [gameplay]\ndescription: |\n  Player presses jump.\n  Twice.\nprocedures:\n  login:\n    steps:\n      - \"Say \\\"hi\\\"\"\n"
    );
}

#[test]
fn serializes_behavior_without_procedures_as_an_empty_map() {
    let behavior = Behavior {
        id: "jump".to_string(),
        feature: "player-jump".to_string(),
        label: "jump".to_string(),
        axis: vec![],
        description: "d".to_string(),
        procedures: ProcedureMap::new(),
        uid: None,
    };
    assert_eq!(
        serialize_behavior(&behavior),
        "id: jump\nfeature: player-jump\nlabel: jump\naxis: []\ndescription: |\n  d\nprocedures: {}\n"
    );
}

#[test]
fn serializes_scenario_with_use_steps_and_review_gate() {
    let scenario = Scenario {
        id: "s".to_string(),
        behavior: "b".to_string(),
        label: "s".to_string(),
        description: "d".to_string(),
        phases: vec![Phase {
            steps: vec![StepItem::Use {
                procedure: "login".to_string(),
            }],
            results: vec!["ok".to_string()],
        }],
        implementation_note: Some("note".to_string()),
        generated_by: Some(GeneratedBy::AutoCombination),
        verified_by: Some(VerifiedBy { human_review: true }),
        uid: None,
    };
    assert_eq!(
        serialize_scenario(&scenario),
        "id: s\nbehavior: b\nlabel: s\ndescription: |\n  d\nphases:\n  - steps:\n      - use: login\n    results:\n      - \"ok\"\nimplementation_note: |\n  note\ngenerated_by: auto_combination\nverified_by:\n  human_review: true\n"
    );
}

#[test]
fn procedure_map_keeps_names_ordered_and_replaces_a_name() {
    let mut procedures = ProcedureMap::new();
    procedures.insert("b".to_string(), Procedure { steps: vec!["1".to_string()] });
    procedures.insert("a".to_string(), Procedure { steps: vec!["2".to_string()] });
    procedures.insert("b".to_string(), Procedure { steps: vec!["3".to_string()] });
    assert_eq!(procedures.len(), 2);
    assert_eq!(procedures.get("b").unwrap().steps, vec!["3".to_string()]);
    assert_eq!(procedures.get("a").unwrap().steps, vec!["2".to_string()]);
    assert!(procedures.get("c").is_none());
}

#[test]
fn normalized_slug_candidate_is_a_valid_slug_or_empty() {
    for raw in ["!!", "  A  b ", "プレ", "x--y", "-a-"] {
        let slug = normalize_slug_candidate(raw);
        assert!(slug.is_empty() || is_valid_slug(&slug), "{raw:?} gave {slug:?}");
    }
    assert_eq!(normalize_slug_candidate("-a-"), "a");
    assert_eq!(normalize_slug_candidate("!!"), "");
}

#[test]
fn scenario_results_are_written_as_escaped_json_string_literals() {
    let scenario = Scenario {
        id: "s".to_string(),
        behavior: "b".to_string(),
        label: "s".to_string(),
        description: "d".to_string(),
        phases: vec![Phase {
            steps: vec![StepItem::Use {
                procedure: "login".to_string(),
            }],
            results: vec!["say \"hi\"\tthen \\ and \u{1}".to_string()],
        }],
        implementation_note: None,
        generated_by: None,
        verified_by: None,
        uid: None,
    };
    assert_eq!(
        serialize_scenario(&scenario),
        "id: s\nbehavior: b\nlabel: s\ndescription: |\n  d\nphases:\n  - steps:\n      - use: login\n    results:\n      - \"say \\\"hi\\\"\\tthen \\\\ and \\u0001\"\n"
    );
}
