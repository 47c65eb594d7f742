use markharness::knowledge::{
    romanize_label, serialize_behavior, serialize_feature, serialize_requirement,
    serialize_scenario, Behavior, Feature, GeneratedBy, Phase, Procedure, ProcedureMap,
    Requirement, Scenario, StepItem, VerifiedBy,
};
use serde_yaml_ng::Value;

const MULTILINE: &str = "line one about foo.js: bar()\nline two about baz.js: qux()\n";

fn parse(yaml: &str) -> Value {
    serde_yaml_ng::from_str(yaml).unwrap()
}

fn text(v: &Value, key: &str) -> Option<String> {
    v.get(key).and_then(|x| x.as_str()).map(|s| s.to_string())
}

fn sample_behavior() -> Behavior {
    Behavior {
        id: "player-jump-jump".to_string(),
        feature: "player-jump".to_string(),
        label: "jump".to_string(),
        axis: vec!["gameplay".to_string()],
        description: "Player presses jump.".to_string(),
        procedures: ProcedureMap::new(),
        uid: None,
    }
}

fn sample_scenario() -> Scenario {
    Scenario {
        id: "player-jump-jump-ground".to_string(),
        behavior: "player-jump-jump".to_string(),
        label: "ground".to_string(),
        description: "Jump from the ground and land.".to_string(),
        phases: vec![Phase {
            steps: vec![StepItem::Action {
                action: "Land on the ground.".to_string(),
            }],
            results: vec!["Player is standing on the ground.".to_string()],
        }],
        implementation_note: None,
        generated_by: None,
        verified_by: None,
        uid: None,
    }
}

fn string_list(v: &Value) -> Vec<String> {
    v.as_sequence()
        .unwrap()
        .iter()
        .map(|x| x.as_str().unwrap().to_string())
        .collect()
}

#[test]
fn serializes_requirement_with_multiline_description_as_valid_yaml() {
    let requirement = Requirement {
        id: "account-management".to_string(),
        label: "account-management".to_string(),
        axis: vec!["security".to_string()],
        description: Some(MULTILINE.to_string()),
        source: None,
        related_issues: Vec::new(),
        uid: None,
    };

    let yaml = serialize_requirement(&requirement);
    let reparsed = parse(&yaml);

    assert_eq!(text(&reparsed, "description"), requirement.description);
}

#[test]
fn serializes_requirement_with_uid_when_present() {
    let requirement = Requirement {
        id: "account-management".to_string(),
        label: "account-management".to_string(),
        axis: vec!["security".to_string()],
        description: None,
        source: None,
        related_issues: Vec::new(),
        uid: Some("01ARZ3NDEKTSV4RRFFQ69G5FAV".to_string()),
    };

    let yaml = serialize_requirement(&requirement);

    assert_eq!(
        yaml,
        "id: account-management\nlabel: account-management\naxis: [security]\nuid: 01ARZ3NDEKTSV4RRFFQ69G5FAV\n"
    );
}

#[test]
fn serializes_feature_with_multiline_description_as_valid_yaml() {
    let feature = Feature {
        id: "player-jump".to_string(),
        requirement_uids: vec!["player-controls".to_string()],
        label: "player-jump".to_string(),
        axis: vec!["gameplay".to_string()],
        description: Some(MULTILINE.to_string()),
        forked_from: None,
        uid: None,
    };

    let yaml = serialize_feature(&feature);
    let reparsed = parse(&yaml);

    assert_eq!(text(&reparsed, "description"), feature.description);
}

#[test]
fn serializes_feature_with_uid_when_present() {
    let feature = Feature {
        id: "task-management".to_string(),
        requirement_uids: vec!["player-controls".to_string()],
        label: "task-management".to_string(),
        axis: vec!["gameplay".to_string()],
        description: None,
        forked_from: None,
        uid: Some("01ARZ3NDEKTSV4RRFFQ69G5FAV".to_string()),
    };

    let yaml = serialize_feature(&feature);

    assert_eq!(
        yaml,
        "id: task-management\nrequirement_uids: [player-controls]\nlabel: task-management\naxis: [gameplay]\nuid: 01ARZ3NDEKTSV4RRFFQ69G5FAV\n"
    );
    let reparsed = parse(&yaml);
    assert_eq!(text(&reparsed, "id"), Some(feature.id.clone()));
    assert_eq!(
        string_list(&reparsed["requirement_uids"]),
        feature.requirement_uids
    );
    assert_eq!(text(&reparsed, "label"), Some(feature.label.clone()));
    assert_eq!(string_list(&reparsed["axis"]), feature.axis);
    assert_eq!(text(&reparsed, "description"), feature.description);
    assert_eq!(text(&reparsed, "forked_from"), feature.forked_from);
    assert_eq!(text(&reparsed, "uid"), feature.uid);
}

#[test]
fn serializes_behavior_to_deterministic_yaml() {
    let behavior = sample_behavior();

    let yaml = serialize_behavior(&behavior);

    assert_eq!(
        yaml,
        "id: player-jump-jump\nfeature: player-jump\nlabel: jump\naxis: [gameplay]\ndescription: |\n  Player presses jump.\nprocedures: {}\n"
    );
}

#[test]
fn serializes_behavior_with_procedures_sorted_by_name() {
    let mut behavior = sample_behavior();
    behavior.procedures.insert(
        "logout".to_string(),
        Procedure {
            steps: vec!["Press the logout button.".to_string()],
        },
    );
    behavior.procedures.insert(
        "login".to_string(),
        Procedure {
            steps: vec![
                "Enter credentials.".to_string(),
                "Press the login button.".to_string(),
            ],
        },
    );

    let yaml = serialize_behavior(&behavior);

    assert_eq!(
        yaml,
        "id: player-jump-jump\nfeature: player-jump\nlabel: jump\naxis: [gameplay]\ndescription: |\n  Player presses jump.\nprocedures:\n  login:\n    steps:\n      - \"Enter credentials.\"\n      - \"Press the login button.\"\n  logout:\n    steps:\n      - \"Press the logout button.\"\n"
    );
    let reparsed = parse(&yaml);
    let procedures = reparsed["procedures"].as_mapping().unwrap();
    assert_eq!(procedures.len(), behavior.procedures.len());
    for name in ["login", "logout"] {
        assert_eq!(
            string_list(&reparsed["procedures"][name]["steps"]),
            behavior.procedures.get(name).unwrap().steps
        );
    }
}

#[test]
fn serializes_behavior_with_multiline_description_as_valid_yaml() {
    let mut behavior = sample_behavior();
    behavior.description = MULTILINE.to_string();

    let yaml = serialize_behavior(&behavior);
    let reparsed = parse(&yaml);

    assert_eq!(text(&reparsed, "description"), Some(behavior.description));
}

#[test]
fn serializes_behavior_with_uid_when_present() {
    let mut behavior = sample_behavior();
    behavior.uid = Some("01ARZ3NDEKTSV4RRFFQ69G5FAV".to_string());

    let yaml = serialize_behavior(&behavior);

    assert_eq!(
        yaml,
        "id: player-jump-jump\nfeature: player-jump\nlabel: jump\naxis: [gameplay]\ndescription: |\n  Player presses jump.\nprocedures: {}\nuid: 01ARZ3NDEKTSV4RRFFQ69G5FAV\n"
    );
    let reparsed = parse(&yaml);
    assert_eq!(text(&reparsed, "uid"), behavior.uid);
}

#[test]
fn serializes_scenario_with_a_use_step() {
    let mut scenario = sample_scenario();
    scenario.phases = vec![
        Phase {
            steps: vec![StepItem::Use {
                procedure: "login".to_string(),
            }],
            results: vec!["My page is shown.".to_string()],
        },
        Phase {
            steps: vec![
                StepItem::Action {
                    action: "Log out.".to_string(),
                },
                StepItem::Use {
                    procedure: "login".to_string(),
                },
            ],
            results: vec!["My page is shown again.".to_string()],
        },
    ];

    let yaml = serialize_scenario(&scenario);
    let reparsed = parse(&yaml);

    let phases = reparsed["phases"].as_sequence().unwrap();
    assert_eq!(phases.len(), scenario.phases.len());
    for (phase_value, phase) in phases.iter().zip(scenario.phases.iter()) {
        let steps = phase_value["steps"].as_sequence().unwrap();
        assert_eq!(steps.len(), phase.steps.len());
        for (step_value, step) in steps.iter().zip(phase.steps.iter()) {
            match step {
                StepItem::Action { action } => {
                    assert_eq!(text(step_value, "action"), Some(action.clone()));
                }
                StepItem::Use { procedure } => {
                    assert_eq!(text(step_value, "use"), Some(procedure.clone()));
                }
            }
        }
        assert_eq!(string_list(&phase_value["results"]), phase.results);
    }
    assert!(yaml.contains("      - use: login\n"));
}

#[test]
fn serializes_scenario_with_multiline_description_as_valid_yaml() {
    let mut scenario = sample_scenario();
    scenario.description = MULTILINE.to_string();

    let yaml = serialize_scenario(&scenario);
    let reparsed = parse(&yaml);

    assert_eq!(text(&reparsed, "description"), Some(scenario.description));
}

#[test]
fn serializes_scenario_with_implementation_note_when_present() {
    let mut scenario = sample_scenario();
    scenario.implementation_note =
        Some("saveState() persists position to localStorage.".to_string());

    let yaml = serialize_scenario(&scenario);

    assert_eq!(
        yaml,
        "id: player-jump-jump-ground\nbehavior: player-jump-jump\nlabel: ground\ndescription: |\n  Jump from the ground and land.\nphases:\n  - steps:\n      - action: \"Land on the ground.\"\n    results:\n      - \"Player is standing on the ground.\"\nimplementation_note: |\n  saveState() persists position to localStorage.\n"
    );
    let reparsed = parse(&yaml);
    assert_eq!(
        text(&reparsed, "implementation_note"),
        scenario.implementation_note.map(|note| format!("{note}\n"))
    );
}

#[test]
fn serializes_scenario_with_uid_when_present() {
    let mut scenario = sample_scenario();
    scenario.uid = Some("01ARZ3NDEKTSV4RRFFQ69G5FAV".to_string());

    let yaml = serialize_scenario(&scenario);

    assert_eq!(
        yaml,
        "id: player-jump-jump-ground\nbehavior: player-jump-jump\nlabel: ground\ndescription: |\n  Jump from the ground and land.\nphases:\n  - steps:\n      - action: \"Land on the ground.\"\n    results:\n      - \"Player is standing on the ground.\"\nuid: 01ARZ3NDEKTSV4RRFFQ69G5FAV\n"
    );
    let reparsed = parse(&yaml);
    assert_eq!(text(&reparsed, "uid"), scenario.uid);
}

#[test]
fn serializes_scenario_with_generated_by_and_verified_by_when_present() {
    let mut scenario = sample_scenario();
    scenario.generated_by = Some(GeneratedBy::Llm);
    scenario.verified_by = Some(VerifiedBy { human_review: true });

    let yaml = serialize_scenario(&scenario);

    assert_eq!(
        yaml,
        "id: player-jump-jump-ground\nbehavior: player-jump-jump\nlabel: ground\ndescription: |\n  Jump from the ground and land.\nphases:\n  - steps:\n      - action: \"Land on the ground.\"\n    results:\n      - \"Player is standing on the ground.\"\ngenerated_by: llm\nverified_by:\n  human_review: true\n"
    );
    let reparsed = parse(&yaml);
    assert_eq!(text(&reparsed, "generated_by"), Some("llm".to_string()));
    assert_eq!(
        reparsed["verified_by"]["human_review"].as_bool(),
        Some(true)
    );
}

#[test]
fn romanize_label_converts_japanese_to_romaji() {
    assert_eq!(
        romanize_label("プレイヤーがジャンプする"),
        "pureiyaagajanpusuru"
    );
}
