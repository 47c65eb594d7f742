use markharness::knowledge_draft::existing_feature_parent;
use markharness::knowledge_apply::{plan_draft_writes, plan_draft_writes_checked, ApplyError, ApplyOptions};
use markharness::knowledge_draft::{
    nearest_axis_suggestion, resolve_effective_condition_id, validate_draft, BehaviorDraft,
    ConditionDraft, DraftContext, ExistingElement, ExpectedDraft, FeatureDraft, KnowledgeDraft,
    RequirementDraft, ValidateOptions, ValidationErrorCode,
};
use markharness::knowledge_edit::{format_parse_error, format_validation_errors, new_axis_candidates};

fn registry(ids: &[&str]) -> Vec<String> {
    ids.iter().map(|s| s.to_string()).collect()
}

fn draft_with_axes(
    requirement_axis: &[&str],
    feature_axis: &[&str],
    behavior_axis: &[&str],
) -> KnowledgeDraft {
    let to_vec = |values: &[&str]| Some(values.iter().map(|s| s.to_string()).collect());
    KnowledgeDraft {
        requirement: RequirementDraft {
            id: "controls".to_string(),
            label: None,
            axis: to_vec(requirement_axis),
            description: None,
        },
        feature: FeatureDraft {
            id: "player-jump".to_string(),
            label: None,
            axis: to_vec(feature_axis),
            description: None,
            forked_from: None,
        },
        behavior: BehaviorDraft {
            id: "jump".to_string(),
            label: None,
            axis: to_vec(behavior_axis),
            description: None,
        },
        condition: ConditionDraft {
            id: "ground".to_string(),
            label: None,
            description: None,
        },
        expected: Vec::new(),
    }
}

#[test]
fn new_axis_candidates_includes_unregistered_value_with_no_near_match() {
    let draft = draft_with_axes(&["state"], &[], &[]);

    let candidates = new_axis_candidates(&draft, &registry(&["gameplay"]));

    assert_eq!(candidates, vec!["state".to_string()]);
}

#[test]
fn new_axis_candidates_excludes_already_registered_value() {
    let draft = draft_with_axes(&["gameplay"], &[], &[]);

    let candidates = new_axis_candidates(&draft, &registry(&["gameplay"]));

    assert!(candidates.is_empty());
}

#[test]
fn new_axis_candidates_excludes_value_with_near_match_suggestion() {
    let draft = draft_with_axes(&["validaton"], &[], &[]);

    let candidates = new_axis_candidates(&draft, &registry(&["validation"]));

    assert!(candidates.is_empty());
}

#[test]
fn new_axis_candidates_excludes_value_with_invalid_slug_format() {
    let draft = draft_with_axes(&["UI"], &[], &[]);

    let candidates = new_axis_candidates(&draft, &registry(&[]));

    assert!(candidates.is_empty());
}

#[test]
fn new_axis_candidates_deduplicates_across_hierarchy_levels_and_sorts() {
    let draft = draft_with_axes(&["state", "ui"], &["ui"], &["network"]);

    let candidates = new_axis_candidates(&draft, &registry(&[]));

    assert_eq!(
        candidates,
        vec!["network".to_string(), "state".to_string(), "ui".to_string()]
    );
}

#[test]
fn new_axis_candidates_partially_creates_only_the_genuinely_new_values() {
    let draft = draft_with_axes(&["state", "validaton"], &[], &[]);

    let candidates = new_axis_candidates(&draft, &registry(&["validation"]));

    assert_eq!(candidates, vec!["state".to_string()]);
}

fn empty_context(axes: &[&str]) -> DraftContext {
    DraftContext {
        axis_registry: registry(axes),
        requirement_exists: false,
        feature_exists: false,
        behavior_exists: false,
        legacy_condition_exists: false,
        condition_exists: false,
        forked_from_exists: false,
        existing_requirement: None,
        existing_feature: None,
        existing_behavior: None,
        existing_condition: None,
    }
}

fn full_draft() -> KnowledgeDraft {
    let mut d = draft_with_axes(&["gameplay"], &["gameplay"], &["gameplay"]);
    d.behavior.description = Some("Player presses jump.".to_string());
    d.condition.description = Some("Jump from the ground".to_string());
    d.expected = vec![ExpectedDraft {
        description: "lands safely".to_string(),
    }];
    d
}

#[test]
fn a_complete_new_chain_validates_cleanly() {
    let errors = validate_draft(
        &full_draft(),
        &ValidateOptions {
            strip_redundant_prefix: false,
        },
        &empty_context(&["gameplay"]),
    );
    assert!(errors.is_empty(), "{errors:?}");
}

#[test]
fn validation_reports_each_rule_in_order() {
    let mut d = full_draft();
    d.requirement.id = "Bad Id".to_string();
    d.condition.id = "jump-ground".to_string();
    d.feature.forked_from = Some("ghost".to_string());
    d.feature.axis = Some(vec!["gamepay".to_string()]);
    d.behavior.axis = None;
    d.behavior.description = Some("   ".to_string());
    d.expected.push(ExpectedDraft {
        description: " ".to_string(),
    });
    let errors = validate_draft(
        &d,
        &ValidateOptions {
            strip_redundant_prefix: false,
        },
        &empty_context(&["gameplay"]),
    );
    let codes: Vec<ValidationErrorCode> = errors.iter().map(|e| e.code).collect();
    assert_eq!(
        codes,
        vec![
            ValidationErrorCode::InvalidSlug,
            ValidationErrorCode::RedundantPrefix,
            ValidationErrorCode::UnknownForkedFrom,
            ValidationErrorCode::UnknownAxis,
            ValidationErrorCode::MissingAxis,
            ValidationErrorCode::MissingDescription,
            ValidationErrorCode::MissingDescription,
        ]
    );
    assert_eq!(
        errors[0].message,
        "\"Bad Id\" is not a valid slug (lowercase alphanumeric and hyphen only)"
    );
    assert_eq!(errors[1].suggestion, Some("ground".to_string()));
    assert_eq!(
        errors[1].message,
        "condition.id \"jump-ground\" starts with behavior.id \"jump-\" prefix"
    );
    assert_eq!(errors[3].path, "feature.axis[0]");
    assert_eq!(errors[3].suggestion, Some("gameplay".to_string()));
    assert_eq!(errors[4].path, "behavior.axis");
    assert_eq!(errors[6].path, "expected[1].description");
    assert_eq!(errors[6].message, "expected[1].description must not be empty");
}

#[test]
fn validation_reports_conflicts_with_existing_elements() {
    let mut d = full_draft();
    d.requirement.label = Some("Controls".to_string());
    d.requirement.axis = Some(vec!["ui".to_string(), "gameplay".to_string()]);
    let mut ctx = empty_context(&["gameplay", "ui"]);
    ctx.requirement_exists = true;
    ctx.existing_requirement = Some(ExistingElement {
        parent: String::new(),
        label: " controls ".to_string(),
        axis: vec!["gameplay".to_string(), "ui".to_string()],
        description: String::new(),
    });
    ctx.feature_exists = true;
    ctx.existing_feature = Some(ExistingElement {
        parent: "other-req".to_string(),
        label: "player-jump".to_string(),
        axis: vec!["gameplay".to_string(), "network".to_string()],
        description: String::new(),
    });
    let errors = validate_draft(
        &d,
        &ValidateOptions {
            strip_redundant_prefix: false,
        },
        &ctx,
    );
    let codes: Vec<ValidationErrorCode> = errors.iter().map(|e| e.code).collect();
    assert_eq!(
        codes,
        vec![
            ValidationErrorCode::ConflictingExistingValue,
            ValidationErrorCode::ParentNotFound,
            ValidationErrorCode::ConflictingExistingValue,
        ]
    );
    assert_eq!(
        errors[0].message,
        "requirement.label \"Controls\" conflicts with existing value \"controls\""
    );
    assert_eq!(
        errors[1].message,
        "feature.requirement refers to \"other-req\" but the draft chain expects \"controls\""
    );
    assert_eq!(
        errors[2].message,
        "feature.axis [gameplay] conflicts with existing value [gameplay, network]"
    );
    assert_eq!(errors[2].suggestion, Some("gameplay, network".to_string()));
}

#[test]
fn nearest_axis_suggestion_takes_the_closest_within_two_edits() {
    let reg = registry(&["validation", "validator", "ui"]);
    assert_eq!(
        nearest_axis_suggestion("validaton", &reg),
        Some("validation".to_string())
    );
    assert_eq!(nearest_axis_suggestion("network", &reg), None);
    assert_eq!(nearest_axis_suggestion("u", &reg), Some("ui".to_string()));
}

#[test]
fn effective_condition_id_prefers_a_legacy_directory() {
    assert_eq!(
        resolve_effective_condition_id(true, "jump", "jump-ground", true),
        "jump-ground"
    );
    assert_eq!(
        resolve_effective_condition_id(false, "jump", "jump-ground", true),
        "ground"
    );
    assert_eq!(
        resolve_effective_condition_id(false, "jump", "jump-ground", false),
        "jump-ground"
    );
}

#[test]
fn format_validation_errors_lists_code_message_and_path() {
    let mut d = full_draft();
    d.feature.axis = Some(vec!["gamepay".to_string()]);
    let errors = validate_draft(
        &d,
        &ValidateOptions {
            strip_redundant_prefix: false,
        },
        &empty_context(&["gameplay"]),
    );
    assert_eq!(
        format_validation_errors(&errors),
        "error: unknown_axis: axis \"gamepay\" is not registered (suggested=\"gameplay\", path=feature.axis[0])\nエディタを再度開いて修正してください。\n"
    );
}

#[test]
fn a_valid_new_chain_plans_every_file() {
    let d = full_draft();
    let mut ctx = empty_context(&["gameplay"]);
    ctx.requirement_exists = true;
    let writes = match plan_draft_writes(
        &d,
        &ApplyOptions {
            strip_redundant_prefix: false,
        },
        &ctx,
        &Some("01ARZ3NDEKTSV4RRFFQ69G5FR0".to_string()),
    ) {
        Ok(w) => w,
        Err(_) => panic!("draft must validate"),
    };
    let paths: Vec<&str> = writes.iter().map(|w| w.0.as_str()).collect();
    assert_eq!(
        paths,
        vec![
            ".markharness/knowledge/features/player-jump/feature.yml",
            ".markharness/knowledge/features/player-jump/jump/behavior.yml",
            ".markharness/knowledge/features/player-jump/jump/ground/scenario.yml",
        ]
    );
    assert_eq!(
        writes[0].1,
        "id: player-jump\nrequirement_uids: [01ARZ3NDEKTSV4RRFFQ69G5FR0]\nlabel: player-jump\naxis: [gameplay]\n"
    );
}

#[test]
fn reapplying_a_draft_whose_chain_exists_plans_nothing() {
    let d = full_draft();
    let mut ctx = empty_context(&["gameplay"]);
    ctx.requirement_exists = true;
    ctx.feature_exists = true;
    ctx.behavior_exists = true;
    ctx.condition_exists = true;
    let result = plan_draft_writes(
        &d,
        &ApplyOptions {
            strip_redundant_prefix: false,
        },
        &ctx,
        &Some("01ARZ3NDEKTSV4RRFFQ69G5FR0".to_string()),
    );
    match result {
        Ok(writes) => assert!(writes.is_empty()),
        Err(_) => panic!("draft must validate"),
    }
}

#[test]
fn an_invalid_draft_plans_nothing() {
    let mut d = full_draft();
    d.behavior.id = "Jump!".to_string();
    let result = plan_draft_writes(
        &d,
        &ApplyOptions {
            strip_redundant_prefix: false,
        },
        &empty_context(&["gameplay"]),
        &None,
    );
    match result {
        Err(ApplyError::Validation(errors)) => assert_eq!(errors.len(), 1),
        _ => panic!("expected a validation error"),
    }
}

#[test]
fn a_draft_that_does_not_parse_is_reported_with_the_parser_message() {
    assert_eq!(
        format_parse_error("failed to parse draft: bad indentation"),
        "error: failed to parse draft: bad indentation\n編集内容を確認し、保存してエディタを終了してください。\n"
    );
}

#[test]
fn an_existing_feature_names_the_draft_requirement_only_when_it_relates_to_its_uid() {
    let uids = vec!["R9".to_string(), "R1".to_string()];
    assert_eq!(existing_feature_parent("controls", &Some("R1".to_string()), &uids), "controls");
    assert_eq!(existing_feature_parent("controls", &Some("R2".to_string()), &uids), "R9");
    assert_eq!(existing_feature_parent("controls", &None, &uids), "R9");
    assert_eq!(existing_feature_parent("controls", &None, &Vec::new()), "");
}

fn element(parent: &str, label: &str, axis: &[&str], description: &str) -> ExistingElement {
    ExistingElement {
        parent: parent.to_string(),
        label: label.to_string(),
        axis: axis.iter().map(|s| s.to_string()).collect(),
        description: description.to_string(),
    }
}

#[test]
fn reapplying_a_draft_over_what_it_created_validates_and_plans_nothing() {
    let d = full_draft();
    let mut ctx = empty_context(&["gameplay"]);
    ctx.requirement_exists = true;
    ctx.feature_exists = true;
    ctx.behavior_exists = true;
    ctx.condition_exists = true;
    ctx.existing_requirement = Some(element("", "controls", &["gameplay"], ""));
    ctx.existing_feature = Some(element("controls", "player-jump", &["gameplay"], ""));
    ctx.existing_behavior = Some(element("player-jump", "jump", &["gameplay"], "Player presses jump."));
    ctx.existing_condition = Some(element("jump", "ground", &[], "Jump from the ground"));
    let options = ValidateOptions { strip_redundant_prefix: false };
    assert!(validate_draft(&d, &options, &ctx).is_empty());
    match plan_draft_writes(&d, &ApplyOptions { strip_redundant_prefix: false }, &ctx, &None) {
        Ok(writes) => assert!(writes.is_empty()),
        Err(_) => panic!("reapplying must validate"),
    }
    ctx.existing_behavior = Some(element("player-jump", "jump", &["gameplay"], "Something else."));
    assert_eq!(validate_draft(&d, &options, &ctx).len(), 1);
}

#[test]
fn a_new_feature_under_a_requirement_without_a_uid_cannot_be_planned() {
    let d = full_draft();
    let mut ctx = empty_context(&["gameplay"]);
    ctx.requirement_exists = true;
    let options = ApplyOptions { strip_redundant_prefix: false };
    assert!(plan_draft_writes_checked(&d, &options, &ctx, &None).is_none());
    match plan_draft_writes_checked(&d, &options, &ctx, &Some("01ARZ3NDEKTSV4RRFFQ69G5FR0".to_string())) {
        Some(Ok(writes)) => assert_eq!(writes.len(), 3),
        _ => panic!("a known uid lets the draft be planned"),
    }
}
