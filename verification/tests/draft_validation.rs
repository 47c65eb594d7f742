use markharness::knowledge_draft::{
    validate_draft, BehaviorDraft, ConditionDraft, DraftContext, ExpectedDraft, FeatureDraft,
    KnowledgeDraft, RequirementDraft, ValidateOptions, ValidationErrorCode,
};

fn strings(values: &[&str]) -> Vec<String> {
    values.iter().map(|s| s.to_string()).collect()
}

/// A fresh knowledge tree whose axis registry holds `axis_ids`.
fn fresh_tree_with_axes(axis_ids: &[&str]) -> DraftContext {
    DraftContext {
        axis_registry: strings(axis_ids),
        requirement_exists: false,
        feature_exists: false,
        behavior_exists: false,
        legacy_condition_exists: false,
        condition_exists: false,
        forked_from_exists: false,
        existing_requirement: None,
        existing_feature: None,
        existing_behavior: None,
        existing_condition: None,
    }
}

/// The draft every field of which is given.
fn full_new_draft() -> KnowledgeDraft {
    KnowledgeDraft {
        requirement: RequirementDraft {
            id: "controls".to_string(),
            label: Some("controls".to_string()),
            axis: Some(strings(&["gameplay"])),
            description: None,
        },
        feature: FeatureDraft {
            id: "player-jump".to_string(),
            label: Some("player-jump".to_string()),
            axis: Some(strings(&["gameplay", "animation"])),
            description: None,
            forked_from: None,
        },
        behavior: BehaviorDraft {
            id: "jump".to_string(),
            label: Some("jump".to_string()),
            axis: Some(strings(&["gameplay"])),
            description: Some("Player presses jump.".to_string()),
        },
        condition: ConditionDraft {
            id: "ground".to_string(),
            label: Some("ground".to_string()),
            description: Some("Jump from the ground and land".to_string()),
        },
        expected: vec![
            ExpectedDraft {
                description: "lands safely".to_string(),
            },
            ExpectedDraft {
                description: "takes fall damage if height > 3m".to_string(),
            },
        ],
    }
}

fn no_strip() -> ValidateOptions {
    ValidateOptions {
        strip_redundant_prefix: false,
    }
}

#[test]
fn validate_draft_returns_no_errors_for_a_fully_valid_new_chain() {
    let ctx = fresh_tree_with_axes(&["gameplay", "animation"]);
    let draft = full_new_draft();

    let errors = validate_draft(&draft, &no_strip(), &ctx);

    assert!(errors.is_empty(), "expected no errors, got: {errors:?}");
}

#[test]
fn validate_draft_reports_invalid_slug_for_bad_id() {
    let ctx = fresh_tree_with_axes(&["gameplay", "animation"]);
    let mut draft = full_new_draft();
    draft.condition.id = "Ground!".to_string();

    let errors = validate_draft(&draft, &no_strip(), &ctx);

    assert!(errors
        .iter()
        .any(|e| e.code == ValidationErrorCode::InvalidSlug && e.path == "condition.id"));
}

#[test]
fn validate_draft_reports_missing_axis_for_new_behavior_without_axis() {
    let ctx = fresh_tree_with_axes(&["gameplay", "animation"]);
    let mut draft = full_new_draft();
    draft.behavior.axis = None;

    let errors = validate_draft(&draft, &no_strip(), &ctx);

    assert!(errors
        .iter()
        .any(|e| e.code == ValidationErrorCode::MissingAxis && e.path == "behavior.axis"));
}

#[test]
fn validate_draft_reports_missing_axis_for_new_behavior_with_empty_axis_list() {
    let ctx = fresh_tree_with_axes(&["gameplay", "animation"]);
    let mut draft = full_new_draft();
    draft.behavior.axis = Some(vec![]);

    let errors = validate_draft(&draft, &no_strip(), &ctx);

    assert!(errors
        .iter()
        .any(|e| e.code == ValidationErrorCode::MissingAxis && e.path == "behavior.axis"));
}

#[test]
fn validate_draft_reports_missing_description_for_new_behavior_without_description() {
    let ctx = fresh_tree_with_axes(&["gameplay", "animation"]);
    let mut draft = full_new_draft();
    draft.behavior.description = None;

    let errors = validate_draft(&draft, &no_strip(), &ctx);

    assert!(errors.iter().any(|e| e.code == ValidationErrorCode::MissingDescription
        && e.path == "behavior.description"));
}

#[test]
fn validate_draft_reports_missing_description_for_new_condition_without_description() {
    let ctx = fresh_tree_with_axes(&["gameplay", "animation"]);
    let mut draft = full_new_draft();
    draft.condition.description = None;

    let errors = validate_draft(&draft, &no_strip(), &ctx);

    assert!(errors.iter().any(|e| e.code == ValidationErrorCode::MissingDescription
        && e.path == "condition.description"));
}

#[test]
fn validate_draft_reports_missing_description_for_empty_expected_entry() {
    let ctx = fresh_tree_with_axes(&["gameplay", "animation"]);
    let mut draft = full_new_draft();
    draft.expected.push(ExpectedDraft {
        description: "   ".to_string(),
    });
    let last = draft.expected.len() - 1;

    let errors = validate_draft(&draft, &no_strip(), &ctx);

    assert!(errors.iter().any(|e| e.code == ValidationErrorCode::MissingDescription
        && e.path == format!("expected[{last}].description")));
}

#[test]
fn validate_draft_reports_unknown_axis_with_suggestion() {
    let ctx = fresh_tree_with_axes(&["gameplay", "animation", "validation"]);
    let mut draft = full_new_draft();
    draft.behavior.axis = Some(vec!["validdation".to_string()]);

    let errors = validate_draft(&draft, &no_strip(), &ctx);

    let err = errors
        .iter()
        .find(|e| e.code == ValidationErrorCode::UnknownAxis)
        .expect("expected an unknown_axis error");
    assert_eq!(err.path, "behavior.axis[0]");
    assert_eq!(err.suggestion, Some("validation".to_string()));
}

#[test]
fn validate_draft_reports_redundant_prefix_without_strip_flag() {
    let ctx = fresh_tree_with_axes(&["gameplay", "animation"]);
    let mut draft = full_new_draft();
    draft.condition.id = "jump-ground".to_string();

    let errors = validate_draft(&draft, &no_strip(), &ctx);

    let err = errors
        .iter()
        .find(|e| e.code == ValidationErrorCode::RedundantPrefix)
        .expect("expected a redundant_prefix error");
    assert_eq!(err.suggestion, Some("ground".to_string()));
}

#[test]
fn validate_draft_allows_redundant_prefix_when_strip_flag_set() {
    let ctx = fresh_tree_with_axes(&["gameplay", "animation"]);
    let mut draft = full_new_draft();
    draft.condition.id = "jump-ground".to_string();

    let errors = validate_draft(
        &draft,
        &ValidateOptions {
            strip_redundant_prefix: true,
        },
        &ctx,
    );

    assert!(!errors
        .iter()
        .any(|e| e.code == ValidationErrorCode::RedundantPrefix));
}

#[test]
fn validate_draft_reports_unknown_forked_from_when_referenced_feature_missing() {
    let ctx = fresh_tree_with_axes(&["gameplay", "animation"]);
    let mut draft = full_new_draft();
    draft.feature.forked_from = Some("player-jump".to_string());

    let errors = validate_draft(&draft, &no_strip(), &ctx);

    let err = errors
        .iter()
        .find(|e| e.code == ValidationErrorCode::UnknownForkedFrom)
        .expect("expected an unknown_forked_from error");
    assert_eq!(err.path, "feature.forked_from");
    assert_eq!(err.value, Some("player-jump".to_string()));
}
