use std::collections::BTreeSet;

use markharness::identity::audit::AuditViolation;
use markharness::identity::derived_uid::{case_revision, case_uid, change_event_uid};
use markharness::identity::entity_kind::{descriptor, descriptors, EntityKind};
use markharness::identity::event::IdentityMutation;
use markharness::identity::typed_uid::{
    CaseUid, Environment, FeatureUid, RequirementUid, ScenarioUid, TargetRevision,
};

#[test]
fn causal_chain_contradiction_display_names_the_kind_entity_and_commit() {
    let violation = AuditViolation::CausalChainContradiction {
        kind: EntityKind::Behavior,
        entity_uid: "uid-2".to_string(),
        commit: "cafef00d".to_string(),
        error: "DanglingPredecessor".to_string(),
    };

    let rendered = violation.to_string();

    assert!(rendered.contains("behavior"));
    assert!(rendered.contains("uid-2"));
    assert!(rendered.contains("cafef00d"));
    assert!(rendered.contains("DanglingPredecessor"));
}

#[test]
fn case_uid_is_deterministic() {
    let a = case_uid("scenario-uid");
    let b = case_uid("scenario-uid");
    assert_eq!(a, b);
}

#[test]
fn case_uid_changes_when_scenario_uid_changes() {
    let base = case_uid("scenario-uid");
    assert_ne!(base, case_uid("other-scenario-uid"));
}

#[test]
fn case_uid_is_a_valid_version_five_uuid_string() {
    let uid = case_uid("scenario-uid");
    let parts: Vec<&str> = uid.split('-').collect();
    assert_eq!(
        parts.iter().map(|part| part.len()).collect::<Vec<_>>(),
        [8, 4, 4, 4, 12]
    );
    assert!(uid.chars().all(|c| c == '-' || c.is_ascii_hexdigit()));
    assert!(parts[2].starts_with('5'));
    assert!(matches!(
        parts[3].chars().next(),
        Some('8' | '9' | 'a' | 'b')
    ));
}

#[test]
fn case_uid_is_well_formed_even_for_a_blank_input() {
    for input in ["", "   "] {
        let uid = case_uid(input);
        assert!(
            !uid.trim().is_empty(),
            "blank input {input:?} produced a blank case_uid"
        );
        assert_eq!(
            uid.len(),
            36,
            "blank input {input:?} produced a malformed case_uid"
        );
    }
}

#[test]
fn case_revision_is_well_formed_even_for_a_blank_input() {
    for input in ["", "   "] {
        let revision = case_revision(input);
        assert!(
            !revision.trim().is_empty(),
            "blank input {input:?} produced a blank case_revision"
        );
        assert_eq!(
            revision.len(),
            36,
            "blank input {input:?} produced a malformed case_revision"
        );
    }
}

#[test]
fn change_event_uid_is_deterministic() {
    let a = change_event_uid("1", "m1", "m2", "feat-uid", "payload", "");
    let b = change_event_uid("1", "m1", "m2", "feat-uid", "payload", "");
    assert_eq!(a, b);
}

#[test]
fn change_event_uid_changes_when_algorithm_version_changes() {
    let a = change_event_uid("1", "m1", "m2", "feat-uid", "payload", "");
    let b = change_event_uid("2", "m1", "m2", "feat-uid", "payload", "");
    assert_ne!(a, b);
}

#[test]
fn change_event_uid_and_case_uid_never_collide_with_each_other() {
    let case = case_uid("x");
    let change = change_event_uid("x", "x", "x", "x", "x", "");
    assert_ne!(case, change);
}

#[test]
fn case_revision_is_deterministic() {
    let a = case_revision("phases-json");
    let b = case_revision("phases-json");
    assert_eq!(a, b);
}

#[test]
fn case_revision_changes_when_the_canonical_phases_change() {
    let base = case_revision("phases-json-a");
    assert_ne!(base, case_revision("phases-json-b"));
}

#[test]
fn case_revision_never_collides_with_case_uid_or_change_event_uid() {
    let revision = case_revision("x");
    let case = case_uid("x");
    let change = change_event_uid("x", "x", "x", "x", "x", "");
    assert_ne!(revision, case);
    assert_ne!(revision, change);
}

#[test]
fn every_entity_kind_has_exactly_one_descriptor() {
    let described: BTreeSet<EntityKind> = descriptors().iter().map(|d| d.kind).collect();
    let all: BTreeSet<EntityKind> = EntityKind::ALL.into_iter().collect();
    assert_eq!(described, all, "descriptors must cover exactly EntityKind::ALL");
    assert_eq!(
        descriptors().len(),
        EntityKind::ALL.len(),
        "descriptors must not contain duplicate kinds"
    );
}

#[test]
fn descriptor_looks_up_the_matching_kind() {
    assert_eq!(descriptor(EntityKind::Feature).kind, EntityKind::Feature);
    assert_eq!(descriptor(EntityKind::Feature).file_name, "feature.yml");
}

#[test]
fn feature_requirement_behavior_condition_form_the_expected_parent_chain() {
    assert_eq!(descriptor(EntityKind::Requirement).parent_kind, None);
    assert_eq!(
        descriptor(EntityKind::Feature).parent_kind,
        Some(EntityKind::Requirement)
    );
    assert_eq!(
        descriptor(EntityKind::Behavior).parent_kind,
        Some(EntityKind::Feature)
    );
    assert_eq!(
        descriptor(EntityKind::Condition).parent_kind,
        Some(EntityKind::Behavior)
    );
    assert_eq!(
        descriptor(EntityKind::ExpectedResult).parent_kind,
        Some(EntityKind::Condition)
    );
}

#[test]
fn as_str_is_lowercase_snake_case_and_unique() {
    let strs: BTreeSet<&str> = EntityKind::ALL.iter().map(|k| k.as_str()).collect();
    assert_eq!(strs.len(), EntityKind::ALL.len());
    assert!(strs
        .iter()
        .all(|s| s.chars().all(|c| c.is_ascii_lowercase() || c == '_')));
}

#[test]
fn directory_segments_are_unique_plural_forms() {
    let segments: BTreeSet<&str> = EntityKind::ALL
        .iter()
        .map(|k| k.directory_segment())
        .collect();
    assert_eq!(segments.len(), EntityKind::ALL.len());
    assert_eq!(EntityKind::Feature.directory_segment(), "features");
    assert_eq!(
        EntityKind::ExpectedResult.directory_segment(),
        "expected_results"
    );
}

#[test]
fn only_issued_and_reissued_can_be_roots() {
    assert!(IdentityMutation::Issued {
        id: "x".to_string()
    }
    .can_be_root());
    assert!(IdentityMutation::Reissued {
        id: "x".to_string(),
        source_uid: None
    }
    .can_be_root());
    assert!(!IdentityMutation::Retired.can_be_root());
    assert!(!IdentityMutation::Restored.can_be_root());
    assert!(!IdentityMutation::Renamed {
        from_id: "a".to_string(),
        to_id: "b".to_string()
    }
    .can_be_root());
}

#[test]
fn new_rejects_an_empty_string() {
    assert!(ScenarioUid::new("").is_err());
}

#[test]
fn target_revision_new_rejects_a_blank_string() {
    assert!(TargetRevision::new("   ").is_err());
}

#[test]
fn target_revision_new_accepts_a_non_blank_string() {
    let revision = TargetRevision::new("abc123").unwrap();
    assert_eq!(revision.as_str(), "abc123");
}

#[test]
fn environment_new_rejects_a_blank_string() {
    assert!(Environment::new("").is_err());
}

#[test]
fn environment_new_accepts_a_non_blank_string() {
    let environment = Environment::new("staging").unwrap();
    assert_eq!(environment.as_str(), "staging");
}

#[test]
fn new_rejects_a_whitespace_only_string() {
    assert!(CaseUid::new("   ").is_err());
}

#[test]
fn new_accepts_a_non_blank_string() {
    let uid = FeatureUid::new("01HXYZ").unwrap();
    assert_eq!(uid.as_str(), "01HXYZ");
}

#[test]
fn display_renders_the_inner_value() {
    let uid = RequirementUid::new("req-1").unwrap();
    assert_eq!(uid.to_string(), "req-1");
}

#[test]
fn distinct_typed_uids_with_the_same_text_are_not_equal_across_types() {
    let case = CaseUid::new("same").unwrap();
    let scenario = ScenarioUid::new("same").unwrap();
    assert_eq!(case.as_str(), scenario.as_str());
}

#[test]
fn blank_value_error_names_the_type() {
    let err = CaseUid::new(" \t").unwrap_err();
    assert_eq!(err.type_label, "CaseUid");
    assert_eq!(err.to_string(), "CaseUid must not be empty or whitespace-only");
}
