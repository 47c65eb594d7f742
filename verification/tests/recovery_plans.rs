use markharness::identity::knowledge_walk::{roll_forward_fix, FoundEntity};
use markharness::identity::entity_kind::EntityKind;
use markharness::identity::event::IdentityMutation;
use markharness::identity::recovery::{
    batch_intent, begin, begin_batch, commit_batch, complete_batch_commits, event_file_path,
    intent_event_path, is_committed, recovery_outcome, single_event_operation, BatchEvent,
    IntentPayload,
    RecoveryOutcome,
};

fn batch_event(uid: &str, event: &str) -> BatchEvent {
    BatchEvent {
        entity_kind: EntityKind::Feature,
        entity_uid: uid.to_string(),
        identity_event_uid: event.to_string(),
        event_yaml: format!("identity_event_uid: {event}\n"),
    }
}

#[test]
fn is_committed_is_false_before_commit_and_true_after() {
    let intent = begin(EntityKind::Feature, "uid-1", "event-1");
    assert!(!is_committed(&intent, &Vec::new()));

    let committed = vec![intent_event_path(&intent)];
    assert!(is_committed(&intent, &committed));
    assert_eq!(
        committed[0],
        ".markharness/identity-events/features/uid-1/event-1.yml"
    );
}

#[test]
fn recovery_completes_every_event_in_one_committed_batch() {
    let intent = begin_batch(vec![batch_event("uid-a", "event-a"), batch_event("uid-b", "event-b")])
        .unwrap();
    // The crash came right after the first event, the commit point.
    let existing = vec![event_file_path(EntityKind::Feature, "uid-a", "event-a")];
    assert!(is_committed(&intent, &existing));

    let writes = complete_batch_commits(&intent, &existing);

    assert_eq!(
        writes,
        vec![(
            ".markharness/identity-events/features/uid-b/event-b.yml".to_string(),
            "identity_event_uid: event-b\n".to_string()
        )]
    );
}

#[test]
fn completing_a_batch_a_second_time_writes_nothing() {
    let intent = begin_batch(vec![batch_event("uid-a", "event-a"), batch_event("uid-b", "event-b")])
        .unwrap();
    let mut existing = vec![event_file_path(EntityKind::Feature, "uid-a", "event-a")];
    for (path, _) in complete_batch_commits(&intent, &existing) {
        existing.push(path);
    }

    assert!(complete_batch_commits(&intent, &existing).is_empty());
}

#[test]
fn commit_batch_writes_every_event_in_order_starting_at_the_commit_point() {
    let intent = batch_intent(
        "op-1".to_string(),
        vec![batch_event("uid-a", "event-a"), batch_event("uid-b", "event-b")],
        Some(IntentPayload::IdentityMigration(vec![(
            "tc-case-1".to_string(),
            "legacy-snapshot-yaml".to_string(),
        )])),
    )
    .unwrap();

    let writes = commit_batch(&intent);

    assert_eq!(writes.len(), 2);
    assert_eq!(writes[0].0, intent_event_path(&intent));
    assert_eq!(
        writes[1].0,
        ".markharness/identity-events/features/uid-b/event-b.yml"
    );
    assert_eq!(writes[1].1, "identity_event_uid: event-b\n");
    assert_eq!(intent.operation_id, "op-1");
    assert_eq!(
        intent.caller_payload,
        Some(IntentPayload::IdentityMigration(vec![(
            "tc-case-1".to_string(),
            "legacy-snapshot-yaml".to_string()
        )]))
    );
}

#[test]
fn an_empty_batch_has_no_intent() {
    assert!(begin_batch(Vec::new()).is_none());
}

#[test]
fn begin_names_the_operation_by_a_fresh_ulid() {
    let intent = begin(EntityKind::Feature, "uid-1", "event-1");
    assert_eq!(intent.operation_id.len(), 26);
    assert_eq!(intent.entity_uid, "uid-1");
    assert_eq!(intent.identity_event_uid, "event-1");
    assert!(intent.batch_events.is_empty());
}

#[test]
fn recovery_rolls_forward_only_a_readable_committed_intent() {
    assert_eq!(
        recovery_outcome("op".to_string(), true, true),
        RecoveryOutcome::RolledForward {
            operation_id: "op".to_string()
        }
    );
    assert_eq!(
        recovery_outcome("op".to_string(), true, false),
        RecoveryOutcome::Discarded {
            operation_id: "op".to_string()
        }
    );
    assert_eq!(
        recovery_outcome("op".to_string(), false, true),
        RecoveryOutcome::Discarded {
            operation_id: "op".to_string()
        }
    );
}

#[test]
fn a_single_event_operation_commits_at_its_own_event_file() {
    let (intent, event) = single_event_operation(
        EntityKind::Feature,
        "uid-1",
        Some("event-0".to_string()),
        Vec::new(),
        IdentityMutation::Renamed {
            from_id: "a".to_string(),
            to_id: "b".to_string(),
        },
        "2026-08-21T00:00:00Z",
    );

    assert_eq!(intent.identity_event_uid, event.identity_event_uid);
    assert_eq!(event.identity_event_uid.len(), 26);
    assert_eq!(event.entity_uid, "uid-1");
    assert_eq!(event.previous_identity_event_uid, Some("event-0".to_string()));
    let committed = vec![event_file_path(
        event.entity_kind,
        &event.entity_uid,
        &event.identity_event_uid,
    )];
    assert!(is_committed(&intent, &committed));
}

fn found(path: &str, id: &str, uid: Option<&str>) -> FoundEntity {
    FoundEntity {
        path: path.to_string(),
        id: id.to_string(),
        uid: uid.map(|u| u.to_string()),
    }
}

#[test]
fn roll_forward_rewrites_the_entity_carrying_the_uid_when_its_id_lags() {
    let entities = vec![
        found("a/feature.yml", "jump", None),
        found("b/feature.yml", "old-name", Some("U1")),
    ];
    let fix = roll_forward_fix(&entities, "U1", "jump");
    assert_eq!(fix.map(|e| e.path), Some("b/feature.yml".to_string()));
}

#[test]
fn roll_forward_falls_back_to_the_current_id_and_leaves_an_agreeing_entity_alone() {
    let entities = vec![found("a/feature.yml", "jump", None)];
    assert_eq!(
        roll_forward_fix(&entities, "U1", "jump").map(|e| e.path),
        Some("a/feature.yml".to_string())
    );
    let agreeing = vec![found("a/feature.yml", "jump", Some("U1"))];
    assert!(roll_forward_fix(&agreeing, "U1", "jump").is_none());
    assert!(roll_forward_fix(&agreeing, "U2", "run").is_none());
}
