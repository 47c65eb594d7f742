use markharness::identity::engine::{replay, replay_is_defined, ReplayError, Status};
use markharness::identity::entity_kind::EntityKind;
use markharness::identity::event::{IdentityEvent, IdentityMutation};

fn event(uid: &str, previous: Option<&str>, mutation: IdentityMutation) -> IdentityEvent {
    IdentityEvent {
        identity_event_uid: uid.to_string(),
        entity_uid: "01ARZ3NDEKTSV4RRFFQ69G5FAV".to_string(),
        entity_kind: EntityKind::Feature,
        previous_identity_event_uid: previous.map(str::to_string),
        previous_identity_event_uids: Vec::new(),
        recorded_at: "2026-08-20T00:00:00Z".to_string(),
        mutation,
    }
}

#[test]
fn replays_a_single_issuance_with_no_renames() {
    let issued = event(
        "e0",
        None,
        IdentityMutation::Issued {
            id: "todo-management".to_string(),
        },
    );
    let result = replay("uid-1", &[issued]).unwrap();
    assert_eq!(result.current_id, "todo-management");
    assert_eq!(result.status, Status::Active);
    assert_eq!(result.id_history.len(), 1);
    assert_eq!(result.current_head_event_uid, "e0");
}

#[test]
fn replays_a_linear_chain_of_renames() {
    let issued = event(
        "e0",
        None,
        IdentityMutation::Issued {
            id: "todo-management".to_string(),
        },
    );
    let renamed = event(
        "e1",
        Some("e0"),
        IdentityMutation::Renamed {
            from_id: "todo-management".to_string(),
            to_id: "task-management".to_string(),
        },
    );
    let result = replay("uid-1", &[renamed, issued]).unwrap();
    assert_eq!(result.current_id, "task-management");
    assert_eq!(result.id_history.len(), 2);
    assert_eq!(result.id_history[0].id, "todo-management");
    assert_eq!(result.id_history[1].id, "task-management");
    assert_eq!(result.current_head_event_uid, "e1");
}

#[test]
fn retire_then_restore_ends_active() {
    let issued = event(
        "e0",
        None,
        IdentityMutation::Issued {
            id: "todo-management".to_string(),
        },
    );
    let retired = event("e1", Some("e0"), IdentityMutation::Retired);
    let restored = event("e2", Some("e1"), IdentityMutation::Restored);
    let result = replay("uid-1", &[issued, retired, restored]).unwrap();
    assert_eq!(result.status, Status::Active);
}

#[test]
fn two_independent_renames_from_the_same_head_are_an_ambiguous_divergence() {
    let issued = event(
        "e0",
        None,
        IdentityMutation::Issued {
            id: "todo-management".to_string(),
        },
    );
    let rename_a = event(
        "e1a",
        Some("e0"),
        IdentityMutation::Renamed {
            from_id: "todo-management".to_string(),
            to_id: "task-management".to_string(),
        },
    );
    let rename_b = event(
        "e1b",
        Some("e0"),
        IdentityMutation::Renamed {
            from_id: "todo-management".to_string(),
            to_id: "work-management".to_string(),
        },
    );
    let err = replay("uid-1", &[issued, rename_a, rename_b]).unwrap_err();
    assert_eq!(
        err,
        ReplayError::AmbiguousDivergence {
            divergent_head_uids: vec!["e1a".to_string(), "e1b".to_string()]
        }
    );
}

#[test]
fn a_resolved_event_joins_a_divergence_and_replay_succeeds() {
    let issued = event(
        "e0",
        None,
        IdentityMutation::Issued {
            id: "todo-management".to_string(),
        },
    );
    let rename_a = event(
        "e1a",
        Some("e0"),
        IdentityMutation::Renamed {
            from_id: "todo-management".to_string(),
            to_id: "task-management".to_string(),
        },
    );
    let rename_b = event(
        "e1b",
        Some("e0"),
        IdentityMutation::Renamed {
            from_id: "todo-management".to_string(),
            to_id: "work-management".to_string(),
        },
    );
    let mut resolved = event(
        "e2",
        None,
        IdentityMutation::Resolved {
            winning_event_uid: "e1a".to_string(),
        },
    );
    resolved.previous_identity_event_uids = vec!["e1a".to_string(), "e1b".to_string()];

    let result = replay("uid-1", &[issued, rename_a, rename_b, resolved]).unwrap();
    assert_eq!(result.current_id, "task-management");
    assert_eq!(result.current_head_event_uid, "e2");
}

#[test]
fn dangling_predecessor_is_an_error() {
    let renamed = event(
        "e1",
        Some("missing"),
        IdentityMutation::Renamed {
            from_id: "a".to_string(),
            to_id: "b".to_string(),
        },
    );
    let err = replay("uid-1", &[renamed]).unwrap_err();
    assert_eq!(
        err,
        ReplayError::DanglingPredecessor {
            event_uid: "e1".to_string(),
            missing_predecessor: "missing".to_string()
        }
    );
}

#[test]
fn no_events_is_a_missing_root_error() {
    assert_eq!(replay("uid-1", &[]).unwrap_err(), ReplayError::NoRootEvent);
}

#[test]
fn two_roots_is_an_error() {
    let root_a = event(
        "e0a",
        None,
        IdentityMutation::Issued {
            id: "a".to_string(),
        },
    );
    let root_b = event(
        "e0b",
        None,
        IdentityMutation::Issued {
            id: "b".to_string(),
        },
    );
    let err = replay("uid-1", &[root_a, root_b]).unwrap_err();
    assert_eq!(
        err,
        ReplayError::MultipleRootEvents(vec!["e0a".to_string(), "e0b".to_string()])
    );
}

#[test]
fn a_cycle_is_detected_rather_than_infinite_looping() {
    // e1 claims e2 as predecessor, e2 claims e1: neither is reachable
    // from any root, so no root exists among the two, and separately
    // this construction (no true root at all) is exercised via the
    // dangling/no-root paths above. Here we construct a cycle that
    // *is* reachable from a genuine root, to isolate cycle detection.
    let issued = event(
        "e0",
        None,
        IdentityMutation::Issued {
            id: "a".to_string(),
        },
    );
    let mut cyclic_a = event(
        "e1",
        Some("e2"),
        IdentityMutation::Renamed {
            from_id: "a".to_string(),
            to_id: "b".to_string(),
        },
    );
    let cyclic_b = event(
        "e2",
        Some("e1"),
        IdentityMutation::Renamed {
            from_id: "b".to_string(),
            to_id: "a".to_string(),
        },
    );
    // e1 and e2 form a 2-cycle disconnected from the real root `e0`.
    cyclic_a.previous_identity_event_uid = Some("e2".to_string());
    let err = replay("uid-1", &[issued, cyclic_a, cyclic_b]).unwrap_err();
    assert_eq!(err, ReplayError::CycleDetected);
}

#[test]
fn inconsistent_rename_from_id_is_an_error() {
    let issued = event(
        "e0",
        None,
        IdentityMutation::Issued {
            id: "todo-management".to_string(),
        },
    );
    let bad_rename = event(
        "e1",
        Some("e0"),
        IdentityMutation::Renamed {
            from_id: "wrong-id".to_string(),
            to_id: "task-management".to_string(),
        },
    );
    let err = replay("uid-1", &[issued, bad_rename]).unwrap_err();
    assert_eq!(
        err,
        ReplayError::InconsistentRename {
            event_uid: "e1".to_string(),
            expected_from_id: "todo-management".to_string(),
            actual_from_id: "wrong-id".to_string(),
        }
    );
}

#[test]
fn replay_order_of_the_events_does_not_change_the_result() {
    let issued = event(
        "e0",
        None,
        IdentityMutation::Issued {
            id: "todo-management".to_string(),
        },
    );
    let renamed = event(
        "e1",
        Some("e0"),
        IdentityMutation::Renamed {
            from_id: "todo-management".to_string(),
            to_id: "task-management".to_string(),
        },
    );
    let retired = event("e2", Some("e1"), IdentityMutation::Retired);
    let a = replay("uid-1", &[issued.clone(), renamed.clone(), retired.clone()]).unwrap();
    let b = replay("uid-1", &[retired, issued, renamed]).unwrap();
    assert_eq!(a, b);
    assert_eq!(a.status, Status::Retired);
    assert_eq!(a.id_history.last().unwrap().id, a.current_id);
}

#[test]
fn replay_is_defined_on_the_usual_event_sets() {
    let issued = event(
        "e0",
        None,
        IdentityMutation::Issued {
            id: "a".to_string(),
        },
    );
    assert!(replay_is_defined(&[issued]));
    assert!(replay_is_defined(&[]));
}
