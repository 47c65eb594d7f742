use markharness::identity::audit::{
    audit_history, classify_commit_diff, entities_with_events, kind_from_directory_segment, parse_event_path,
    AuditViolation, DiffEntry, DiffStatus,
};
use markharness::identity::entity_kind::EntityKind;
use markharness::identity::migration_manifest::{
    resolve_case_uid, resolve_case_uid_across_refs, resolve_case_uid_at_ref,
    resolve_case_uid_with_signature, AmbiguousCaseId, CrossBoundaryError, LegacyElementLocator,
    LegacySnapshot, Manifest, ManifestEntry,
};

fn fake_snapshot(tag: &str) -> LegacySnapshot {
    let locator = |kind: EntityKind, name: &str| LegacyElementLocator {
        entity_kind: kind,
        legacy_id: format!("id-{tag}-{name}"),
        path: format!("path-{name}"),
    };
    LegacySnapshot {
        tree_sha: format!("tree-sha-{tag}"),
        requirement: locator(EntityKind::Requirement, "requirement"),
        feature: locator(EntityKind::Feature, "feature"),
        behavior: locator(EntityKind::Behavior, "behavior"),
        condition: locator(EntityKind::Condition, "condition"),
        expected: vec![locator(EntityKind::ExpectedResult, "expected-1")],
    }
}

#[test]
fn resolve_case_uid_finds_a_recorded_entry() {
    let manifest = Manifest {
        entries: vec![ManifestEntry {
            legacy_case_id: "tc-old".to_string(),
            case_uid: "case-uid-1".to_string(),
            legacy_snapshot: fake_snapshot("sig-1"),
            recorded_at: "2026-08-21T00:00:00Z".to_string(),
        }],
    };

    assert_eq!(
        resolve_case_uid(&manifest, "tc-old"),
        Ok(Some("case-uid-1"))
    );
    assert_eq!(resolve_case_uid(&manifest, "tc-unknown"), Ok(None));
}

#[test]
fn resolve_case_uid_with_signature_refuses_the_sole_entry_when_its_signature_disagrees() {
    let manifest = Manifest {
        entries: vec![ManifestEntry {
            legacy_case_id: "tc-old".to_string(),
            case_uid: "case-uid-1".to_string(),
            legacy_snapshot: fake_snapshot("sig-real"),
            recorded_at: "2026-08-21T00:00:00Z".to_string(),
        }],
    };

    assert_eq!(
        resolve_case_uid_with_signature(&manifest, "tc-old", Some(&fake_snapshot("sig-real"))),
        Ok(Some("case-uid-1")),
        "the matching signature must still resolve"
    );
    assert_eq!(
        resolve_case_uid_with_signature(
            &manifest,
            "tc-old",
            Some(&fake_snapshot("sig-from-elsewhere"))
        ),
        Ok(None),
        "a mismatched signature must never fall back to the sole entry"
    );
}

#[test]
fn resolve_case_uid_with_signature_picks_the_matching_entry_when_the_same_case_id_has_two() {
    let manifest = Manifest {
        entries: vec![
            ManifestEntry {
                legacy_case_id: "tc-shared".to_string(),
                case_uid: "uid-before-new-expected-result".to_string(),
                legacy_snapshot: fake_snapshot("sig-before"),
                recorded_at: "2026-08-21T00:00:00Z".to_string(),
            },
            ManifestEntry {
                legacy_case_id: "tc-shared".to_string(),
                case_uid: "uid-after-new-expected-result".to_string(),
                legacy_snapshot: fake_snapshot("sig-after"),
                recorded_at: "2026-08-21T01:00:00Z".to_string(),
            },
        ],
    };

    assert_eq!(
        resolve_case_uid_with_signature(
            &manifest,
            "tc-shared",
            Some(&fake_snapshot("sig-before"))
        ),
        Ok(Some("uid-before-new-expected-result"))
    );
    assert_eq!(
        resolve_case_uid_with_signature(
            &manifest,
            "tc-shared",
            Some(&fake_snapshot("sig-after"))
        ),
        Ok(Some("uid-after-new-expected-result"))
    );
    assert!(resolve_case_uid_with_signature(&manifest, "tc-shared", None).is_err());
    assert_eq!(
        resolve_case_uid_with_signature(
            &manifest,
            "tc-shared",
            Some(&fake_snapshot("sig-unrelated"))
        ),
        Ok(None)
    );
}

#[test]
fn resolve_case_uid_reports_ambiguity_when_the_same_case_id_has_two_case_uids() {
    let manifest = Manifest {
        entries: vec![
            ManifestEntry {
                legacy_case_id: "tc-shared".to_string(),
                case_uid: "case-uid-before-new-expected-result".to_string(),
                legacy_snapshot: fake_snapshot("sig-before"),
                recorded_at: "2026-08-21T00:00:00Z".to_string(),
            },
            ManifestEntry {
                legacy_case_id: "tc-shared".to_string(),
                case_uid: "case-uid-after-new-expected-result".to_string(),
                legacy_snapshot: fake_snapshot("sig-after"),
                recorded_at: "2026-08-21T01:00:00Z".to_string(),
            },
        ],
    };

    let result = resolve_case_uid(&manifest, "tc-shared");

    assert_eq!(
        result,
        Err(AmbiguousCaseId {
            legacy_case_id: "tc-shared".to_string(),
            case_uids: vec![
                "case-uid-after-new-expected-result".to_string(),
                "case-uid-before-new-expected-result".to_string(),
            ],
        })
    );
}

#[test]
fn the_same_case_uid_recorded_twice_is_no_ambiguity() {
    let entry = |tag: &str| ManifestEntry {
        legacy_case_id: "tc".to_string(),
        case_uid: "u".to_string(),
        legacy_snapshot: fake_snapshot(tag),
        recorded_at: "t".to_string(),
    };
    let manifest = Manifest {
        entries: vec![entry("a"), entry("b")],
    };
    assert_eq!(resolve_case_uid(&manifest, "tc"), Ok(Some("u")));
}

#[test]
fn a_computed_case_uid_counts_only_when_the_manifest_records_it() {
    let manifest = Manifest {
        entries: vec![ManifestEntry {
            legacy_case_id: "tc".to_string(),
            case_uid: "u1".to_string(),
            legacy_snapshot: fake_snapshot("a"),
            recorded_at: "t".to_string(),
        }],
    };
    assert_eq!(
        resolve_case_uid_at_ref(&manifest, "HEAD", "tc", Some("u1".to_string()), None).unwrap(),
        Some("u1".to_string())
    );
    assert_eq!(
        resolve_case_uid_at_ref(&manifest, "HEAD", "tc", Some("u2".to_string()), None).unwrap(),
        None
    );
    assert_eq!(
        resolve_case_uid_at_ref(&manifest, "HEAD", "tc", None, Some(&fake_snapshot("a"))).unwrap(),
        Some("u1".to_string())
    );
}

fn hit(u: Option<&str>) -> Result<Option<String>, CrossBoundaryError> {
    Ok(u.map(|u| u.to_string()))
}

#[test]
fn resolutions_across_refs_must_agree() {
    assert_eq!(resolve_case_uid_across_refs(hit(Some("u")), hit(None)).unwrap(), "u");
    assert_eq!(resolve_case_uid_across_refs(hit(None), hit(Some("v"))).unwrap(), "v");
    assert_eq!(resolve_case_uid_across_refs(hit(Some("u")), hit(Some("u"))).unwrap(), "u");
    assert!(matches!(
        resolve_case_uid_across_refs(hit(Some("u")), hit(Some("v"))),
        Err(CrossBoundaryError::Ambiguous { .. })
    ));
    assert!(matches!(
        resolve_case_uid_across_refs(hit(None), hit(None)),
        Err(CrossBoundaryError::NoResolution)
    ));
}

#[test]
fn a_failed_lookup_at_either_ref_is_handed_on_from_first() {
    let within = |git_ref: &str| -> Result<Option<String>, CrossBoundaryError> {
        Err(CrossBoundaryError::AmbiguousWithinRef {
            git_ref: git_ref.to_string(),
            candidates: AmbiguousCaseId { legacy_case_id: "tc".to_string(), case_uids: Vec::new() },
        })
    };
    assert!(matches!(
        resolve_case_uid_across_refs(within("v1"), within("v2")),
        Err(CrossBoundaryError::AmbiguousWithinRef { git_ref, .. }) if git_ref == "v1"
    ));
    assert!(matches!(
        resolve_case_uid_across_refs(hit(Some("u")), within("v2")),
        Err(CrossBoundaryError::AmbiguousWithinRef { git_ref, .. }) if git_ref == "v2"
    ));
}

#[test]
fn event_paths_are_parsed_and_anything_else_is_ignored() {
    let parsed =
        parse_event_path(".markharness/identity-events/features/uid-1/event-1.yml").unwrap();
    assert_eq!(parsed.kind, EntityKind::Feature);
    assert_eq!(parsed.entity_uid, "uid-1");
    assert_eq!(parsed.event_uid, "event-1");
    assert!(parse_event_path(".markharness/identity-events/features/uid-1/event-1.yaml").is_none());
    assert!(parse_event_path(".markharness/identity-events/widgets/uid-1/event-1.yml").is_none());
    assert!(parse_event_path(".markharness/identity-events/features/a/b/c.yml").is_none());
    assert!(parse_event_path("knowledge/features/uid-1/event-1.yml").is_none());
    assert_eq!(
        kind_from_directory_segment("expected_results"),
        Some(EntityKind::ExpectedResult)
    );
}

#[test]
fn a_commit_diff_reports_deleted_and_modified_events() {
    let diffs = vec![
        DiffEntry {
            path: ".markharness/identity-events/features/u2/e1.yml".to_string(),
            status: DiffStatus::Deleted,
        },
        DiffEntry {
            path: ".markharness/identity-events/behaviors/u1/e2.yml".to_string(),
            status: DiffStatus::Modified,
        },
        DiffEntry {
            path: ".markharness/identity-events/features/u2/e3.yml".to_string(),
            status: DiffStatus::Added,
        },
        DiffEntry {
            path: ".markharness/identity-events/README".to_string(),
            status: DiffStatus::Deleted,
        },
    ];
    let findings = classify_commit_diff(&diffs, "c2");
    assert_eq!(findings.violations.len(), 2);
    assert_eq!(
        findings.violations[0],
        AuditViolation::EventDisappeared {
            kind: EntityKind::Feature,
            entity_uid: "u2".to_string(),
            event_uid: "e1".to_string(),
            path: ".markharness/identity-events/features/u2/e1.yml".to_string(),
            missing_at_commit: "c2".to_string(),
        }
    );
    assert_eq!(
        findings.violations[1].to_string(),
        "event content changed: behavior 'u1' event 'e2' differs as of commit c2 (.markharness/identity-events/behaviors/u1/e2.yml)"
    );
    assert_eq!(
        findings.changed_entities,
        vec![
            (EntityKind::Feature, "u2".to_string()),
            (EntityKind::Behavior, "u1".to_string()),
        ]
    );
}

#[test]
fn a_commit_that_only_adds_events_has_no_finding() {
    let diffs = vec![
        DiffEntry {
            path: ".markharness/identity-events/features/u2/e3.yml".to_string(),
            status: DiffStatus::Added,
        },
        DiffEntry {
            path: ".markharness/identity-events/conditions/u9/e4.yml".to_string(),
            status: DiffStatus::Added,
        },
    ];
    let findings = classify_commit_diff(&diffs, "c3");
    assert!(findings.violations.is_empty());
    assert_eq!(findings.changed_entities.len(), 2);
}

#[test]
fn entities_with_events_are_listed_once_in_kind_order() {
    let paths = vec![
        ".markharness/identity-events/behaviors/b/e1.yml".to_string(),
        ".markharness/identity-events/requirements/r/e1.yml".to_string(),
        ".markharness/identity-events/behaviors/a/e1.yml".to_string(),
        ".markharness/identity-events/behaviors/b/e2.yml".to_string(),
    ];
    assert_eq!(
        entities_with_events(&paths),
        vec![
            (EntityKind::Requirement, "r".to_string()),
            (EntityKind::Behavior, "a".to_string()),
            (EntityKind::Behavior, "b".to_string()),
        ]
    );
}

#[test]
fn a_history_reports_each_pair_at_its_later_commit_after_the_oldest_replays() {
    let commits: Vec<String> = vec!["c0".to_string(), "c1".to_string(), "c2".to_string()];
    let diffs = vec![
        vec![DiffEntry {
            path: ".markharness/identity-events/features/u2/e1.yml".to_string(),
            status: DiffStatus::Deleted,
        }],
        vec![DiffEntry {
            path: ".markharness/identity-events/features/u3/e5.yml".to_string(),
            status: DiffStatus::Modified,
        }],
    ];
    let contradiction = AuditViolation::CausalChainContradiction {
        kind: EntityKind::Feature,
        entity_uid: "u3".to_string(),
        commit: "c2".to_string(),
        error: "cycle".to_string(),
    };
    let report = audit_history(&commits, &diffs, Vec::new(), vec![Vec::new(), vec![contradiction.clone()]]);
    assert_eq!(report.commits_scanned, 3);
    assert_eq!(report.violations.len(), 3);
    assert!(matches!(
        &report.violations[0],
        AuditViolation::EventDisappeared { missing_at_commit, .. } if missing_at_commit == "c1"
    ));
    assert!(matches!(
        &report.violations[1],
        AuditViolation::EventContentChanged { changed_at_commit, .. } if changed_at_commit == "c2"
    ));
    assert_eq!(report.violations[2], contradiction);
}
