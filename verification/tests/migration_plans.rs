use markharness::identity::entity_kind::EntityKind;
use markharness::identity::event::IdentityMutation;
use markharness::identity::feature_ops::{
    plan_migration, plan_migration_with_uids, FeatureReferences, KindListing,
};
use markharness::identity::knowledge_walk::FoundEntity;

fn found(path: &str, id: &str, uid: Option<&str>) -> FoundEntity {
    FoundEntity {
        path: path.to_string(),
        id: id.to_string(),
        uid: uid.map(|u| u.to_string()),
    }
}

fn fresh(n: usize) -> Vec<(String, String)> {
    (0..n)
        .map(|i| (format!("01ARZ3NDEKTSV4RRFFQ69G5E{i:02}"), format!("01ARZ3NDEKTSV4RRFFQ69G5V{i:02}")))
        .collect()
}

#[test]
fn migration_issues_one_root_event_per_element_without_a_uid() {
    let listings = vec![
        KindListing {
            kind: EntityKind::Requirement,
            entities: vec![found("r/controls/requirement.yml", "controls", None)],
        },
        KindListing {
            kind: EntityKind::Feature,
            entities: vec![
                found("f/jump/feature.yml", "jump", None),
                found("f/run/feature.yml", "run", Some("01ARZ3NDEKTSV4RRFFQ69G5FAV")),
            ],
        },
    ];
    let features = vec![FeatureReferences {
        path: "f/jump/feature.yml".to_string(),
        requirement_uids: vec!["controls".to_string()],
    }];
    let plan = plan_migration_with_uids(&listings, &features, "2024-01-01T00:00:00Z", &fresh(2));
    assert!(plan.report.conflicts.is_empty());
    assert_eq!(plan.report.migrated.len(), 2);
    assert_eq!(plan.report.changed_files.len(), 4);
    assert_eq!(plan.report.migrated[0].id, "controls");
    assert_eq!(plan.report.migrated[1].id, "jump");
    assert_eq!(plan.events.len(), 2);
    for (event, migrated) in plan.events.iter().zip(&plan.report.migrated) {
        assert_eq!(event.entity_uid, migrated.uid);
        assert_eq!(event.event.recorded_at, "2024-01-01T00:00:00Z");
        assert!(event.event.previous_identity_event_uid.is_none());
        assert!(matches!(&event.event.mutation, IdentityMutation::Issued { id } if *id == migrated.id));
    }
    assert_eq!(
        plan.feature_fixups,
        vec![("f/jump/feature.yml".to_string(), vec!["01ARZ3NDEKTSV4RRFFQ69G5E00".to_string()])]
    );
}

#[test]
fn a_duplicate_id_within_a_kind_stops_the_migration() {
    let listings = vec![KindListing {
        kind: EntityKind::Feature,
        entities: vec![found("a/feature.yml", "jump", None), found("b/feature.yml", "jump", None)],
    }];
    let report = plan_migration(&listings, &Vec::new(), "2024-01-01T00:00:00Z");
    assert_eq!(report.conflicts.len(), 1);
    assert!(report.conflicts[0].contains("jump"));
    assert!(report.migrated.is_empty());
    assert!(report.changed_files.is_empty());
}
