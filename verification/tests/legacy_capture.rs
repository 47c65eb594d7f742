use markharness::identity::entity_kind::EntityKind;
use markharness::identity::legacy_capture::{
    build_legacy_snapshot, capture_case_signatures, manifest_with_entries, record_new_case_uids, CaseSources,
    ElementSource, LegacyCaseSignatures,
};
use markharness::identity::migration_manifest::{
    resolve_case_uid, AmbiguousCaseId, LegacyElementLocator, Manifest, ManifestEntry,
};

const CASE_ID: &str = "tc-req-todo-todo-todo-add-task-todo-add-task-empty-input";
const RECORDED_AT: &str = "2026-08-21T00:00:00Z";

fn source(id: &str, path: &str) -> ElementSource {
    ElementSource {
        id: id.to_string(),
        path: path.to_string(),
    }
}

fn case(case_uid: Option<&str>, expected: Vec<ElementSource>) -> CaseSources {
    let base = ".markharness/knowledge/req-todo/todo/todo-add-task/todo-add-task-empty-input";
    CaseSources {
        case_id: CASE_ID.to_string(),
        case_uid: case_uid.map(|u| u.to_string()),
        requirement: source("req-todo", ".markharness/knowledge/req-todo/requirement.yml"),
        feature: source("todo", ".markharness/knowledge/req-todo/todo/feature.yml"),
        behavior: source(
            "todo-add-task",
            ".markharness/knowledge/req-todo/todo/todo-add-task/behavior.yml",
        ),
        condition: source("todo-add-task-empty-input", &format!("{base}/condition.yml")),
        expected,
    }
}

fn one_expected() -> Vec<ElementSource> {
    vec![source(
        "todo-add-task-empty-input-001",
        ".markharness/knowledge/req-todo/todo/todo-add-task/todo-add-task-empty-input/expected/001.yml",
    )]
}

fn two_expected() -> Vec<ElementSource> {
    let mut v = one_expected();
    v.push(source(
        "todo-add-task-empty-input-002",
        ".markharness/knowledge/req-todo/todo/todo-add-task/todo-add-task-empty-input/expected/002.yml",
    ));
    v
}

fn empty_manifest() -> Manifest {
    Manifest { entries: Vec::new() }
}

#[test]
fn build_legacy_snapshot_qualifies_each_element_by_kind_id_and_path() {
    let snapshot = build_legacy_snapshot("tree-1".to_string(), &case(None, one_expected()));

    assert_eq!(snapshot.tree_sha, "tree-1");
    assert_eq!(
        snapshot.requirement,
        LegacyElementLocator {
            entity_kind: EntityKind::Requirement,
            legacy_id: "req-todo".to_string(),
            path: ".markharness/knowledge/req-todo/requirement.yml".to_string(),
        }
    );
    assert_eq!(snapshot.condition.entity_kind, EntityKind::Condition);
    assert_eq!(snapshot.expected.len(), 1);
    assert_eq!(snapshot.expected[0].entity_kind, EntityKind::ExpectedResult);
    assert_eq!(snapshot.expected[0].legacy_id, "todo-add-task-empty-input-001");
}

#[test]
fn record_new_case_uids_records_a_case_whose_uid_just_became_computable() {
    let cases = vec![case(Some("case-uid-1"), one_expected())];
    let legacy = capture_case_signatures(&"tree-1".to_string(), &cases);
    let mut manifest = empty_manifest();

    let recorded = record_new_case_uids(&manifest, &cases, &legacy, &RECORDED_AT.to_string());

    assert_eq!(recorded.len(), 1);
    assert_eq!(recorded[0].legacy_case_id, CASE_ID);
    assert_eq!(recorded[0].case_uid, "case-uid-1");
    assert_eq!(recorded[0].recorded_at, RECORDED_AT);
    assert_eq!(recorded[0].legacy_snapshot.tree_sha, "tree-1");
    manifest.entries.extend(recorded.clone());
    assert_eq!(manifest.entries, recorded);
}

#[test]
fn record_new_case_uids_is_idempotent() {
    let cases = vec![case(Some("case-uid-1"), one_expected())];
    let legacy = capture_case_signatures(&"tree-1".to_string(), &cases);
    let mut manifest = empty_manifest();
    let first = record_new_case_uids(&manifest, &cases, &legacy, &RECORDED_AT.to_string());
    manifest.entries.extend(first);

    let second_run = record_new_case_uids(
        &manifest,
        &cases,
        &capture_case_signatures(&"tree-2".to_string(), &cases),
        &"2026-08-22T00:00:00Z".to_string(),
    );

    assert!(second_run.is_empty());
    assert_eq!(manifest.entries.len(), 1);
}

#[test]
fn record_new_case_uids_skips_a_case_still_missing_a_uid() {
    let cases = vec![case(None, one_expected())];
    let legacy = capture_case_signatures(&"tree-1".to_string(), &cases);

    let recorded =
        record_new_case_uids(&empty_manifest(), &cases, &legacy, &RECORDED_AT.to_string());

    assert!(recorded.is_empty());
}

#[test]
fn record_new_case_uids_skips_a_case_that_did_not_exist_before_the_migration() {
    let cases = vec![case(Some("case-uid-1"), one_expected())];
    let legacy = LegacyCaseSignatures::from_durable_payload(Vec::new());

    let recorded =
        record_new_case_uids(&empty_manifest(), &cases, &legacy, &RECORDED_AT.to_string());

    assert!(recorded.is_empty());
}

#[test]
fn record_new_case_uids_records_a_new_pairing_when_case_uid_changes_under_the_same_case_id() {
    let before = vec![case(Some("case-uid-1"), one_expected())];
    let mut manifest = empty_manifest();
    let first_run = record_new_case_uids(
        &manifest,
        &before,
        &capture_case_signatures(&"tree-1".to_string(), &before),
        &RECORDED_AT.to_string(),
    );
    assert_eq!(first_run.len(), 1);
    manifest.entries.extend(first_run.clone());

    let after = vec![case(Some("case-uid-2"), two_expected())];
    let second_run = record_new_case_uids(
        &manifest,
        &after,
        &capture_case_signatures(&"tree-2".to_string(), &after),
        &RECORDED_AT.to_string(),
    );

    assert_eq!(second_run.len(), 1, "expected a new pairing to be recorded, not skipped");
    assert_ne!(second_run[0].case_uid, first_run[0].case_uid);
    assert_eq!(second_run[0].legacy_case_id, first_run[0].legacy_case_id);
    assert_ne!(first_run[0].legacy_snapshot, second_run[0].legacy_snapshot);
    manifest.entries.extend(second_run.clone());
    assert_eq!(
        resolve_case_uid(&manifest, CASE_ID),
        Err(AmbiguousCaseId {
            legacy_case_id: CASE_ID.to_string(),
            case_uids: vec!["case-uid-1".to_string(), "case-uid-2".to_string()],
        })
    );
}

#[test]
fn signatures_give_the_later_snapshot_of_a_case_id_listed_twice() {
    let first = build_legacy_snapshot("tree-1".to_string(), &case(None, one_expected()));
    let second = build_legacy_snapshot("tree-2".to_string(), &case(None, one_expected()));
    let legacy = LegacyCaseSignatures::from_durable_payload(vec![
        (CASE_ID.to_string(), first),
        (CASE_ID.to_string(), second),
    ]);

    assert_eq!(legacy.get(CASE_ID).unwrap().tree_sha, "tree-2");
    assert!(legacy.get("tc-other").is_none());
    assert_eq!(legacy.durable_entries().len(), 2);
}

fn entry(case_id: &str, case_uid: &str, tree: &str, expected: Vec<ElementSource>) -> ManifestEntry {
    ManifestEntry {
        legacy_case_id: case_id.to_string(),
        case_uid: case_uid.to_string(),
        legacy_snapshot: build_legacy_snapshot(tree.to_string(), &case(None, expected)),
        recorded_at: RECORDED_AT.to_string(),
    }
}

#[test]
fn recorded_entries_are_kept_in_case_id_then_snapshot_order() {
    let manifest = Manifest {
        entries: vec![entry("tc-b", "u1", "tree-1", one_expected()), entry("tc-a", "u2", "tree-2", one_expected())],
    };
    let new_entries = vec![
        entry("tc-a", "u3", "tree-1", two_expected()),
        entry("tc-a", "u4", "tree-1", one_expected()),
    ];
    let merged = manifest_with_entries(&manifest, &new_entries);
    let uids: Vec<&str> = merged.entries.iter().map(|e| e.case_uid.as_str()).collect();
    assert_eq!(uids, vec!["u4", "u3", "u2", "u1"]);
}
