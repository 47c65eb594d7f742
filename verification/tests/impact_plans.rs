use markharness::impact::{
    case_status, requirement_impact, AlignmentStatus, CaseAlignment, ChangeImpact, HeadCase,
    ImpactError, RejectedTrailerReport, RequirementImpact, StalePin, RULE_VERSION,
};
use markharness::impact_plan::{
    changed_case_uids, changed_requirement_uids, confirmations_at_commit, head_impacts,
    last_of_each_id, spec_blob_path,
    CaseRevision, Confirmation, HeadRequirement, PairTrailer, RequirementChange,
};

fn strings(v: &[&str]) -> Vec<String> {
    v.iter().map(|s| s.to_string()).collect()
}

fn head_case(case_id: &str, case_uid: Option<&str>, feature: &str, requirement_uids: &[&str]) -> HeadCase {
    HeadCase {
        case_id: case_id.to_string(),
        case_uid: case_uid.map(|u| u.to_string()),
        feature: feature.to_string(),
        requirement_uids: Some(strings(requirement_uids)),
    }
}

fn revision(case_id: &str, case_uid: Option<&str>, rev: &str) -> CaseRevision {
    CaseRevision {
        case_id: case_id.to_string(),
        case_uid: case_uid.map(|u| u.to_string()),
        case_revision: rev.to_string(),
    }
}

#[test]
fn a_case_is_confirmed_before_followed_up_before_unconfirmed() {
    assert_eq!(case_status(true, true), AlignmentStatus::Confirmed);
    assert_eq!(case_status(true, false), AlignmentStatus::Confirmed);
    assert_eq!(case_status(false, true), AlignmentStatus::FollowedUp);
    assert_eq!(case_status(false, false), AlignmentStatus::Unconfirmed);
}

#[test]
fn requirement_impact_lists_the_related_cases_with_their_verdicts() {
    let cases = vec![
        head_case("tc-a", Some("case-a"), "login", &["req-1"]),
        head_case("tc-b", Some("case-b"), "checkout", &["req-1", "req-2"]),
        head_case("tc-c", Some("case-c"), "login", &["req-2"]),
        head_case("tc-d", None, "audit", &["req-1"]),
    ];
    let impact = requirement_impact(
        "account",
        "req-1",
        "native",
        &cases,
        &strings(&["case-b"]),
        &vec![("req-1".to_string(), "case-a".to_string())],
    );

    assert_eq!(impact.requirement_id, "account");
    assert_eq!(impact.requirement_uid, Some("req-1".to_string()));
    assert!(impact.spec_changed);
    assert_eq!(impact.feature_ids, strings(&["audit", "checkout", "login"]));
    assert_eq!(
        impact.cases,
        vec![
            CaseAlignment {
                case_id: "tc-a".to_string(),
                case_uid: Some("case-a".to_string()),
                case_changed: false,
                status: AlignmentStatus::Confirmed,
            },
            CaseAlignment {
                case_id: "tc-b".to_string(),
                case_uid: Some("case-b".to_string()),
                case_changed: true,
                status: AlignmentStatus::FollowedUp,
            },
            CaseAlignment {
                case_id: "tc-d".to_string(),
                case_uid: None,
                case_changed: false,
                status: AlignmentStatus::Unconfirmed,
            },
        ]
    );
}

#[test]
fn requirement_impact_lists_cases_by_case_id_whatever_order_they_come_in() {
    let cases = vec![
        head_case("tc-c", Some("case-c"), "login", &["req-1"]),
        head_case("tc-a", Some("case-a"), "login", &["req-1"]),
        head_case("tc-b", None, "audit", &["req-1"]),
        head_case("tc-0", Some("case-0"), "audit", &["req-2"]),
    ];
    let impact = requirement_impact("account", "req-1", "native", &cases, &Vec::new(), &Vec::new());
    let ids: Vec<&str> = impact.cases.iter().map(|c| c.case_id.as_str()).collect();
    assert_eq!(ids, vec!["tc-a", "tc-b", "tc-c"]);
    assert_eq!(impact.cases[0].case_uid, Some("case-a".to_string()));
    assert_eq!(impact.cases[1].case_uid, None);
}

#[test]
fn changed_cases_are_the_new_ones_and_those_whose_revision_moved() {
    let from = vec![revision("tc-a", Some("a"), "r1"), revision("tc-b", Some("b"), "r1")];
    let to = vec![
        revision("tc-a", Some("a"), "r1"),
        revision("tc-b", Some("b2"), "r2"),
        revision("tc-c", Some("c"), "r1"),
        revision("tc-d", None, "r9"),
    ];

    assert_eq!(changed_case_uids(&from, &to), strings(&["b2", "c"]));
}

#[test]
fn changed_requirements_are_those_whose_spec_blob_moved_or_that_are_new() {
    let change = |uid: Option<&str>, path: &str, before: Option<&str>, after: Option<&str>, existed: bool| {
        RequirementChange {
            uid: uid.map(|u| u.to_string()),
            spec_path: path.to_string(),
            blob_before: before.map(|s| s.to_string()),
            blob_after: after.map(|s| s.to_string()),
            existed_before: existed,
        }
    };
    let rs = vec![
        change(Some("u3"), "a.yml", Some("x"), Some("y"), true),
        change(Some("u1"), "b.yml", Some("x"), Some("x"), true),
        change(Some("u2"), "c.yml", None, Some("x"), false),
        change(None, "d.yml", Some("x"), Some("y"), true),
        change(Some("u4"), "", Some("x"), Some("y"), true),
    ];

    assert_eq!(changed_requirement_uids(&rs), strings(&["u2", "u3"]));
}

#[test]
fn head_impacts_reports_stale_pins_and_the_impact_of_changed_requirements() {
    let requirements = vec![
        HeadRequirement {
            requirement_id: "native-req".to_string(),
            uid: Some("req-1".to_string()),
            external: false,
            source_locator: None,
            source_revision: None,
            head_revision: None,
        },
        HeadRequirement {
            requirement_id: "pinned".to_string(),
            uid: Some("req-2".to_string()),
            external: true,
            source_locator: Some("docs/spec.sdoc".to_string()),
            source_revision: Some("aaa".to_string()),
            head_revision: Some("bbb".to_string()),
        },
        HeadRequirement {
            requirement_id: "fresh-pin".to_string(),
            uid: None,
            external: true,
            source_locator: Some("docs/other.sdoc".to_string()),
            source_revision: Some("ccc".to_string()),
            head_revision: Some("ccc".to_string()),
        },
    ];
    let cases = vec![head_case("tc-a", Some("case-a"), "login", &["req-2"])];

    let (impacts, pins) = head_impacts(
        &requirements,
        &cases,
        &strings(&["req-2"]),
        &Vec::new(),
        &Vec::new(),
    );

    assert_eq!(
        pins,
        vec![StalePin {
            requirement_id: "pinned".to_string(),
            source_locator: "docs/spec.sdoc".to_string(),
            pinned_revision: "aaa".to_string(),
            head_revision: "bbb".to_string(),
        }]
    );
    assert_eq!(impacts.len(), 1);
    assert_eq!(impacts[0].requirement_id, "pinned");
    assert_eq!(impacts[0].source, "external");
    assert_eq!(impacts[0].cases[0].status, AlignmentStatus::Unconfirmed);
}

#[test]
fn a_report_has_findings_unless_everything_is_confirmed() {
    let mut report = ChangeImpact {
        schema_version: 1,
        record_kind: "change_impact",
        rule_version: RULE_VERSION,
        base_commit: "base".to_string(),
        head_commit: "head".to_string(),
        requirements: vec![RequirementImpact {
            requirement_id: "r".to_string(),
            requirement_uid: Some("u".to_string()),
            source: "native",
            spec_changed: true,
            feature_ids: Vec::new(),
            cases: vec![CaseAlignment {
                case_id: "tc".to_string(),
                case_uid: Some("c".to_string()),
                case_changed: false,
                status: AlignmentStatus::Confirmed,
            }],
        }],
        stale_pins: Vec::new(),
        rejected_trailers: Vec::new(),
    };
    assert!(!report.has_findings());
    report.requirements[0].cases[0].status = AlignmentStatus::FollowedUp;
    assert!(report.has_findings());
}

#[test]
fn impact_errors_read_as_one_line() {
    let e = ImpactError::Malformed {
        path: "requirement.yml".to_string(),
        message: "bad".to_string(),
    };
    assert_eq!(e.to_string(), "requirement.yml: bad");
    let e = ImpactError::HistoryUnavailable {
        base: "v1".to_string(),
        head: "v2".to_string(),
        detail: "this is a shallow clone".to_string(),
    };
    assert_eq!(
        e.to_string(),
        "cannot walk the commits in v1..v2: this is a shallow clone. Alignment checks need the full range; fetch the missing history (a shallow clone needs `git fetch --unshallow`) and retry"
    );
    let e = ImpactError::Io(std::io::Error::other("disk"));
    assert!(e.to_string().starts_with("filesystem error: "));
}

fn trailer(requirement_id: &str, case_id: &str) -> PairTrailer {
    PairTrailer { requirement_id: requirement_id.to_string(), case_id: case_id.to_string() }
}

fn id_uid(id: &str, uid: Option<&str>) -> (String, Option<String>) {
    (id.to_string(), uid.map(|u| u.to_string()))
}

#[test]
fn trailers_confirm_pairs_that_resolve_at_the_commit_and_report_the_rest() {
    let trailers = vec![
        trailer("REQ-001", "CASE-001"),
        trailer("REQ-002", "CASE-001"),
        trailer("REQ-001", "CASE-002"),
        trailer("REQ-001", "CASE-009"),
    ];
    let requirements = vec![id_uid("REQ-001", Some("req-uid-1")), id_uid("REQ-002", None)];
    let cases = vec![id_uid("CASE-001", Some("case-uid-1")), id_uid("CASE-002", None)];
    let (confirmations, reports) =
        confirmations_at_commit("abc123", &trailers, &requirements, &cases, "Confirms");
    assert_eq!(
        confirmations,
        vec![Confirmation {
            commit: "abc123".to_string(),
            requirement_uid: "req-uid-1".to_string(),
            case_uid: "case-uid-1".to_string(),
        }]
    );
    let reason = "requirement or case could not be resolved to a uid at this commit".to_string();
    assert_eq!(
        reports,
        vec![
            RejectedTrailerReport {
                commit: "abc123".to_string(),
                line: "Confirms: requirement=REQ-002 case=CASE-001".to_string(),
                reason: reason.clone(),
            },
            RejectedTrailerReport {
                commit: "abc123".to_string(),
                line: "Confirms: requirement=REQ-001 case=CASE-002".to_string(),
                reason: reason.clone(),
            },
            RejectedTrailerReport {
                commit: "abc123".to_string(),
                line: "Confirms: requirement=REQ-001 case=CASE-009".to_string(),
                reason,
            },
        ]
    );
}

#[test]
fn a_commit_without_trailers_confirms_nothing() {
    let (confirmations, reports) =
        confirmations_at_commit("abc123", &Vec::new(), &Vec::new(), &Vec::new(), "Key");
    assert!(confirmations.is_empty());
    assert!(reports.is_empty());
}

#[test]
fn keying_by_id_keeps_the_last_entry_of_each_id_in_id_order() {
    let ids = strings(&["req-b", "req-a", "req-b", "req-c", "req-a"]);
    assert_eq!(last_of_each_id(&ids), vec![4, 2, 3]);
    assert!(last_of_each_id(&Vec::new()).is_empty());
}

#[test]
fn a_requirement_spec_lives_in_its_own_file_or_the_source_it_pins() {
    assert_eq!(
        spec_blob_path("controls", false, &None),
        ".markharness/knowledge/requirements/controls/requirement.yml"
    );
    assert_eq!(spec_blob_path("controls", true, &Some("docs/spec.sdoc".to_string())), "docs/spec.sdoc");
    assert_eq!(spec_blob_path("controls", true, &None), "");
}
