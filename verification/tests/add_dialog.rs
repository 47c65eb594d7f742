use std::collections::{BTreeMap, BTreeSet};

use markharness::interactive::LineInput;
use markharness::knowledge_add::{
    run_add, AddError, BehaviorEntry, FeatureEntry, KnowledgeTree, RequirementEntry,
};

const FULL_INPUT: &str = "controls\ngameplay\nplayer-jump\ngameplay, animation\njump\ngameplay\nPlayer presses jump.\n\nground\nJump from the ground and land\nDo it.\n\nlands safely\n\n\n";

const SEEDED_FULL_INPUT: &str = "controls\nplayer-jump\ngameplay, animation\njump\ngameplay\nPlayer presses jump.\n\nground\nJump from the ground and land\nDo it.\n\nlands safely\n\n\n";

const CONTROLS_REQUIREMENT_UID: &str = "01ARZ3NDEKTSV4RRFFQ69G5FAV";

const KNOWLEDGE: &str = ".markharness/knowledge/";

/// The files of a project's knowledge tree, by path.
#[derive(Default)]
struct Project {
    files: BTreeMap<String, String>,
}

impl Project {
    fn fresh() -> Project {
        Project::default()
    }

    /// A project where `controls` was already migrated (it has a uid).
    fn with_migrated_requirement() -> Project {
        let mut p = Project::fresh();
        p.files.insert(
            format!("{KNOWLEDGE}requirements/controls/requirement.yml"),
            format!("id: controls\nlabel: controls\naxis: [gameplay]\nuid: {CONTROLS_REQUIREMENT_UID}\n"),
        );
        p
    }

    fn has(&self, path: &str) -> bool {
        self.files.contains_key(path)
            || self
                .files
                .keys()
                .any(|k| k.starts_with(&format!("{path}/")))
    }

    fn read(&self, path: &str) -> String {
        self.files.get(path).cloned().unwrap()
    }

    /// The tree as directory listings show it.
    fn tree(&self) -> KnowledgeTree {
        let mut requirements: BTreeMap<String, Option<String>> = BTreeMap::new();
        let mut features: BTreeMap<String, BTreeMap<String, BTreeSet<String>>> = BTreeMap::new();
        let mut behaviors: BTreeSet<(String, String)> = BTreeSet::new();
        for (path, content) in &self.files {
            let Some(rel) = path.strip_prefix(KNOWLEDGE) else {
                continue;
            };
            let parts: Vec<&str> = rel.split('/').collect();
            match parts.as_slice() {
                ["requirements", id, "requirement.yml"] => {
                    let value: serde_yaml_ng::Value = serde_yaml_ng::from_str(content).unwrap();
                    let uid = value
                        .get("uid")
                        .and_then(|u| u.as_str())
                        .map(|u| u.to_string());
                    requirements.insert(id.to_string(), uid);
                }
                ["features", fid, "feature.yml"] => {
                    features.entry(fid.to_string()).or_default();
                }
                ["features", fid, bid, "behavior.yml"] => {
                    behaviors.insert((fid.to_string(), bid.to_string()));
                }
                _ => {}
            }
        }
        for (path, _) in &self.files {
            let Some(rel) = path.strip_prefix(KNOWLEDGE) else {
                continue;
            };
            let parts: Vec<&str> = rel.split('/').collect();
            if let ["features", fid, bid, sid, "scenario.yml"] = parts.as_slice() {
                if features.contains_key(*fid) && behaviors.contains(&(fid.to_string(), bid.to_string())) {
                    features
                        .get_mut(*fid)
                        .unwrap()
                        .entry(bid.to_string())
                        .or_default()
                        .insert(sid.to_string());
                }
            }
        }
        for (fid, bid) in &behaviors {
            if let Some(f) = features.get_mut(fid) {
                f.entry(bid.clone()).or_default();
            }
        }
        KnowledgeTree {
            requirements: requirements
                .into_iter()
                .map(|(id, uid)| RequirementEntry { id, uid })
                .collect(),
            features: features
                .into_iter()
                .map(|(id, behaviors)| FeatureEntry {
                    id,
                    behaviors: behaviors
                        .into_iter()
                        .map(|(id, scenarios)| BehaviorEntry {
                            id,
                            scenarios: scenarios.into_iter().collect(),
                        })
                        .collect(),
                })
                .collect(),
        }
    }

    /// Runs the dialog on `input`, writes what it answers, and gives its
    /// output.
    fn run_capturing_output(&mut self, input: &str) -> String {
        let mut reader = LineInput::from_text(input);
        let mut out = String::new();
        let (writes, result) = run_add(&mut reader, &mut out, &self.tree());
        for (path, content) in writes {
            self.files.insert(path, content);
        }
        result.unwrap();
        out
    }

    fn run(&mut self, input: &str) {
        self.run_capturing_output(input);
    }
}

fn simulate_migrate(project: &mut Project, requirement_path: &str, uid: &str) {
    let content = project.files.get_mut(requirement_path).unwrap();
    content.push_str(&format!("uid: {uid}\n"));
}

#[test]
fn creates_new_requirement_only_and_stops_before_feature_prompt() {
    let mut project = Project::fresh();

    let output = project.run_capturing_output("controls\ngameplay\n");

    assert_eq!(
        project.read(".markharness/knowledge/requirements/controls/requirement.yml"),
        "id: controls\nlabel: controls\naxis: [gameplay]\n"
    );
    assert!(!project.has(".markharness/knowledge/features"));
    assert!(output.contains("identity migrate"));
}

#[test]
fn creates_feature_behavior_and_scenario_from_a_migrated_requirement() {
    let mut project = Project::with_migrated_requirement();

    project.run(SEEDED_FULL_INPUT);

    assert_eq!(
        project.read(".markharness/knowledge/features/player-jump/feature.yml"),
        format!(
            "id: player-jump\nrequirement_uids: [{CONTROLS_REQUIREMENT_UID}]\nlabel: player-jump\naxis: [gameplay, animation]\n"
        )
    );
    assert_eq!(
        project.read(".markharness/knowledge/features/player-jump/jump/behavior.yml"),
        "id: jump\nfeature: player-jump\nlabel: jump\naxis: [gameplay]\ndescription: |\n  Player presses jump.\nprocedures: {}\n"
    );
    assert_eq!(
        project.read(".markharness/knowledge/features/player-jump/jump/ground/scenario.yml"),
        "id: ground\nbehavior: jump\nlabel: ground\ndescription: |\n  Jump from the ground and land\nphases:\n  - steps:\n      - action: \"Do it.\"\n    results:\n      - \"lands safely\"\n"
    );
}

#[test]
fn reuses_existing_feature_and_skips_axis_prompt() {
    let mut project = Project::with_migrated_requirement();
    project.run(SEEDED_FULL_INPUT);

    project.run(
        "controls\nplayer-jump\nair\ngameplay\nPlayer presses jump while airborne.\n\nspace\nJump while airborne\nDo it.\n\nlands on platform\n\n\n",
    );

    assert_eq!(
        project.read(".markharness/knowledge/features/player-jump/feature.yml"),
        format!(
            "id: player-jump\nrequirement_uids: [{CONTROLS_REQUIREMENT_UID}]\nlabel: player-jump\naxis: [gameplay, animation]\n"
        )
    );
    assert_eq!(
        project.read(".markharness/knowledge/features/player-jump/air/behavior.yml"),
        "id: air\nfeature: player-jump\nlabel: air\naxis: [gameplay]\ndescription: |\n  Player presses jump while airborne.\nprocedures: {}\n"
    );
}

#[test]
fn reuses_existing_behavior_and_skips_axis_and_description_prompt() {
    let mut project = Project::with_migrated_requirement();
    project.run(SEEDED_FULL_INPUT);

    project.run(
        "controls\nplayer-jump\njump\nair\nJump while airborne\nDo it.\n\nlands on platform\n\n\n",
    );

    assert_eq!(
        project.read(".markharness/knowledge/features/player-jump/jump/air/scenario.yml"),
        "id: air\nbehavior: jump\nlabel: air\ndescription: |\n  Jump while airborne\nphases:\n  - steps:\n      - action: \"Do it.\"\n    results:\n      - \"lands on platform\"\n"
    );
}

#[test]
fn reuses_existing_scenario_and_writes_nothing_new() {
    let mut project = Project::with_migrated_requirement();
    project.run(SEEDED_FULL_INPUT);
    let scenario_path = ".markharness/knowledge/features/player-jump/jump/ground/scenario.yml";
    let before = project.read(scenario_path);

    project.run("controls\nplayer-jump\njump\nground\n");

    let after = project.read(scenario_path);
    assert_eq!(before, after, "reusing an existing Scenario must not rewrite it");
}

#[test]
fn no_candidate_list_printed_for_fresh_knowledge_dir() {
    let mut project = Project::fresh();

    let output = project.run_capturing_output(FULL_INPUT);

    assert!(!output.contains("1)"));
}

#[test]
fn lists_feature_candidates_by_number_and_selects_by_index() {
    let mut project = Project::with_migrated_requirement();
    project.run(SEEDED_FULL_INPUT);

    let output = project.run_capturing_output(
        "controls\n1\nair\ngameplay\nPlayer presses jump while airborne.\n\nspace\nJump while airborne\nDo it.\n\nlands on platform\n\n\n",
    );

    assert!(output.contains("  1) player-jump\n"));
    assert!(output.contains("既存のFeature 'player-jump' を再利用します。"));
    assert!(project.has(".markharness/knowledge/features/player-jump/air/behavior.yml"));
}

#[test]
fn lists_behavior_candidates_by_number_and_selects_by_index() {
    let mut project = Project::with_migrated_requirement();
    project.run(SEEDED_FULL_INPUT);

    let output = project.run_capturing_output(
        "controls\nplayer-jump\n1\nspace\nJump while airborne\nDo it.\n\nlands on platform\n\n\n",
    );

    assert!(output.contains("  1) jump\n"));
    assert!(output.contains("既存のBehavior 'jump' を再利用します。"));
    assert!(project.has(".markharness/knowledge/features/player-jump/jump/space/scenario.yml"));
}

#[test]
fn lists_scenario_candidates_by_number_and_selects_by_index() {
    let mut project = Project::with_migrated_requirement();
    project.run(SEEDED_FULL_INPUT);

    let output = project.run_capturing_output("controls\nplayer-jump\njump\n1\n");

    assert!(output.contains("  1) ground\n"));
    assert!(output.contains("既存のScenario 'ground' を再利用します。"));
}

#[test]
fn typing_literal_existing_id_with_candidates_present_still_works() {
    let mut project = Project::with_migrated_requirement();
    project.run(SEEDED_FULL_INPUT);

    let output = project.run_capturing_output("controls\nplayer-jump\njump\nground\n");

    assert!(output.contains("既存のScenario 'ground' を再利用します。"));
}

#[test]
fn auto_dedup_strips_redundant_scenario_prefix_and_notifies() {
    let mut project = Project::with_migrated_requirement();

    let output = project.run_capturing_output(
        "controls\nplayer-jump\ngameplay, animation\njump\ngameplay\nPlayer presses jump.\n\njump-ground\nJump from the ground and land\nDo it.\n\nlands safely\n\n\n",
    );

    assert!(output.contains(
        "Scenario id 'jump-ground' から Behavior id 'jump' と重複する接頭辞を除去し、'ground' として作成します。"
    ));
    assert!(project.has(".markharness/knowledge/features/player-jump/jump/ground/scenario.yml"));
    assert!(!project.has(".markharness/knowledge/features/player-jump/jump/jump-ground"));
}

#[test]
fn legacy_scenario_dir_with_redundant_prefix_is_reused_without_stripping() {
    let mut project = Project::with_migrated_requirement();
    project.run(
        "controls\nplayer-jump\ngameplay, animation\njump\ngameplay\nPlayer presses jump.\n\njump-ground\nJump from the ground and land\nDo it.\n\nlands safely\n\n\n",
    );
    project.files.insert(
        ".markharness/knowledge/features/player-jump/jump/jump-ground/scenario.yml".to_string(),
        "id: jump-ground\nbehavior: jump\nlabel: jump-ground\ndescription: |\n  legacy\nphases:\n  - steps:\n      - action: \"Do it.\"\n    results:\n      - \"Confirmed.\"\n".to_string(),
    );

    let output = project.run_capturing_output("controls\nplayer-jump\njump\njump-ground\n");

    assert!(!output.contains("重複する接頭辞を除去"));
    assert!(output.contains("既存のScenario 'jump-ground' を再利用します。"));
}

#[test]
fn creates_new_feature_with_japanese_label_and_saves_it_to_yaml() {
    let mut project = Project::with_migrated_requirement();

    project.run(
        "controls\nプレイヤーがジャンプする\n\ngameplay, animation\njump\ngameplay\nPlayer presses jump.\n\nground\nJump from the ground and land\nDo it.\n\nlands safely\n\n\n",
    );

    assert_eq!(
        project.read(".markharness/knowledge/features/pureiyaagajanpusuru/feature.yml"),
        format!(
            "id: pureiyaagajanpusuru\nrequirement_uids: [{CONTROLS_REQUIREMENT_UID}]\nlabel: プレイヤーがジャンプする\naxis: [gameplay, animation]\n"
        )
    );
}

#[test]
fn creates_new_behavior_with_japanese_label_and_saves_it_to_yaml() {
    let mut project = Project::with_migrated_requirement();
    project.run(SEEDED_FULL_INPUT);

    project.run(
        "controls\nplayer-jump\nプレイヤーがジャンプする\n\ngameplay\nPlayer presses jump.\n\nlanding\nJump while airborne\nDo it.\n\nlands on platform\n\n\n",
    );

    assert_eq!(
        project.read(".markharness/knowledge/features/player-jump/pureiyaagajanpusuru/behavior.yml"),
        "id: pureiyaagajanpusuru\nfeature: player-jump\nlabel: プレイヤーがジャンプする\naxis: [gameplay]\ndescription: |\n  Player presses jump.\nprocedures: {}\n"
    );
}

#[test]
fn creates_new_scenario_with_japanese_label_and_saves_it_to_yaml() {
    let mut project = Project::with_migrated_requirement();
    project.run(SEEDED_FULL_INPUT);

    project.run(
        "controls\nplayer-jump\njump\nプレイヤーがジャンプする\n\nJump animation scenario\nDo it.\n\nlands on platform\n\n\n",
    );

    assert_eq!(
        project.read(".markharness/knowledge/features/player-jump/jump/pureiyaagajanpusuru/scenario.yml"),
        "id: pureiyaagajanpusuru\nbehavior: jump\nlabel: プレイヤーがジャンプする\ndescription: |\n  Jump animation scenario\nphases:\n  - steps:\n      - action: \"Do it.\"\n    results:\n      - \"lands on platform\"\n"
    );
}

#[test]
fn creates_new_requirement_with_japanese_label_and_saves_it_to_yaml() {
    let mut project = Project::fresh();

    project.run("プレイヤーがジャンプする\n\ngameplay\n");

    let requirement_path =
        ".markharness/knowledge/requirements/pureiyaagajanpusuru/requirement.yml";
    assert_eq!(
        project.read(requirement_path),
        "id: pureiyaagajanpusuru\nlabel: プレイヤーがジャンプする\naxis: [gameplay]\n"
    );
    assert!(!project.has(".markharness/knowledge/features"));

    simulate_migrate(&mut project, requirement_path, CONTROLS_REQUIREMENT_UID);
    project.run(
        "pureiyaagajanpusuru\nplayer-jump\ngameplay, animation\njump\ngameplay\nPlayer presses jump.\n\nground\nJump from the ground and land\nDo it.\n\nlands safely\n\n\n",
    );

    assert_eq!(
        project.read(".markharness/knowledge/features/player-jump/feature.yml"),
        format!(
            "id: player-jump\nrequirement_uids: [{CONTROLS_REQUIREMENT_UID}]\nlabel: player-jump\naxis: [gameplay, animation]\n"
        )
    );
}

#[test]
fn reuses_existing_requirement_and_skips_axis_prompt() {
    let mut project = Project::with_migrated_requirement();

    project.run(
        "controls\nother-feature\ngameplay\nspace\ngameplay\nPlayer presses jump while airborne.\n\nlanding\nJump while airborne\nDo it.\n\nlands on platform\n\n\n",
    );

    assert_eq!(
        project.read(".markharness/knowledge/requirements/controls/requirement.yml"),
        format!(
            "id: controls\nlabel: controls\naxis: [gameplay]\nuid: {CONTROLS_REQUIREMENT_UID}\n"
        )
    );
    assert!(project.has(".markharness/knowledge/features/other-feature/feature.yml"));
}

#[test]
fn lists_requirement_candidates_by_number_and_selects_by_index() {
    let mut project = Project::with_migrated_requirement();

    let output = project.run_capturing_output(
        "1\nair-support\ngameplay\nspace\ngameplay\nPlayer presses jump while airborne.\n\nlanding\nJump while airborne\nDo it.\n\nlands on platform\n\n\n",
    );

    assert!(output.contains("  1) controls\n"));
    assert!(output.contains("既存のRequirement 'controls' を再利用します。"));
    assert!(project.has(".markharness/knowledge/features/air-support/feature.yml"));
}

#[test]
fn prompts_show_human_friendly_labels_with_examples() {
    let mut project = Project::fresh();

    let mut output = project.run_capturing_output("controls\ngameplay\n");
    simulate_migrate(
        &mut project,
        ".markharness/knowledge/requirements/controls/requirement.yml",
        CONTROLS_REQUIREMENT_UID,
    );
    output.push_str(&project.run_capturing_output(SEEDED_FULL_INPUT));

    assert!(output.contains("Requirement name (e.g. task-management): "));
    assert!(output.contains("Requirement axis (comma separated, e.g. ui, validation): "));
    assert!(output.contains("Feature name (e.g. add-todo): "));
    assert!(output.contains("Axis (comma separated, e.g. ui, validation): "));
    assert!(output.contains("Behavior name (e.g. add-task): "));
    assert!(output.contains("Behavior axis (comma separated, e.g. ui, validation): "));
    assert!(output.contains("Behavior description (e.g. User adds a new task to the list.): "));
    assert!(output.contains("Procedure name (blank to finish, e.g. login): "));
    assert!(output.contains("Scenario name (e.g. empty-title): "));
    assert!(output.contains("Scenario description (e.g. Submit the todo form with an empty title): "));
}

#[test]
fn selecting_existing_feature_by_number_does_not_overwrite_its_label() {
    let mut project = Project::with_migrated_requirement();
    project.run(
        "controls\nプレイヤーがジャンプする\n\ngameplay, animation\njump\ngameplay\nPlayer presses jump.\n\nground\nJump from the ground and land\nDo it.\n\nlands safely\n\n\n",
    );
    let feature_path = ".markharness/knowledge/features/pureiyaagajanpusuru/feature.yml";
    let before = project.read(feature_path);

    project.run(
        "controls\n1\nair\ngameplay\nPlayer presses jump while airborne.\n\nspace\nJump while airborne\nDo it.\n\nlands on platform\n\n\n",
    );

    let after = project.read(feature_path);
    assert_eq!(before, after);
    assert!(after.contains("label: プレイヤーがジャンプする"));
}

#[test]
fn stripped_id_matches_a_different_preexisting_scenario_reuses_it() {
    let mut project = Project::with_migrated_requirement();
    project.run(
        "controls\nplayer-jump\ngameplay, animation\njump\ngameplay\nPlayer presses jump.\n\nground\nlanded on the ground\nDo it.\n\nlands safely\n\n\n",
    );

    let output = project.run_capturing_output("controls\nplayer-jump\njump\njump-ground\n");

    assert!(output.contains(
        "Scenario id 'jump-ground' から Behavior id 'jump' と重複する接頭辞を除去し、'ground' として作成します。"
    ));
    assert!(output.contains("既存のScenario 'ground' を再利用します。"));
}

#[test]
fn a_new_feature_under_an_unmigrated_requirement_is_refused() {
    let mut project = Project::fresh();
    project.run("controls\ngameplay\n");

    let mut reader = LineInput::from_text("controls\nplayer-jump\n");
    let mut out = String::new();
    let (writes, result) = run_add(&mut reader, &mut out, &project.tree());

    assert!(writes.is_empty());
    let err = result.unwrap_err();
    assert_eq!(
        err,
        AddError::RequirementHasNoUid {
            requirement_id: "controls".to_string()
        }
    );
    assert_eq!(
        err.to_string(),
        "requirement \"controls\" has no uid yet; run `markharness identity migrate` before creating a Feature that references it"
    );
}

#[test]
fn an_input_ending_mid_chain_keeps_the_files_already_owed() {
    let mut project = Project::with_migrated_requirement();

    let mut reader = LineInput::from_text("controls\nplayer-jump\ngameplay\njump\n");
    let mut out = String::new();
    let (writes, result) = run_add(&mut reader, &mut out, &project.tree());

    assert_eq!(result, Err(AddError::UnexpectedEof));
    assert_eq!(writes.len(), 1);
    assert_eq!(
        writes[0].0,
        ".markharness/knowledge/features/player-jump/feature.yml"
    );
    project.files.insert(writes[0].0.clone(), writes[0].1.clone());
    assert!(project.has(".markharness/knowledge/features/player-jump"));
}
