//! `knowledge add`: the interactive dialog that creates a Requirement, or a
//! Feature / Behavior / Scenario chain under an existing Requirement,
//! reusing whatever already exists. The dialog reads the knowledge tree as
//! it stood when it began and answers the files to write, in order.
use vstd::prelude::*;

use crate::interactive::{
    axis_items_from, candidate_listing, entered_names, holds_entered, id_dialog, last_steps,
    line_dialog, phase_is, phases_are, phases_dialog, procedures_dialog, prompt_axis,
    prompt_id_or_label, prompt_line, prompt_phases, prompt_procedures, Entered, LineInput,
    PhaseView, PromptError,
};
use crate::knowledge::{
    behavior_yaml, feature_yaml, flow_array, json_items, json_string_literal, phase_yaml,
    phases_yaml, procedures_yaml, requirement_yaml, scenario_yaml, serialize_behavior,
    serialize_feature, serialize_requirement, serialize_scenario, spec_strip_prefix, steps_yaml,
    strip_redundant_scenario_prefix, Behavior, Feature, Phase, ProcedureMap, Requirement,
    Scenario, StepItem,
};
use crate::knowledge_apply::{writes_view, WriteView};
use crate::lines::spec_indent_block_scalar;
use crate::text::{lemma_strictly_sorted_unique, str_eq, strictly_sorted, views};

verus! {

// ---------------------------------------------------------------------------
// The knowledge tree, as the dialog reads it.
// ---------------------------------------------------------------------------

/// A Requirement directory holding a `requirement.yml`, with the uid that
/// file records.
pub struct RequirementEntry {
    pub id: String,
    pub uid: Option<String>,
}

/// A Behavior directory holding a `behavior.yml`, with the Scenario
/// directories under it that hold a `scenario.yml`.
pub struct BehaviorEntry {
    pub id: String,
    pub scenarios: Vec<String>,
}

/// A Feature directory holding a `feature.yml`, with its Behaviors.
pub struct FeatureEntry {
    pub id: String,
    pub behaviors: Vec<BehaviorEntry>,
}

/// The knowledge tree, each level in directory-listing order (by name).
pub struct KnowledgeTree {
    pub requirements: Vec<RequirementEntry>,
    pub features: Vec<FeatureEntry>,
}

/// Why the dialog stopped before finishing.
#[derive(Debug, Clone, PartialEq, Eq)]
pub enum AddError {
    /// The input ended while an answer was still owed.
    UnexpectedEof,
    /// A new Feature would reference a Requirement that has no uid yet.
    RequirementHasNoUid { requirement_id: String },
}

pub open spec fn no_uid_text(requirement_id: Seq<char>) -> Seq<char> {
    "requirement \""@ + requirement_id
        + "\" has no uid yet; run `markharness identity migrate` before creating a Feature that references it"@
}

impl AddError {
    pub fn to_string(&self) -> (r: String)
        ensures
            match self {
                AddError::UnexpectedEof => r@ == "input ended before the dialog was complete"@,
                AddError::RequirementHasNoUid { requirement_id } => r@ == no_uid_text(
                    requirement_id@,
                ),
            },
    {
        match self {
            AddError::UnexpectedEof => String::from_str("input ended before the dialog was complete"),
            AddError::RequirementHasNoUid { requirement_id } => {
                let mut s = String::from_str("requirement \"");
                s.append(requirement_id.as_str());
                s.append(
                    "\" has no uid yet; run `markharness identity migrate` before creating a Feature that references it",
                );
                s
            },
        }
    }
}

pub open spec fn requirement_ids(tree: KnowledgeTree) -> Seq<Seq<char>> {
    tree.requirements@.map_values(|r: RequirementEntry| r.id@)
}

pub open spec fn feature_ids(tree: KnowledgeTree) -> Seq<Seq<char>> {
    tree.features@.map_values(|f: FeatureEntry| f.id@)
}

pub open spec fn opt_seq(o: Option<String>) -> Option<Seq<char>> {
    match o {
        Some(s) => Some(s@),
        None => None,
    }
}

/// The uid recorded by the first Requirement, at `k` or later, named `id`;
/// `None` when there is none (the outer option).
pub open spec fn requirement_uid_from(rs: Seq<RequirementEntry>, id: Seq<char>, k: nat) -> Option<
    Option<Seq<char>>,
>
    decreases rs.len() - k,
{
    if k >= rs.len() {
        None
    } else if rs[k as int].id@ == id {
        Some(opt_seq(rs[k as int].uid))
    } else {
        requirement_uid_from(rs, id, k + 1)
    }
}

/// The index of the first Feature, at `k` or later, named `id`.
pub open spec fn feature_at(fs: Seq<FeatureEntry>, id: Seq<char>, k: nat) -> Option<int>
    decreases fs.len() - k,
{
    if k >= fs.len() {
        None
    } else if fs[k as int].id@ == id {
        Some(k as int)
    } else {
        feature_at(fs, id, k + 1)
    }
}

/// The index of the first Behavior, at `k` or later, named `id`.
pub open spec fn behavior_at(bs: Seq<BehaviorEntry>, id: Seq<char>, k: nat) -> Option<int>
    decreases bs.len() - k,
{
    if k >= bs.len() {
        None
    } else if bs[k as int].id@ == id {
        Some(k as int)
    } else {
        behavior_at(bs, id, k + 1)
    }
}

pub open spec fn behavior_ids_of(f: FeatureEntry) -> Seq<Seq<char>> {
    f.behaviors@.map_values(|b: BehaviorEntry| b.id@)
}

/// The Behaviors under Feature `fid` (none for a Feature not in the tree).
pub open spec fn behavior_ids(tree: KnowledgeTree, fid: Seq<char>) -> Seq<Seq<char>> {
    match feature_at(tree.features@, fid, 0) {
        Some(i) => behavior_ids_of(tree.features@[i]),
        None => seq![],
    }
}

/// The Scenarios under Behavior `bid` of Feature `fid`.
pub open spec fn scenario_ids(tree: KnowledgeTree, fid: Seq<char>, bid: Seq<char>) -> Seq<
    Seq<char>,
> {
    match feature_at(tree.features@, fid, 0) {
        Some(i) => match behavior_at(tree.features@[i].behaviors@, bid, 0) {
            Some(j) => views(tree.features@[i].behaviors@[j].scenarios@),
            None => seq![],
        },
        None => seq![],
    }
}

// ---------------------------------------------------------------------------
// What the dialog says and writes.
// ---------------------------------------------------------------------------

pub open spec fn reuse_notice(kind: Seq<char>, id: Seq<char>) -> Seq<char> {
    "既存の"@ + kind + " '"@ + id + "' を再利用します。\n"@
}

pub open spec fn requirement_created_notice(id: Seq<char>) -> Seq<char> {
    "Requirement '"@ + id
        + "' を作成しました。Featureから参照できるようにするには、先に `markharness identity migrate` を実行してから再度 `markharness knowledge add` を実行してください。\n"@
}

pub open spec fn strip_notice(raw: Seq<char>, bid: Seq<char>, stripped: Seq<char>) -> Seq<char> {
    "Scenario id '"@ + raw + "' から Behavior id '"@ + bid + "' と重複する接頭辞を除去し、'"@
        + stripped + "' として作成します。\n"@
}

pub open spec fn requirement_file(rid: Seq<char>) -> Seq<char> {
    ".markharness/knowledge/requirements/"@ + rid + "/requirement.yml"@
}

pub open spec fn feature_file(fid: Seq<char>) -> Seq<char> {
    ".markharness/knowledge/features/"@ + fid + "/feature.yml"@
}

pub open spec fn behavior_file(fid: Seq<char>, bid: Seq<char>) -> Seq<char> {
    ".markharness/knowledge/features/"@ + fid + "/"@ + bid + "/behavior.yml"@
}

pub open spec fn scenario_file(fid: Seq<char>, bid: Seq<char>, sid: Seq<char>) -> Seq<char> {
    ".markharness/knowledge/features/"@ + fid + "/"@ + bid + "/"@ + sid + "/scenario.yml"@
}

pub open spec fn requirement_text(id: Seq<char>, label: Seq<char>, axis: Seq<Seq<char>>) -> Seq<
    char,
> {
    "id: "@ + id + "\nlabel: "@ + label + "\naxis: "@ + flow_array(axis) + "\n"@
}

pub open spec fn feature_text(
    id: Seq<char>,
    requirement_uid: Seq<char>,
    label: Seq<char>,
    axis: Seq<Seq<char>>,
) -> Seq<char> {
    "id: "@ + id + "\nrequirement_uids: "@ + flow_array(seq![requirement_uid]) + "\nlabel: "@
        + label + "\naxis: "@ + flow_array(axis) + "\n"@
}

/// The entered procedure names, in ascending order, without repeats.
pub open spec fn procedure_names(e: Entered) -> Seq<Seq<char>> {
    choose|s: Seq<Seq<char>>| strictly_sorted(s) && s.to_set() == entered_names(e)
}

/// For each of `procedure_names(e)`, the steps entered last for it.
pub open spec fn procedure_steps(e: Entered) -> Seq<Seq<Seq<char>>> {
    procedure_names(e).map_values(|n: Seq<char>| last_steps(e, n, e.len())->Some_0)
}

pub open spec fn procedures_text(e: Entered) -> Seq<char> {
    if procedure_names(e).len() == 0 {
        "procedures: {}\n"@
    } else {
        "procedures:\n"@ + procedures_yaml(procedure_names(e), procedure_steps(e))
    }
}

pub open spec fn behavior_text(
    id: Seq<char>,
    fid: Seq<char>,
    label: Seq<char>,
    axis: Seq<Seq<char>>,
    description: Seq<char>,
    e: Entered,
) -> Seq<char> {
    "id: "@ + id + "\nfeature: "@ + fid + "\nlabel: "@ + label + "\naxis: "@ + flow_array(axis)
        + "\ndescription: |\n"@ + spec_indent_block_scalar(description, "  "@) + procedures_text(e)
}

/// The `- action: ...` lines of a phase's steps.
pub open spec fn action_lines(actions: Seq<Seq<char>>) -> Seq<char>
    decreases actions.len(),
{
    if actions.len() == 0 {
        Seq::empty()
    } else {
        action_lines(actions.drop_last()) + "      - "@ + ("action: "@ + json_string_literal(
            actions.last(),
        )) + "\n"@
    }
}

pub open spec fn phase_text(pv: PhaseView) -> Seq<char> {
    "  - steps:\n"@ + action_lines(pv.0) + "    results:\n"@ + json_items(pv.1)
}

pub open spec fn phases_text(pvs: Seq<PhaseView>) -> Seq<char>
    decreases pvs.len(),
{
    if pvs.len() == 0 {
        Seq::empty()
    } else {
        phases_text(pvs.drop_last()) + phase_text(pvs.last())
    }
}

pub open spec fn scenario_text(
    id: Seq<char>,
    bid: Seq<char>,
    label: Seq<char>,
    description: Seq<char>,
    pvs: Seq<PhaseView>,
) -> Seq<char> {
    "id: "@ + id + "\nbehavior: "@ + bid + "\nlabel: "@ + label + "\ndescription: |\n"@
        + spec_indent_block_scalar(description, "  "@) + "phases:\n"@ + phases_text(pvs)
}

// ---------------------------------------------------------------------------
// The dialog, stage by stage.
// ---------------------------------------------------------------------------

/// How the dialog ended.
pub enum AddStop {
    Finished,
    Eof,
    NoUid(Seq<char>),
}

/// The dialog's course: the input lines left, the output so far, the
/// files to write (in order), and how it ended.
pub struct AddFlow {
    pub rest: Seq<Seq<char>>,
    pub out: Seq<char>,
    pub writes: Seq<WriteView>,
    pub stop: AddStop,
}

/// Asking for a Scenario of Behavior `bid` under Feature `fid`: an existing
/// one is reused (its id may be given with the redundant `"<bid>-"` prefix,
/// which is stripped unless a Scenario has that literal name); a new one
/// asks for its description and phases.
pub open spec fn scenario_flow(
    tree: KnowledgeTree,
    fid: Seq<char>,
    bid: Seq<char>,
    rest: Seq<Seq<char>>,
    out: Seq<char>,
    writes: Seq<WriteView>,
) -> AddFlow {
    let cands = scenario_ids(tree, fid, bid);
    let d = id_dialog("Scenario name (e.g. empty-title): "@, cands, rest);
    let rest1 = rest.skip(d.1 as int);
    let out1 = out + candidate_listing(cands, cands.len()) + d.2;
    match d.0 {
        None => AddFlow { rest: rest1, out: out1, writes, stop: AddStop::Eof },
        Some((raw, label)) => {
            let sid = if cands.contains(raw) {
                raw
            } else {
                match spec_strip_prefix(bid, raw) {
                    Some(st) => st,
                    None => raw,
                }
            };
            let out2 = if !cands.contains(raw) && spec_strip_prefix(bid, raw) is Some {
                out1 + strip_notice(raw, bid, sid)
            } else {
                out1
            };
            if cands.contains(sid) {
                AddFlow {
                    rest: rest1,
                    out: out2 + reuse_notice("Scenario"@, sid),
                    writes,
                    stop: AddStop::Finished,
                }
            } else {
                let dd = line_dialog(
                    "Scenario description (e.g. Submit the todo form with an empty title): "@,
                    rest1,
                );
                let rest2 = rest1.skip(dd.1 as int);
                let out3 = out2 + dd.2;
                match dd.0 {
                    None => AddFlow { rest: rest2, out: out3, writes, stop: AddStop::Eof },
                    Some(description) => {
                        let pd = phases_dialog(rest2, seq![]);
                        let rest3 = rest2.skip(pd.1 as int);
                        let out4 = out3 + pd.2;
                        match pd.0 {
                            None => AddFlow { rest: rest3, out: out4, writes, stop: AddStop::Eof },
                            Some(pvs) => AddFlow {
                                rest: rest3,
                                out: out4,
                                writes: writes.push(
                                    (
                                        scenario_file(fid, bid, sid),
                                        scenario_text(sid, bid, label, description, pvs),
                                    ),
                                ),
                                stop: AddStop::Finished,
                            },
                        }
                    },
                }
            }
        },
    }
}

/// Asking for a Behavior of Feature `fid`: an existing one is reused; a new
/// one asks for its axes, description and procedures. Then the Scenario.
pub open spec fn behavior_flow(
    tree: KnowledgeTree,
    fid: Seq<char>,
    rest: Seq<Seq<char>>,
    out: Seq<char>,
    writes: Seq<WriteView>,
) -> AddFlow {
    let cands = behavior_ids(tree, fid);
    let d = id_dialog("Behavior name (e.g. add-task): "@, cands, rest);
    let rest1 = rest.skip(d.1 as int);
    let out1 = out + candidate_listing(cands, cands.len()) + d.2;
    match d.0 {
        None => AddFlow { rest: rest1, out: out1, writes, stop: AddStop::Eof },
        Some((bid, label)) => if cands.contains(bid) {
            scenario_flow(tree, fid, bid, rest1, out1 + reuse_notice("Behavior"@, bid), writes)
        } else {
            let ad = line_dialog("Behavior axis (comma separated, e.g. ui, validation): "@, rest1);
            let rest2 = rest1.skip(ad.1 as int);
            let out2 = out1 + ad.2;
            match ad.0 {
                None => AddFlow { rest: rest2, out: out2, writes, stop: AddStop::Eof },
                Some(axis_line) => {
                    let dd = line_dialog(
                        "Behavior description (e.g. User adds a new task to the list.): "@,
                        rest2,
                    );
                    let rest3 = rest2.skip(dd.1 as int);
                    let out3 = out2 + dd.2;
                    match dd.0 {
                        None => AddFlow { rest: rest3, out: out3, writes, stop: AddStop::Eof },
                        Some(description) => {
                            let pd = procedures_dialog(rest3, seq![]);
                            let rest4 = rest3.skip(pd.1 as int);
                            let out4 = out3 + pd.2;
                            match pd.0 {
                                None => AddFlow {
                                    rest: rest4,
                                    out: out4,
                                    writes,
                                    stop: AddStop::Eof,
                                },
                                Some(e) => scenario_flow(
                                    tree,
                                    fid,
                                    bid,
                                    rest4,
                                    out4,
                                    writes.push(
                                        (
                                            behavior_file(fid, bid),
                                            behavior_text(
                                                bid,
                                                fid,
                                                label,
                                                axis_items_from(axis_line, 0),
                                                description,
                                                e,
                                            ),
                                        ),
                                    ),
                                ),
                            }
                        },
                    }
                },
            }
        },
    }
}

/// Asking for a Feature related to Requirement `rid` (whose uid is `ruid`):
/// an existing one is reused; a new one needs the Requirement's uid and
/// asks for its axes. Then the Behavior.
pub open spec fn feature_flow(
    tree: KnowledgeTree,
    rid: Seq<char>,
    ruid: Option<Seq<char>>,
    rest: Seq<Seq<char>>,
    out: Seq<char>,
) -> AddFlow {
    let cands = feature_ids(tree);
    let d = id_dialog("Feature name (e.g. add-todo): "@, cands, rest);
    let rest1 = rest.skip(d.1 as int);
    let out1 = out + candidate_listing(cands, cands.len()) + d.2;
    match d.0 {
        None => AddFlow { rest: rest1, out: out1, writes: seq![], stop: AddStop::Eof },
        Some((fid, label)) => if feature_at(tree.features@, fid, 0) is Some {
            behavior_flow(tree, fid, rest1, out1 + reuse_notice("Feature"@, fid), seq![])
        } else {
            match ruid {
                None => AddFlow {
                    rest: rest1,
                    out: out1,
                    writes: seq![],
                    stop: AddStop::NoUid(rid),
                },
                Some(u) => {
                    let ad = line_dialog("Axis (comma separated, e.g. ui, validation): "@, rest1);
                    let rest2 = rest1.skip(ad.1 as int);
                    let out2 = out1 + ad.2;
                    match ad.0 {
                        None => AddFlow {
                            rest: rest2,
                            out: out2,
                            writes: seq![],
                            stop: AddStop::Eof,
                        },
                        Some(axis_line) => behavior_flow(
                            tree,
                            fid,
                            rest2,
                            out2,
                            seq![
                                (
                                    feature_file(fid),
                                    feature_text(fid, u, label, axis_items_from(axis_line, 0)),
                                ),
                            ],
                        ),
                    }
                },
            }
        },
    }
}

/// The whole dialog. A new Requirement is written and the dialog ends
/// there: a Feature can only reference a Requirement that has a uid, which
/// `identity migrate` issues. An existing Requirement goes on to the
/// Feature.
pub open spec fn add_flow(tree: KnowledgeTree, rest: Seq<Seq<char>>, out: Seq<char>) -> AddFlow {
    let cands = requirement_ids(tree);
    let d = id_dialog("Requirement name (e.g. task-management): "@, cands, rest);
    let rest1 = rest.skip(d.1 as int);
    let out1 = out + candidate_listing(cands, cands.len()) + d.2;
    match d.0 {
        None => AddFlow { rest: rest1, out: out1, writes: seq![], stop: AddStop::Eof },
        Some((rid, label)) => match requirement_uid_from(tree.requirements@, rid, 0) {
            Some(ruid) => feature_flow(
                tree,
                rid,
                ruid,
                rest1,
                out1 + reuse_notice("Requirement"@, rid),
            ),
            None => {
                let ad = line_dialog(
                    "Requirement axis (comma separated, e.g. ui, validation): "@,
                    rest1,
                );
                let rest2 = rest1.skip(ad.1 as int);
                let out2 = out1 + ad.2;
                match ad.0 {
                    None => AddFlow { rest: rest2, out: out2, writes: seq![], stop: AddStop::Eof },
                    Some(axis_line) => AddFlow {
                        rest: rest2,
                        out: out2 + requirement_created_notice(rid),
                        writes: seq![
                            (
                                requirement_file(rid),
                                requirement_text(rid, label, axis_items_from(axis_line, 0)),
                            ),
                        ],
                        stop: AddStop::Finished,
                    },
                }
            },
        },
    }
}

/// Whether `r` reports how the dialog ended.
pub open spec fn reports_stop(r: Result<(), AddError>, stop: AddStop) -> bool {
    match r {
        Ok(_) => stop is Finished,
        Err(AddError::UnexpectedEof) => stop is Eof,
        Err(AddError::RequirementHasNoUid { requirement_id }) => stop == AddStop::NoUid(
            requirement_id@,
        ),
    }
}


// ---------------------------------------------------------------------------
// Lemmas: the written text is the serialization of what was entered.
// ---------------------------------------------------------------------------

proof fn lemma_entered_procedures(m: ProcedureMap, e: Entered)
    requires
        holds_entered(m, e),
    ensures
        m.names() == procedure_names(e),
        m.steps() == procedure_steps(e),
{
    assert(strictly_sorted(m.names()) && m.names().to_set() == entered_names(e));
    let s = procedure_names(e);
    lemma_strictly_sorted_unique(s, m.names());
    assert forall|i: int| 0 <= i < m.steps().len() implies m.steps()[i] == procedure_steps(e)[i] by {
        assert(last_steps(e, m.names()[i], e.len()) == Some(m.steps()[i]));
    }
    assert(m.steps() =~= procedure_steps(e));
}

proof fn lemma_action_lines(steps: Seq<StepItem>, actions: Seq<Seq<char>>)
    requires
        steps.len() == actions.len(),
        forall|k: int|
            0 <= k < actions.len() ==> match #[trigger] steps[k] {
                StepItem::Action { action } => action@ == actions[k],
                _ => false,
            },
    ensures
        steps_yaml(steps) == action_lines(actions),
    decreases steps.len(),
{
    if steps.len() > 0 {
        let n = steps.len() - 1;
        assert forall|k: int| 0 <= k < actions.drop_last().len() implies match #[trigger] steps.drop_last()[k] {
            StepItem::Action { action } => action@ == actions.drop_last()[k],
            _ => false,
        } by {
            assert(steps.drop_last()[k] == steps[k]);
        }
        lemma_action_lines(steps.drop_last(), actions.drop_last());
        assert(match steps[n] {
            StepItem::Action { action } => action@ == actions[n],
            _ => false,
        });
    }
}

proof fn lemma_phases_text(phases: Seq<Phase>, pvs: Seq<PhaseView>)
    requires
        phases_are(phases, pvs),
    ensures
        phases_yaml(phases) == phases_text(pvs),
    decreases phases.len(),
{
    if phases.len() > 0 {
        let n = phases.len() - 1;
        assert(phases_are(phases.drop_last(), pvs.drop_last())) by {
            assert forall|i: int| 0 <= i < phases.drop_last().len() implies phase_is(
                #[trigger] phases.drop_last()[i],
                pvs.drop_last()[i],
            ) by {
                assert(phase_is(phases[i], pvs[i]));
            }
        }
        lemma_phases_text(phases.drop_last(), pvs.drop_last());
        let p = phases[n];
        assert(phase_is(p, pvs[n]));
        lemma_action_lines(p.steps@, pvs[n].0);
        assert(phase_yaml(p) == phase_text(pvs[n]));
    }
}

// ---------------------------------------------------------------------------
// Reading the tree.
// ---------------------------------------------------------------------------

fn requirement_candidates(tree: &KnowledgeTree) -> (r: Vec<String>)
    ensures
        views(r@) == requirement_ids(*tree),
{
    let mut out: Vec<String> = Vec::new();
    let mut i: usize = 0;
    while i < tree.requirements.len()
        invariant
            i <= tree.requirements@.len(),
            out@.len() == i,
            views(out@) =~= requirement_ids(*tree).take(i as int),
        decreases tree.requirements.len() - i,
    {
        let x = tree.requirements[i].id.clone();
        assert(x@ == tree.requirements@[i as int].id@);
        out.push(x);
        i = i + 1;
    }
    assert(requirement_ids(*tree).take(i as int) =~= requirement_ids(*tree));
    out
}

fn feature_candidates(tree: &KnowledgeTree) -> (r: Vec<String>)
    ensures
        views(r@) == feature_ids(*tree),
{
    let mut out: Vec<String> = Vec::new();
    let mut i: usize = 0;
    while i < tree.features.len()
        invariant
            i <= tree.features@.len(),
            out@.len() == i,
            views(out@) =~= feature_ids(*tree).take(i as int),
        decreases tree.features.len() - i,
    {
        let x = tree.features[i].id.clone();
        assert(x@ == tree.features@[i as int].id@);
        out.push(x);
        i = i + 1;
    }
    assert(feature_ids(*tree).take(i as int) =~= feature_ids(*tree));
    out
}

fn behavior_candidates_of(f: &FeatureEntry) -> (r: Vec<String>)
    ensures
        views(r@) == behavior_ids_of(*f),
{
    let mut out: Vec<String> = Vec::new();
    let mut i: usize = 0;
    while i < f.behaviors.len()
        invariant
            i <= f.behaviors@.len(),
            out@.len() == i,
            views(out@) =~= behavior_ids_of(*f).take(i as int),
        decreases f.behaviors.len() - i,
    {
        let x = f.behaviors[i].id.clone();
        assert(x@ == f.behaviors@[i as int].id@);
        out.push(x);
        i = i + 1;
    }
    assert(behavior_ids_of(*f).take(i as int) =~= behavior_ids_of(*f));
    out
}

fn copy_ids(v: &Vec<String>) -> (r: Vec<String>)
    ensures
        views(r@) == views(v@),
{
    let mut out: Vec<String> = Vec::new();
    let mut i: usize = 0;
    while i < v.len()
        invariant
            i <= v@.len(),
            out@.len() == i,
            views(out@) =~= views(v@).take(i as int),
        decreases v.len() - i,
    {
        let x = v[i].clone();
        assert(x@ == v@[i as int]@);
        out.push(x);
        i = i + 1;
    }
    assert(views(v@).take(i as int) =~= views(v@));
    out
}

fn lookup_requirement(tree: &KnowledgeTree, id: &String) -> (r: Option<Option<String>>)
    ensures
        match r {
            None => requirement_uid_from(tree.requirements@, id@, 0) is None,
            Some(u) => requirement_uid_from(tree.requirements@, id@, 0) == Some(opt_seq(u)),
        },
{
    let mut i: usize = 0;
    while i < tree.requirements.len()
        invariant
            i <= tree.requirements@.len(),
            requirement_uid_from(tree.requirements@, id@, 0) == requirement_uid_from(
                tree.requirements@,
                id@,
                i as nat,
            ),
        decreases tree.requirements.len() - i,
    {
        if str_eq(tree.requirements[i].id.as_str(), id.as_str()) {
            let u = match &tree.requirements[i].uid {
                Some(x) => Some(x.clone()),
                None => None,
            };
            return Some(u);
        }
        i = i + 1;
    }
    None
}

fn find_feature(tree: &KnowledgeTree, id: &String) -> (r: Option<usize>)
    ensures
        match r {
            None => feature_at(tree.features@, id@, 0) is None,
            Some(i) => i < tree.features@.len() && feature_at(tree.features@, id@, 0) == Some(
                i as int,
            ),
        },
{
    let mut i: usize = 0;
    while i < tree.features.len()
        invariant
            i <= tree.features@.len(),
            feature_at(tree.features@, id@, 0) == feature_at(tree.features@, id@, i as nat),
        decreases tree.features.len() - i,
    {
        if str_eq(tree.features[i].id.as_str(), id.as_str()) {
            return Some(i);
        }
        i = i + 1;
    }
    None
}

fn find_behavior(f: &FeatureEntry, id: &String) -> (r: Option<usize>)
    ensures
        match r {
            None => behavior_at(f.behaviors@, id@, 0) is None,
            Some(j) => j < f.behaviors@.len() && behavior_at(f.behaviors@, id@, 0) == Some(
                j as int,
            ),
        },
{
    let mut j: usize = 0;
    while j < f.behaviors.len()
        invariant
            j <= f.behaviors@.len(),
            behavior_at(f.behaviors@, id@, 0) == behavior_at(f.behaviors@, id@, j as nat),
        decreases f.behaviors.len() - j,
    {
        if str_eq(f.behaviors[j].id.as_str(), id.as_str()) {
            return Some(j);
        }
        j = j + 1;
    }
    None
}

fn behavior_candidates(tree: &KnowledgeTree, fid: &String) -> (r: Vec<String>)
    ensures
        views(r@) == behavior_ids(*tree, fid@),
{
    match find_feature(tree, fid) {
        Some(i) => behavior_candidates_of(&tree.features[i]),
        None => {
            let v: Vec<String> = Vec::new();
            assert(views(v@) =~= seq![]);
            v
        },
    }
}

fn scenario_candidates(tree: &KnowledgeTree, fid: &String, bid: &String) -> (r: Vec<String>)
    ensures
        views(r@) == scenario_ids(*tree, fid@, bid@),
{
    let empty: Vec<String> = Vec::new();
    assert(views(empty@) =~= seq![]);
    match find_feature(tree, fid) {
        Some(i) => match find_behavior(&tree.features[i], bid) {
            Some(j) => copy_ids(&tree.features[i].behaviors[j].scenarios),
            None => empty,
        },
        None => empty,
    }
}

fn listed(v: &Vec<String>, s: &String) -> (r: bool)
    ensures
        r == views(v@).contains(s@),
{
    let mut k: usize = 0;
    while k < v.len()
        invariant
            k <= v@.len(),
            forall|m: int| 0 <= m < k ==> v@[m]@ != s@,
        decreases v.len() - k,
    {
        if str_eq(v[k].as_str(), s.as_str()) {
            assert(views(v@)[k as int] == s@);
            return true;
        }
        k = k + 1;
    }
    proof {
        if views(v@).contains(s@) {
            let m = choose|m: int| 0 <= m < views(v@).len() && views(v@)[m] == s@;
            assert(v@[m]@ == s@);
        }
    }
    false
}

// ---------------------------------------------------------------------------
// Texts.
// ---------------------------------------------------------------------------

fn reuse_notice_text(kind: &str, id: &String) -> (r: String)
    ensures
        r@ == reuse_notice(kind@, id@),
{
    let mut s = String::from_str("既存の");
    s.append(kind);
    s.append(" '");
    s.append(id.as_str());
    s.append("' を再利用します。\n");
    s
}

fn requirement_created_text(id: &String) -> (r: String)
    ensures
        r@ == requirement_created_notice(id@),
{
    let mut s = String::from_str("Requirement '");
    s.append(id.as_str());
    s.append(
        "' を作成しました。Featureから参照できるようにするには、先に `markharness identity migrate` を実行してから再度 `markharness knowledge add` を実行してください。\n",
    );
    s
}

fn strip_notice_text(raw: &String, bid: &String, stripped: &String) -> (r: String)
    ensures
        r@ == strip_notice(raw@, bid@, stripped@),
{
    let mut s = String::from_str("Scenario id '");
    s.append(raw.as_str());
    s.append("' から Behavior id '");
    s.append(bid.as_str());
    s.append("' と重複する接頭辞を除去し、'");
    s.append(stripped.as_str());
    s.append("' として作成します。\n");
    s
}

fn requirement_file_text(rid: &String) -> (r: String)
    ensures
        r@ == requirement_file(rid@),
{
    let mut s = String::from_str(".markharness/knowledge/requirements/");
    s.append(rid.as_str());
    s.append("/requirement.yml");
    s
}

fn feature_file_text(fid: &String) -> (r: String)
    ensures
        r@ == feature_file(fid@),
{
    let mut s = String::from_str(".markharness/knowledge/features/");
    s.append(fid.as_str());
    s.append("/feature.yml");
    s
}

fn behavior_file_text(fid: &String, bid: &String) -> (r: String)
    ensures
        r@ == behavior_file(fid@, bid@),
{
    let mut s = String::from_str(".markharness/knowledge/features/");
    s.append(fid.as_str());
    s.append("/");
    s.append(bid.as_str());
    s.append("/behavior.yml");
    s
}

fn scenario_file_text(fid: &String, bid: &String, sid: &String) -> (r: String)
    ensures
        r@ == scenario_file(fid@, bid@, sid@),
{
    let mut s = String::from_str(".markharness/knowledge/features/");
    s.append(fid.as_str());
    s.append("/");
    s.append(bid.as_str());
    s.append("/");
    s.append(sid.as_str());
    s.append("/scenario.yml");
    s
}


// ---------------------------------------------------------------------------
// The dialog.
// ---------------------------------------------------------------------------

fn add_scenario(
    input: &mut LineInput,
    out: &mut String,
    writes: &mut Vec<(String, String)>,
    tree: &KnowledgeTree,
    fid: &String,
    bid: &String,
) -> (r: Result<(), AddError>)
    ensures
        ({
            let f = scenario_flow(
                *tree,
                fid@,
                bid@,
                old(input).rest(),
                old(out)@,
                writes_view(old(writes)@),
            );
            &&& final(input).rest() == f.rest
            &&& final(out)@ == f.out
            &&& writes_view(final(writes)@) == f.writes
            &&& reports_stop(r, f.stop)
        }),
{
    let ghost f = scenario_flow(
        *tree,
        fid@,
        bid@,
        input.rest(),
        out@,
        writes_view(writes@),
    );
    let ghost rest0 = input.rest();
    let cands = scenario_candidates(tree, fid, bid);
    let (raw, label) = match prompt_id_or_label(
        input,
        out,
        "Scenario name (e.g. empty-title): ",
        &cands,
    ) {
        Err(_) => {
            return Err(AddError::UnexpectedEof);
        },
        Ok(p) => p,
    };
    let raw_listed = listed(&cands, &raw);
    let sid = if raw_listed {
        raw.clone()
    } else {
        match strip_redundant_scenario_prefix(bid.as_str(), raw.as_str()) {
            Some(st) => {
                let notice = strip_notice_text(&raw, bid, &st);
                out.append(notice.as_str());
                st
            },
            None => raw.clone(),
        }
    };
    if listed(&cands, &sid) {
        let notice = reuse_notice_text("Scenario", &sid);
        out.append(notice.as_str());
        return Ok(());
    }
    let ghost rest1 = input.rest();
    let description = match prompt_line(
        input,
        out,
        "Scenario description (e.g. Submit the todo form with an empty title): ",
    ) {
        Err(_) => {
            return Err(AddError::UnexpectedEof);
        },
        Ok(d) => d,
    };
    let ghost rest2 = input.rest();
    let phases = match prompt_phases(input, out) {
        Err(_) => {
            return Err(AddError::UnexpectedEof);
        },
        Ok(p) => p,
    };
    let ghost pvs = phases_dialog(rest2, seq![]).0->Some_0;
    let scenario = Scenario {
        id: sid.clone(),
        behavior: bid.clone(),
        label,
        description,
        phases,
        implementation_note: None,
        generated_by: None,
        verified_by: None,
        uid: None,
    };
    let text = serialize_scenario(&scenario);
    proof {
        lemma_phases_text(scenario.phases@, pvs);
        assert(text@ =~= scenario_text(sid@, bid@, scenario.label@, scenario.description@, pvs));
    }
    let path = scenario_file_text(fid, bid, &sid);
    let ghost before = writes@;
    writes.push((path, text));
    proof {
        assert(writes_view(writes@) =~= writes_view(before).push((path@, text@)));
    }
    Ok(())
}


fn add_behavior(
    input: &mut LineInput,
    out: &mut String,
    writes: &mut Vec<(String, String)>,
    tree: &KnowledgeTree,
    fid: &String,
) -> (r: Result<(), AddError>)
    ensures
        ({
            let f = behavior_flow(*tree, fid@, old(input).rest(), old(out)@, writes_view(old(writes)@));
            &&& final(input).rest() == f.rest
            &&& final(out)@ == f.out
            &&& writes_view(final(writes)@) == f.writes
            &&& reports_stop(r, f.stop)
        }),
{
    let cands = behavior_candidates(tree, fid);
    let (bid, label) = match prompt_id_or_label(
        input,
        out,
        "Behavior name (e.g. add-task): ",
        &cands,
    ) {
        Err(_) => {
            return Err(AddError::UnexpectedEof);
        },
        Ok(p) => p,
    };
    if listed(&cands, &bid) {
        let notice = reuse_notice_text("Behavior", &bid);
        out.append(notice.as_str());
        return add_scenario(input, out, writes, tree, fid, &bid);
    }
    let ghost rest1 = input.rest();
    let axis = match prompt_axis(
        input,
        out,
        "Behavior axis (comma separated, e.g. ui, validation): ",
    ) {
        Err(_) => {
            return Err(AddError::UnexpectedEof);
        },
        Ok(a) => a,
    };
    let description = match prompt_line(
        input,
        out,
        "Behavior description (e.g. User adds a new task to the list.): ",
    ) {
        Err(_) => {
            return Err(AddError::UnexpectedEof);
        },
        Ok(d) => d,
    };
    let ghost rest3 = input.rest();
    let procedures = match prompt_procedures(input, out) {
        Err(_) => {
            return Err(AddError::UnexpectedEof);
        },
        Ok(m) => m,
    };
    let ghost e = procedures_dialog(rest3, seq![]).0->Some_0;
    let ghost axis_line = line_dialog(
        "Behavior axis (comma separated, e.g. ui, validation): "@,
        rest1,
    ).0->Some_0;
    let behavior = Behavior {
        id: bid.clone(),
        feature: fid.clone(),
        label,
        axis,
        description,
        procedures,
        uid: None,
    };
    let text = serialize_behavior(&behavior);
    proof {
        lemma_entered_procedures(behavior.procedures, e);
        assert(text@ =~= behavior_text(
            bid@,
            fid@,
            behavior.label@,
            axis_items_from(axis_line, 0),
            behavior.description@,
            e,
        ));
    }
    let path = behavior_file_text(fid, &bid);
    let ghost before = writes@;
    writes.push((path, text));
    proof {
        assert(writes_view(writes@) =~= writes_view(before).push((path@, text@)));
    }
    add_scenario(input, out, writes, tree, fid, &bid)
}

fn add_feature(
    input: &mut LineInput,
    out: &mut String,
    writes: &mut Vec<(String, String)>,
    tree: &KnowledgeTree,
    rid: &String,
    ruid: Option<String>,
) -> (r: Result<(), AddError>)
    requires
        old(writes)@.len() == 0,
    ensures
        ({
            let f = feature_flow(*tree, rid@, opt_seq(ruid), old(input).rest(), old(out)@);
            &&& final(input).rest() == f.rest
            &&& final(out)@ == f.out
            &&& writes_view(final(writes)@) == f.writes
            &&& reports_stop(r, f.stop)
        }),
{
    assert(writes_view(writes@) =~= seq![]);
    let cands = feature_candidates(tree);
    let (fid, label) = match prompt_id_or_label(
        input,
        out,
        "Feature name (e.g. add-todo): ",
        &cands,
    ) {
        Err(_) => {
            return Err(AddError::UnexpectedEof);
        },
        Ok(p) => p,
    };
    if find_feature(tree, &fid).is_some() {
        let notice = reuse_notice_text("Feature", &fid);
        out.append(notice.as_str());
        return add_behavior(input, out, writes, tree, &fid);
    }
    let u = match ruid {
        None => {
            return Err(AddError::RequirementHasNoUid { requirement_id: rid.clone() });
        },
        Some(u) => u,
    };
    let ghost rest1 = input.rest();
    let axis = match prompt_axis(input, out, "Axis (comma separated, e.g. ui, validation): ") {
        Err(_) => {
            return Err(AddError::UnexpectedEof);
        },
        Ok(a) => a,
    };
    let ghost axis_line = line_dialog("Axis (comma separated, e.g. ui, validation): "@, rest1).0->Some_0;
    let feature = Feature {
        id: fid.clone(),
        requirement_uids: vec![u],
        label,
        axis,
        description: None,
        forked_from: None,
        uid: None,
    };
    let text = serialize_feature(&feature);
    proof {
        assert(views(feature.requirement_uids@) =~= seq![feature.requirement_uids@[0]@]);
        assert(text@ =~= feature_text(
            fid@,
            feature.requirement_uids@[0]@,
            feature.label@,
            axis_items_from(axis_line, 0),
        ));
    }
    let path = feature_file_text(&fid);
    writes.push((path, text));
    proof {
        assert(writes_view(writes@) =~= seq![(path@, text@)]);
    }
    add_behavior(input, out, writes, tree, &fid)
}

/// Runs the `knowledge add` dialog over `input`, writing what it says to
/// `out`, against the knowledge tree `tree`. Answers the files to write,
/// in order, with their content, and how the dialog ended: the files are
/// owed also when it stopped early (the earlier stages were complete).
pub fn run_add(input: &mut LineInput, out: &mut String, tree: &KnowledgeTree) -> (r: (
    Vec<(String, String)>,
    Result<(), AddError>,
))
    ensures
        ({
            let f = add_flow(*tree, old(input).rest(), old(out)@);
            &&& final(input).rest() == f.rest
            &&& final(out)@ == f.out
            &&& writes_view(r.0@) == f.writes
            &&& reports_stop(r.1, f.stop)
        }),
{
    let mut writes: Vec<(String, String)> = Vec::new();
    assert(writes_view(writes@) =~= seq![]);
    let cands = requirement_candidates(tree);
    let (rid, label) = match prompt_id_or_label(
        input,
        out,
        "Requirement name (e.g. task-management): ",
        &cands,
    ) {
        Err(_) => {
            return (writes, Err(AddError::UnexpectedEof));
        },
        Ok(p) => p,
    };
    match lookup_requirement(tree, &rid) {
        Some(ruid) => {
            let notice = reuse_notice_text("Requirement", &rid);
            out.append(notice.as_str());
            let r = add_feature(input, out, &mut writes, tree, &rid, ruid);
            (writes, r)
        },
        None => {
            let ghost rest1 = input.rest();
            let axis = match prompt_axis(
                input,
                out,
                "Requirement axis (comma separated, e.g. ui, validation): ",
            ) {
                Err(_) => {
                    return (writes, Err(AddError::UnexpectedEof));
                },
                Ok(a) => a,
            };
            let ghost axis_line = line_dialog(
                "Requirement axis (comma separated, e.g. ui, validation): "@,
                rest1,
            ).0->Some_0;
            let requirement = Requirement {
                id: rid.clone(),
                label,
                axis,
                description: None,
                source: None,
                related_issues: Vec::new(),
                uid: None,
            };
            let text = serialize_requirement(&requirement);
            proof {
                assert(text@ =~= requirement_text(
                    rid@,
                    requirement.label@,
                    axis_items_from(axis_line, 0),
                ));
            }
            let path = requirement_file_text(&rid);
            writes.push((path, text));
            proof {
                assert(writes_view(writes@) =~= seq![(path@, text@)]);
            }
            let notice = requirement_created_text(&rid);
            out.append(notice.as_str());
            (writes, Ok(()))
        },
    }
}

} // verus!
