//! Applying a validated draft chain: which Knowledge files a draft creates,
//! and what they hold. Elements that already exist are left untouched; the
//! files are written (all or nothing) around this module.
use vstd::prelude::*;

use crate::knowledge::{
    block, flow_array, serialize_behavior, serialize_feature, serialize_requirement,
    serialize_scenario, Behavior, Feature, ProcedureMap, Requirement,
    Scenario,
};
use crate::knowledge_draft::{
    axis_errors, description_errors, draft_errors, effective_condition_id, errors_view,
    opt_views, resolve_effective_condition_id, validate_draft, DraftContext, ExistingElement,
    KnowledgeDraft, ValidateOptions, ValidationError,
};
use crate::knowledge_edit::axis_values;
use crate::lines::spec_indent_block_scalar;
use crate::text::{clone_opt, copy_strings, opt_view, usize_to_decimal, decimal, views};

verus! {

pub struct ApplyOptions {
    pub strip_redundant_prefix: bool,
}

pub struct ApplyResult {
    /// Paths relative to the project root, in the order they were written.
    pub written_paths: Vec<String>,
}

#[derive(Debug)]
pub enum ApplyError {
    Validation(Vec<ValidationError>),
    Io(std::io::Error),
}


impl ApplyError {
    /// The error as one line of text (what `Display` renders).
    pub fn to_string(&self) -> (r: String)
        ensures
            match self {
                ApplyError::Validation(errors) => r@ == decimal(errors@.len()) + " validation error(s)"@,
                ApplyError::Io(_) => r@.len() >= 10 && r@.subrange(0, 10) == "io error: "@,
            },
    {
        match self {
            ApplyError::Validation(errors) => {
                let mut s = usize_to_decimal(errors.len());
                s.append(" validation error(s)");
                s
            },
            ApplyError::Io(e) => {
                let mut s = String::from_str("io error: ");
                proof {
                    reveal_strlit("io error: ");
                }
                let ghost head = s@;
                let text = crate::io_error::io_error_text(e);
                s.append(text.as_str());
                assert(s@.subrange(0, 10) =~= head);
                s
            },
        }
    }
}

pub open spec fn label_or(label: Option<String>, id: Seq<char>) -> Seq<char> {
    match label {
        Some(l) => l@,
        None => id,
    }
}

pub open spec fn text_or_empty(t: Option<String>) -> Seq<char> {
    match t {
        Some(x) => x@,
        None => seq![],
    }
}

/// The requirement a draft creates.
pub open spec fn new_requirement_yaml(d: KnowledgeDraft) -> Seq<char> {
    "id: "@ + d.requirement.id@ + "\nlabel: "@ + label_or(d.requirement.label, d.requirement.id@)
        + "\naxis: "@ + flow_array(axis_values(d.requirement.axis)) + "\n"@ + block(
        "description: |\n"@,
        d.requirement.description,
    )
}

/// The feature a draft creates, related to the requirement with uid
/// `requirement_uid`.
pub open spec fn new_feature_yaml(d: KnowledgeDraft, requirement_uid: Seq<char>) -> Seq<char> {
    "id: "@ + d.feature.id@ + "\nrequirement_uids: "@ + flow_array(seq![requirement_uid])
        + "\nlabel: "@ + label_or(d.feature.label, d.feature.id@) + "\naxis: "@ + flow_array(
        axis_values(d.feature.axis),
    ) + "\n"@ + block("description: |\n"@, d.feature.description) + match d.feature.forked_from {
        Some(x) => "forked_from: "@ + x@ + "\n"@,
        None => Seq::empty(),
    }
}

/// The behavior a draft creates (with no procedures).
pub open spec fn new_behavior_yaml(d: KnowledgeDraft) -> Seq<char> {
    "id: "@ + d.behavior.id@ + "\nfeature: "@ + d.feature.id@ + "\nlabel: "@ + label_or(
        d.behavior.label,
        d.behavior.id@,
    ) + "\naxis: "@ + flow_array(axis_values(d.behavior.axis)) + "\ndescription: |\n"@
        + spec_indent_block_scalar(text_or_empty(d.behavior.description), "  "@)
        + "procedures: {}\n"@
}

/// The scenario a draft's condition creates, under its effective id (with
/// no phases).
pub open spec fn new_scenario_yaml(d: KnowledgeDraft, id: Seq<char>) -> Seq<char> {
    "id: "@ + id + "\nbehavior: "@ + d.behavior.id@ + "\nlabel: "@ + label_or(d.condition.label, id)
        + "\ndescription: |\n"@ + spec_indent_block_scalar(text_or_empty(d.condition.description), "  "@)
        + "phases:\n"@
}

pub open spec fn requirement_path(d: KnowledgeDraft) -> Seq<char> {
    ".markharness/knowledge/requirements/"@ + d.requirement.id@ + "/requirement.yml"@
}

pub open spec fn feature_dir(d: KnowledgeDraft) -> Seq<char> {
    ".markharness/knowledge/features/"@ + d.feature.id@
}

pub open spec fn behavior_dir(d: KnowledgeDraft) -> Seq<char> {
    feature_dir(d) + "/"@ + d.behavior.id@
}

pub type WriteView = (Seq<char>, Seq<char>);

pub open spec fn writes_view(v: Seq<(String, String)>) -> Seq<WriteView> {
    v.map_values(|w: (String, String)| (w.0@, w.1@))
}

/// The files a valid draft creates, in order, with their content: each
/// element of the chain that does not exist yet.
pub open spec fn draft_writes(
    d: KnowledgeDraft,
    o: ApplyOptions,
    ctx: DraftContext,
    requirement_uid: Seq<char>,
) -> Seq<WriteView> {
    let scenario_id = effective_condition_id(
        ctx.legacy_condition_exists,
        d.behavior.id@,
        d.condition.id@,
        o.strip_redundant_prefix,
    );
    (if ctx.requirement_exists {
        seq![]
    } else {
        seq![(requirement_path(d), new_requirement_yaml(d))]
    }) + (if ctx.feature_exists {
        seq![]
    } else {
        seq![(feature_dir(d) + "/feature.yml"@, new_feature_yaml(d, requirement_uid))]
    }) + (if ctx.behavior_exists {
        seq![]
    } else {
        seq![(behavior_dir(d) + "/behavior.yml"@, new_behavior_yaml(d))]
    }) + (if ctx.condition_exists {
        seq![]
    } else {
        seq![
            (
                behavior_dir(d) + "/"@ + scenario_id + "/scenario.yml"@,
                new_scenario_yaml(d, scenario_id),
            ),
        ]
    })
}

/// Reapplying a draft whose whole chain already exists writes nothing; each
/// element that is missing gets exactly one file, in chain order.
pub proof fn lemma_draft_writes_only_missing_elements(
    d: KnowledgeDraft,
    o: ApplyOptions,
    ctx: DraftContext,
    requirement_uid: Seq<char>,
)
    ensures
        draft_writes(d, o, ctx, requirement_uid).len() == (if ctx.requirement_exists {
            0int
        } else {
            1int
        }) + (if ctx.feature_exists {
            0int
        } else {
            1int
        }) + (if ctx.behavior_exists {
            0int
        } else {
            1int
        }) + (if ctx.condition_exists {
            0int
        } else {
            1int
        }),
        ctx.requirement_exists && ctx.feature_exists && ctx.behavior_exists && ctx.condition_exists
            ==> draft_writes(d, o, ctx, requirement_uid).len() == 0,
{
}

/// `e` holds what a draft gives for an element: each label, axis list and
/// description the draft states.
pub open spec fn holds_given(
    e: ExistingElement,
    label: Option<String>,
    axis: Option<Vec<String>>,
    description: Option<String>,
) -> bool {
    &&& (label matches Some(l) ==> e.label@ == l@)
    &&& (axis matches Some(a) ==> views(e.axis@) == views(a@))
    &&& (description matches Some(x) ==> e.description@ == x@)
}

/// `after` is what validation reads once `d` has been applied over
/// `before`: the same registry and legacy and `forked_from` facts, the
/// whole chain present, elements that existed unchanged, and each element
/// the draft created holding the values the draft gave it, under the
/// parent the chain names.
pub open spec fn applied_over(d: KnowledgeDraft, before: DraftContext, after: DraftContext) -> bool {
    &&& after.requirement_exists && after.feature_exists && after.behavior_exists
        && after.condition_exists
    &&& views(after.axis_registry@) == views(before.axis_registry@)
    &&& after.legacy_condition_exists == before.legacy_condition_exists
    &&& after.forked_from_exists == before.forked_from_exists
    &&& if before.requirement_exists {
        after.existing_requirement == before.existing_requirement
    } else {
        after.existing_requirement matches Some(e) && holds_given(
            e,
            d.requirement.label,
            d.requirement.axis,
            d.requirement.description,
        )
    }
    &&& if before.feature_exists {
        after.existing_feature == before.existing_feature
    } else {
        after.existing_feature matches Some(e) && e.parent@ == d.requirement.id@ && holds_given(
            e,
            d.feature.label,
            d.feature.axis,
            d.feature.description,
        )
    }
    &&& if before.behavior_exists {
        after.existing_behavior == before.existing_behavior
    } else {
        after.existing_behavior matches Some(e) && e.parent@ == d.feature.id@ && holds_given(
            e,
            d.behavior.label,
            d.behavior.axis,
            d.behavior.description,
        )
    }
    &&& if before.condition_exists {
        after.existing_condition == before.existing_condition
    } else {
        after.existing_condition matches Some(e) && e.parent@ == d.behavior.id@ && holds_given(
            e,
            d.condition.label,
            None,
            d.condition.description,
        )
    }
}

/// Reapplying a draft is idempotent: once a valid draft has been applied,
/// validating it again against what it created finds no error, and it
/// plans no file.
pub proof fn lemma_reapplying_a_draft_changes_nothing(
    d: KnowledgeDraft,
    o: ApplyOptions,
    before: DraftContext,
    after: DraftContext,
    requirement_uid: Seq<char>,
)
    requires
        draft_errors(
            d,
            ValidateOptions { strip_redundant_prefix: o.strip_redundant_prefix },
            before,
        ).len() == 0,
        applied_over(d, before, after),
    ensures
        draft_errors(
            d,
            ValidateOptions { strip_redundant_prefix: o.strip_redundant_prefix },
            after,
        ).len() == 0,
        draft_writes(d, o, after, requirement_uid).len() == 0,
{
    reveal(axis_errors);
    reveal(description_errors);
    lemma_draft_writes_only_missing_elements(d, o, after, requirement_uid);
    let reg = views(before.axis_registry@);
    assert(views(after.axis_registry@) == reg);
    if let Some(a) = d.requirement.axis {
        if !before.requirement_exists {
            let e = after.existing_requirement->0;
            assert(views(e.axis@).to_multiset() == views(a@).to_multiset());
        }
    }
    if let Some(a) = d.feature.axis {
        if !before.feature_exists {
            let e = after.existing_feature->0;
            assert(views(e.axis@).to_multiset() == views(a@).to_multiset());
        }
    }
    if let Some(a) = d.behavior.axis {
        if !before.behavior_exists {
            let e = after.existing_behavior->0;
            assert(views(e.axis@).to_multiset() == views(a@).to_multiset());
        }
    }
}

/// What applying `draft` writes: refused with every validation error when
/// validation fails; otherwise the new files (paths relative to the project
/// root) and their content. A new feature relates to the existing
/// requirement's uid, which must be known then.
pub fn plan_draft_writes(
    draft: &KnowledgeDraft,
    options: &ApplyOptions,
    ctx: &DraftContext,
    requirement_uid: &Option<String>,
) -> (r: Result<Vec<(String, String)>, ApplyError>)
    requires
        !ctx.feature_exists && draft_errors(
            *draft,
            ValidateOptions { strip_redundant_prefix: options.strip_redundant_prefix },
            *ctx,
        ).len() == 0 ==> requirement_uid is Some,
    ensures
        ({
            let errs = draft_errors(
                *draft,
                ValidateOptions { strip_redundant_prefix: options.strip_redundant_prefix },
                *ctx,
            );
            &&& errs.len() > 0 ==> (r matches Err(ApplyError::Validation(v)) && errors_view(v@)
                == errs)
            &&& errs.len() == 0 ==> (r matches Ok(w) && writes_view(w@) == draft_writes(
                *draft,
                *options,
                *ctx,
                match requirement_uid {
                    Some(u) => u@,
                    None => seq![],
                },
            ))
        }),
{
    let validate_options = ValidateOptions { strip_redundant_prefix: options.strip_redundant_prefix };
    let errors = validate_draft(draft, &validate_options, ctx);
    if errors.len() > 0 {
        return Err(ApplyError::Validation(errors));
    }
    let ghost ruid: Seq<char> = match requirement_uid {
        Some(u) => u@,
        None => seq![],
    };
    let mut writes: Vec<(String, String)> = Vec::new();
    let ghost w0 = writes_view(writes@);
    assert(w0 =~= seq![]);
    if !ctx.requirement_exists {
        let requirement = Requirement {
            id: draft.requirement.id.clone(),
            label: match &draft.requirement.label {
                Some(l) => l.clone(),
                None => draft.requirement.id.clone(),
            },
            axis: match &draft.requirement.axis {
                Some(a) => copy_strings(a),
                None => Vec::new(),
            },
            description: clone_opt(&draft.requirement.description),
            source: None,
            related_issues: Vec::new(),
            uid: None,
        };
        assert(views(requirement.axis@) == axis_values(draft.requirement.axis));
        let content = serialize_requirement(&requirement);
        let mut path = String::from_str(".markharness/knowledge/requirements/");
        path.append(draft.requirement.id.as_str());
        path.append("/requirement.yml");
        assert(content@ == new_requirement_yaml(*draft));
        writes.push((path, content));
    }
    let ghost w1 = writes_view(writes@);
    assert(w1 =~= w0 + (if ctx.requirement_exists {
        seq![]
    } else {
        seq![(requirement_path(*draft), new_requirement_yaml(*draft))]
    }));
    let mut feature_dir_path = String::from_str(".markharness/knowledge/features/");
    feature_dir_path.append(draft.feature.id.as_str());
    if !ctx.feature_exists {
        let uid = match requirement_uid {
            Some(u) => u.clone(),
            None => String::new(),
        };
        let mut requirement_uids: Vec<String> = Vec::new();
        requirement_uids.push(uid);
        assert(views(requirement_uids@) =~= seq![ruid]);
        let feature = Feature {
            id: draft.feature.id.clone(),
            requirement_uids,
            label: match &draft.feature.label {
                Some(l) => l.clone(),
                None => draft.feature.id.clone(),
            },
            axis: match &draft.feature.axis {
                Some(a) => copy_strings(a),
                None => Vec::new(),
            },
            description: clone_opt(&draft.feature.description),
            forked_from: clone_opt(&draft.feature.forked_from),
            uid: None,
        };
        assert(views(feature.axis@) == axis_values(draft.feature.axis));
        let content = serialize_feature(&feature);
        let mut path = feature_dir_path.clone();
        path.append("/feature.yml");
        assert(content@ == new_feature_yaml(*draft, ruid));
        writes.push((path, content));
    }
    let ghost w2 = writes_view(writes@);
    assert(w2 =~= w1 + (if ctx.feature_exists {
        seq![]
    } else {
        seq![(feature_dir(*draft) + "/feature.yml"@, new_feature_yaml(*draft, ruid))]
    }));
    let mut behavior_dir_path = feature_dir_path.clone();
    behavior_dir_path.append("/");
    behavior_dir_path.append(draft.behavior.id.as_str());
    if !ctx.behavior_exists {
        let procedures = ProcedureMap::new();
        let behavior = Behavior {
            id: draft.behavior.id.clone(),
            feature: draft.feature.id.clone(),
            label: match &draft.behavior.label {
                Some(l) => l.clone(),
                None => draft.behavior.id.clone(),
            },
            axis: match &draft.behavior.axis {
                Some(a) => copy_strings(a),
                None => Vec::new(),
            },
            description: match &draft.behavior.description {
                Some(d) => d.clone(),
                None => String::new(),
            },
            procedures,
            uid: None,
        };
        assert(views(behavior.axis@) == axis_values(draft.behavior.axis));
        assert(behavior.description@ == text_or_empty(draft.behavior.description));
        let content = serialize_behavior(&behavior);
        let mut path = behavior_dir_path.clone();
        path.append("/behavior.yml");
        assert(content@ == new_behavior_yaml(*draft));
        writes.push((path, content));
    }
    let ghost w3 = writes_view(writes@);
    assert(w3 =~= w2 + (if ctx.behavior_exists {
        seq![]
    } else {
        seq![(behavior_dir(*draft) + "/behavior.yml"@, new_behavior_yaml(*draft))]
    }));
    let scenario_id = resolve_effective_condition_id(
        ctx.legacy_condition_exists,
        draft.behavior.id.as_str(),
        draft.condition.id.as_str(),
        options.strip_redundant_prefix,
    );
    if !ctx.condition_exists {
        let scenario = Scenario {
            id: scenario_id.clone(),
            behavior: draft.behavior.id.clone(),
            label: match &draft.condition.label {
                Some(l) => l.clone(),
                None => scenario_id.clone(),
            },
            description: match &draft.condition.description {
                Some(d) => d.clone(),
                None => String::new(),
            },
            phases: Vec::new(),
            implementation_note: None,
            generated_by: None,
            verified_by: None,
            uid: None,
        };
        assert(scenario.description@ == text_or_empty(draft.condition.description));
        let content = serialize_scenario(&scenario);
        let mut path = behavior_dir_path.clone();
        path.append("/");
        path.append(scenario_id.as_str());
        path.append("/scenario.yml");
        assert(content@ == new_scenario_yaml(*draft, scenario_id@));
        writes.push((path, content));
    }
    assert(writes_view(writes@) =~= draft_writes(*draft, *options, *ctx, ruid));
    Ok(writes)
}

/// `plan_draft_writes` where it is defined: `None` exactly when a valid
/// draft adds a Feature under a Requirement whose uid is not known (where
/// applying cannot go on), otherwise what `plan_draft_writes` gives.
pub fn plan_draft_writes_checked(
    draft: &KnowledgeDraft,
    options: &ApplyOptions,
    ctx: &DraftContext,
    requirement_uid: &Option<String>,
) -> (r: Option<Result<Vec<(String, String)>, ApplyError>>)
    ensures
        ({
            let errs = draft_errors(
                *draft,
                ValidateOptions { strip_redundant_prefix: options.strip_redundant_prefix },
                *ctx,
            );
            &&& r is None <==> (!ctx.feature_exists && errs.len() == 0 && requirement_uid is None)
            &&& errs.len() > 0 ==> (r matches Some(Err(ApplyError::Validation(v))) && errors_view(
                v@,
            ) == errs)
            &&& (errs.len() == 0 && r is Some) ==> (r matches Some(Ok(w)) && writes_view(w@)
                == draft_writes(
                *draft,
                *options,
                *ctx,
                match requirement_uid {
                    Some(u) => u@,
                    None => seq![],
                },
            ))
        }),
{
    let validate_options = ValidateOptions { strip_redundant_prefix: options.strip_redundant_prefix };
    if !ctx.feature_exists && requirement_uid.is_none() && validate_draft(
        draft,
        &validate_options,
        ctx,
    ).len() == 0 {
        return None;
    }
    Some(plan_draft_writes(draft, options, ctx, requirement_uid))
}

/// Why one draft file of a batch could not be applied.
#[derive(Debug)]
pub enum DraftFileError {
    Parse(String),
    Validation(Vec<ValidationError>),
}

pub struct BatchApplyResult {
    pub written_paths: Vec<String>,
}

#[derive(Debug)]
pub enum BatchApplyError {
    /// `file` (its name within the batch directory) failed to parse or
    /// validate; nothing of the batch stays written.
    Draft { file: String, error: DraftFileError },
    Io(std::io::Error),
}

/// One draft file's validation outcome: no error when it validated.
pub struct DraftValidation {
    pub file: String,
    pub error: Option<DraftFileError>,
}

pub struct BatchValidateResult {
    pub results: Vec<DraftValidation>,
}

impl BatchValidateResult {
    /// Whether every draft of the batch validated.
    pub fn ok(&self) -> (r: bool)
        ensures
            r == forall|i: int| 0 <= i < self.results@.len() ==> (#[trigger] self.results@[i]).error is None,
    {
        let mut i: usize = 0;
        while i < self.results.len()
            invariant
                i <= self.results@.len(),
                forall|k: int| 0 <= k < i ==> (#[trigger] self.results@[k]).error is None,
            decreases self.results.len() - i,
        {
            if self.results[i].error.is_some() {
                return false;
            }
            i = i + 1;
        }
        true
    }
}

} // verus!
