//! Draft chains for `knowledge add --edit` / `knowledge validate`: the draft
//! shape, and the validation rules that every draft must pass before it is
//! written as Knowledge files.
//!
//! Validation reads nothing from disk itself: what it needs to know about the
//! project (which elements already exist, what they hold, which axes are
//! registered) arrives as a `DraftContext` of plain values.
use vstd::prelude::*;

use crate::knowledge::{
    is_valid_slug, join_comma, join_with_comma, spec_is_valid_slug, spec_strip_prefix,
    strip_redundant_scenario_prefix,
};
use crate::text::{
    clone_opt, decimal, is_blank, opt_view, same_multiset, str_eq, trim, trim_is_empty, trimmed,
    usize_to_decimal, views,
};

verus! {

pub struct RequirementDraft {
    pub id: String,
    pub label: Option<String>,
    pub axis: Option<Vec<String>>,
    pub description: Option<String>,
}

pub struct FeatureDraft {
    pub id: String,
    pub label: Option<String>,
    pub axis: Option<Vec<String>>,
    pub description: Option<String>,
    pub forked_from: Option<String>,
}

pub struct BehaviorDraft {
    pub id: String,
    pub label: Option<String>,
    pub axis: Option<Vec<String>>,
    pub description: Option<String>,
}

pub struct ConditionDraft {
    pub id: String,
    pub label: Option<String>,
    pub description: Option<String>,
}

pub struct ExpectedDraft {
    pub description: String,
}

/// One requirement -> feature -> behavior -> condition chain, with the
/// condition's expected results.
pub struct KnowledgeDraft {
    pub requirement: RequirementDraft,
    pub feature: FeatureDraft,
    pub behavior: BehaviorDraft,
    pub condition: ConditionDraft,
    pub expected: Vec<ExpectedDraft>,
}

#[derive(Debug, Clone, Copy, PartialEq, Eq, Structural)]
pub enum ValidationErrorCode {
    InvalidSlug,
    MissingAxis,
    MissingDescription,
    UnknownAxis,
    RedundantPrefix,
    ConflictingExistingValue,
    ParentNotFound,
    UnknownForkedFrom,
}

pub open spec fn code_name(c: ValidationErrorCode) -> Seq<char> {
    match c {
        ValidationErrorCode::InvalidSlug => "invalid_slug"@,
        ValidationErrorCode::MissingAxis => "missing_axis"@,
        ValidationErrorCode::MissingDescription => "missing_description"@,
        ValidationErrorCode::UnknownAxis => "unknown_axis"@,
        ValidationErrorCode::RedundantPrefix => "redundant_prefix"@,
        ValidationErrorCode::ConflictingExistingValue => "conflicting_existing_value"@,
        ValidationErrorCode::ParentNotFound => "parent_not_found"@,
        ValidationErrorCode::UnknownForkedFrom => "unknown_forked_from"@,
    }
}

impl ValidationErrorCode {
    /// The machine-readable name of the code.
    pub fn as_str(&self) -> (r: &'static str)
        ensures
            r@ == code_name(*self),
    {
        match self {
            ValidationErrorCode::InvalidSlug => "invalid_slug",
            ValidationErrorCode::MissingAxis => "missing_axis",
            ValidationErrorCode::MissingDescription => "missing_description",
            ValidationErrorCode::UnknownAxis => "unknown_axis",
            ValidationErrorCode::RedundantPrefix => "redundant_prefix",
            ValidationErrorCode::ConflictingExistingValue => "conflicting_existing_value",
            ValidationErrorCode::ParentNotFound => "parent_not_found",
            ValidationErrorCode::UnknownForkedFrom => "unknown_forked_from",
        }
    }
}

#[derive(Debug, Clone, PartialEq, Eq)]
pub struct ValidationError {
    pub code: ValidationErrorCode,
    pub path: String,
    pub value: Option<String>,
    pub message: String,
    pub suggestion: Option<String>,
}

pub struct ValidateOptions {
    pub strip_redundant_prefix: bool,
}

/// An element that already exists on disk, as far as validation reads it.
/// `parent` is the id of the element it hangs under (unused for a
/// requirement); `description` is `""` where the file has none.
pub struct ExistingElement {
    pub parent: String,
    pub label: String,
    pub axis: Vec<String>,
    pub description: String,
}

/// What validation needs to know about the project a draft targets.
///
/// `*_exists` say whether the element's file is present; `existing_*` hold
/// its parsed content, where it could be read and parsed. The condition
/// flags refer to two places: `legacy_condition_exists` to the directory
/// named by the draft's own condition id, `condition_exists` to the
/// directory named by the effective id (`resolve_effective_condition_id`).
pub struct DraftContext {
    pub axis_registry: Vec<String>,
    pub requirement_exists: bool,
    pub feature_exists: bool,
    pub behavior_exists: bool,
    pub legacy_condition_exists: bool,
    pub condition_exists: bool,
    /// Whether a feature named by `feature.forked_from` exists anywhere in
    /// the tree (only consulted when the draft names one).
    pub forked_from_exists: bool,
    pub existing_requirement: Option<ExistingElement>,
    pub existing_feature: Option<ExistingElement>,
    pub existing_behavior: Option<ExistingElement>,
    pub existing_condition: Option<ExistingElement>,
}

// ---------------------------------------------------------------------------
// Effective condition directory.
// ---------------------------------------------------------------------------

/// The directory a condition is read from / written to: a legacy directory
/// named by the raw id wins; otherwise the id with a redundant
/// `"<behavior_id>-"` prefix stripped, when stripping is asked for.
pub open spec fn effective_condition_id(
    legacy_condition_exists: bool,
    behavior_id: Seq<char>,
    raw_condition_id: Seq<char>,
    strip_redundant_prefix: bool,
) -> Seq<char> {
    if legacy_condition_exists {
        raw_condition_id
    } else if strip_redundant_prefix && spec_strip_prefix(behavior_id, raw_condition_id) is Some {
        spec_strip_prefix(behavior_id, raw_condition_id)->0
    } else {
        raw_condition_id
    }
}

pub fn resolve_effective_condition_id(
    legacy_condition_exists: bool,
    behavior_id: &str,
    raw_condition_id: &str,
    strip_redundant_prefix: bool,
) -> (r: String)
    ensures
        r@ == effective_condition_id(
            legacy_condition_exists,
            behavior_id@,
            raw_condition_id@,
            strip_redundant_prefix,
        ),
{
    if legacy_condition_exists {
        return String::from_str(raw_condition_id);
    }
    if strip_redundant_prefix {
        if let Some(stripped) = strip_redundant_scenario_prefix(behavior_id, raw_condition_id) {
            return stripped;
        }
    }
    String::from_str(raw_condition_id)
}

// ---------------------------------------------------------------------------
// Edit distance and axis suggestions.
// ---------------------------------------------------------------------------

pub open spec fn min3(x: nat, y: nat, z: nat) -> nat {
    if x <= y && x <= z {
        x
    } else if y <= z {
        y
    } else {
        z
    }
}

/// The Levenshtein distance between the first `i` characters of `a` and the
/// first `j` characters of `b`.
pub open spec fn lev(a: Seq<char>, b: Seq<char>, i: nat, j: nat) -> nat
    decreases i + j,
{
    if i == 0 {
        j
    } else if j == 0 {
        i
    } else if a[i - 1] == b[j - 1] {
        lev(a, b, (i - 1) as nat, (j - 1) as nat)
    } else {
        1 + min3(
            lev(a, b, (i - 1) as nat, (j - 1) as nat),
            lev(a, b, (i - 1) as nat, j),
            lev(a, b, i, (j - 1) as nat),
        )
    }
}

/// The Levenshtein distance between `a` and `b` (over Unicode scalar values).
pub open spec fn distance(a: Seq<char>, b: Seq<char>) -> nat {
    lev(a, b, a.len(), b.len())
}

proof fn lemma_lev_bound(a: Seq<char>, b: Seq<char>, i: nat, j: nat)
    ensures
        lev(a, b, i, j) <= if i <= j { j } else { i },
    decreases i + j,
{
    if i > 0 && j > 0 {
        lemma_lev_bound(a, b, (i - 1) as nat, (j - 1) as nat);
    }
}

fn levenshtein(a: &str, b: &str) -> (r: usize)
    ensures
        r == distance(a@, b@),
{
    let n = a.unicode_len();
    let m = b.unicode_len();
    let mut row: Vec<usize> = Vec::new();
    row.push(0);
    let mut k: usize = 0;
    while k < m
        invariant
            m == b@.len(),
            k <= m,
            row@.len() == k + 1,
            forall|t: int| 0 <= t <= k ==> row@[t] == lev(a@, b@, 0, t as nat),
        decreases m - k,
    {
        k = k + 1;
        row.push(k);
    }
    let rl = row.len();
    let mut i: usize = 0;
    while i < n
        invariant
            n == a@.len(),
            m == b@.len(),
            i <= n,
            row@.len() == m + 1,
            rl == m + 1,
            forall|t: int| 0 <= t <= m ==> row@[t] == lev(a@, b@, i as nat, t as nat),
        decreases n - i,
    {
        let mut prev = row[0];
        row.set(0, i + 1);
        let ai = a.get_char(i);
        let mut j: usize = 1;
        while j <= m
            invariant
                n == a@.len(),
                m == b@.len(),
                i < n,
                ai == a@[i as int],
                1 <= j <= m + 1,
                row@.len() == m + 1,
                rl == m + 1,
                prev == lev(a@, b@, i as nat, (j - 1) as nat),
                forall|t: int| 0 <= t < j ==> row@[t] == lev(a@, b@, (i + 1) as nat, t as nat),
                forall|t: int| j <= t <= m ==> row@[t] == lev(a@, b@, i as nat, t as nat),
            decreases m + 1 - j,
        {
            let cur = row[j];
            let bj = b.get_char(j - 1);
            proof {
                lemma_lev_bound(a@, b@, i as nat, (j - 1) as nat);
            }
            let v = if ai == bj {
                prev
            } else {
                let left = row[j - 1];
                let mut best = prev;
                if cur < best {
                    best = cur;
                }
                if left < best {
                    best = left;
                }
                1 + best
            };
            row.set(j, v);
            prev = cur;
            j = j + 1;
        }
        i = i + 1;
    }
    row[m]
}

/// The first registry entry (in registry order) at the smallest distance from
/// `value` among those within distance 2, looking at the first `n` entries.
pub open spec fn nearest_from(value: Seq<char>, reg: Seq<Seq<char>>, n: nat) -> Option<Seq<char>>
    decreases n,
{
    if n == 0 {
        None
    } else {
        let prev = nearest_from(value, reg, (n - 1) as nat);
        let c = reg[n - 1];
        let d = distance(value, c);
        if d > 2 {
            prev
        } else {
            match prev {
                None => Some(c),
                Some(p) => if d < distance(value, p) {
                    Some(c)
                } else {
                    prev
                },
            }
        }
    }
}

pub open spec fn nearest(value: Seq<char>, reg: Seq<Seq<char>>) -> Option<Seq<char>> {
    nearest_from(value, reg, reg.len())
}

proof fn lemma_nearest_from(value: Seq<char>, reg: Seq<Seq<char>>, n: nat)
    requires
        n <= reg.len(),
    ensures
        nearest_from(value, reg, n) is None <==> (forall|k: int|
            0 <= k < n ==> distance(value, #[trigger] reg[k]) > 2),
        nearest_from(value, reg, n) matches Some(c) ==> {
            &&& exists|k: int| 0 <= k < n && reg[k] == c
            &&& distance(value, c) <= 2
            &&& forall|k: int| 0 <= k < n ==> distance(value, c) <= distance(value, #[trigger] reg[k])
        },
    decreases n,
{
    if n > 0 {
        lemma_nearest_from(value, reg, (n - 1) as nat);
        let prev = nearest_from(value, reg, (n - 1) as nat);
        if let Some(p) = prev {
            let k0 = choose|k: int| 0 <= k < n - 1 && reg[k] == p;
            assert(0 <= k0 < n && reg[k0] == p);
        }
        let c = reg[n - 1];
        if let Some(r) = nearest_from(value, reg, n) {
            if r == c {
                assert(0 <= n - 1 < n && reg[n - 1] == c);
            }
        }
    }
}

/// What `nearest` suggests is a registry entry within distance 2 of the
/// value, and no registry entry is closer; there is no suggestion exactly
/// when every entry is farther than 2.
pub proof fn lemma_nearest_is_closest(value: Seq<char>, reg: Seq<Seq<char>>)
    ensures
        nearest(value, reg) is None <==> (forall|k: int|
            0 <= k < reg.len() ==> distance(value, #[trigger] reg[k]) > 2),
        nearest(value, reg) matches Some(c) ==> {
            &&& reg.contains(c)
            &&& distance(value, c) <= 2
            &&& forall|k: int|
                0 <= k < reg.len() ==> distance(value, c) <= distance(value, #[trigger] reg[k])
        },
{
    lemma_nearest_from(value, reg, reg.len());
}

/// The closest registered axis to `value` within edit distance 2, if any.
pub fn nearest_axis_suggestion(value: &str, axis_registry: &Vec<String>) -> (r: Option<String>)
    ensures
        opt_view(r) == nearest(value@, views(axis_registry@)),
{
    let ghost reg = views(axis_registry@);
    let mut best: Option<String> = None;
    let mut best_distance: usize = 0;
    let mut i: usize = 0;
    while i < axis_registry.len()
        invariant
            i <= axis_registry@.len(),
            reg == views(axis_registry@),
            opt_view(best) == nearest_from(value@, reg, i as nat),
            best matches Some(b) ==> best_distance == distance(value@, b@),
        decreases axis_registry.len() - i,
    {
        let candidate = &axis_registry[i];
        let d = levenshtein(value, candidate.as_str());
        if d <= 2 {
            let take = match &best {
                None => true,
                Some(_) => d < best_distance,
            };
            if take {
                best = Some(candidate.clone());
                best_distance = d;
            }
        }
        i = i + 1;
    }
    best
}

// ---------------------------------------------------------------------------
// Validation.
// ---------------------------------------------------------------------------

/// A validation error as plain values: code, path, value, message,
/// suggestion.
pub type ErrorView = (ValidationErrorCode, Seq<char>, Option<Seq<char>>, Seq<char>, Option<Seq<char>>);

pub open spec fn error_view(e: ValidationError) -> ErrorView {
    (e.code, e.path@, opt_view(e.value), e.message@, opt_view(e.suggestion))
}

pub open spec fn errors_view(v: Seq<ValidationError>) -> Seq<ErrorView> {
    v.map_values(|e: ValidationError| error_view(e))
}

pub open spec fn opt_views(o: Option<Vec<String>>) -> Option<Seq<Seq<char>>> {
    match o {
        Some(v) => Some(views(v@)),
        None => None,
    }
}

pub open spec fn slug_errors(path: Seq<char>, value: Seq<char>) -> Seq<ErrorView> {
    if spec_is_valid_slug(value) {
        seq![]
    } else {
        seq![
            (
                ValidationErrorCode::InvalidSlug,
                path,
                Some(value),
                "\""@ + value + "\" is not a valid slug (lowercase alphanumeric and hyphen only)"@,
                None,
            ),
        ]
    }
}

pub open spec fn missing_axis_error(prefix: Seq<char>) -> ErrorView {
    (
        ValidationErrorCode::MissingAxis,
        prefix + ".axis"@,
        None,
        prefix + ".axis is required when creating a new entry"@,
        None,
    )
}

pub open spec fn unknown_axis_error(
    prefix: Seq<char>,
    i: nat,
    value: Seq<char>,
    reg: Seq<Seq<char>>,
) -> ErrorView {
    (
        ValidationErrorCode::UnknownAxis,
        prefix + ".axis["@ + decimal(i) + "]"@,
        Some(value),
        "axis \""@ + value + "\" is not registered"@,
        nearest(value, reg),
    )
}

/// One `unknown_axis` error per value (among the first `n`) that is not
/// registered, in order.
pub open spec fn unknown_axis_errors(
    prefix: Seq<char>,
    values: Seq<Seq<char>>,
    reg: Seq<Seq<char>>,
    n: nat,
) -> Seq<ErrorView>
    decreases n,
{
    if n == 0 {
        seq![]
    } else {
        let prev = unknown_axis_errors(prefix, values, reg, (n - 1) as nat);
        if reg.contains(values[n - 1]) {
            prev
        } else {
            prev.push(unknown_axis_error(prefix, (n - 1) as nat, values[n - 1], reg))
        }
    }
}

/// A new element must name at least one axis; every named axis must be
/// registered.
#[verifier::opaque]
pub open spec fn axis_errors(
    prefix: Seq<char>,
    axis: Option<Seq<Seq<char>>>,
    exists: bool,
    reg: Seq<Seq<char>>,
) -> Seq<ErrorView> {
    match axis {
        None => if exists {
            seq![]
        } else {
            seq![missing_axis_error(prefix)]
        },
        Some(values) => (if !exists && values.len() == 0 {
            seq![missing_axis_error(prefix)]
        } else {
            seq![]
        }) + unknown_axis_errors(prefix, values, reg, values.len()),
    }
}

pub open spec fn missing_description_error(path: Seq<char>) -> ErrorView {
    (ValidationErrorCode::MissingDescription, path, None, path + " must not be empty"@, None)
}

/// A new element needs a description that is not blank.
#[verifier::opaque]
pub open spec fn description_errors(
    path: Seq<char>,
    description: Option<Seq<char>>,
    exists: bool,
) -> Seq<ErrorView> {
    if exists {
        seq![]
    } else if description is None || is_blank(description->0) {
        seq![missing_description_error(path)]
    } else {
        seq![]
    }
}

pub open spec fn expected_path(i: nat) -> Seq<char> {
    "expected["@ + decimal(i) + "].description"@
}

/// One `missing_description` error per blank expected result (among the
/// first `n`), in order.
#[verifier::opaque]
pub open spec fn expected_errors(descriptions: Seq<Seq<char>>, n: nat) -> Seq<ErrorView>
    decreases n,
{
    if n == 0 {
        seq![]
    } else {
        let prev = expected_errors(descriptions, (n - 1) as nat);
        if is_blank(descriptions[n - 1]) {
            prev.push(missing_description_error(expected_path((n - 1) as nat)))
        } else {
            prev
        }
    }
}

pub open spec fn expected_descriptions(v: Seq<ExpectedDraft>) -> Seq<Seq<char>> {
    v.map_values(|e: ExpectedDraft| e.description@)
}

/// A provided value must equal the existing one, up to surrounding
/// whitespace.
pub open spec fn conflict_value_errors(
    path: Seq<char>,
    provided: Seq<char>,
    existing: Seq<char>,
) -> Seq<ErrorView> {
    if trimmed(provided) == trimmed(existing) {
        seq![]
    } else {
        seq![
            (
                ValidationErrorCode::ConflictingExistingValue,
                path,
                Some(provided),
                path + " \""@ + provided + "\" conflicts with existing value \""@ + trimmed(existing)
                    + "\""@,
                Some(trimmed(existing)),
            ),
        ]
    }
}

pub open spec fn opt_conflict_value_errors(
    path: Seq<char>,
    provided: Option<Seq<char>>,
    existing: Seq<char>,
) -> Seq<ErrorView> {
    match provided {
        Some(p) => conflict_value_errors(path, p, existing),
        None => seq![],
    }
}

/// A provided axis list must hold the same values as the existing one, in
/// any order.
pub open spec fn conflict_axis_errors(
    path: Seq<char>,
    provided: Seq<Seq<char>>,
    existing: Seq<Seq<char>>,
) -> Seq<ErrorView> {
    if provided.to_multiset() == existing.to_multiset() {
        seq![]
    } else {
        seq![
            (
                ValidationErrorCode::ConflictingExistingValue,
                path,
                Some(join_comma(provided)),
                path + " ["@ + join_comma(provided) + "] conflicts with existing value ["@
                    + join_comma(existing) + "]"@,
                Some(join_comma(existing)),
            ),
        ]
    }
}

pub open spec fn opt_conflict_axis_errors(
    path: Seq<char>,
    provided: Option<Seq<Seq<char>>>,
    existing: Seq<Seq<char>>,
) -> Seq<ErrorView> {
    match provided {
        Some(p) => conflict_axis_errors(path, p, existing),
        None => seq![],
    }
}

/// An existing element must hang under the parent the draft chain names.
pub open spec fn parent_errors(path: Seq<char>, expected: Seq<char>, actual: Seq<char>) -> Seq<
    ErrorView,
> {
    if expected == actual {
        seq![]
    } else {
        seq![
            (
                ValidationErrorCode::ParentNotFound,
                path,
                Some(actual),
                path + " refers to \""@ + actual + "\" but the draft chain expects \""@ + expected
                    + "\""@,
                Some(expected),
            ),
        ]
    }
}

/// A condition id repeating its behavior's id as a prefix is reported,
/// unless a legacy directory already uses it or stripping was asked for.
pub open spec fn prefix_errors(d: KnowledgeDraft, o: ValidateOptions, ctx: DraftContext) -> Seq<
    ErrorView,
> {
    let b = d.behavior.id@;
    let c = d.condition.id@;
    if !ctx.legacy_condition_exists && spec_strip_prefix(b, c) is Some
        && !o.strip_redundant_prefix {
        seq![
            (
                ValidationErrorCode::RedundantPrefix,
                "condition.id"@,
                Some(c),
                "condition.id \""@ + c + "\" starts with behavior.id \""@ + b + "-\" prefix"@,
                spec_strip_prefix(b, c),
            ),
        ]
    } else {
        seq![]
    }
}

pub open spec fn forked_errors(d: KnowledgeDraft, ctx: DraftContext) -> Seq<ErrorView> {
    match d.feature.forked_from {
        Some(f) => if ctx.forked_from_exists {
            seq![]
        } else {
            seq![
                (
                    ValidationErrorCode::UnknownForkedFrom,
                    "feature.forked_from"@,
                    Some(f@),
                    "forked_from feature \""@ + f@ + "\" does not exist"@,
                    None,
                ),
            ]
        },
        None => seq![],
    }
}

pub open spec fn requirement_conflicts(d: KnowledgeDraft, ctx: DraftContext) -> Seq<ErrorView> {
    match ctx.existing_requirement {
        Some(e) => if ctx.requirement_exists {
            opt_conflict_value_errors("requirement.label"@, opt_view(d.requirement.label), e.label@)
                + opt_conflict_axis_errors(
                "requirement.axis"@,
                opt_views(d.requirement.axis),
                views(e.axis@),
            ) + opt_conflict_value_errors(
                "requirement.description"@,
                opt_view(d.requirement.description),
                e.description@,
            )
        } else {
            seq![]
        },
        None => seq![],
    }
}

pub open spec fn feature_conflicts(d: KnowledgeDraft, ctx: DraftContext) -> Seq<ErrorView> {
    match ctx.existing_feature {
        Some(e) => if ctx.feature_exists {
            parent_errors("feature.requirement"@, d.requirement.id@, e.parent@)
                + opt_conflict_value_errors("feature.label"@, opt_view(d.feature.label), e.label@)
                + opt_conflict_axis_errors(
                "feature.axis"@,
                opt_views(d.feature.axis),
                views(e.axis@),
            ) + opt_conflict_value_errors(
                "feature.description"@,
                opt_view(d.feature.description),
                e.description@,
            )
        } else {
            seq![]
        },
        None => seq![],
    }
}

pub open spec fn behavior_conflicts(d: KnowledgeDraft, ctx: DraftContext) -> Seq<ErrorView> {
    match ctx.existing_behavior {
        Some(e) => if ctx.behavior_exists {
            parent_errors("behavior.feature"@, d.feature.id@, e.parent@)
                + opt_conflict_value_errors("behavior.label"@, opt_view(d.behavior.label), e.label@)
                + opt_conflict_axis_errors(
                "behavior.axis"@,
                opt_views(d.behavior.axis),
                views(e.axis@),
            ) + opt_conflict_value_errors(
                "behavior.description"@,
                opt_view(d.behavior.description),
                e.description@,
            )
        } else {
            seq![]
        },
        None => seq![],
    }
}

pub open spec fn condition_conflicts(d: KnowledgeDraft, ctx: DraftContext) -> Seq<ErrorView> {
    match ctx.existing_condition {
        Some(e) => if ctx.condition_exists {
            parent_errors("condition.behavior"@, d.behavior.id@, e.parent@)
                + opt_conflict_value_errors(
                "condition.label"@,
                opt_view(d.condition.label),
                e.label@,
            ) + opt_conflict_value_errors(
                "condition.description"@,
                opt_view(d.condition.description),
                e.description@,
            )
        } else {
            seq![]
        },
        None => seq![],
    }
}

/// The id, prefix and `forked_from` checks.
pub open spec fn header_errors(d: KnowledgeDraft, o: ValidateOptions, ctx: DraftContext) -> Seq<
    ErrorView,
> {
    slug_errors("requirement.id"@, d.requirement.id@) + slug_errors("feature.id"@, d.feature.id@)
        + slug_errors("behavior.id"@, d.behavior.id@) + slug_errors(
        "condition.id"@,
        d.condition.id@,
    ) + prefix_errors(d, o, ctx) + forked_errors(d, ctx)
}

/// The checks on what a new element must carry: axes, descriptions,
/// expected results.
pub open spec fn presence_errors(d: KnowledgeDraft, ctx: DraftContext) -> Seq<ErrorView> {
    let reg = views(ctx.axis_registry@);
    axis_errors("requirement"@, opt_views(d.requirement.axis), ctx.requirement_exists, reg)
        + axis_errors("feature"@, opt_views(d.feature.axis), ctx.feature_exists, reg)
        + axis_errors("behavior"@, opt_views(d.behavior.axis), ctx.behavior_exists, reg)
        + description_errors(
        "behavior.description"@,
        opt_view(d.behavior.description),
        ctx.behavior_exists,
    ) + description_errors(
        "condition.description"@,
        opt_view(d.condition.description),
        ctx.condition_exists,
    ) + expected_errors(expected_descriptions(d.expected@), d.expected@.len())
}

/// Every error a draft has, in the order validation reports them.
pub open spec fn draft_errors(d: KnowledgeDraft, o: ValidateOptions, ctx: DraftContext) -> Seq<
    ErrorView,
> {
    header_errors(d, o, ctx) + presence_errors(d, ctx) + requirement_conflicts(d, ctx)
        + feature_conflicts(d, ctx) + behavior_conflicts(d, ctx) + condition_conflicts(d, ctx)
}

fn push_error(
    errors: &mut Vec<ValidationError>,
    code: ValidationErrorCode,
    path: String,
    value: Option<String>,
    message: String,
    suggestion: Option<String>,
)
    ensures
        errors_view(final(errors)@) == errors_view(old(errors)@).push(
            (code, path@, opt_view(value), message@, opt_view(suggestion)),
        ),
{
    let ghost before = errors@;
    let e = ValidationError { code, path, value, message, suggestion };
    errors.push(e);
    assert(errors_view(errors@) =~= errors_view(before).push(error_view(e)));
}

fn push_invalid_slug(errors: &mut Vec<ValidationError>, path: &str, value: &str)
    ensures
        errors_view(final(errors)@) == errors_view(old(errors)@) + slug_errors(path@, value@),
{
    if !is_valid_slug(value) {
        let mut message = String::from_str("\"");
        message.append(value);
        message.append("\" is not a valid slug (lowercase alphanumeric and hyphen only)");
        push_error(
            errors,
            ValidationErrorCode::InvalidSlug,
            String::from_str(path),
            Some(String::from_str(value)),
            message,
            None,
        );
    } else {
        assert(errors_view(errors@) + seq![] =~= errors_view(errors@));
    }
}

fn push_missing_axis(errors: &mut Vec<ValidationError>, prefix: &str)
    ensures
        errors_view(final(errors)@) == errors_view(old(errors)@).push(missing_axis_error(prefix@)),
{
    let mut path = String::from_str(prefix);
    path.append(".axis");
    let mut message = String::from_str(prefix);
    message.append(".axis is required when creating a new entry");
    push_error(errors, ValidationErrorCode::MissingAxis, path, None, message, None);
}

fn push_axis_checks(
    errors: &mut Vec<ValidationError>,
    prefix: &str,
    axis: &Option<Vec<String>>,
    exists: bool,
    axis_registry: &Vec<String>,
)
    ensures
        errors_view(final(errors)@) == errors_view(old(errors)@) + axis_errors(
            prefix@,
            opt_views(*axis),
            exists,
            views(axis_registry@),
        ),
{
    let ghost start = errors_view(errors@);
    let ghost reg = views(axis_registry@);
    reveal(axis_errors);
    match axis {
        None => {
            if !exists {
                push_missing_axis(errors, prefix);
                assert(errors_view(errors@) =~= start + seq![missing_axis_error(prefix@)]);
            } else {
                assert(start + seq![] =~= start);
            }
        },
        Some(values) => {
            if !exists && values.len() == 0 {
                push_missing_axis(errors, prefix);
                assert(errors_view(errors@) =~= start + seq![missing_axis_error(prefix@)]);
            } else {
                assert(start + seq![] =~= start);
            }
            let ghost mid = errors_view(errors@);
            let ghost vs = views(values@);
            let mut i: usize = 0;
            while i < values.len()
                invariant
                    i <= values@.len(),
                    vs == views(values@),
                    reg == views(axis_registry@),
                    errors_view(errors@) == mid + unknown_axis_errors(prefix@, vs, reg, i as nat),
                decreases values.len() - i,
            {
                let value = &values[i];
                let mut registered = false;
                let mut k: usize = 0;
                while k < axis_registry.len()
                    invariant
                        k <= axis_registry@.len(),
                        reg == views(axis_registry@),
                        registered == (exists|t: int| 0 <= t < k && reg[t] == value@),
                    decreases axis_registry.len() - k,
                {
                    assert(reg[k as int] == axis_registry@[k as int]@);
                    if str_eq(axis_registry[k].as_str(), value.as_str()) {
                        registered = true;
                    }
                    proof {
                        if !registered {
                            assert forall|t: int| 0 <= t < k + 1 implies reg[t] != value@ by {
                                if t < k {
                                    assert(!(0 <= t < k && reg[t] == value@));
                                }
                            }
                        }
                    }
                    k = k + 1;
                }
                proof {
                    if registered {
                        let t = choose|t: int| 0 <= t < k && reg[t] == value@;
                        assert(reg.contains(vs[i as int]));
                    } else {
                        if reg.contains(vs[i as int]) {
                            let t = choose|t: int| 0 <= t < reg.len() && reg[t] == vs[i as int];
                            assert(reg[t] == value@);
                        }
                    }
                }
                if !registered {
                    let mut path = String::from_str(prefix);
                    path.append(".axis[");
                    let digits = usize_to_decimal(i);
                    path.append(digits.as_str());
                    path.append("]");
                    let mut message = String::from_str("axis \"");
                    message.append(value.as_str());
                    message.append("\" is not registered");
                    let suggestion = nearest_axis_suggestion(value.as_str(), axis_registry);
                    let ghost before = errors_view(errors@);
                    push_error(
                        errors,
                        ValidationErrorCode::UnknownAxis,
                        path,
                        Some(value.clone()),
                        message,
                        suggestion,
                    );
                    assert(errors_view(errors@) =~= mid + unknown_axis_errors(
                        prefix@,
                        vs,
                        reg,
                        (i + 1) as nat,
                    ));
                }
                i = i + 1;
            }
            assert(errors_view(errors@) =~= start + axis_errors(
                prefix@,
                opt_views(*axis),
                exists,
                reg,
            ));
        },
    }
}

fn push_missing_description(
    errors: &mut Vec<ValidationError>,
    path: &str,
    description: &Option<String>,
    exists: bool,
)
    ensures
        errors_view(final(errors)@) == errors_view(old(errors)@) + description_errors(
            path@,
            opt_view(*description),
            exists,
        ),
{
    let ghost start = errors_view(errors@);
    reveal(description_errors);
    if exists {
        assert(start + seq![] =~= start);
        return;
    }
    let is_empty = match description {
        Some(d) => trim_is_empty(d.as_str()),
        None => true,
    };
    if is_empty {
        let mut message = String::from_str(path);
        message.append(" must not be empty");
        push_error(
            errors,
            ValidationErrorCode::MissingDescription,
            String::from_str(path),
            None,
            message,
            None,
        );
        assert(errors_view(errors@) =~= start + seq![missing_description_error(path@)]);
    } else {
        assert(start + seq![] =~= start);
    }
}

fn push_conflicting_value(
    errors: &mut Vec<ValidationError>,
    path: &str,
    provided: &str,
    existing: &str,
)
    ensures
        errors_view(final(errors)@) == errors_view(old(errors)@) + conflict_value_errors(
            path@,
            provided@,
            existing@,
        ),
{
    let ghost start = errors_view(errors@);
    let p = trim(provided);
    let e = trim(existing);
    if !str_eq(p.as_str(), e.as_str()) {
        let mut message = String::from_str(path);
        message.append(" \"");
        message.append(provided);
        message.append("\" conflicts with existing value \"");
        message.append(e.as_str());
        message.append("\"");
        let suggestion = e.clone();
        push_error(
            errors,
            ValidationErrorCode::ConflictingExistingValue,
            String::from_str(path),
            Some(String::from_str(provided)),
            message,
            Some(suggestion),
        );
        assert(errors_view(errors@) =~= start + conflict_value_errors(path@, provided@, existing@));
    } else {
        assert(start + seq![] =~= start);
    }
}

fn push_conflicting_axis(
    errors: &mut Vec<ValidationError>,
    path: &str,
    provided: &Vec<String>,
    existing: &Vec<String>,
)
    ensures
        errors_view(final(errors)@) == errors_view(old(errors)@) + conflict_axis_errors(
            path@,
            views(provided@),
            views(existing@),
        ),
{
    let ghost start = errors_view(errors@);
    if !same_multiset(provided, existing) {
        let p = join_with_comma(provided);
        let e = join_with_comma(existing);
        let mut message = String::from_str(path);
        message.append(" [");
        message.append(p.as_str());
        message.append("] conflicts with existing value [");
        message.append(e.as_str());
        message.append("]");
        push_error(
            errors,
            ValidationErrorCode::ConflictingExistingValue,
            String::from_str(path),
            Some(p),
            message,
            Some(e),
        );
        assert(errors_view(errors@) =~= start + conflict_axis_errors(
            path@,
            views(provided@),
            views(existing@),
        ));
    } else {
        assert(start + seq![] =~= start);
    }
}

fn push_parent_mismatch(errors: &mut Vec<ValidationError>, path: &str, expected: &str, actual: &str)
    ensures
        errors_view(final(errors)@) == errors_view(old(errors)@) + parent_errors(
            path@,
            expected@,
            actual@,
        ),
{
    let ghost start = errors_view(errors@);
    if !str_eq(expected, actual) {
        let mut message = String::from_str(path);
        message.append(" refers to \"");
        message.append(actual);
        message.append("\" but the draft chain expects \"");
        message.append(expected);
        message.append("\"");
        push_error(
            errors,
            ValidationErrorCode::ParentNotFound,
            String::from_str(path),
            Some(String::from_str(actual)),
            message,
            Some(String::from_str(expected)),
        );
        assert(errors_view(errors@) =~= start + parent_errors(path@, expected@, actual@));
    } else {
        assert(start + seq![] =~= start);
    }
}

fn push_opt_conflicting_value(
    errors: &mut Vec<ValidationError>,
    path: &str,
    provided: &Option<String>,
    existing: &str,
)
    ensures
        errors_view(final(errors)@) == errors_view(old(errors)@) + opt_conflict_value_errors(
            path@,
            opt_view(*provided),
            existing@,
        ),
{
    match provided {
        Some(p) => push_conflicting_value(errors, path, p.as_str(), existing),
        None => {
            assert(errors_view(errors@) + seq![] =~= errors_view(errors@));
        },
    }
}

fn push_opt_conflicting_axis(
    errors: &mut Vec<ValidationError>,
    path: &str,
    provided: &Option<Vec<String>>,
    existing: &Vec<String>,
)
    ensures
        errors_view(final(errors)@) == errors_view(old(errors)@) + opt_conflict_axis_errors(
            path@,
            opt_views(*provided),
            views(existing@),
        ),
{
    match provided {
        Some(p) => push_conflicting_axis(errors, path, p, existing),
        None => {
            assert(errors_view(errors@) + seq![] =~= errors_view(errors@));
        },
    }
}

fn push_expected_checks(errors: &mut Vec<ValidationError>, expected: &Vec<ExpectedDraft>)
    ensures
        errors_view(final(errors)@) == errors_view(old(errors)@) + expected_errors(
            expected_descriptions(expected@),
            expected@.len(),
        ),
{
    let ghost start = errors_view(errors@);
    let ghost ds = expected_descriptions(expected@);
    reveal(expected_errors);
    let mut i: usize = 0;
    assert(start + seq![] =~= start);
    while i < expected.len()
        invariant
            i <= expected@.len(),
            ds == expected_descriptions(expected@),
            errors_view(errors@) == start + expected_errors(ds, i as nat),
        decreases expected.len() - i,
    {
        proof {
            reveal(expected_errors);
        }
        assert(ds[i as int] == expected@[i as int].description@);
        if trim_is_empty(expected[i].description.as_str()) {
            let digits = usize_to_decimal(i);
            let mut path = String::from_str("expected[");
            path.append(digits.as_str());
            path.append("].description");
            let mut message = path.clone();
            message.append(" must not be empty");
            push_error(errors, ValidationErrorCode::MissingDescription, path, None, message, None);
        }
        assert(errors_view(errors@) =~= start + expected_errors(ds, (i + 1) as nat));
        i = i + 1;
    }
}

fn push_header_checks(
    errors: &mut Vec<ValidationError>,
    draft: &KnowledgeDraft,
    options: &ValidateOptions,
    ctx: &DraftContext,
)
    ensures
        errors_view(final(errors)@) == errors_view(old(errors)@) + header_errors(
            *draft,
            *options,
            *ctx,
        ),
{
    let ghost start = errors_view(errors@);
    push_invalid_slug(errors, "requirement.id", draft.requirement.id.as_str());
    push_invalid_slug(errors, "feature.id", draft.feature.id.as_str());
    push_invalid_slug(errors, "behavior.id", draft.behavior.id.as_str());
    push_invalid_slug(errors, "condition.id", draft.condition.id.as_str());
    let ghost after_slugs = errors_view(errors@);

    if !ctx.legacy_condition_exists && !options.strip_redundant_prefix {
        if let Some(stripped) = strip_redundant_scenario_prefix(
            draft.behavior.id.as_str(),
            draft.condition.id.as_str(),
        ) {
            let mut message = String::from_str("condition.id \"");
            message.append(draft.condition.id.as_str());
            message.append("\" starts with behavior.id \"");
            message.append(draft.behavior.id.as_str());
            message.append("-\" prefix");
            push_error(
                errors,
                ValidationErrorCode::RedundantPrefix,
                String::from_str("condition.id"),
                Some(draft.condition.id.clone()),
                message,
                Some(stripped),
            );
        }
    }
    assert(errors_view(errors@) =~= after_slugs + prefix_errors(*draft, *options, *ctx));
    let ghost after_prefix = errors_view(errors@);

    if let Some(forked_from) = &draft.feature.forked_from {
        if !ctx.forked_from_exists {
            let mut message = String::from_str("forked_from feature \"");
            message.append(forked_from.as_str());
            message.append("\" does not exist");
            push_error(
                errors,
                ValidationErrorCode::UnknownForkedFrom,
                String::from_str("feature.forked_from"),
                Some(forked_from.clone()),
                message,
                None,
            );
        }
    }
    assert(errors_view(errors@) =~= after_prefix + forked_errors(*draft, *ctx));
    assert(errors_view(errors@) =~= start + header_errors(*draft, *options, *ctx));
}

fn push_presence_checks(errors: &mut Vec<ValidationError>, draft: &KnowledgeDraft, ctx: &DraftContext)
    ensures
        errors_view(final(errors)@) == errors_view(old(errors)@) + presence_errors(*draft, *ctx),
{
    let ghost start = errors_view(errors@);
    let ghost reg = views(ctx.axis_registry@);
    let ghost a1 = axis_errors("requirement"@, opt_views(draft.requirement.axis), ctx.requirement_exists, reg);
    let ghost a2 = axis_errors("feature"@, opt_views(draft.feature.axis), ctx.feature_exists, reg);
    let ghost a3 = axis_errors("behavior"@, opt_views(draft.behavior.axis), ctx.behavior_exists, reg);
    let ghost d1 = description_errors(
        "behavior.description"@,
        opt_view(draft.behavior.description),
        ctx.behavior_exists,
    );
    let ghost d2 = description_errors(
        "condition.description"@,
        opt_view(draft.condition.description),
        ctx.condition_exists,
    );
    let ghost e1 = expected_errors(expected_descriptions(draft.expected@), draft.expected@.len());
    push_axis_checks(
        errors,
        "requirement",
        &draft.requirement.axis,
        ctx.requirement_exists,
        &ctx.axis_registry,
    );
    push_axis_checks(errors, "feature", &draft.feature.axis, ctx.feature_exists, &ctx.axis_registry);
    push_axis_checks(
        errors,
        "behavior",
        &draft.behavior.axis,
        ctx.behavior_exists,
        &ctx.axis_registry,
    );
    push_missing_description(
        errors,
        "behavior.description",
        &draft.behavior.description,
        ctx.behavior_exists,
    );
    push_missing_description(
        errors,
        "condition.description",
        &draft.condition.description,
        ctx.condition_exists,
    );
    push_expected_checks(errors, &draft.expected);
    assert(errors_view(errors@) == start + a1 + a2 + a3 + d1 + d2 + e1);
    assert(presence_errors(*draft, *ctx) == a1 + a2 + a3 + d1 + d2 + e1);
    assert(start + a1 + a2 + a3 + d1 + d2 + e1 =~= start + (a1 + a2 + a3 + d1 + d2 + e1));
}

fn push_requirement_conflicts(
    errors: &mut Vec<ValidationError>,
    draft: &KnowledgeDraft,
    ctx: &DraftContext,
)
    ensures
        errors_view(final(errors)@) == errors_view(old(errors)@) + requirement_conflicts(
            *draft,
            *ctx,
        ),
{
    let ghost start = errors_view(errors@);
    if ctx.requirement_exists {
        if let Some(existing) = &ctx.existing_requirement {
            push_opt_conflicting_value(
                errors,
                "requirement.label",
                &draft.requirement.label,
                existing.label.as_str(),
            );
            push_opt_conflicting_axis(
                errors,
                "requirement.axis",
                &draft.requirement.axis,
                &existing.axis,
            );
            push_opt_conflicting_value(
                errors,
                "requirement.description",
                &draft.requirement.description,
                existing.description.as_str(),
            );
        }
    }
    assert(errors_view(errors@) =~= start + requirement_conflicts(*draft, *ctx));
}

fn push_feature_conflicts(
    errors: &mut Vec<ValidationError>,
    draft: &KnowledgeDraft,
    ctx: &DraftContext,
)
    ensures
        errors_view(final(errors)@) == errors_view(old(errors)@) + feature_conflicts(*draft, *ctx),
{
    let ghost start = errors_view(errors@);
    if ctx.feature_exists {
        if let Some(existing) = &ctx.existing_feature {
            push_parent_mismatch(
                errors,
                "feature.requirement",
                draft.requirement.id.as_str(),
                existing.parent.as_str(),
            );
            push_opt_conflicting_value(
                errors,
                "feature.label",
                &draft.feature.label,
                existing.label.as_str(),
            );
            push_opt_conflicting_axis(errors, "feature.axis", &draft.feature.axis, &existing.axis);
            push_opt_conflicting_value(
                errors,
                "feature.description",
                &draft.feature.description,
                existing.description.as_str(),
            );
        }
    }
    assert(errors_view(errors@) =~= start + feature_conflicts(*draft, *ctx));
}

fn push_behavior_conflicts(
    errors: &mut Vec<ValidationError>,
    draft: &KnowledgeDraft,
    ctx: &DraftContext,
)
    ensures
        errors_view(final(errors)@) == errors_view(old(errors)@) + behavior_conflicts(*draft, *ctx),
{
    let ghost start = errors_view(errors@);
    if ctx.behavior_exists {
        if let Some(existing) = &ctx.existing_behavior {
            push_parent_mismatch(
                errors,
                "behavior.feature",
                draft.feature.id.as_str(),
                existing.parent.as_str(),
            );
            push_opt_conflicting_value(
                errors,
                "behavior.label",
                &draft.behavior.label,
                existing.label.as_str(),
            );
            push_opt_conflicting_axis(errors, "behavior.axis", &draft.behavior.axis, &existing.axis);
            push_opt_conflicting_value(
                errors,
                "behavior.description",
                &draft.behavior.description,
                existing.description.as_str(),
            );
        }
    }
    assert(errors_view(errors@) =~= start + behavior_conflicts(*draft, *ctx));
}

fn push_condition_conflicts(
    errors: &mut Vec<ValidationError>,
    draft: &KnowledgeDraft,
    ctx: &DraftContext,
)
    ensures
        errors_view(final(errors)@) == errors_view(old(errors)@) + condition_conflicts(
            *draft,
            *ctx,
        ),
{
    let ghost start = errors_view(errors@);
    if ctx.condition_exists {
        if let Some(existing) = &ctx.existing_condition {
            push_parent_mismatch(
                errors,
                "condition.behavior",
                draft.behavior.id.as_str(),
                existing.parent.as_str(),
            );
            push_opt_conflicting_value(
                errors,
                "condition.label",
                &draft.condition.label,
                existing.label.as_str(),
            );
            push_opt_conflicting_value(
                errors,
                "condition.description",
                &draft.condition.description,
                existing.description.as_str(),
            );
        }
    }
    assert(errors_view(errors@) =~= start + condition_conflicts(*draft, *ctx));
}

/// Every rule a draft chain must pass before it is written, checked against
/// what `ctx` says about the project. The errors come in a fixed order:
/// slugs, redundant condition prefix, `forked_from`, axes, descriptions,
/// then conflicts with the existing requirement / feature / behavior /
/// condition.
pub fn validate_draft(
    draft: &KnowledgeDraft,
    options: &ValidateOptions,
    ctx: &DraftContext,
) -> (r: Vec<ValidationError>)
    ensures
        errors_view(r@) == draft_errors(*draft, *options, *ctx),
{
    let mut errors: Vec<ValidationError> = Vec::new();
    assert(errors_view(errors@) =~= seq![]);
    push_header_checks(&mut errors, draft, options, ctx);
    push_presence_checks(&mut errors, draft, ctx);
    push_requirement_conflicts(&mut errors, draft, ctx);
    push_feature_conflicts(&mut errors, draft, ctx);
    push_behavior_conflicts(&mut errors, draft, ctx);
    push_condition_conflicts(&mut errors, draft, ctx);
    assert(errors_view(errors@) =~= draft_errors(*draft, *options, *ctx));
    errors
}

/// The parent an existing Feature names, as the draft chain compares it:
/// the draft's requirement id `requirement_id` when the Feature relates to
/// that Requirement's uid, else the first uid the Feature relates to (empty
/// when it relates to none).
pub open spec fn existing_feature_parent_of(
    requirement_id: Seq<char>,
    requirement_uid: Option<Seq<char>>,
    feature_requirement_uids: Seq<Seq<char>>,
) -> Seq<char> {
    let first = if feature_requirement_uids.len() > 0 {
        feature_requirement_uids[0]
    } else {
        Seq::empty()
    };
    match requirement_uid {
        Some(u) => if feature_requirement_uids.contains(u) {
            requirement_id
        } else {
            first
        },
        None => first,
    }
}

pub fn existing_feature_parent(
    requirement_id: &str,
    requirement_uid: &Option<String>,
    feature_requirement_uids: &Vec<String>,
) -> (r: String)
    ensures
        r@ == existing_feature_parent_of(
            requirement_id@,
            crate::text::opt_view(*requirement_uid),
            crate::text::views(feature_requirement_uids@),
        ),
{
    let ghost vs = crate::text::views(feature_requirement_uids@);
    if let Some(u) = requirement_uid {
        let mut k: usize = 0;
        while k < feature_requirement_uids.len()
            invariant
                k <= feature_requirement_uids@.len(),
                vs == crate::text::views(feature_requirement_uids@),
                crate::text::opt_view(*requirement_uid) == Some(u@),
                forall|m: int| 0 <= m < k ==> vs[m] != u@,
            decreases feature_requirement_uids.len() - k,
        {
            if str_eq(feature_requirement_uids[k].as_str(), u.as_str()) {
                assert(vs[k as int] == u@);
                assert(vs.contains(u@));
                return String::from_str(requirement_id);
            }
            k = k + 1;
        }
        assert(!vs.contains(u@));
    }
    if feature_requirement_uids.len() > 0 {
        assert(vs[0] == feature_requirement_uids@[0]@);
        feature_requirement_uids[0].clone()
    } else {
        String::new()
    }
}

// ---------------------------------------------------------------------------
// Law: values compare after trimming.
// ---------------------------------------------------------------------------

/// A given value agrees with the existing one once surrounding whitespace
/// is trimmed from both (nothing given always agrees).
pub open spec fn agrees_trimmed(given: Option<String>, existing: String) -> bool {
    given matches Some(g) ==> trimmed(g@) == trimmed(existing@)
}

/// A given axis list holds the existing values, in any order.
pub open spec fn same_axes(given: Option<Vec<String>>, existing: Vec<String>) -> bool {
    given matches Some(a) ==> views(a@).to_multiset() == views(existing@).to_multiset()
}

/// No error in `es` reports a conflict with an existing value.
pub open spec fn no_conflict_error(es: Seq<ErrorView>) -> bool {
    forall|i: int| 0 <= i < es.len() ==> (#[trigger] es[i]).0 != ValidationErrorCode::ConflictingExistingValue
}

proof fn lemma_no_conflict_concat(a: Seq<ErrorView>, b: Seq<ErrorView>)
    requires
        no_conflict_error(a),
        no_conflict_error(b),
    ensures
        no_conflict_error(a + b),
{
    assert forall|i: int| 0 <= i < (a + b).len() implies (#[trigger] (a + b)[i]).0
        != ValidationErrorCode::ConflictingExistingValue by {
        if i < a.len() {
            assert((a + b)[i] == a[i]);
        } else {
            assert((a + b)[i] == b[i - a.len()]);
        }
    }
}

proof fn lemma_unknown_axis_no_conflict(prefix: Seq<char>, values: Seq<Seq<char>>, reg: Seq<Seq<char>>, n: nat)
    ensures
        no_conflict_error(unknown_axis_errors(prefix, values, reg, n)),
    decreases n,
{
    if n > 0 {
        lemma_unknown_axis_no_conflict(prefix, values, reg, (n - 1) as nat);
    }
}

proof fn lemma_expected_no_conflict(descriptions: Seq<Seq<char>>, n: nat)
    ensures
        no_conflict_error(expected_errors(descriptions, n)),
    decreases n,
{
    reveal(expected_errors);
    if n > 0 {
        lemma_expected_no_conflict(descriptions, (n - 1) as nat);
    }
}

proof fn lemma_axis_no_conflict(prefix: Seq<char>, axis: Option<Seq<Seq<char>>>, exists: bool, reg: Seq<Seq<char>>)
    ensures
        no_conflict_error(axis_errors(prefix, axis, exists, reg)),
{
    reveal(axis_errors);
    if let Some(values) = axis {
        lemma_unknown_axis_no_conflict(prefix, values, reg, values.len());
        let first = if !exists && values.len() == 0 {
            seq![missing_axis_error(prefix)]
        } else {
            seq![]
        };
        lemma_no_conflict_concat(first, unknown_axis_errors(prefix, values, reg, values.len()));
    }
}

proof fn lemma_value_agrees(path: Seq<char>, given: Option<String>, existing: String)
    requires
        agrees_trimmed(given, existing),
    ensures
        opt_conflict_value_errors(path, opt_view(given), existing@).len() == 0,
{
}

proof fn lemma_axes_agree(path: Seq<char>, given: Option<Vec<String>>, existing: Vec<String>)
    requires
        same_axes(given, existing),
    ensures
        opt_conflict_axis_errors(path, opt_views(given), views(existing@)).len() == 0,
{
}

/// Validation compares given labels and descriptions with the existing
/// element's after trimming surrounding whitespace from both: when every
/// label and description a draft gives for an existing element equals the
/// existing one once trimmed (and every axis list it gives holds the same
/// values), validation reports no conflict with an existing value.
pub proof fn lemma_trimmed_equal_values_do_not_conflict(
    d: KnowledgeDraft,
    o: ValidateOptions,
    ctx: DraftContext,
)
    requires
        ctx.requirement_exists ==> (ctx.existing_requirement matches Some(e) ==> agrees_trimmed(
            d.requirement.label,
            e.label,
        ) && agrees_trimmed(d.requirement.description, e.description) && same_axes(
            d.requirement.axis,
            e.axis,
        )),
        ctx.feature_exists ==> (ctx.existing_feature matches Some(e) ==> agrees_trimmed(
            d.feature.label,
            e.label,
        ) && agrees_trimmed(d.feature.description, e.description) && same_axes(
            d.feature.axis,
            e.axis,
        )),
        ctx.behavior_exists ==> (ctx.existing_behavior matches Some(e) ==> agrees_trimmed(
            d.behavior.label,
            e.label,
        ) && agrees_trimmed(d.behavior.description, e.description) && same_axes(
            d.behavior.axis,
            e.axis,
        )),
        ctx.condition_exists ==> (ctx.existing_condition matches Some(e) ==> agrees_trimmed(
            d.condition.label,
            e.label,
        ) && agrees_trimmed(d.condition.description, e.description)),
    ensures
        no_conflict_error(draft_errors(d, o, ctx)),
{
    reveal(description_errors);
    let reg = views(ctx.axis_registry@);
    let h = header_errors(d, o, ctx);
    assert(no_conflict_error(h));
    lemma_axis_no_conflict("requirement"@, opt_views(d.requirement.axis), ctx.requirement_exists, reg);
    lemma_axis_no_conflict("feature"@, opt_views(d.feature.axis), ctx.feature_exists, reg);
    lemma_axis_no_conflict("behavior"@, opt_views(d.behavior.axis), ctx.behavior_exists, reg);
    lemma_expected_no_conflict(expected_descriptions(d.expected@), d.expected@.len());
    let a1 = axis_errors("requirement"@, opt_views(d.requirement.axis), ctx.requirement_exists, reg);
    let a2 = axis_errors("feature"@, opt_views(d.feature.axis), ctx.feature_exists, reg);
    let a3 = axis_errors("behavior"@, opt_views(d.behavior.axis), ctx.behavior_exists, reg);
    let d1 = description_errors(
        "behavior.description"@,
        opt_view(d.behavior.description),
        ctx.behavior_exists,
    );
    let d2 = description_errors(
        "condition.description"@,
        opt_view(d.condition.description),
        ctx.condition_exists,
    );
    let ex = expected_errors(expected_descriptions(d.expected@), d.expected@.len());
    assert(no_conflict_error(d1));
    assert(no_conflict_error(d2));
    lemma_no_conflict_concat(a1, a2);
    lemma_no_conflict_concat(a1 + a2, a3);
    lemma_no_conflict_concat(a1 + a2 + a3, d1);
    lemma_no_conflict_concat(a1 + a2 + a3 + d1, d2);
    lemma_no_conflict_concat(a1 + a2 + a3 + d1 + d2, ex);
    let p = presence_errors(d, ctx);
    assert(p == a1 + a2 + a3 + d1 + d2 + ex);
    let c1 = requirement_conflicts(d, ctx);
    let c2 = feature_conflicts(d, ctx);
    let c3 = behavior_conflicts(d, ctx);
    let c4 = condition_conflicts(d, ctx);
    if let Some(e) = ctx.existing_requirement {
        if ctx.requirement_exists {
            lemma_value_agrees("requirement.label"@, d.requirement.label, e.label);
            lemma_value_agrees("requirement.description"@, d.requirement.description, e.description);
            lemma_axes_agree("requirement.axis"@, d.requirement.axis, e.axis);
        }
    }
    assert(c1.len() == 0);
    if let Some(e) = ctx.existing_feature {
        if ctx.feature_exists {
            lemma_value_agrees("feature.label"@, d.feature.label, e.label);
            lemma_value_agrees("feature.description"@, d.feature.description, e.description);
            lemma_axes_agree("feature.axis"@, d.feature.axis, e.axis);
            let pe = parent_errors("feature.requirement"@, d.requirement.id@, e.parent@);
            assert(no_conflict_error(pe));
            assert(c2 =~= pe);
        }
    }
    assert(no_conflict_error(c2));
    if let Some(e) = ctx.existing_behavior {
        if ctx.behavior_exists {
            lemma_value_agrees("behavior.label"@, d.behavior.label, e.label);
            lemma_value_agrees("behavior.description"@, d.behavior.description, e.description);
            lemma_axes_agree("behavior.axis"@, d.behavior.axis, e.axis);
            let pe = parent_errors("behavior.feature"@, d.feature.id@, e.parent@);
            assert(no_conflict_error(pe));
            assert(c3 =~= pe);
        }
    }
    assert(no_conflict_error(c3));
    if let Some(e) = ctx.existing_condition {
        if ctx.condition_exists {
            lemma_value_agrees("condition.label"@, d.condition.label, e.label);
            lemma_value_agrees("condition.description"@, d.condition.description, e.description);
            let pe = parent_errors("condition.behavior"@, d.behavior.id@, e.parent@);
            assert(no_conflict_error(pe));
            assert(c4 =~= pe);
        }
    }
    assert(no_conflict_error(c4));
    lemma_no_conflict_concat(h, p);
    lemma_no_conflict_concat(h + p, c1);
    lemma_no_conflict_concat(h + p + c1, c2);
    lemma_no_conflict_concat(h + p + c1 + c2, c3);
    lemma_no_conflict_concat(h + p + c1 + c2 + c3, c4);
}

} // verus!
