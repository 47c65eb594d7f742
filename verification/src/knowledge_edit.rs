//! The `knowledge add --edit` flow's decisions: which axes a draft may
//! register on the fly, and how validation errors are reported back.
use vstd::prelude::*;

use crate::knowledge::{is_valid_slug, spec_is_valid_slug};
use crate::knowledge_draft::{
    code_name, nearest, nearest_axis_suggestion, KnowledgeDraft, ValidationError,
};
use crate::text::{insert_sorted_unique, opt_view, str_eq, strictly_sorted, views};

verus! {

/// Blank draft chain written to the temp file before the editor is first
/// opened.
pub const EDIT_TEMPLATE: &'static str = "# knowledge add --edit\n# Fill in the chain below (existing ids may omit label/axis/description),\n# then save and exit the editor to apply. Validation errors reopen the editor.\nrequirement:\n  id:\n  label:\n  axis: []\n\nfeature:\n  id:\n  label:\n  axis: []\n\nbehavior:\n  id:\n  label:\n  axis: []\n  description:\n\ncondition:\n  id:\n  label:\n  description:\n\nexpected:\n  - description:\n";

/// Why the edit flow stopped: a file or editor operation failed.
#[derive(Debug)]
pub enum EditFlowError {
    Io(std::io::Error),
}

/// What the edit loop prints for a draft that could not be parsed.
pub open spec fn parse_error_report(message: Seq<char>) -> Seq<char> {
    "error: "@ + message + "\n"@ + "編集内容を確認し、保存してエディタを終了してください。\n"@
}

/// The text the edit loop prints for a draft that could not be parsed,
/// given the parser's message.
pub fn format_parse_error(message: &str) -> (r: String)
    ensures
        r@ == parse_error_report(message@),
{
    let mut out = String::from_str("error: ");
    out.append(message);
    out.append("\n");
    out.append("編集内容を確認し、保存してエディタを終了してください。\n");
    out
}

pub open spec fn axis_values(axis: Option<Vec<String>>) -> Seq<Seq<char>> {
    match axis {
        Some(v) => views(v@),
        None => seq![],
    }
}

/// Every axis value the draft references, requirement's first, then
/// feature's, then behavior's.
pub open spec fn referenced_axes(d: KnowledgeDraft) -> Seq<Seq<char>> {
    axis_values(d.requirement.axis) + axis_values(d.feature.axis) + axis_values(d.behavior.axis)
}

/// An axis value that is safe to register automatically: not registered,
/// a valid slug, and not within typo distance of a registered axis.
pub open spec fn is_new_axis_candidate(v: Seq<char>, reg: Seq<Seq<char>>) -> bool {
    !reg.contains(v) && spec_is_valid_slug(v) && nearest(v, reg) is None
}

fn contains_str(v: &Vec<String>, x: &str) -> (r: bool)
    ensures
        r == views(v@).contains(x@),
{
    let ghost vs = views(v@);
    let mut i: usize = 0;
    while i < v.len()
        invariant
            i <= v@.len(),
            vs == views(v@),
            forall|k: int| 0 <= k < i ==> vs[k] != x@,
        decreases v.len() - i,
    {
        assert(vs[i as int] == v@[i as int]@);
        if str_eq(v[i].as_str(), x) {
            assert(vs.contains(x@));
            return true;
        }
        i = i + 1;
    }
    false
}

fn add_candidates(
    out: &mut Vec<String>,
    axis: &Option<Vec<String>>,
    axis_registry: &Vec<String>,
)
    requires
        strictly_sorted(views(old(out)@)),
    ensures
        strictly_sorted(views(final(out)@)),
        views(final(out)@).to_set() == views(old(out)@).to_set().union(
            Set::new(
                |v: Seq<char>|
                    axis_values(*axis).contains(v) && is_new_axis_candidate(
                        v,
                        views(axis_registry@),
                    ),
            ),
        ),
{
    let ghost reg = views(axis_registry@);
    let ghost start = views(out@).to_set();
    match axis {
        None => {
            assert(views(out@).to_set() =~= start.union(
                Set::new(|v: Seq<char>| axis_values(*axis).contains(v) && is_new_axis_candidate(v, reg)),
            ));
        },
        Some(values) => {
            let ghost vs = views(values@);
            let mut i: usize = 0;
            while i < values.len()
                invariant
                    i <= values@.len(),
                    vs == views(values@),
                    reg == views(axis_registry@),
                    strictly_sorted(views(out@)),
                    views(out@).to_set() == start.union(
                        Set::new(
                            |v: Seq<char>|
                                vs.take(i as int).contains(v) && is_new_axis_candidate(v, reg),
                        ),
                    ),
                decreases values.len() - i,
            {
                let value = &values[i];
                assert(vs[i as int] == value@);
                let keep = !contains_str(axis_registry, value.as_str()) && is_valid_slug(
                    value.as_str(),
                ) && nearest_axis_suggestion(value.as_str(), axis_registry).is_none();
                let ghost before = views(out@).to_set();
                if keep {
                    insert_sorted_unique(out, value.clone());
                }
                proof {
                    assert(keep == is_new_axis_candidate(vs[i as int], reg));
                    assert(vs.take(i + 1) =~= vs.take(i as int).push(vs[i as int]));
                    let prev_set = Set::new(
                        |w: Seq<char>| vs.take(i as int).contains(w) && is_new_axis_candidate(w, reg),
                    );
                    let next_set = Set::new(
                        |w: Seq<char>| vs.take(i + 1).contains(w) && is_new_axis_candidate(w, reg),
                    );
                    assert(before == start.union(prev_set));
                    assert forall|v: Seq<char>| #[trigger]
                        views(out@).to_set().contains(v) <==> start.union(next_set).contains(v) by {
                        if v == vs[i as int] {
                            assert(vs.take(i + 1)[i as int] == v);
                        }
                        if vs.take(i + 1).contains(v) && !vs.take(i as int).contains(v) {
                            let k = choose|k: int| 0 <= k < i + 1 && #[trigger] vs.take(i + 1)[k] == v;
                            if k < i {
                                assert(vs.take(i as int)[k] == v);
                            }
                        }
                        if vs.take(i as int).contains(v) {
                            let k = choose|k: int| 0 <= k < i && #[trigger] vs.take(i as int)[k] == v;
                            assert(vs.take(i + 1)[k] == v);
                        }
                    }
                    assert(views(out@).to_set() =~= start.union(
                        Set::new(
                            |v: Seq<char>|
                                vs.take(i + 1).contains(v) && is_new_axis_candidate(v, reg),
                        ),
                    ));
                }
                i = i + 1;
            }
            assert(vs.take(values@.len() as int) =~= vs);
            assert(views(out@).to_set() =~= start.union(
                Set::new(|v: Seq<char>| axis_values(*axis).contains(v) && is_new_axis_candidate(v, reg)),
            ));
        },
    }
}

/// The axis values `draft` references (across requirement / feature /
/// behavior) that are safe to register automatically: not registered yet,
/// no registered axis within typo distance, and a valid slug. Sorted, each
/// once. Values failing a check are left out so that validation still
/// reports them as unknown.
pub fn new_axis_candidates(draft: &KnowledgeDraft, axis_registry: &Vec<String>) -> (r: Vec<String>)
    ensures
        strictly_sorted(views(r@)),
        views(r@).to_set() == Set::new(
            |v: Seq<char>|
                referenced_axes(*draft).contains(v) && is_new_axis_candidate(
                    v,
                    views(axis_registry@),
                ),
        ),
{
    let ghost reg = views(axis_registry@);
    let mut out: Vec<String> = Vec::new();
    assert(views(out@) =~= seq![]);
    add_candidates(&mut out, &draft.requirement.axis, axis_registry);
    add_candidates(&mut out, &draft.feature.axis, axis_registry);
    add_candidates(&mut out, &draft.behavior.axis, axis_registry);
    proof {
        let a = axis_values(draft.requirement.axis);
        let b = axis_values(draft.feature.axis);
        let c = axis_values(draft.behavior.axis);
        assert forall|v: Seq<char>| (a + b + c).contains(v) <==> (a.contains(v) || b.contains(v)
            || c.contains(v)) by {
            if (a + b + c).contains(v) {
                let k = choose|k: int| 0 <= k < (a + b + c).len() && #[trigger] (a + b + c)[k] == v;
                if k < a.len() {
                    assert(a[k] == v);
                } else if k < a.len() + b.len() {
                    assert(b[k - a.len()] == v);
                } else {
                    assert(c[k - a.len() - b.len()] == v);
                }
            }
            if a.contains(v) {
                let k = choose|k: int| 0 <= k < a.len() && #[trigger] a[k] == v;
                assert((a + b + c)[k] == v);
            }
            if b.contains(v) {
                let k = choose|k: int| 0 <= k < b.len() && #[trigger] b[k] == v;
                assert((a + b + c)[a.len() + k] == v);
            }
            if c.contains(v) {
                let k = choose|k: int| 0 <= k < c.len() && #[trigger] c[k] == v;
                assert((a + b + c)[a.len() + b.len() + k] == v);
            }
        }
        assert(views(out@).to_set() =~= Set::new(
            |v: Seq<char>| referenced_axes(*draft).contains(v) && is_new_axis_candidate(v, reg),
        ));
    }
    out
}

/// How the edit loop reports validation errors: one line per error, then
/// the request to fix them in the editor.
pub open spec fn error_line(e: ValidationError) -> Seq<char> {
    "error: "@ + code_name(e.code) + ": "@ + e.message@ + " ("@ + (match opt_view(e.suggestion) {
        Some(s) => "suggested=\""@ + s + "\", "@,
        None => seq![],
    }) + "path="@ + e.path@ + ")\n"@
}

pub open spec fn error_lines(v: Seq<ValidationError>, n: nat) -> Seq<char>
    decreases n,
{
    if n == 0 {
        seq![]
    } else {
        error_lines(v, (n - 1) as nat) + error_line(v[n - 1])
    }
}

pub open spec fn validation_report(v: Seq<ValidationError>) -> Seq<char> {
    error_lines(v, v.len()) + "エディタを再度開いて修正してください。\n"@
}

/// The text the edit loop prints for a draft that failed validation.
pub fn format_validation_errors(errors: &Vec<ValidationError>) -> (r: String)
    ensures
        r@ == validation_report(errors@),
{
    let mut out = String::new();
    let mut i: usize = 0;
    while i < errors.len()
        invariant
            i <= errors@.len(),
            out@ == error_lines(errors@, i as nat),
        decreases errors.len() - i,
    {
        let e = &errors[i];
        out.append("error: ");
        out.append(e.code.as_str());
        out.append(": ");
        out.append(e.message.as_str());
        out.append(" (");
        match &e.suggestion {
            Some(s) => {
                out.append("suggested=\"");
                out.append(s.as_str());
                out.append("\", ");
            },
            None => {},
        }
        out.append("path=");
        out.append(e.path.as_str());
        out.append(")\n");
        i = i + 1;
    }
    out.append("エディタを再度開いて修正してください。\n");
    out
}

} // verus!
