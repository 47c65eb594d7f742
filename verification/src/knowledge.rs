//! Knowledge elements (Requirement / Feature / Behavior / Scenario), their
//! deterministic YAML serialization, and the slug rules for element ids.
use vstd::prelude::*;

use wana_kana::ConvertJapanese;

use crate::lines::{indent_block_scalar, spec_indent_block_scalar};
use crate::text::{
    char_is_whitespace, push_char, seq_lt, str_eq, str_lt, strictly_sorted, unicode_white_space,
    views,
};

verus! {

pub struct Requirement {
    pub id: String,
    pub label: String,
    pub axis: Vec<String>,
    pub description: Option<String>,
    pub source: Option<String>,
    pub related_issues: Vec<String>,
    /// The immutable identity; `None` until `identity migrate` runs.
    pub uid: Option<String>,
}

pub struct Feature {
    pub id: String,
    /// The uids of the Requirements this Feature relates to (never their
    /// display ids).
    pub requirement_uids: Vec<String>,
    pub label: String,
    pub axis: Vec<String>,
    pub description: Option<String>,
    /// The conceptual Feature this one was derived from (by id).
    pub forked_from: Option<String>,
    pub uid: Option<String>,
}

/// A shared procedure a Scenario's phase can reference with `use:`.
pub struct Procedure {
    pub steps: Vec<String>,
}

/// Named procedures, kept ordered by name with no name twice (as a
/// `BTreeMap` keyed by name would be), so serialization is deterministic.
pub struct ProcedureMap {
    entries: Vec<(String, Procedure)>,
}

pub struct Behavior {
    pub id: String,
    pub feature: String,
    pub label: String,
    pub axis: Vec<String>,
    pub description: String,
    pub procedures: ProcedureMap,
    pub uid: Option<String>,
}

/// One operation within a phase: a free-text action, or a reference to a
/// procedure of the owning Behavior.
pub enum StepItem {
    Action { action: String },
    Use { procedure: String },
}

/// An ordered unit of operations and observable results.
pub struct Phase {
    pub steps: Vec<StepItem>,
    pub results: Vec<String>,
}

/// How a Scenario's content was produced. An absent value means unknown.
#[derive(Debug, Clone, Copy, PartialEq, Eq, Structural)]
pub enum GeneratedBy {
    Manual,
    Llm,
    AutoCombination,
}

/// A human review gate on a Scenario.
pub struct VerifiedBy {
    pub human_review: bool,
}

/// One Scenario is one TestCase.
pub struct Scenario {
    pub id: String,
    pub behavior: String,
    pub label: String,
    pub description: String,
    pub phases: Vec<Phase>,
    pub implementation_note: Option<String>,
    pub generated_by: Option<GeneratedBy>,
    pub verified_by: Option<VerifiedBy>,
    pub uid: Option<String>,
}

// ---------------------------------------------------------------------------
// ProcedureMap
// ---------------------------------------------------------------------------

pub open spec fn entry_names(e: Seq<(String, Procedure)>) -> Seq<Seq<char>> {
    e.map_values(|p: (String, Procedure)| p.0@)
}

impl ProcedureMap {
    #[verifier::type_invariant]
    spec fn well_formed(self) -> bool {
        strictly_sorted(entry_names(self.entries@))
    }

    /// The procedure names, in ascending order.
    pub closed spec fn names(self) -> Seq<Seq<char>> {
        entry_names(self.entries@)
    }

    /// The steps of each procedure, in name order.
    pub closed spec fn steps(self) -> Seq<Seq<Seq<char>>> {
        self.entries@.map_values(|p: (String, Procedure)| views(p.1.steps@))
    }

    /// Every name has its steps.
    pub proof fn lemma_names_steps_len(self)
        ensures
            self.names().len() == self.steps().len(),
    {
    }

    pub fn new() -> (r: ProcedureMap)
        ensures
            r.names().len() == 0,
    {
        ProcedureMap { entries: Vec::new() }
    }

    pub fn len(&self) -> (r: usize)
        ensures
            r == self.names().len(),
    {
        self.entries.len()
    }

    pub fn is_empty(&self) -> (r: bool)
        ensures
            r == (self.names().len() == 0),
    {
        self.entries.len() == 0
    }

    /// The procedure named `name`, if any.
    pub fn get(&self, name: &str) -> (r: Option<&Procedure>)
        ensures
            match r {
                Some(p) => exists|i: int|
                    0 <= i < self.names().len() && self.names()[i] == name@ && self.steps()[i]
                        == views(p.steps@),
                None => !self.names().contains(name@),
            },
    {
        let mut i: usize = 0;
        while i < self.entries.len()
            invariant
                i <= self.entries@.len(),
                forall|k: int| 0 <= k < i ==> entry_names(self.entries@)[k] != name@,
            decreases self.entries.len() - i,
        {
            if str_eq(self.entries[i].0.as_str(), name) {
                assert(self.names()[i as int] == name@);
                assert(self.steps()[i as int] == views(self.entries@[i as int].1.steps@));
                return Some(&self.entries[i].1);
            }
            i = i + 1;
        }
        None
    }

    /// Inserts `procedure` under `name`, replacing any procedure already
    /// named so; names stay in ascending order.
    pub fn insert(&mut self, name: String, procedure: Procedure)
        ensures
            strictly_sorted(final(self).names()),
            final(self).names().to_set() == old(self).names().to_set().insert(name@),
            exists|i: int|
                0 <= i < final(self).names().len() && final(self).names()[i] == name@
                    && final(self).steps()[i] == views(procedure.steps@),
            forall|j: int|
                0 <= j < old(self).names().len() && old(self).names()[j] != name@ ==> exists|
                    i: int,
                |
                    0 <= i < final(self).names().len() && final(self).names()[i] == old(
                        self,
                    ).names()[j] && final(self).steps()[i] == old(self).steps()[j],
    {
        proof {
            use_type_invariant(&*self);
        }
        let ghost old_names = entry_names(self.entries@);
        let ghost old_entries = self.entries@;
        let mut pos: usize = 0;
        while pos < self.entries.len() && str_lt(self.entries[pos].0.as_str(), name.as_str())
            invariant
                pos <= self.entries@.len(),
                self.entries@ == old_entries,
                old_names == entry_names(old_entries),
                strictly_sorted(old_names),
                forall|k: int| 0 <= k < pos ==> seq_lt(#[trigger] old_names[k], name@),
            decreases self.entries.len() - pos,
        {
            pos = pos + 1;
        }
        let replace = pos < self.entries.len() && str_eq(self.entries[pos].0.as_str(), name.as_str());
        let ghost new_name = name@;
        let ghost new_steps = views(procedure.steps@);
        let mut entries = Vec::new();
        std::mem::swap(&mut entries, &mut self.entries);
        proof {
            assert(entries@ == old_entries);
            if pos < old_names.len() && !replace {
                crate::text::lemma_seq_lt_total(old_names[pos as int], name@);
            }
        }
        if replace {
            entries.set(pos, (name, procedure));
        } else {
            entries.insert(pos, (name, procedure));
        }
        proof {
            let nn = entry_names(entries@);
            if replace {
                assert(nn =~= old_names.update(pos as int, new_name));
            } else {
                assert(nn =~= old_names.insert(pos as int, new_name));
            }
            assert forall|a: int, b: int| 0 <= a < b < nn.len() implies seq_lt(
                #[trigger] nn[a],
                #[trigger] nn[b],
            ) by {
                if replace {
                    if a == pos {
                        crate::text::lemma_seq_lt_transitive(nn[a], old_names[pos as int], nn[b]);
                    }
                } else {
                    if b == pos {
                    } else if a == pos {
                        crate::text::lemma_seq_lt_transitive(new_name, old_names[pos as int], nn[b]);
                        if b > pos + 1 {
                            assert(seq_lt(old_names[pos as int], old_names[b - 1]));
                        }
                    } else if a < pos && b > pos {
                        assert(seq_lt(old_names[a], old_names[b - 1]));
                    } else if a > pos {
                        assert(seq_lt(old_names[a - 1], old_names[b - 1]));
                    }
                }
            }
            assert(nn[pos as int] == new_name);
            assert(nn.to_set() =~= old_names.to_set().insert(new_name)) by {
                assert forall|x: Seq<char>| nn.to_set().contains(x) <==> old_names.to_set().insert(
                    new_name,
                ).contains(x) by {
                    if nn.to_set().contains(x) {
                        let i = choose|i: int| 0 <= i < nn.len() && nn[i] == x;
                        if x != new_name {
                            if replace || i < pos {
                                assert(old_names[i] == x);
                            } else {
                                assert(old_names[i - 1] == x);
                            }
                        }
                    }
                    if old_names.to_set().contains(x) && x != new_name {
                        let j = choose|j: int| 0 <= j < old_names.len() && old_names[j] == x;
                        if replace || j < pos {
                            assert(nn[j] == x);
                        } else {
                            assert(nn[j + 1] == x);
                        }
                    }
                }
            }
        }
        self.entries = entries;
        proof {
            use_type_invariant(&*self);
            let ns = self.entries@.map_values(|p: (String, Procedure)| views(p.1.steps@));
            let os = old_entries.map_values(|p: (String, Procedure)| views(p.1.steps@));
            assert(ns[pos as int] == new_steps);
            assert forall|j: int|
                0 <= j < old_names.len() && old_names[j] != name@ implies exists|i: int|
                0 <= i < self.names().len() && self.names()[i] == old_names[j] && self.steps()[i]
                    == os[j] by {
                if replace || j < pos {
                    assert(self.names()[j] == old_names[j]);
                    assert(self.steps()[j] == os[j]);
                } else {
                    assert(self.names()[j + 1] == old_names[j]);
                    assert(self.steps()[j + 1] == os[j]);
                }
            }
        }
    }
}

// ---------------------------------------------------------------------------
// Serialization.
// ---------------------------------------------------------------------------

/// A lowercase hexadecimal digit, for `n < 16`.
pub open spec fn hex_digit(n: int) -> char {
    seq!['0', '1', '2', '3', '4', '5', '6', '7', '8', '9', 'a', 'b', 'c', 'd', 'e', 'f'][n]
}

/// How serde_json writes one character inside a string literal: `"` and
/// `\` are escaped with a backslash, backspace, tab, line feed, form feed
/// and carriage return as `\b \t \n \f \r`, every other character
/// below U+0020 as `\u00XX` (lowercase hex), and anything else as itself.
pub open spec fn json_escaped_char(c: char) -> Seq<char> {
    let n = c as u32;
    if c == '"' {
        seq!['\\', '"']
    } else if c == '\\' {
        seq!['\\', '\\']
    } else if n == 8 {
        seq!['\\', 'b']
    } else if n == 9 {
        seq!['\\', 't']
    } else if n == 10 {
        seq!['\\', 'n']
    } else if n == 12 {
        seq!['\\', 'f']
    } else if n == 13 {
        seq!['\\', 'r']
    } else if n < 32 {
        seq!['\\', 'u', '0', '0', hex_digit((n / 16) as int), hex_digit((n % 16) as int)]
    } else {
        seq![c]
    }
}

/// The escaped contents of a JSON string literal for `s`.
pub open spec fn json_escaped(s: Seq<char>) -> Seq<char>
    decreases s.len(),
{
    if s.len() == 0 {
        Seq::empty()
    } else {
        json_escaped(s.drop_last()) + json_escaped_char(s.last())
    }
}

/// The JSON string literal serde_json writes for `s`: `s` escaped, between
/// double quotes.
pub open spec fn json_string_literal(s: Seq<char>) -> Seq<char> {
    seq!['"'] + json_escaped(s) + seq!['"']
}

/// Calls `serde_json::to_string` on a `&str`, which writes the string
/// literal with serde_json's escape table (its `format_escaped_str`).
/// Serializing a string slice to a `String` cannot fail (the writer is an
/// in-memory buffer), so the `unwrap` never fires.
#[verifier::external_body]
fn json_quote(s: &str) -> (r: String)
    ensures
        r@ == json_string_literal(s@),
{
    serde_json::to_string(s).unwrap()
}

/// Items joined with `", "`.
pub open spec fn join_comma(items: Seq<Seq<char>>) -> Seq<char>
    decreases items.len(),
{
    if items.len() == 0 {
        Seq::empty()
    } else if items.len() == 1 {
        items[0]
    } else {
        join_comma(items.drop_last()) + ", "@ + items.last()
    }
}

/// A YAML flow sequence of plain scalars: `[a, b, c]`.
pub open spec fn flow_array(items: Seq<Seq<char>>) -> Seq<char> {
    "["@ + join_comma(items) + "]"@
}

/// The trailing `uid:` line, present only when the element has a uid.
pub open spec fn uid_line(uid: Option<String>) -> Seq<char> {
    match uid {
        Some(u) => "uid: "@ + u@ + "\n"@,
        None => Seq::empty(),
    }
}

/// `header` followed by `text` as an indented block scalar, when present.
pub open spec fn block(header: Seq<char>, text: Option<String>) -> Seq<char> {
    match text {
        Some(t) => header + spec_indent_block_scalar(t@, "  "@),
        None => Seq::empty(),
    }
}

pub open spec fn requirement_yaml(r: Requirement) -> Seq<char> {
    "id: "@ + r.id@ + "\nlabel: "@ + r.label@ + "\naxis: "@ + flow_array(views(r.axis@)) + "\n"@
        + block("description: |\n"@, r.description) + uid_line(r.uid)
}

pub open spec fn feature_yaml(f: Feature) -> Seq<char> {
    "id: "@ + f.id@ + "\nrequirement_uids: "@ + flow_array(views(f.requirement_uids@))
        + "\nlabel: "@ + f.label@ + "\naxis: "@ + flow_array(views(f.axis@)) + "\n"@ + block(
        "description: |\n"@,
        f.description,
    ) + match f.forked_from {
        Some(x) => "forked_from: "@ + x@ + "\n"@,
        None => Seq::empty(),
    } + uid_line(f.uid)
}

pub open spec fn json_items(items: Seq<Seq<char>>) -> Seq<char>
    decreases items.len(),
{
    if items.len() == 0 {
        Seq::empty()
    } else {
        json_items(items.drop_last()) + "      - "@ + json_string_literal(items.last()) + "\n"@
    }
}

pub open spec fn procedures_yaml(names: Seq<Seq<char>>, steps: Seq<Seq<Seq<char>>>) -> Seq<char>
    decreases names.len(),
{
    if names.len() == 0 {
        Seq::empty()
    } else {
        procedures_yaml(names.drop_last(), steps.drop_last()) + "  "@ + names.last() + ":\n"@
            + "    steps:\n"@ + json_items(steps.last())
    }
}

pub open spec fn behavior_yaml(b: Behavior) -> Seq<char> {
    "id: "@ + b.id@ + "\nfeature: "@ + b.feature@ + "\nlabel: "@ + b.label@ + "\naxis: "@
        + flow_array(views(b.axis@)) + "\ndescription: |\n"@ + spec_indent_block_scalar(
        b.description@,
        "  "@,
    ) + if b.procedures.names().len() == 0 {
        "procedures: {}\n"@
    } else {
        "procedures:\n"@ + procedures_yaml(b.procedures.names(), b.procedures.steps())
    } + uid_line(b.uid)
}

pub open spec fn step_inline(s: StepItem) -> Seq<char> {
    match s {
        StepItem::Action { action } => "action: "@ + json_string_literal(action@),
        StepItem::Use { procedure } => "use: "@ + procedure@,
    }
}

pub open spec fn steps_yaml(steps: Seq<StepItem>) -> Seq<char>
    decreases steps.len(),
{
    if steps.len() == 0 {
        Seq::empty()
    } else {
        steps_yaml(steps.drop_last()) + "      - "@ + step_inline(steps.last()) + "\n"@
    }
}

pub open spec fn phase_yaml(p: Phase) -> Seq<char> {
    "  - steps:\n"@ + steps_yaml(p.steps@) + "    results:\n"@ + json_items(views(p.results@))
}

pub open spec fn phases_yaml(ps: Seq<Phase>) -> Seq<char>
    decreases ps.len(),
{
    if ps.len() == 0 {
        Seq::empty()
    } else {
        phases_yaml(ps.drop_last()) + phase_yaml(ps.last())
    }
}

pub open spec fn generated_by_name(g: GeneratedBy) -> Seq<char> {
    match g {
        GeneratedBy::Manual => "manual"@,
        GeneratedBy::Llm => "llm"@,
        GeneratedBy::AutoCombination => "auto_combination"@,
    }
}

pub open spec fn bool_text(b: bool) -> Seq<char> {
    if b {
        "true"@
    } else {
        "false"@
    }
}

pub open spec fn scenario_yaml(s: Scenario) -> Seq<char> {
    "id: "@ + s.id@ + "\nbehavior: "@ + s.behavior@ + "\nlabel: "@ + s.label@
        + "\ndescription: |\n"@ + spec_indent_block_scalar(s.description@, "  "@) + "phases:\n"@
        + phases_yaml(s.phases@) + block("implementation_note: |\n"@, s.implementation_note)
        + match s.generated_by {
        Some(g) => "generated_by: "@ + generated_by_name(g) + "\n"@,
        None => Seq::empty(),
    } + match s.verified_by {
        Some(v) => "verified_by:\n"@ + "  human_review: "@ + bool_text(v.human_review) + "\n"@,
        None => Seq::empty(),
    } + uid_line(s.uid)
}

/// The items separated by `", "` (`slice.join(", ")`).
pub fn join_with_comma(items: &Vec<String>) -> (r: String)
    ensures
        r@ == join_comma(views(items@)),
{
    let ghost vs = views(items@);
    let mut out = String::new();
    let mut i: usize = 0;
    while i < items.len()
        invariant
            i <= items@.len(),
            vs == views(items@),
            out@ == join_comma(vs.take(i as int)),
        decreases items.len() - i,
    {
        if i > 0 {
            out.append(", ");
        }
        out.append(items[i].as_str());
        assert(vs.take(i + 1).drop_last() =~= vs.take(i as int));
        if i == 0 {
            assert(vs.take(1) =~= seq![vs[0]]);
        }
        i = i + 1;
    }
    assert(vs.take(items@.len() as int) =~= vs);
    out
}

/// `[a, b, c]`.
fn yaml_flow_array(items: &Vec<String>) -> (r: String)
    ensures
        r@ == flow_array(views(items@)),
{
    let ghost vs = views(items@);
    let mut out = String::new();
    out.append("[");
    let ghost start = out@;
    let mut i: usize = 0;
    while i < items.len()
        invariant
            i <= items@.len(),
            vs == views(items@),
            start == "["@,
            out@ == start + join_comma(vs.take(i as int)),
        decreases items.len() - i,
    {
        if i > 0 {
            out.append(", ");
        }
        out.append(items[i].as_str());
        assert(vs.take(i + 1).drop_last() =~= vs.take(i as int));
        if i == 0 {
            assert(vs.take(1) =~= seq![vs[0]]);
        }
        i = i + 1;
    }
    out.append("]");
    assert(vs.take(items@.len() as int) =~= vs);
    out
}

fn append_uid_line(out: &mut String, uid: &Option<String>)
    ensures
        final(out)@ == old(out)@ + uid_line(*uid),
{
    if let Some(uid) = uid {
        out.append("uid: ");
        out.append(uid.as_str());
        out.append("\n");
    } else {
        assert(old(out)@ + Seq::<char>::empty() =~= old(out)@);
    }
}

fn append_block(out: &mut String, header: &str, text: &Option<String>)
    ensures
        final(out)@ == old(out)@ + block(header@, *text),
{
    if let Some(t) = text {
        out.append(header);
        let body = indent_block_scalar(t.as_str(), "  ");
        out.append(body.as_str());
    } else {
        assert(old(out)@ + Seq::<char>::empty() =~= old(out)@);
    }
}

pub fn serialize_requirement(requirement: &Requirement) -> (r: String)
    ensures
        r@ == requirement_yaml(*requirement),
{
    let mut out = String::new();
    out.append("id: ");
    out.append(requirement.id.as_str());
    out.append("\nlabel: ");
    out.append(requirement.label.as_str());
    out.append("\naxis: ");
    let axis = yaml_flow_array(&requirement.axis);
    out.append(axis.as_str());
    out.append("\n");
    append_block(&mut out, "description: |\n", &requirement.description);
    append_uid_line(&mut out, &requirement.uid);
    assert(out@ =~= requirement_yaml(*requirement));
    out
}

pub fn serialize_feature(feature: &Feature) -> (r: String)
    ensures
        r@ == feature_yaml(*feature),
{
    let mut out = String::new();
    out.append("id: ");
    out.append(feature.id.as_str());
    out.append("\nrequirement_uids: ");
    let uids = yaml_flow_array(&feature.requirement_uids);
    out.append(uids.as_str());
    out.append("\nlabel: ");
    out.append(feature.label.as_str());
    out.append("\naxis: ");
    let axis = yaml_flow_array(&feature.axis);
    out.append(axis.as_str());
    out.append("\n");
    append_block(&mut out, "description: |\n", &feature.description);
    let ghost before_fork = out@;
    if let Some(forked_from) = &feature.forked_from {
        out.append("forked_from: ");
        out.append(forked_from.as_str());
        out.append("\n");
    }
    append_uid_line(&mut out, &feature.uid);
    assert(out@ =~= feature_yaml(*feature));
    out
}

/// Appends one `      - "<json>"` line per item.
fn append_json_items(out: &mut String, items: &Vec<String>)
    ensures
        final(out)@ == old(out)@ + json_items(views(items@)),
{
    let ghost start = out@;
    let ghost vs = views(items@);
    let mut i: usize = 0;
    assert(vs.take(0) =~= Seq::<Seq<char>>::empty());
    assert(start + json_items(vs.take(0)) =~= start);
    while i < items.len()
        invariant
            i <= items@.len(),
            vs == views(items@),
            out@ == start + json_items(vs.take(i as int)),
        decreases items.len() - i,
    {
        out.append("      - ");
        let q = json_quote(items[i].as_str());
        out.append(q.as_str());
        out.append("\n");
        assert(vs.take(i + 1).drop_last() =~= vs.take(i as int));
        assert(out@ =~= start + json_items(vs.take(i + 1)));
        i = i + 1;
    }
    assert(vs.take(items@.len() as int) =~= vs);
}

pub fn serialize_behavior(behavior: &Behavior) -> (r: String)
    ensures
        r@ == behavior_yaml(*behavior),
{
    let mut out = String::new();
    out.append("id: ");
    out.append(behavior.id.as_str());
    out.append("\nfeature: ");
    out.append(behavior.feature.as_str());
    out.append("\nlabel: ");
    out.append(behavior.label.as_str());
    out.append("\naxis: ");
    let axis = yaml_flow_array(&behavior.axis);
    out.append(axis.as_str());
    out.append("\ndescription: |\n");
    let body = indent_block_scalar(behavior.description.as_str(), "  ");
    out.append(body.as_str());
    let ghost mid = out@;
    let procs = &behavior.procedures;
    proof {
        use_type_invariant(procs);
    }
    if procs.entries.len() == 0 {
        out.append("procedures: {}\n");
    } else {
        out.append("procedures:\n");
        let ghost head = out@;
        let ghost names = procs.names();
        let ghost steps = procs.steps();
        let mut i: usize = 0;
        assert(head + procedures_yaml(names.take(0), steps.take(0)) =~= head);
        while i < procs.entries.len()
            invariant
                i <= procs.entries@.len(),
                names == procs.names(),
                steps == procs.steps(),
                names.len() == procs.entries@.len(),
                steps.len() == procs.entries@.len(),
                out@ == head + procedures_yaml(names.take(i as int), steps.take(i as int)),
            decreases procs.entries.len() - i,
        {
            let (name, procedure) = &procs.entries[i];
            out.append("  ");
            out.append(name.as_str());
            out.append(":\n");
            out.append("    steps:\n");
            append_json_items(&mut out, &procedure.steps);
            assert(names.take(i + 1).drop_last() =~= names.take(i as int));
            assert(steps.take(i + 1).drop_last() =~= steps.take(i as int));
            assert(names[i as int] == name@);
            assert(steps[i as int] == views(procedure.steps@));
            assert(out@ =~= head + procedures_yaml(names.take(i + 1), steps.take(i + 1)));
            i = i + 1;
        }
        assert(names.take(procs.entries@.len() as int) =~= names);
        assert(steps.take(procs.entries@.len() as int) =~= steps);
    }
    append_uid_line(&mut out, &behavior.uid);
    assert(out@ =~= behavior_yaml(*behavior));
    out
}

fn serialize_step_item_inline(item: &StepItem) -> (r: String)
    ensures
        r@ == step_inline(*item),
{
    let mut out = String::new();
    match item {
        StepItem::Action { action } => {
            out.append("action: ");
            let q = json_quote(action.as_str());
            out.append(q.as_str());
        },
        StepItem::Use { procedure } => {
            out.append("use: ");
            out.append(procedure.as_str());
        },
    }
    out
}

fn serialize_phase_block(phase: &Phase) -> (r: String)
    ensures
        r@ == phase_yaml(*phase),
{
    let mut out = String::new();
    out.append("  - steps:\n");
    let ghost head = out@;
    let mut i: usize = 0;
    assert(head + steps_yaml(phase.steps@.take(0)) =~= head);
    while i < phase.steps.len()
        invariant
            i <= phase.steps@.len(),
            out@ == head + steps_yaml(phase.steps@.take(i as int)),
        decreases phase.steps.len() - i,
    {
        out.append("      - ");
        let s = serialize_step_item_inline(&phase.steps[i]);
        out.append(s.as_str());
        out.append("\n");
        assert(phase.steps@.take(i + 1).drop_last() =~= phase.steps@.take(i as int));
        assert(out@ =~= head + steps_yaml(phase.steps@.take(i + 1)));
        i = i + 1;
    }
    assert(phase.steps@.take(phase.steps@.len() as int) =~= phase.steps@);
    out.append("    results:\n");
    append_json_items(&mut out, &phase.results);
    assert(out@ =~= phase_yaml(*phase));
    out
}

fn append_phases(out: &mut String, phases: &Vec<Phase>)
    ensures
        final(out)@ == old(out)@ + phases_yaml(phases@),
{
    let ghost head = out@;
    let mut i: usize = 0;
    assert(head + phases_yaml(phases@.take(0)) =~= head);
    while i < phases.len()
        invariant
            i <= phases@.len(),
            out@ == head + phases_yaml(phases@.take(i as int)),
        decreases phases.len() - i,
    {
        let p = serialize_phase_block(&phases[i]);
        out.append(p.as_str());
        assert(phases@.take(i + 1).drop_last() =~= phases@.take(i as int));
        assert(out@ =~= head + phases_yaml(phases@.take(i + 1)));
        i = i + 1;
    }
    assert(phases@.take(phases@.len() as int) =~= phases@);
}

/// The parts of a scenario's YAML after its phases.
pub open spec fn scenario_tail(s: Scenario) -> Seq<char> {
    block("implementation_note: |\n"@, s.implementation_note) + generated_by_line(s.generated_by)
        + verified_by_lines(s.verified_by) + uid_line(s.uid)
}

pub open spec fn generated_by_line(g: Option<GeneratedBy>) -> Seq<char> {
    match g {
        Some(g) => "generated_by: "@ + generated_by_name(g) + "\n"@,
        None => Seq::empty(),
    }
}

pub open spec fn verified_by_lines(v: Option<VerifiedBy>) -> Seq<char> {
    match v {
        Some(v) => "verified_by:\n"@ + "  human_review: "@ + bool_text(v.human_review) + "\n"@,
        None => Seq::empty(),
    }
}

fn append_generated_by(out: &mut String, generated_by: &Option<GeneratedBy>)
    ensures
        final(out)@ == old(out)@ + generated_by_line(*generated_by),
{
    if let Some(generated_by) = generated_by {
        out.append("generated_by: ");
        match generated_by {
            GeneratedBy::Manual => out.append("manual"),
            GeneratedBy::Llm => out.append("llm"),
            GeneratedBy::AutoCombination => out.append("auto_combination"),
        }
        out.append("\n");
    } else {
        assert(old(out)@ + Seq::<char>::empty() =~= old(out)@);
    }
}

fn append_verified_by(out: &mut String, verified_by: &Option<VerifiedBy>)
    ensures
        final(out)@ == old(out)@ + verified_by_lines(*verified_by),
{
    if let Some(verified_by) = verified_by {
        out.append("verified_by:\n");
        out.append("  human_review: ");
        if verified_by.human_review {
            out.append("true");
        } else {
            out.append("false");
        }
        out.append("\n");
    } else {
        assert(old(out)@ + Seq::<char>::empty() =~= old(out)@);
    }
}

fn append_scenario_tail(out: &mut String, scenario: &Scenario)
    ensures
        final(out)@ == old(out)@ + scenario_tail(*scenario),
{
    append_block(out, "implementation_note: |\n", &scenario.implementation_note);
    append_generated_by(out, &scenario.generated_by);
    append_verified_by(out, &scenario.verified_by);
    append_uid_line(out, &scenario.uid);
    assert(out@ =~= old(out)@ + scenario_tail(*scenario));
}

pub fn serialize_scenario(scenario: &Scenario) -> (r: String)
    ensures
        r@ == scenario_yaml(*scenario),
{
    let mut out = String::new();
    out.append("id: ");
    out.append(scenario.id.as_str());
    out.append("\nbehavior: ");
    out.append(scenario.behavior.as_str());
    out.append("\nlabel: ");
    out.append(scenario.label.as_str());
    out.append("\ndescription: |\n");
    let body = indent_block_scalar(scenario.description.as_str(), "  ");
    out.append(body.as_str());
    out.append("phases:\n");
    append_phases(&mut out, &scenario.phases);
    append_scenario_tail(&mut out, scenario);
    assert(out@ =~= scenario_yaml(*scenario));
    out
}

// ---------------------------------------------------------------------------
// Slugs and ids.
// ---------------------------------------------------------------------------

/// `scenario_id` without a leading `"<feature_id>-"`, when that prefix is
/// present and something remains after it.
pub open spec fn spec_strip_prefix(feature_id: Seq<char>, scenario_id: Seq<char>) -> Option<
    Seq<char>,
> {
    let prefix = feature_id + "-"@;
    if scenario_id.len() > prefix.len() && scenario_id.subrange(0, prefix.len() as int) == prefix {
        Some(scenario_id.subrange(prefix.len() as int, scenario_id.len() as int))
    } else {
        None
    }
}

pub fn strip_redundant_scenario_prefix(feature_id: &str, scenario_id: &str) -> (r: Option<String>)
    ensures
        match r {
            Some(x) => spec_strip_prefix(feature_id@, scenario_id@) == Some(x@),
            None => spec_strip_prefix(feature_id@, scenario_id@) is None,
        },
{
    let mut prefix = String::from_str(feature_id);
    prefix.append("-");
    let p = prefix.unicode_len();
    let n = scenario_id.unicode_len();
    if n <= p {
        return None;
    }
    let head = scenario_id.substring_char(0, p);
    if !str_eq(head, prefix.as_str()) {
        return None;
    }
    let rest = scenario_id.substring_char(p, n);
    Some(String::from_str(rest))
}

pub fn contains_non_ascii(s: &str) -> (r: bool)
    ensures
        r == !vstd::string::is_ascii(s),
{
    !s.is_ascii()
}

/// The romaji reading wana_kana produces for `s`.
pub uninterp spec fn romaji_of(s: Seq<char>) -> Seq<char>;

/// A half-width voiced or semi-voiced sound mark (U+FF9E, U+FF9F).
pub open spec fn is_halfwidth_sound_mark(c: char) -> bool {
    c == '\u{FF9E}' || c == '\u{FF9F}'
}

/// Whether wana_kana's half-width table reads `base` followed by `mark` as
/// one kana: the voiced mark after ｳ, ｶ–ﾄ and ﾊ–ﾎ, the semi-voiced mark
/// after ﾊ–ﾎ.
pub open spec fn takes_sound_mark(base: char, mark: char) -> bool {
    let b = base as u32;
    ||| mark == '\u{FF9E}' && (b == 0xFF73 || (0xFF76 <= b && b <= 0xFF84) || (0xFF8A <= b && b
        <= 0xFF8E))
    ||| mark == '\u{FF9F}' && 0xFF8A <= b && b <= 0xFF8E
}

/// Whether wana_kana can read `s`: every half-width sound mark follows a
/// kana that takes it. A mark anywhere else starts a lookup that matches
/// nothing, which wana_kana does not survive.
pub open spec fn romanizable(s: Seq<char>) -> bool {
    forall|i: int|
        0 <= i < s.len() && is_halfwidth_sound_mark(#[trigger] s[i]) ==> i > 0 && takes_sound_mark(
            s[i - 1],
            s[i],
        )
}

pub fn is_romanizable(s: &str) -> (r: bool)
    ensures
        r == romanizable(s@),
{
    let n = s.unicode_len();
    let mut i: usize = 0;
    while i < n
        invariant
            i <= n,
            n == s@.len(),
            forall|k: int|
                0 <= k < i && is_halfwidth_sound_mark(#[trigger] s@[k]) ==> k > 0 && takes_sound_mark(
                    s@[k - 1],
                    s@[k],
                ),
        decreases n - i,
    {
        let c = s.get_char(i);
        if c == '\u{FF9E}' || c == '\u{FF9F}' {
            if i == 0 {
                return false;
            }
            let b = s.get_char(i - 1) as u32;
            let takes = if c == '\u{FF9E}' {
                b == 0xFF73 || (0xFF76 <= b && b <= 0xFF84) || (0xFF8A <= b && b <= 0xFF8E)
            } else {
                0xFF8A <= b && b <= 0xFF8E
            };
            if !takes {
                return false;
            }
        }
        i = i + 1;
    }
    true
}

/// Calls `wana_kana::ConvertJapanese::to_romaji`. Of its result it claims
/// only that it depends on `japanese` alone (named `romaji_of`); the kana
/// tables are wana_kana's. It requires `romanizable`: on a half-width sound
/// mark its half-width table does not read, wana_kana's index arithmetic
/// underflows (a panic, or an endless loop when overflow is not checked).
#[verifier::external_body]
pub fn romanize_label(japanese: &str) -> (r: String)
    requires
        romanizable(japanese@),
    ensures
        r@ == romaji_of(japanese@),
{
    japanese.to_romaji()
}

/// The lowercase mapping `str::to_lowercase` produces for `s`.
pub uninterp spec fn unicode_lowercase(s: Seq<char>) -> Seq<char>;

/// Calls `str::to_lowercase`. Claims only that the result depends on `s`
/// alone (named `unicode_lowercase`); Unicode case mapping is not restated.
#[verifier::external_body]
fn to_lowercase(s: &str) -> (r: String)
    ensures
        r@ == unicode_lowercase(s@),
{
    s.to_lowercase()
}

pub open spec fn is_slug_char(c: char) -> bool {
    ('a' <= c && c <= 'z') || ('0' <= c && c <= '9') || c == '-'
}

/// A valid slug: non-empty, lowercase ASCII letters, digits and hyphens.
pub open spec fn spec_is_valid_slug(s: Seq<char>) -> bool {
    s.len() > 0 && forall|i: int| 0 <= i < s.len() ==> is_slug_char(#[trigger] s[i])
}

pub fn is_valid_slug(s: &str) -> (r: bool)
    ensures
        r == spec_is_valid_slug(s@),
{
    let n = s.unicode_len();
    if n == 0 {
        return false;
    }
    let mut i: usize = 0;
    while i < n
        invariant
            n == s@.len(),
            i <= n,
            forall|j: int| 0 <= j < i ==> is_slug_char(#[trigger] s@[j]),
        decreases n - i,
    {
        let c = s.get_char(i);
        if !(('a' <= c && c <= 'z') || ('0' <= c && c <= '9') || c == '-') {
            return false;
        }
        i = i + 1;
    }
    true
}

/// How a (lowercased) character takes part in a slug candidate: kept as is,
/// turned into a word separator, or dropped.
pub open spec fn slug_class(c: char) -> Option<char> {
    if ('a' <= c && c <= 'z') || ('0' <= c && c <= '9') {
        Some(c)
    } else if unicode_white_space(c) || c == '-' {
        Some('-')
    } else {
        None
    }
}

/// Collapsing state over the first `n` characters: the output so far (never
/// ending in a hyphen) and whether a separator is pending.
pub open spec fn collapse(s: Seq<char>, n: nat) -> (Seq<char>, bool)
    decreases n,
{
    if n == 0 || n > s.len() {
        (Seq::empty(), false)
    } else {
        let (out, pending) = collapse(s, (n - 1) as nat);
        match slug_class(s[n - 1]) {
            Some(c) => if c == '-' {
                (out, out.len() > 0)
            } else if pending {
                (out + seq!['-', c], false)
            } else {
                (out.push(c), false)
            },
            None => (out, pending),
        }
    }
}

/// The slug candidate for `raw`: lowercased; letters and digits kept;
/// whitespace and hyphens collapsed into single separating hyphens, with
/// none leading or trailing; everything else dropped.
pub open spec fn spec_normalize_slug(raw: Seq<char>) -> Seq<char> {
    let lowered = unicode_lowercase(raw);
    collapse(lowered, lowered.len()).0
}

proof fn lemma_collapse_shape(s: Seq<char>, n: nat)
    requires
        n <= s.len(),
    ensures
        ({
            let out = collapse(s, n).0;
            &&& forall|i: int| 0 <= i < out.len() ==> is_slug_char(#[trigger] out[i])
            &&& out.len() > 0 ==> out[0] != '-' && out.last() != '-'
            &&& forall|i: int| 0 <= i < out.len() - 1 ==> !(#[trigger] out[i] == '-' && out[i + 1] == '-')
            &&& collapse(s, n).1 ==> out.len() > 0
        }),
    decreases n,
{
    if n > 0 {
        lemma_collapse_shape(s, (n - 1) as nat);
        let (out, pending) = collapse(s, (n - 1) as nat);
        let c = s[n - 1];
        if let Some(m) = slug_class(c) {
            if m != '-' {
                if pending {
                    let o2 = out + seq!['-', m];
                    assert forall|i: int| 0 <= i < o2.len() - 1 implies !(#[trigger] o2[i] == '-' && o2[i + 1] == '-') by {
                        if i < out.len() - 1 {
                            assert(o2[i] == out[i] && o2[i + 1] == out[i + 1]);
                        }
                    }
                } else {
                    let o2 = out.push(m);
                    assert forall|i: int| 0 <= i < o2.len() - 1 implies !(#[trigger] o2[i] == '-' && o2[i + 1] == '-') by {
                        if i < out.len() - 1 {
                            assert(o2[i] == out[i] && o2[i + 1] == out[i + 1]);
                        }
                    }
                }
            }
        }
    }
}

/// The slug candidate is always empty or a valid slug with no leading,
/// trailing or doubled hyphen.
pub proof fn lemma_normalized_slug_is_valid_or_empty(raw: Seq<char>)
    ensures
        ({
            let out = spec_normalize_slug(raw);
            &&& out.len() == 0 || spec_is_valid_slug(out)
            &&& out.len() > 0 ==> out[0] != '-' && out.last() != '-'
            &&& forall|i: int| 0 <= i < out.len() - 1 ==> !(#[trigger] out[i] == '-' && out[i + 1] == '-')
        }),
{
    let lowered = unicode_lowercase(raw);
    lemma_collapse_shape(lowered, lowered.len());
}

pub fn normalize_slug_candidate(raw: &str) -> (r: String)
    ensures
        r@ == spec_normalize_slug(raw@),
        r@.len() == 0 || spec_is_valid_slug(r@),
{
    proof {
        lemma_normalized_slug_is_valid_or_empty(raw@);
    }
    let lowered = to_lowercase(raw);
    let n = lowered.unicode_len();
    let mut out = String::new();
    let mut last_was_hyphen = false;
    let mut i: usize = 0;
    while i < n
        invariant
            n == lowered@.len(),
            i <= n,
            ({
                let (o, pending) = collapse(lowered@, i as nat);
                &&& out@ == (if pending || (last_was_hyphen && o.len() > 0) {
                    o.push('-')
                } else {
                    o
                })
                &&& (last_was_hyphen || !pending)
                &&& (o.len() == 0 ==> !pending)
                &&& (pending ==> last_was_hyphen)
                &&& (last_was_hyphen && o.len() > 0 ==> pending)
            }),
        decreases n - i,
    {
        let c = lowered.get_char(i);
        let ghost prev = collapse(lowered@, i as nat);
        if ('a' <= c && c <= 'z') || ('0' <= c && c <= '9') {
            push_char(&mut out, c);
            last_was_hyphen = false;
        } else if char_is_whitespace(c) || c == '-' {
            if !last_was_hyphen && out.unicode_len() > 0 {
                push_char(&mut out, '-');
            }
            last_was_hyphen = true;
        }
        proof {
            let (o, pending) = prev;
            assert(collapse(lowered@, (i + 1) as nat) == match slug_class(c) {
                Some(m) => if m == '-' {
                    (o, o.len() > 0)
                } else if pending {
                    (o + seq!['-', m], false)
                } else {
                    (o.push(m), false)
                },
                None => (o, pending),
            });
            if pending {
                assert(o.push('-').push(c) =~= o + seq!['-', c]);
            }
        }
        i = i + 1;
    }
    let k = out.unicode_len();
    if k > 0 && out.get_char(k - 1) == '-' {
        let trimmed = out.as_str().substring_char(0, k - 1);
        let r = String::from_str(trimmed);
        proof {
            lemma_collapse_shape(lowered@, n as nat);
            let (o, pending) = collapse(lowered@, n as nat);
            assert(r@ =~= o);
        }
        r
    } else {
        proof {
            lemma_collapse_shape(lowered@, n as nat);
        }
        out
    }
}

// ---------------------------------------------------------------------------
// Laws of the serializers and the slug rule.
// ---------------------------------------------------------------------------

/// A scenario's review gate is written as it stands: a scenario carrying
/// `verified_by` ends (before its `uid:` line) with
/// `verified_by:\n  human_review: true\n` when it was reviewed by a human
/// and `verified_by:\n  human_review: false\n` when it was not.
pub proof fn lemma_scenario_review_gate_is_written(s: Scenario)
    requires
        s.verified_by is Some,
    ensures
        ({
            let t = if s.verified_by->0.human_review {
                "verified_by:\n  human_review: true\n"@
            } else {
                "verified_by:\n  human_review: false\n"@
            };
            let u = uid_line(s.uid);
            let y = scenario_yaml(s);
            &&& y.len() >= t.len() + u.len()
            &&& y.subrange(y.len() - u.len() - t.len(), y.len() - u.len()) == t
        }),
{
    reveal_strlit("verified_by:\n  human_review: true\n");
    reveal_strlit("verified_by:\n  human_review: false\n");
    reveal_strlit("verified_by:\n");
    reveal_strlit("  human_review: ");
    reveal_strlit("true");
    reveal_strlit("false");
    reveal_strlit("\n");
    let v = s.verified_by->0;
    let t = if v.human_review {
        "verified_by:\n  human_review: true\n"@
    } else {
        "verified_by:\n  human_review: false\n"@
    };
    let w = "verified_by:\n"@ + "  human_review: "@ + bool_text(v.human_review) + "\n"@;
    assert(w =~= t);
    let u = uid_line(s.uid);
    let y = scenario_yaml(s);
    let head = "id: "@ + s.id@ + "\nbehavior: "@ + s.behavior@ + "\nlabel: "@ + s.label@
        + "\ndescription: |\n"@ + spec_indent_block_scalar(s.description@, "  "@) + "phases:\n"@
        + phases_yaml(s.phases@) + block("implementation_note: |\n"@, s.implementation_note)
        + match s.generated_by {
        Some(g) => "generated_by: "@ + generated_by_name(g) + "\n"@,
        None => Seq::empty(),
    };
    assert(y =~= head + w + u);
    assert(y.subrange(y.len() - u.len() - t.len(), y.len() - u.len()) =~= t);
}

/// Whether `c` is an ASCII lowercase letter or an ASCII digit.
pub open spec fn is_ascii_lower_or_digit(c: char) -> bool {
    ('a' <= c && c <= 'z') || ('0' <= c && c <= '9')
}

/// The ASCII lowercase letters and digits of `s`, in order.
pub open spec fn ascii_lower_and_digits(s: Seq<char>) -> Seq<char>
    decreases s.len(),
{
    if s.len() == 0 {
        Seq::empty()
    } else if is_ascii_lower_or_digit(s.last()) {
        ascii_lower_and_digits(s.drop_last()).push(s.last())
    } else {
        ascii_lower_and_digits(s.drop_last())
    }
}

/// `s` without its hyphens.
pub open spec fn without_hyphens(s: Seq<char>) -> Seq<char>
    decreases s.len(),
{
    if s.len() == 0 {
        Seq::empty()
    } else if s.last() == '-' {
        without_hyphens(s.drop_last())
    } else {
        without_hyphens(s.drop_last()).push(s.last())
    }
}

proof fn lemma_collapse_keeps_letters_and_digits(s: Seq<char>, n: nat)
    requires
        n <= s.len(),
    ensures
        without_hyphens(collapse(s, n).0) == ascii_lower_and_digits(s.take(n as int)),
    decreases n,
{
    if n == 0 {
        assert(s.take(0) =~= Seq::<char>::empty());
    } else {
        lemma_collapse_keeps_letters_and_digits(s, (n - 1) as nat);
        let (out, pending) = collapse(s, (n - 1) as nat);
        let c = s[n - 1];
        assert(s.take(n as int).drop_last() =~= s.take(n - 1));
        assert(s.take(n as int).last() == c);
        let prev = ascii_lower_and_digits(s.take(n - 1));
        assert(without_hyphens(out) == prev);
        if is_ascii_lower_or_digit(c) {
            assert(slug_class(c) == Some(c));
            assert(c != '-');
            assert(ascii_lower_and_digits(s.take(n as int)) == prev.push(c));
            if pending {
                let o2 = out + seq!['-', c];
                assert(o2 == collapse(s, n).0);
                assert(o2.drop_last() =~= out.push('-'));
                assert(o2.last() == c);
                assert(out.push('-').drop_last() =~= out);
                assert(without_hyphens(out.push('-')) == without_hyphens(out));
                assert(without_hyphens(o2) == without_hyphens(out.push('-')).push(c));
            } else {
                assert(out.push(c) == collapse(s, n).0);
                assert(out.push(c).drop_last() =~= out);
                assert(without_hyphens(out.push(c)) == without_hyphens(out).push(c));
            }
        } else {
            assert(ascii_lower_and_digits(s.take(n as int)) == prev);
            assert(collapse(s, n).0 == out);
        }
    }
}

/// Normalizing a label into a slug keeps exactly its ASCII lowercase
/// letters and digits, in order: apart from the separating hyphens, the
/// slug is the lowercased label's letters `a`–`z` and digits `0`–`9`.
pub proof fn lemma_normalized_slug_keeps_letters_and_digits(raw: Seq<char>)
    ensures
        without_hyphens(spec_normalize_slug(raw)) == ascii_lower_and_digits(unicode_lowercase(raw)),
{
    let lowered = unicode_lowercase(raw);
    lemma_collapse_keeps_letters_and_digits(lowered, lowered.len());
    assert(lowered.take(lowered.len() as int) =~= lowered);
}

proof fn lemma_collapse_all_kept(s: Seq<char>, n: nat)
    requires
        n <= s.len(),
        forall|i: int| 0 <= i < n ==> is_ascii_lower_or_digit(#[trigger] s[i]),
    ensures
        collapse(s, n) == (s.take(n as int), false),
    decreases n,
{
    if n == 0 {
        assert(s.take(0) =~= Seq::<char>::empty());
    } else {
        lemma_collapse_all_kept(s, (n - 1) as nat);
        assert(slug_class(s[n - 1]) == Some(s[n - 1]));
        assert(s.take(n - 1).push(s[n - 1]) =~= s.take(n as int));
    }
}

proof fn lemma_collapse_after_hyphen(s: Seq<char>, k: int, n: nat)
    requires
        0 < k,
        k + 1 < n <= s.len(),
        s[k] == '-',
        forall|i: int| 0 <= i < n && i != k ==> is_ascii_lower_or_digit(#[trigger] s[i]),
    ensures
        collapse(s, n) == (s.take(n as int), false),
    decreases n,
{
    if n == k + 2 {
        lemma_collapse_all_kept(s, k as nat);
        assert(collapse(s, (k + 1) as nat) == (s.take(k), true));
        assert(slug_class(s[k + 1]) == Some(s[k + 1]));
        assert(s.take(k) + seq!['-', s[k + 1]] =~= s.take(n as int));
    } else {
        lemma_collapse_after_hyphen(s, k, (n - 1) as nat);
        assert(slug_class(s[n - 1]) == Some(s[n - 1]));
        assert(s.take(n - 1).push(s[n - 1]) =~= s.take(n as int));
    }
}

/// A lowercased label made only of ASCII lowercase letters and digits is
/// its own slug, and so is one of two such words joined by a single
/// hyphen: the hyphen between them is kept.
pub proof fn lemma_plain_words_are_their_own_slug(raw: Seq<char>)
    ensures
        (forall|i: int|
            0 <= i < unicode_lowercase(raw).len() ==> is_ascii_lower_or_digit(
                #[trigger] unicode_lowercase(raw)[i],
            )) ==> spec_normalize_slug(raw) == unicode_lowercase(raw),
        forall|k: int|
            0 < k < unicode_lowercase(raw).len() - 1 && #[trigger] unicode_lowercase(raw)[k] == '-'
                && (forall|i: int|
                0 <= i < unicode_lowercase(raw).len() && i != k ==> is_ascii_lower_or_digit(
                    #[trigger] unicode_lowercase(raw)[i],
                )) ==> spec_normalize_slug(raw) == unicode_lowercase(raw),
{
    let l = unicode_lowercase(raw);
    if forall|i: int| 0 <= i < l.len() ==> is_ascii_lower_or_digit(#[trigger] l[i]) {
        lemma_collapse_all_kept(l, l.len());
        assert(l.take(l.len() as int) =~= l);
    }
    assert forall|k: int|
        0 < k < l.len() - 1 && #[trigger] l[k] == '-' && (forall|i: int|
            0 <= i < l.len() && i != k ==> is_ascii_lower_or_digit(#[trigger] l[i]))
        implies spec_normalize_slug(raw) == l by {
        lemma_collapse_after_hyphen(l, k, l.len());
        assert(l.take(l.len() as int) =~= l);
    }
}

} // verus!
