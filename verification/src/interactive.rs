//! The prompts of the interactive `knowledge add` flow, over a line-based
//! input and a text output.
//!
//! Each prompt is stated as a dialog over the remaining input lines: what it
//! answers, how many lines it reads, and what it writes. Reaching the end of
//! the input where an answer is still owed ends the prompt with
//! `PromptError::UnexpectedEof` instead of asking again.
use vstd::prelude::*;

use crate::knowledge::{
    contains_non_ascii, is_romanizable, is_valid_slug, normalize_slug_candidate, romaji_of,
    romanizable, romanize_label,
    spec_is_valid_slug, spec_normalize_slug, Phase, Procedure, ProcedureMap, StepItem,
};
use crate::lines::{lines_of, text_lines};
use crate::text::{decimal, is_blank, str_eq, trim, trim_is_empty, trimmed, u128_to_decimal, views};

verus! {

/// The input ended while an answer was still owed.
#[derive(Debug, Clone, Copy, PartialEq, Eq, Structural)]
pub enum PromptError {
    UnexpectedEof,
}

/// Lines of input handed out one at a time, as `BufRead::read_line` hands
/// them out (without the line terminator). It also remembers how much
/// output had been written when a line was first asked for past the end,
/// so that a caller holding only part of the input knows how far the
/// output is settled.
pub struct LineInput {
    lines: Vec<String>,
    pos: usize,
    shortfall: Option<usize>,
}

impl LineInput {
    #[verifier::type_invariant]
    spec fn within(self) -> bool {
        self.pos <= self.lines@.len()
    }

    /// The lines not read yet.
    pub closed spec fn rest(self) -> Seq<Seq<char>> {
        views(self.lines@).skip(self.pos as int)
    }

    /// The output length, in bytes, at the first read past the end of the
    /// input; `None` while every read found a line.
    pub closed spec fn spec_shortfall(self) -> Option<usize> {
        self.shortfall
    }

    /// The lines of `text`, split as `str::lines` splits them.
    pub fn from_text(text: &str) -> (r: LineInput)
        ensures
            r.rest() == lines_of(text@),
            r.spec_shortfall() is None,
    {
        let lines = text_lines(text);
        let r = LineInput { lines, pos: 0, shortfall: None };
        assert(views(r.lines@).skip(0) =~= views(r.lines@));
        r
    }

    /// The next line, or `None` at the end of the input; `written` is the
    /// length of the output that precedes this read, recorded at the first
    /// read past the end.
    pub fn read_line(&mut self, written: usize) -> (r: Option<String>)
        ensures
            old(self).rest().len() == 0 ==> r is None && final(self).rest() == old(self).rest(),
            old(self).rest().len() > 0 ==> (r matches Some(l) && l@ == old(self).rest()[0]
                && final(self).rest() == old(self).rest().drop_first()),
            final(self).spec_shortfall() == (if old(self).rest().len() == 0
                && old(self).spec_shortfall() is None {
                Some(written)
            } else {
                old(self).spec_shortfall()
            }),
    {
        proof {
            use_type_invariant(&*self);
        }
        if self.pos < self.lines.len() {
            let line = self.lines[self.pos].clone();
            let ghost before = views(self.lines@).skip(self.pos as int);
            self.pos = self.pos + 1;
            assert(views(self.lines@).skip(self.pos as int) =~= before.drop_first());
            Some(line)
        } else {
            if self.shortfall.is_none() {
                self.shortfall = Some(written);
            }
            None
        }
    }

    /// How much output, in bytes, had been written when a line was first
    /// asked for past the end of the input; `None` while every read found
    /// a line.
    pub fn shortfall(&self) -> (r: Option<usize>)
        ensures
            r == self.spec_shortfall(),
    {
        self.shortfall
    }
}

// ---------------------------------------------------------------------------
// Single lines.
// ---------------------------------------------------------------------------

pub open spec fn empty_notice() -> Seq<char> {
    "入力が空です。もう一度入力してください。\n"@
}

/// A required line: blank lines are refused with a notice and asked again.
/// `(answer, lines read, text written)`; no answer when the input ends.
pub open spec fn line_dialog(label: Seq<char>, ls: Seq<Seq<char>>) -> (Option<Seq<char>>, nat, Seq<char>)
    decreases ls.len(),
{
    if ls.len() == 0 {
        (None, 0, label)
    } else if trimmed(ls[0]).len() == 0 {
        let r = line_dialog(label, ls.drop_first());
        (r.0, r.1 + 1, label + empty_notice() + r.2)
    } else {
        (Some(trimmed(ls[0])), 1, label)
    }
}

pub proof fn lemma_line_dialog_reads(label: Seq<char>, ls: Seq<Seq<char>>)
    ensures
        line_dialog(label, ls).1 <= ls.len(),
        line_dialog(label, ls).0 is Some ==> line_dialog(label, ls).1 >= 1,
    decreases ls.len(),
{
    if ls.len() > 0 && trimmed(ls[0]).len() == 0 {
        lemma_line_dialog_reads(label, ls.drop_first());
    }
}

pub proof fn lemma_skip_skip(ls: Seq<Seq<char>>, a: int, b: int)
    requires
        0 <= a,
        0 <= b,
        a + b <= ls.len(),
    ensures
        ls.skip(a).skip(b) == ls.skip(a + b),
{
    assert(ls.skip(a).skip(b) =~= ls.skip(a + b));
}

/// Asks for a line until a non-blank one comes, and answers it trimmed.
pub fn prompt_line(input: &mut LineInput, out: &mut String, label: &str) -> (r: Result<
    String,
    PromptError,
>)
    ensures
        ({
            let d = line_dialog(label@, old(input).rest());
            &&& match r {
                Ok(v) => d.0 == Some(v@),
                Err(_) => d.0 is None,
            }
            &&& final(input).rest() == old(input).rest().skip(d.1 as int)
            &&& final(out)@ == old(out)@ + d.2
        }),
{
    let ghost rest0 = input.rest();
    let ghost out0 = out@;
    let ghost d0 = line_dialog(label@, rest0);
    let ghost mut read: nat = 0;
    assert(rest0.skip(0) =~= rest0);
    loop
        invariant
            rest0 == old(input).rest(),
            out0 == old(out)@,
            d0 == line_dialog(label@, rest0),
            read <= rest0.len(),
            input.rest() == rest0.skip(read as int),
            d0.0 == line_dialog(label@, input.rest()).0,
            d0.1 == read + line_dialog(label@, input.rest()).1,
            out0 + d0.2 == out@ + line_dialog(label@, input.rest()).2,
        decreases input.rest().len(),
    {
        let ghost ls = input.rest();
        let ghost out1 = out@;
        out.append(label);
        match input.read_line(out.as_str().len()) {
            None => {
                assert(line_dialog(label@, ls) == (None::<Seq<char>>, 0nat, label@));
                assert(input.rest() == rest0.skip(read as int));
                return Err(PromptError::UnexpectedEof);
            },
            Some(line) => {
                proof {
                    lemma_skip_skip(rest0, read as int, 1);
                    read = read + 1;
                }
                if trim_is_empty(line.as_str()) {
                    out.append("入力が空です。もう一度入力してください。\n");
                    assert(line_dialog(label@, ls).2 == label@ + empty_notice() + line_dialog(
                        label@,
                        ls.drop_first(),
                    ).2);
                    assert(out1 + (label@ + empty_notice() + line_dialog(label@, ls.drop_first()).2)
                        =~= out@ + line_dialog(label@, ls.drop_first()).2);
                } else {
                    let value = trim(line.as_str());
                    proof {
                        crate::text::lemma_trimmed_empty_iff_blank(line@);
                    }
                    assert(input.rest() == rest0.skip(read as int));
                    return Ok(value);
                }
            },
        }
    }
}

/// A line that may be blank (meaning "finished" or "none"); the end of the
/// input reads as a blank line.
pub fn prompt_optional_line(input: &mut LineInput, out: &mut String, label: &str) -> (r: String)
    ensures
        final(out)@ == old(out)@ + label@,
        old(input).rest().len() == 0 ==> r@.len() == 0 && final(input).rest() == old(input).rest(),
        old(input).rest().len() > 0 ==> r@ == trimmed(old(input).rest()[0]) && final(input).rest()
            == old(input).rest().drop_first(),
{
    out.append(label);
    match input.read_line(out.as_str().len()) {
        None => String::new(),
        Some(line) => trim(line.as_str()),
    }
}

// ---------------------------------------------------------------------------
// Lists of lines.
// ---------------------------------------------------------------------------

pub open spec fn step_prompt(n: nat) -> Seq<char> {
    "  step "@ + decimal(n) + ": "@
}

pub open spec fn at_least_one_notice() -> Seq<char> {
    "少なくとも1つのstepを入力してください。\n"@
}

/// Collects one line per step until a blank line (or the end of the input);
/// `required` lists need at least one step, so a first blank line is
/// refused with a notice and the end of the input before any step gives no
/// answer. `(steps, lines read, text written)`, continuing from `steps`.
pub open spec fn steps_dialog(required: bool, steps: Seq<Seq<char>>, ls: Seq<Seq<char>>) -> (
    Option<Seq<Seq<char>>>,
    nat,
    Seq<char>,
)
    decreases ls.len(),
{
    let prompt = step_prompt(steps.len() + 1);
    if ls.len() == 0 {
        if required && steps.len() == 0 {
            (None, 0, prompt)
        } else {
            (Some(steps), 0, prompt)
        }
    } else if trimmed(ls[0]).len() == 0 {
        if required && steps.len() == 0 {
            let r = steps_dialog(required, steps, ls.drop_first());
            (r.0, r.1 + 1, prompt + at_least_one_notice() + r.2)
        } else {
            (Some(steps), 1, prompt)
        }
    } else {
        let r = steps_dialog(required, steps.push(trimmed(ls[0])), ls.drop_first());
        (r.0, r.1 + 1, prompt + r.2)
    }
}

pub proof fn lemma_steps_dialog_reads(required: bool, steps: Seq<Seq<char>>, ls: Seq<Seq<char>>)
    ensures
        steps_dialog(required, steps, ls).1 <= ls.len(),
        steps_dialog(required, steps, ls).0 matches Some(s) ==> s.len() >= steps.len() && s.len()
            - steps.len() <= steps_dialog(required, steps, ls).1,
        required ==> (steps_dialog(required, steps, ls).0 matches Some(s) ==> s.len() > 0),
    decreases ls.len(),
{
    if ls.len() > 0 {
        if trimmed(ls[0]).len() == 0 {
            if required && steps.len() == 0 {
                lemma_steps_dialog_reads(required, steps, ls.drop_first());
            }
        } else {
            lemma_steps_dialog_reads(required, steps.push(trimmed(ls[0])), ls.drop_first());
        }
    }
}

fn collect_steps(input: &mut LineInput, out: &mut String, required: bool) -> (r: Result<
    Vec<String>,
    PromptError,
>)
    ensures
        ({
            let d = steps_dialog(required, seq![], old(input).rest());
            &&& match r {
                Ok(v) => d.0 == Some(views(v@)),
                Err(_) => d.0 is None,
            }
            &&& final(input).rest() == old(input).rest().skip(d.1 as int)
            &&& final(out)@ == old(out)@ + d.2
        }),
{
    let ghost rest0 = input.rest();
    let ghost out0 = out@;
    let ghost d0 = steps_dialog(required, seq![], rest0);
    let ghost mut read: nat = 0;
    let mut steps: Vec<String> = Vec::new();
    assert(rest0.skip(0) =~= rest0);
    assert(views(steps@) =~= seq![]);
    loop
        invariant
            rest0 == old(input).rest(),
            out0 == old(out)@,
            d0 == steps_dialog(required, seq![], rest0),
            read <= rest0.len(),
            steps@.len() <= read,
            input.rest() == rest0.skip(read as int),
            d0.0 == steps_dialog(required, views(steps@), input.rest()).0,
            d0.1 == read + steps_dialog(required, views(steps@), input.rest()).1,
            out0 + d0.2 == out@ + steps_dialog(required, views(steps@), input.rest()).2,
        decreases input.rest().len(),
    {
        let ghost ls = input.rest();
        let ghost sv = views(steps@);
        let ghost out1 = out@;
        let n = steps.len();
        out.append("  step ");
        let number = u128_to_decimal(n as u128 + 1);
        out.append(number.as_str());
        out.append(": ");
        assert(out@ =~= out1 + step_prompt(sv.len() + 1));
        match input.read_line(out.as_str().len()) {
            None => {
                if required && steps.len() == 0 {
                    return Err(PromptError::UnexpectedEof);
                }
                return Ok(steps);
            },
            Some(line) => {
                proof {
                    lemma_skip_skip(rest0, read as int, 1);
                    read = read + 1;
                }
                if trim_is_empty(line.as_str()) {
                    if required && steps.len() == 0 {
                        out.append("少なくとも1つのstepを入力してください。\n");
                        assert(out1 + steps_dialog(required, sv, ls).2 =~= out@ + steps_dialog(
                            required,
                            sv,
                            ls.drop_first(),
                        ).2);
                    } else {
                        return Ok(steps);
                    }
                } else {
                    proof {
                        crate::text::lemma_trimmed_empty_iff_blank(line@);
                    }
                    let value = trim(line.as_str());
                    steps.push(value);
                    assert(views(steps@) =~= sv.push(trimmed(ls[0])));
                    assert(out1 + steps_dialog(required, sv, ls).2 =~= out@ + steps_dialog(
                        required,
                        views(steps@),
                        ls.drop_first(),
                    ).2);
                }
            },
        }
    }
}

/// Prints `label` on a line of its own, then collects at least one step.
pub fn prompt_steps(input: &mut LineInput, out: &mut String, label: &str) -> (r: Result<
    Vec<String>,
    PromptError,
>)
    ensures
        ({
            let d = steps_dialog(true, seq![], old(input).rest());
            &&& match r {
                Ok(v) => d.0 == Some(views(v@)),
                Err(_) => d.0 is None,
            }
            &&& final(input).rest() == old(input).rest().skip(d.1 as int)
            &&& final(out)@ == old(out)@ + label@ + "\n"@ + d.2
        }),
{
    out.append(label);
    out.append("\n");
    collect_steps(input, out, true)
}

/// Prints `label` on a line of its own, then collects steps; a blank first
/// line gives none.
pub fn prompt_optional_steps(input: &mut LineInput, out: &mut String, label: &str) -> (r: Result<
    Vec<String>,
    PromptError,
>)
    ensures
        ({
            let d = steps_dialog(false, seq![], old(input).rest());
            &&& d.0 is Some
            &&& (r matches Ok(v) && d.0 == Some(views(v@)))
            &&& final(input).rest() == old(input).rest().skip(d.1 as int)
            &&& final(out)@ == old(out)@ + label@ + "\n"@ + d.2
        }),
{
    proof {
        lemma_optional_steps_answer(seq![], old(input).rest());
    }
    out.append(label);
    out.append("\n");
    collect_steps(input, out, false)
}

proof fn lemma_optional_steps_answer(steps: Seq<Seq<char>>, ls: Seq<Seq<char>>)
    ensures
        steps_dialog(false, steps, ls).0 is Some,
    decreases ls.len(),
{
    if ls.len() > 0 && trimmed(ls[0]).len() != 0 {
        lemma_optional_steps_answer(steps.push(trimmed(ls[0])), ls.drop_first());
    }
}

// ---------------------------------------------------------------------------
// Procedures and phases.
// ---------------------------------------------------------------------------

pub open spec fn procedure_name_label() -> Seq<char> {
    "Procedure name (blank to finish, e.g. login): "@
}

pub open spec fn procedure_steps_label() -> Seq<char> {
    "Procedure steps (one operation per line, blank line to finish, e.g. Enter credentials.):"@
}

pub type Entered = Seq<(Seq<char>, Seq<Seq<char>>)>;

/// Named procedures until a blank name (or the end of the input), each
/// with at least one step; `entered` are the ones already given.
pub open spec fn procedures_dialog(ls: Seq<Seq<char>>, entered: Entered) -> (Option<Entered>, nat, Seq<
    char,
>)
    decreases ls.len(),
{
    if ls.len() == 0 {
        (Some(entered), 0, procedure_name_label())
    } else if trimmed(ls[0]).len() == 0 {
        (Some(entered), 1, procedure_name_label())
    } else {
        let name = trimmed(ls[0]);
        let sd = steps_dialog(true, seq![], ls.drop_first());
        let head = procedure_name_label() + procedure_steps_label() + "\n"@ + sd.2;
        match sd.0 {
            None => (None, 1 + sd.1, head),
            Some(st) => {
                proof {
                    lemma_steps_dialog_reads(true, seq![], ls.drop_first());
                }
                let r = procedures_dialog(ls.drop_first().skip(sd.1 as int), entered.push((name, st)));
                (r.0, 1 + sd.1 + r.1, head + r.2)
            },
        }
    }
}

/// The steps last given for `name` among the first `n` entries.
pub open spec fn last_steps(entered: Entered, name: Seq<char>, n: nat) -> Option<Seq<Seq<char>>>
    decreases n,
{
    if n == 0 {
        None
    } else if entered[n - 1].0 == name {
        Some(entered[n - 1].1)
    } else {
        last_steps(entered, name, (n - 1) as nat)
    }
}

pub open spec fn entered_names(entered: Entered) -> Set<Seq<char>> {
    entered.map_values(|p: (Seq<char>, Seq<Seq<char>>)| p.0).to_set()
}

/// `m` holds exactly the entered names, each with the steps given last for
/// it.
pub open spec fn holds_entered(m: ProcedureMap, entered: Entered) -> bool {
    &&& crate::text::strictly_sorted(m.names())
    &&& m.names().len() == m.steps().len()
    &&& m.names().to_set() == entered_names(entered)
    &&& forall|i: int|
        0 <= i < m.names().len() ==> last_steps(entered, #[trigger] m.names()[i], entered.len())
            == Some(m.steps()[i])
}

proof fn lemma_holds_after_insert(
    before: ProcedureMap,
    after: ProcedureMap,
    entered: Entered,
    name: Seq<char>,
    steps: Seq<Seq<char>>,
)
    requires
        holds_entered(before, entered),
        crate::text::strictly_sorted(after.names()),
        after.names().len() == after.steps().len(),
        after.names().to_set() == before.names().to_set().insert(name),
        exists|i: int| 0 <= i < after.names().len() && after.names()[i] == name && after.steps()[i] == steps,
        forall|j: int|
            0 <= j < before.names().len() && before.names()[j] != name ==> exists|i: int|
                0 <= i < after.names().len() && after.names()[i] == before.names()[j]
                    && after.steps()[i] == before.steps()[j],
    ensures
        holds_entered(after, entered.push((name, steps))),
{
    let e2 = entered.push((name, steps));
    assert(e2.map_values(|p: (Seq<char>, Seq<Seq<char>>)| p.0) =~= entered.map_values(
        |p: (Seq<char>, Seq<Seq<char>>)| p.0,
    ).push(name));
    entered.map_values(|p: (Seq<char>, Seq<Seq<char>>)| p.0).lemma_push_to_set_commute(name);
    assert forall|i: int| 0 <= i < after.names().len() implies last_steps(
        e2,
        #[trigger] after.names()[i],
        e2.len(),
    ) == Some(after.steps()[i]) by {
        let x = after.names()[i];
        assert(entered.take(entered.len() as int) =~= entered);
        if x == name {
            let i2 = choose|i2: int|
                0 <= i2 < after.names().len() && after.names()[i2] == name && after.steps()[i2] == steps;
            if i2 != i {
                if i2 < i {
                    assert(crate::text::seq_lt(after.names()[i2], after.names()[i]));
                } else {
                    assert(crate::text::seq_lt(after.names()[i], after.names()[i2]));
                }
                crate::text::lemma_seq_lt_irreflexive(x);
            }
            assert(e2[e2.len() - 1].0 == name);
        } else {
            assert(after.names().to_set().contains(x));
            assert(before.names().to_set().contains(x));
            let j = choose|j: int| 0 <= j < before.names().len() && before.names()[j] == x;
            let i2 = choose|i2: int|
                0 <= i2 < after.names().len() && after.names()[i2] == before.names()[j]
                    && after.steps()[i2] == before.steps()[j];
            if i2 != i {
                if i2 < i {
                    assert(crate::text::seq_lt(after.names()[i2], after.names()[i]));
                } else {
                    assert(crate::text::seq_lt(after.names()[i], after.names()[i2]));
                }
                crate::text::lemma_seq_lt_irreflexive(x);
            }
            assert(last_steps(entered, before.names()[j], entered.len()) == Some(before.steps()[j]));
            assert(last_steps(e2, x, e2.len()) == last_steps(e2, x, entered.len()));
            lemma_last_steps_prefix(entered, e2, x, entered.len());
        }
    }
}

proof fn lemma_last_steps_prefix(a: Entered, b: Entered, name: Seq<char>, n: nat)
    requires
        n <= a.len(),
        n <= b.len(),
        forall|k: int| 0 <= k < n ==> a[k] == b[k],
    ensures
        last_steps(a, name, n) == last_steps(b, name, n),
    decreases n,
{
    if n > 0 {
        lemma_last_steps_prefix(a, b, name, (n - 1) as nat);
    }
}

/// Collects named procedures until a blank name; each needs at least one
/// step. A name given twice keeps the steps given last.
pub fn prompt_procedures(input: &mut LineInput, out: &mut String) -> (r: Result<
    ProcedureMap,
    PromptError,
>)
    ensures
        ({
            let d = procedures_dialog(old(input).rest(), seq![]);
            &&& match r {
                Ok(m) => d.0 matches Some(e) && holds_entered(m, e),
                Err(_) => d.0 is None,
            }
            &&& final(input).rest() == old(input).rest().skip(d.1 as int)
            &&& final(out)@ == old(out)@ + d.2
        }),
{
    let ghost rest0 = input.rest();
    let ghost out0 = out@;
    let ghost d0 = procedures_dialog(rest0, seq![]);
    let ghost mut read: nat = 0;
    let ghost mut entered: Entered = seq![];
    let mut procedures = ProcedureMap::new();
    assert(rest0.skip(0) =~= rest0);
    proof {
        assert(procedures.names().to_set() =~= entered_names(entered));
        procedures.lemma_names_steps_len();
    }
    loop
        invariant
            rest0 == old(input).rest(),
            out0 == old(out)@,
            d0 == procedures_dialog(rest0, seq![]),
            read <= rest0.len(),
            input.rest() == rest0.skip(read as int),
            holds_entered(procedures, entered),
            d0.0 == procedures_dialog(input.rest(), entered).0,
            d0.1 == read + procedures_dialog(input.rest(), entered).1,
            out0 + d0.2 == out@ + procedures_dialog(input.rest(), entered).2,
        decreases input.rest().len(),
    {
        let ghost ls = input.rest();
        let ghost out1 = out@;
        let name = prompt_optional_line(input, out, "Procedure name (blank to finish, e.g. login): ");
        if name.unicode_len() == 0 {
            proof {
                if ls.len() > 0 {
                    lemma_skip_skip(rest0, read as int, 1);
                }
            }
            return Ok(procedures);
        }
        proof {
            lemma_skip_skip(rest0, read as int, 1);
            read = read + 1;
        }
        let ghost ls1 = input.rest();
        let ghost out2 = out@;
        let steps = prompt_steps(
            input,
            out,
            "Procedure steps (one operation per line, blank line to finish, e.g. Enter credentials.):",
        );
        let ghost sd = steps_dialog(true, seq![], ls1);
        proof {
            lemma_steps_dialog_reads(true, seq![], ls1);
            lemma_skip_skip(rest0, read as int, sd.1 as int);
        }
        match steps {
            Err(e) => {
                return Err(e);
            },
            Ok(steps) => {
                let ghost before = procedures;
                let ghost sv = views(steps@);
                procedures.insert(name, Procedure { steps });
                proof {
                    procedures.lemma_names_steps_len();
                    lemma_holds_after_insert(before, procedures, entered, name@, sv);
                    let e0 = entered;
                    assert(ls1 == ls.drop_first());
                    assert(name@ == trimmed(ls[0]));
                    assert(sd.0 == Some(sv));
                    assert(input.rest() == ls1.skip(sd.1 as int));
                    assert(out@ == out2 + procedure_steps_label() + "\n"@ + sd.2);
                    assert(out2 == out1 + procedure_name_label());
                    let tail = procedures_dialog(input.rest(), e0.push((name@, sv)));
                    assert(procedures_dialog(ls, e0).2 == procedure_name_label()
                        + procedure_steps_label() + "\n"@ + sd.2 + tail.2);
                    assert(out1 + procedures_dialog(ls, e0).2 =~= out@ + tail.2);
                    entered = e0.push((name@, sv));
                    read = read + sd.1;
                }
            },
        }
    }
}

pub open spec fn first_phase_label() -> Seq<char> {
    "Scenario steps (one operation per line, blank line to finish this phase, e.g. Leave the title field empty.):"@
}

pub open spec fn next_phase_label() -> Seq<char> {
    "Next phase steps (blank first line to finish the scenario, one operation per line otherwise):"@
}

pub open spec fn results_label() -> Seq<char> {
    "Observable results for this phase (one per line, blank line to finish, e.g. Shows a validation error under the input field.):"@
}

pub type PhaseView = (Seq<Seq<char>>, Seq<Seq<char>>);

/// Phases of operations and observable results: the first phase is
/// required; after it, a blank first step line ends the scenario. Each
/// phase needs at least one result.
pub open spec fn phases_dialog(ls: Seq<Seq<char>>, phases: Seq<PhaseView>) -> (
    Option<Seq<PhaseView>>,
    nat,
    Seq<char>,
)
    decreases ls.len(),
{
    let first = phases.len() == 0;
    let sd = steps_dialog(first, seq![], ls);
    let head = (if first {
        first_phase_label()
    } else {
        next_phase_label()
    }) + "\n"@ + sd.2;
    match sd.0 {
        None => (None, sd.1, head),
        Some(st) => if st.len() == 0 {
            (Some(phases), sd.1, head)
        } else {
            proof {
                lemma_steps_dialog_reads(first, seq![], ls);
            }
            let rest = ls.skip(sd.1 as int);
            let rd = steps_dialog(true, seq![], rest);
            let head2 = head + results_label() + "\n"@ + rd.2;
            match rd.0 {
                None => (None, sd.1 + rd.1, head2),
                Some(res) => {
                    proof {
                        lemma_steps_dialog_reads(true, seq![], rest);
                    }
                    let r = phases_dialog(rest.skip(rd.1 as int), phases.push((st, res)));
                    (r.0, sd.1 + rd.1 + r.1, head2 + r.2)
                },
            }
        },
    }
}

/// A phase whose steps are the actions `pv.0` and whose results are `pv.1`.
pub open spec fn phase_is(p: Phase, pv: PhaseView) -> bool {
    &&& p.steps@.len() == pv.0.len()
    &&& forall|k: int|
        0 <= k < pv.0.len() ==> match #[trigger] p.steps@[k] {
            StepItem::Action { action } => action@ == pv.0[k],
            _ => false,
        }
    &&& views(p.results@) == pv.1
}

pub open spec fn phases_are(v: Seq<Phase>, pvs: Seq<PhaseView>) -> bool {
    v.len() == pvs.len() && forall|i: int| 0 <= i < v.len() ==> phase_is(#[trigger] v[i], pvs[i])
}

fn actions_of(steps: Vec<String>) -> (r: Vec<StepItem>)
    ensures
        r@.len() == steps@.len(),
        forall|k: int|
            0 <= k < steps@.len() ==> match #[trigger] r@[k] {
                StepItem::Action { action } => action@ == steps@[k]@,
                _ => false,
            },
{
    let mut out: Vec<StepItem> = Vec::new();
    let mut i: usize = 0;
    while i < steps.len()
        invariant
            i <= steps@.len(),
            out@.len() == i,
            forall|k: int|
                0 <= k < i ==> match #[trigger] out@[k] {
                    StepItem::Action { action } => action@ == steps@[k]@,
                    _ => false,
                },
        decreases steps.len() - i,
    {
        out.push(StepItem::Action { action: steps[i].clone() });
        i = i + 1;
    }
    out
}

/// Collects the phases of a scenario: operations (as `action:` steps) and
/// their observable results.
pub fn prompt_phases(input: &mut LineInput, out: &mut String) -> (r: Result<Vec<Phase>, PromptError>)
    ensures
        ({
            let d = phases_dialog(old(input).rest(), seq![]);
            &&& match r {
                Ok(v) => d.0 matches Some(pvs) && phases_are(v@, pvs),
                Err(_) => d.0 is None,
            }
            &&& final(input).rest() == old(input).rest().skip(d.1 as int)
            &&& final(out)@ == old(out)@ + d.2
        }),
{
    let ghost rest0 = input.rest();
    let ghost out0 = out@;
    let ghost d0 = phases_dialog(rest0, seq![]);
    let ghost mut read: nat = 0;
    let ghost mut entered: Seq<PhaseView> = seq![];
    let mut phases: Vec<Phase> = Vec::new();
    assert(rest0.skip(0) =~= rest0);
    loop
        invariant
            rest0 == old(input).rest(),
            out0 == old(out)@,
            d0 == phases_dialog(rest0, seq![]),
            read <= rest0.len(),
            input.rest() == rest0.skip(read as int),
            phases_are(phases@, entered),
            d0.0 == phases_dialog(input.rest(), entered).0,
            d0.1 == read + phases_dialog(input.rest(), entered).1,
            out0 + d0.2 == out@ + phases_dialog(input.rest(), entered).2,
        decreases input.rest().len(),
    {
        let ghost ls = input.rest();
        let ghost out1 = out@;
        let first = phases.len() == 0;
        let steps_result = if first {
            prompt_steps(
                input,
                out,
                "Scenario steps (one operation per line, blank line to finish this phase, e.g. Leave the title field empty.):",
            )
        } else {
            prompt_optional_steps(
                input,
                out,
                "Next phase steps (blank first line to finish the scenario, one operation per line otherwise):",
            )
        };
        let ghost sd = steps_dialog(first, seq![], ls);
        proof {
            lemma_steps_dialog_reads(first, seq![], ls);
            lemma_skip_skip(rest0, read as int, sd.1 as int);
        }
        let steps = match steps_result {
            Err(e) => {
                return Err(e);
            },
            Ok(steps) => steps,
        };
        if steps.len() == 0 {
            return Ok(phases);
        }
        proof {
            read = read + sd.1;
        }
        let ghost ls2 = input.rest();
        let ghost sv = views(steps@);
        let results = prompt_steps(
            input,
            out,
            "Observable results for this phase (one per line, blank line to finish, e.g. Shows a validation error under the input field.):",
        );
        let ghost rd = steps_dialog(true, seq![], ls2);
        proof {
            lemma_steps_dialog_reads(true, seq![], ls2);
            lemma_skip_skip(rest0, read as int, rd.1 as int);
        }
        let results = match results {
            Err(e) => {
                return Err(e);
            },
            Ok(results) => results,
        };
        let ghost rv = views(results@);
        let ghost phases_before = phases@;
        let step_items = actions_of(steps);
        let phase = Phase { steps: step_items, results };
        assert(phase_is(phase, (sv, rv)));
        phases.push(phase);
        proof {
            let e0 = entered;
            assert forall|i: int| 0 <= i < phases@.len() implies phase_is(
                #[trigger] phases@[i],
                e0.push((sv, rv))[i],
            ) by {
                if i < phases_before.len() {
                    assert(phases@[i] == phases_before[i]);
                }
            }
            let tail = phases_dialog(input.rest(), e0.push((sv, rv)));
            assert(input.rest() == ls2.skip(rd.1 as int));
            assert(ls2 == ls.skip(sd.1 as int));
            assert(phases_dialog(ls, e0).2 == (if first {
                first_phase_label()
            } else {
                next_phase_label()
            }) + "\n"@ + sd.2 + results_label() + "\n"@ + rd.2 + tail.2);
            assert(out1 + phases_dialog(ls, e0).2 =~= out@ + tail.2);
            entered = e0.push((sv, rv));
            read = read + rd.1;
        }
    }
}

// ---------------------------------------------------------------------------
// Ids.
// ---------------------------------------------------------------------------

pub open spec fn is_digit(c: char) -> bool {
    '0' <= c <= '9'
}

/// The value of a string of decimal digits.
pub open spec fn digits_value(d: Seq<char>) -> nat
    decreases d.len(),
{
    if d.len() == 0 {
        0
    } else {
        digits_value(d.drop_last()) * 10 + ((d.last() as int) - 48) as nat
    }
}

/// What `str::parse::<usize>` accepts: an optional `+`, then at least one
/// decimal digit, with a value that fits.
/// The digits part: without one leading `+`.
pub open spec fn unsigned_digits(s: Seq<char>) -> Seq<char> {
    if s.len() > 0 && s[0] == '+' {
        s.drop_first()
    } else {
        s
    }
}

pub open spec fn parsed_usize(s: Seq<char>) -> Option<nat> {
    let d = unsigned_digits(s);
    if d.len() == 0 || !(forall|i: int| 0 <= i < d.len() ==> is_digit(#[trigger] d[i])) || digits_value(d)
        > usize::MAX {
        None
    } else {
        Some(digits_value(d))
    }
}

proof fn lemma_digits_value_grows(d: Seq<char>, k: int)
    requires
        0 <= k <= d.len(),
        forall|i: int| 0 <= i < d.len() ==> is_digit(#[trigger] d[i]),
    ensures
        digits_value(d.take(k)) <= digits_value(d),
    decreases d.len() - k,
{
    if k < d.len() {
        lemma_digits_value_grows(d, k + 1);
        assert(d.take(k + 1).drop_last() =~= d.take(k));
    } else {
        assert(d.take(k) =~= d);
    }
}

fn parse_usize(s: &str) -> (r: Option<usize>)
    ensures
        match r {
            Some(n) => parsed_usize(s@) == Some(n as nat),
            None => parsed_usize(s@) is None,
        },
{
    let len = s.unicode_len();
    let start: usize = if len > 0 && s.get_char(0) == '+' {
        1
    } else {
        0
    };
    let ghost d = unsigned_digits(s@);
    assert(d =~= s@.skip(start as int));
    if start >= len {
        assert(d.len() == 0);
        assert(parsed_usize(s@) is None);
        return None;
    }
    let mut value: usize = 0;
    let mut i: usize = start;
    while i < len
        invariant
            len == s@.len(),
            start <= i <= len,
            d == s@.skip(start as int),
            d == unsigned_digits(s@),
            forall|k: int| 0 <= k < i - start ==> is_digit(#[trigger] d[k]),
            value == digits_value(d.take(i - start)),
        decreases len - i,
    {
        let c = s.get_char(i);
        assert(d[i - start] == c);
        if !('0' <= c && c <= '9') {
            assert(!is_digit(d[i - start]));
            assert(!(forall|k: int| 0 <= k < d.len() ==> is_digit(#[trigger] d[k])));
            assert(parsed_usize(s@) is None);
            return None;
        }
        let digit = (c as u32 - 48) as usize;
        assert(d.take(i - start + 1).drop_last() =~= d.take(i - start));
        let next = match value.checked_mul(10) {
            Some(t) => t.checked_add(digit),
            None => None,
        };
        match next {
            Some(n) => {
                value = n;
            },
            None => {
                proof {
                    assert(digits_value(d.take(i - start + 1)) > usize::MAX);
                    if forall|k: int| 0 <= k < d.len() ==> is_digit(#[trigger] d[k]) {
                        lemma_digits_value_grows(d, i - start + 1);
                    }
                }
                return None;
            },
        }
        i = i + 1;
    }
    assert(d.take(len - start) =~= d);
    Some(value)
}

pub open spec fn slug_notice() -> Seq<char> {
    "id は小文字英数字とハイフンのみ使用できます。もう一度入力してください。\n"@
}

pub open spec fn collision_notice(id: Seq<char>) -> Seq<char> {
    "id '"@ + id + "' は既存の候補と衝突しています。もう一度入力してください。\n"@
}

pub open spec fn candidate_prompt(candidate: Seq<char>) -> Seq<char> {
    "id候補: "@ + candidate + " (Enterで採用、編集する場合は入力): "@
}

/// `  1) a`, `  2) b`, ... for the first `n` candidates.
pub open spec fn candidate_listing(cands: Seq<Seq<char>>, n: nat) -> Seq<char>
    decreases n,
{
    if n == 0 {
        seq![]
    } else {
        candidate_listing(cands, (n - 1) as nat) + "  "@ + decimal(n) + ") "@ + cands[n - 1] + "\n"@
    }
}

/// One round of asking for an id, or a label to derive one from: a number
/// picks a listed candidate; ASCII input must be a valid slug and is both
/// id and label; other input is a label, refused like an invalid slug when
/// it cannot be romanized (`romanizable`), and otherwise its romanized slug is offered
/// for acceptance (an empty line) or editing, and must neither collide with
/// a candidate nor be an invalid slug. `(outcome, lines read, text
/// written)`: no outcome when the input ended, `Some(None)` when the round
/// must be asked again, `Some(Some((id, label)))` for an answer.
pub open spec fn id_round(label: Seq<char>, cands: Seq<Seq<char>>, ls: Seq<Seq<char>>) -> (
    Option<Option<(Seq<char>, Seq<char>)>>,
    nat,
    Seq<char>,
) {
    let ld = line_dialog(label, ls);
    match ld.0 {
        None => (None, ld.1, ld.2),
        Some(value) => {
            let rest = ls.skip(ld.1 as int);
            let pick = parsed_usize(value);
            if pick is Some && 1 <= pick->0 <= cands.len() {
                (Some(Some((cands[pick->0 - 1], cands[pick->0 - 1]))), ld.1, ld.2)
            } else if vstd::utf8::is_ascii_chars(value) {
                if spec_is_valid_slug(value) {
                    (Some(Some((value, value))), ld.1, ld.2)
                } else {
                    (Some(None), ld.1, ld.2 + slug_notice())
                }
            } else if !romanizable(value) {
                (Some(None), ld.1, ld.2 + slug_notice())
            } else {
                let candidate = spec_normalize_slug(romaji_of(value));
                let used: nat = if rest.len() == 0 {
                    0
                } else {
                    1
                };
                let edited = if rest.len() == 0 {
                    seq![]
                } else {
                    trimmed(rest[0])
                };
                let chosen = if edited.len() == 0 {
                    candidate
                } else {
                    spec_normalize_slug(edited)
                };
                let head = ld.2 + candidate_prompt(candidate);
                if cands.contains(chosen) {
                    (Some(None), ld.1 + used, head + collision_notice(chosen))
                } else if !spec_is_valid_slug(chosen) {
                    (Some(None), ld.1 + used, head + slug_notice())
                } else {
                    (Some(Some((chosen, value))), ld.1 + used, head)
                }
            }
        },
    }
}

pub proof fn lemma_id_round_reads(label: Seq<char>, cands: Seq<Seq<char>>, ls: Seq<Seq<char>>)
    ensures
        id_round(label, cands, ls).1 <= ls.len(),
        id_round(label, cands, ls).0 is Some ==> id_round(label, cands, ls).1 >= 1,
{
    lemma_line_dialog_reads(label, ls);
}

/// Rounds of `id_round` until an answer (or the end of the input).
pub open spec fn id_dialog(label: Seq<char>, cands: Seq<Seq<char>>, ls: Seq<Seq<char>>) -> (
    Option<(Seq<char>, Seq<char>)>,
    nat,
    Seq<char>,
)
    decreases ls.len(),
{
    let r = id_round(label, cands, ls);
    match r.0 {
        None => (None, r.1, r.2),
        Some(Some(a)) => (Some(a), r.1, r.2),
        Some(None) => {
            proof {
                lemma_id_round_reads(label, cands, ls);
            }
            let t = id_dialog(label, cands, ls.skip(r.1 as int));
            (t.0, r.1 + t.1, r.2 + t.2)
        },
    }
}

fn has_candidate(cands: &Vec<String>, x: &str) -> (r: bool)
    ensures
        r == views(cands@).contains(x@),
{
    let ghost vs = views(cands@);
    let mut i: usize = 0;
    while i < cands.len()
        invariant
            i <= cands@.len(),
            vs == views(cands@),
            forall|k: int| 0 <= k < i ==> vs[k] != x@,
        decreases cands.len() - i,
    {
        assert(vs[i as int] == cands@[i as int]@);
        if str_eq(cands[i].as_str(), x) {
            return true;
        }
        i = i + 1;
    }
    false
}

/// Lists the candidates, then asks for an id or a label (see
/// `id_dialog`); answers `(id, label)`.
pub fn prompt_id_or_label(
    input: &mut LineInput,
    out: &mut String,
    label: &str,
    candidates: &Vec<String>,
) -> (r: Result<(String, String), PromptError>)
    ensures
        ({
            let d = id_dialog(label@, views(candidates@), old(input).rest());
            &&& match r {
                Ok((id, l)) => d.0 == Some((id@, l@)),
                Err(_) => d.0 is None,
            }
            &&& final(input).rest() == old(input).rest().skip(d.1 as int)
            &&& final(out)@ == old(out)@ + candidate_listing(views(candidates@), candidates@.len())
                + d.2
        }),
{
    let ghost cv = views(candidates@);
    let mut k: usize = 0;
    while k < candidates.len()
        invariant
            k <= candidates@.len(),
            cv == views(candidates@),
            out@ == old(out)@ + candidate_listing(cv, k as nat),
        decreases candidates.len() - k,
    {
        out.append("  ");
        let number = u128_to_decimal(k as u128 + 1);
        out.append(number.as_str());
        out.append(") ");
        out.append(candidates[k].as_str());
        out.append("\n");
        assert(cv[k as int] == candidates@[k as int]@);
        assert(out@ =~= old(out)@ + candidate_listing(cv, (k + 1) as nat));
        k = k + 1;
    }
    let ghost rest0 = input.rest();
    let ghost out0 = out@;
    let ghost d0 = id_dialog(label@, cv, rest0);
    let ghost mut read: nat = 0;
    assert(rest0.skip(0) =~= rest0);
    loop
        invariant
            rest0 == old(input).rest(),
            cv == views(candidates@),
            out0 == old(out)@ + candidate_listing(cv, candidates@.len()),
            d0 == id_dialog(label@, cv, rest0),
            read <= rest0.len(),
            input.rest() == rest0.skip(read as int),
            d0.0 == id_dialog(label@, cv, input.rest()).0,
            d0.1 == read + id_dialog(label@, cv, input.rest()).1,
            out0 + d0.2 == out@ + id_dialog(label@, cv, input.rest()).2,
        decreases input.rest().len(),
    {
        let ghost ls = input.rest();
        let ghost out1 = out@;
        let ghost rd = id_round(label@, cv, ls);
        let round = ask_id_once(input, out, label, candidates);
        proof {
            lemma_id_round_reads(label@, cv, ls);
            lemma_skip_skip(rest0, read as int, rd.1 as int);
            read = read + rd.1;
        }
        match round {
            Err(e) => {
                return Err(e);
            },
            Ok(Some(answer)) => {
                return Ok(answer);
            },
            Ok(None) => {
                assert(out1 + id_dialog(label@, cv, ls).2 =~= out@ + id_dialog(
                    label@,
                    cv,
                    input.rest(),
                ).2);
            },
        }
    }
}

fn ask_id_once(
    input: &mut LineInput,
    out: &mut String,
    label: &str,
    candidates: &Vec<String>,
) -> (r: Result<Option<(String, String)>, PromptError>)
    ensures
        ({
            let d = id_round(label@, views(candidates@), old(input).rest());
            &&& match r {
                Ok(Some((id, l))) => d.0 == Some(Some((id@, l@))),
                Ok(None) => d.0 == Some(None::<(Seq<char>, Seq<char>)>),
                Err(_) => d.0 is None,
            }
            &&& final(input).rest() == old(input).rest().skip(d.1 as int)
            &&& final(out)@ == old(out)@ + d.2
        }),
{
    let ghost cv = views(candidates@);
    let ghost ls = input.rest();
    let ghost ld = line_dialog(label@, ls);
    let value = match prompt_line(input, out, label) {
        Err(e) => {
            return Err(e);
        },
        Ok(v) => v,
    };
    proof {
        lemma_line_dialog_reads(label@, ls);
    }
    let ghost rest = input.rest();
    if let Some(n) = parse_usize(value.as_str()) {
        if 1 <= n && n <= candidates.len() {
            let id = candidates[n - 1].clone();
            assert(cv[n - 1] == id@);
            return Ok(Some((id.clone(), id)));
        }
    }
    if !contains_non_ascii(value.as_str()) {
        if is_valid_slug(value.as_str()) {
            return Ok(Some((value.clone(), value)));
        }
        out.append("id は小文字英数字とハイフンのみ使用できます。もう一度入力してください。\n");
        return Ok(None);
    }
    if !is_romanizable(value.as_str()) {
        out.append("id は小文字英数字とハイフンのみ使用できます。もう一度入力してください。\n");
        return Ok(None);
    }
    let romaji = romanize_label(value.as_str());
    let candidate_slug = normalize_slug_candidate(romaji.as_str());
    out.append("id候補: ");
    out.append(candidate_slug.as_str());
    out.append(" (Enterで採用、編集する場合は入力): ");
    let edited = match input.read_line(out.as_str().len()) {
        None => String::new(),
        Some(line) => {
            proof {
                lemma_skip_skip(ls, ld.1 as int, 1);
            }
            trim(line.as_str())
        },
    };
    let final_id = if edited.unicode_len() == 0 {
        candidate_slug
    } else {
        normalize_slug_candidate(edited.as_str())
    };
    if has_candidate(candidates, final_id.as_str()) {
        out.append("id '");
        out.append(final_id.as_str());
        out.append("' は既存の候補と衝突しています。もう一度入力してください。\n");
        return Ok(None);
    }
    if !is_valid_slug(final_id.as_str()) {
        out.append("id は小文字英数字とハイフンのみ使用できます。もう一度入力してください。\n");
        return Ok(None);
    }
    Ok(Some((final_id, value)))
}

/// The comma-separated items of a line, trimmed, blank ones dropped.
pub open spec fn next_comma(s: Seq<char>, i: nat) -> nat
    decreases s.len() - i,
{
    if i >= s.len() {
        s.len()
    } else if s[i as int] == ',' {
        i
    } else {
        next_comma(s, i + 1)
    }
}

/// The items of `s[i..]` split at `','` (as `str::split(',')` splits),
/// trimmed, blank ones dropped.
pub open spec fn axis_items_from(s: Seq<char>, i: nat) -> Seq<Seq<char>>
    decreases s.len() - i, 0nat,
{
    let j = next_comma(s, i);
    proof {
        lemma_next_comma(s, i);
    }
    let item = trimmed(s.subrange(i as int, j as int));
    let here = if item.len() == 0 {
        seq![]
    } else {
        seq![item]
    };
    if j >= s.len() {
        here
    } else {
        here + axis_items_from(s, j + 1)
    }
}

pub proof fn lemma_next_comma(s: Seq<char>, i: nat)
    ensures
        i <= s.len() ==> i <= next_comma(s, i) <= s.len(),
        i > s.len() ==> next_comma(s, i) == s.len(),
        next_comma(s, i) < s.len() ==> s[next_comma(s, i) as int] == ',',
        forall|k: int| i <= k < next_comma(s, i) ==> s[k] != ',',
    decreases s.len() - i,
{
    if i < s.len() && s[i as int] != ',' {
        lemma_next_comma(s, i + 1);
    }
}

/// Asks for a required line of comma-separated axis ids.
pub fn prompt_axis(input: &mut LineInput, out: &mut String, label: &str) -> (r: Result<
    Vec<String>,
    PromptError,
>)
    ensures
        ({
            let d = line_dialog(label@, old(input).rest());
            &&& match r {
                Ok(v) => d.0 matches Some(line) && views(v@) == axis_items_from(line, 0),
                Err(_) => d.0 is None,
            }
            &&& final(input).rest() == old(input).rest().skip(d.1 as int)
            &&& final(out)@ == old(out)@ + d.2
        }),
{
    let line = match prompt_line(input, out, label) {
        Err(e) => {
            return Err(e);
        },
        Ok(l) => l,
    };
    let n = line.unicode_len();
    let mut items: Vec<String> = Vec::new();
    let mut i: usize = 0;
    let ghost s = line@;
    let ghost dl = line_dialog(label@, old(input).rest());
    assert(views(items@) =~= seq![]);
    loop
        invariant
            dl == line_dialog(label@, old(input).rest()),
            dl.0 == Some(s),
            input.rest() == old(input).rest().skip(dl.1 as int),
            out@ == old(out)@ + dl.2,
            n == s.len(),
            s == line@,
            i <= n,
            views(items@) + axis_items_from(s, i as nat) == axis_items_from(s, 0),
        decreases n - i,
    {
        let mut j = i;
        while j < n && line.as_str().get_char(j) != ','
            invariant
                n == s.len(),
                s == line@,
                i <= j <= n,
                next_comma(s, j as nat) == next_comma(s, i as nat),
            decreases n - j,
        {
            j = j + 1;
        }
        proof {
            lemma_next_comma(s, i as nat);
            lemma_next_comma(s, j as nat);
            assert(next_comma(s, j as nat) == j);
            assert(next_comma(s, i as nat) == j);
        }
        let piece = line.as_str().substring_char(i, j);
        let item = trim(piece);
        let ghost before = views(items@);
        let ghost here: Seq<Seq<char>> = if item@.len() == 0 {
            seq![]
        } else {
            seq![item@]
        };
        assert(item@ == trimmed(s.subrange(i as int, j as int)));
        if item.unicode_len() > 0 {
            items.push(item);
        }
        assert(views(items@) =~= before + here);
        if j >= n {
            assert(axis_items_from(s, i as nat) == here);
            return Ok(items);
        }
        assert(axis_items_from(s, i as nat) == here + axis_items_from(s, (j + 1) as nat));
        assert(views(items@) + axis_items_from(s, (j + 1) as nat) =~= before + axis_items_from(
            s,
            i as nat,
        ));
        i = j + 1;
    }
}

} // verus!
