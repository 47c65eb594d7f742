//! Change Impact over a `base..head` range: for every Requirement whose
//! spec changed, which Features and TestCases hang off it, and whether a
//! human confirmed each correspondence. The verdict per case is
//! three-valued: confirmed, followed up, or unconfirmed.
//!
//! Reading refs, commits and trailers happens around this module; what is
//! decided here is each case's verdict, what a Requirement's impact lists,
//! and whether a report has findings.
use vstd::prelude::*;

use crate::text::{
    insert_sorted_unique, lemma_seq_lt_total, lemma_sorted_insert, opt_view, seq_le, seq_lt, sorted,
    str_eq, str_lt, strictly_sorted, views,
};

verus! {

pub const RULE_VERSION: u32 = 1;

#[derive(Debug)]
pub enum ImpactError {
    HistoryUnavailable { base: String, head: String, detail: String },
    Malformed { path: String, message: String },
    Io(std::io::Error),
}


pub open spec fn history_unavailable_text(base: Seq<char>, head: Seq<char>, detail: Seq<char>) -> Seq<
    char,
> {
    "cannot walk the commits in "@ + base + ".."@ + head + ": "@ + detail
        + ". Alignment checks need the full range; fetch the missing history (a shallow clone needs `git fetch --unshallow`) and retry"@
}

impl ImpactError {
    /// The error as one line of text (what `Display` renders).
    pub fn to_string(&self) -> (r: String)
        ensures
            match self {
                ImpactError::HistoryUnavailable { base, head, detail } => r@
                    == history_unavailable_text(base@, head@, detail@),
                ImpactError::Malformed { path, message } => r@ == path@ + ": "@ + message@,
                ImpactError::Io(_) => r@.len() >= 18 && r@.subrange(0, 18)
                    == "filesystem error: "@,
            },
    {
        match self {
            ImpactError::HistoryUnavailable { base, head, detail } => {
                let mut s = String::from_str("cannot walk the commits in ");
                s.append(base.as_str());
                s.append("..");
                s.append(head.as_str());
                s.append(": ");
                s.append(detail.as_str());
                s.append(
                    ". Alignment checks need the full range; fetch the missing history (a shallow clone needs `git fetch --unshallow`) and retry",
                );
                s
            },
            ImpactError::Malformed { path, message } => {
                let mut s = path.clone();
                s.append(": ");
                s.append(message.as_str());
                s
            },
            ImpactError::Io(e) => {
                let mut s = String::from_str("filesystem error: ");
                proof {
                    reveal_strlit("filesystem error: ");
                }
                let ghost head = s@;
                let text = crate::io_error::io_error_text(e);
                s.append(text.as_str());
                assert(s@.subrange(0, 18) =~= head);
                s
            },
        }
    }
}

#[derive(Debug, Clone, Copy, PartialEq, Eq, Structural)]
pub enum AlignmentStatus {
    Confirmed,
    FollowedUp,
    Unconfirmed,
}

#[derive(Debug, Clone, PartialEq, Eq)]
pub struct CaseAlignment {
    pub case_id: String,
    pub case_uid: Option<String>,
    pub case_changed: bool,
    pub status: AlignmentStatus,
}

#[derive(Debug, Clone, PartialEq, Eq)]
pub struct RequirementImpact {
    pub requirement_id: String,
    pub requirement_uid: Option<String>,
    pub source: &'static str,
    pub spec_changed: bool,
    pub feature_ids: Vec<String>,
    pub cases: Vec<CaseAlignment>,
}

#[derive(Debug, Clone, PartialEq, Eq)]
pub struct StalePin {
    pub requirement_id: String,
    pub source_locator: String,
    pub pinned_revision: String,
    pub head_revision: String,
}

#[derive(Debug, Clone, PartialEq, Eq)]
pub struct RejectedTrailerReport {
    pub commit: String,
    pub line: String,
    pub reason: String,
}

#[derive(Debug, Clone, PartialEq, Eq)]
pub struct ChangeImpact {
    pub schema_version: u32,
    pub record_kind: &'static str,
    pub rule_version: u32,
    pub base_commit: String,
    pub head_commit: String,
    pub requirements: Vec<RequirementImpact>,
    pub stale_pins: Vec<StalePin>,
    pub rejected_trailers: Vec<RejectedTrailerReport>,
}

/// A report has findings when some case is not confirmed, or some pin is
/// stale, or some trailer was rejected.
pub open spec fn spec_has_findings(c: ChangeImpact) -> bool {
    (exists|i: int, j: int|
        0 <= i < c.requirements@.len() && 0 <= j < c.requirements@[i].cases@.len()
            && #[trigger] c.requirements@[i].cases@[j].status != AlignmentStatus::Confirmed)
        || c.stale_pins@.len() > 0 || c.rejected_trailers@.len() > 0
}

impl ChangeImpact {
    pub fn has_findings(&self) -> (r: bool)
        ensures
            r == spec_has_findings(*self),
    {
        let mut i: usize = 0;
        while i < self.requirements.len()
            invariant
                i <= self.requirements@.len(),
                forall|a: int, b: int|
                    0 <= a < i && 0 <= b < self.requirements@[a].cases@.len()
                        ==> #[trigger] self.requirements@[a].cases@[b].status
                        == AlignmentStatus::Confirmed,
            decreases self.requirements.len() - i,
        {
            let cases = &self.requirements[i].cases;
            let mut j: usize = 0;
            while j < cases.len()
                invariant
                    i < self.requirements@.len(),
                    cases == &self.requirements@[i as int].cases,
                    j <= cases@.len(),
                    forall|b: int| 0 <= b < j ==> #[trigger] cases@[b].status == AlignmentStatus::Confirmed,
                decreases cases.len() - j,
            {
                if cases[j].status != AlignmentStatus::Confirmed {
                    assert(self.requirements@[i as int].cases@[j as int].status
                        != AlignmentStatus::Confirmed);
                    return true;
                }
                j = j + 1;
            }
            i = i + 1;
        }
        self.stale_pins.len() > 0 || self.rejected_trailers.len() > 0
    }
}

/// What makes a report have findings: any rejected trailer, any stale
/// pin, and any case not confirmed is a finding; a report whose every
/// case is confirmed, with no stale pin and no rejected trailer, has none.
pub proof fn lemma_findings(c: ChangeImpact)
    ensures
        c.rejected_trailers@.len() > 0 ==> spec_has_findings(c),
        c.stale_pins@.len() > 0 ==> spec_has_findings(c),
        forall|i: int, j: int|
            0 <= i < c.requirements@.len() && 0 <= j < c.requirements@[i].cases@.len()
                && #[trigger] c.requirements@[i].cases@[j].status != AlignmentStatus::Confirmed
                ==> spec_has_findings(c),
        (forall|i: int, j: int|
            0 <= i < c.requirements@.len() && 0 <= j < c.requirements@[i].cases@.len()
                ==> #[trigger] c.requirements@[i].cases@[j].status == AlignmentStatus::Confirmed)
            && c.stale_pins@.len() == 0 && c.rejected_trailers@.len() == 0 ==> !spec_has_findings(c),
{
}

/// Status of a case: `Confirmed` when a confirmation for the pair still
/// stands, else `FollowedUp` when the case itself changed in the range,
/// else `Unconfirmed`.
pub open spec fn spec_case_status(confirmed: bool, case_changed: bool) -> AlignmentStatus {
    if confirmed {
        AlignmentStatus::Confirmed
    } else if case_changed {
        AlignmentStatus::FollowedUp
    } else {
        AlignmentStatus::Unconfirmed
    }
}

pub fn case_status(confirmed: bool, case_changed: bool) -> (r: AlignmentStatus)
    ensures
        r == spec_case_status(confirmed, case_changed),
{
    if confirmed {
        AlignmentStatus::Confirmed
    } else if case_changed {
        AlignmentStatus::FollowedUp
    } else {
        AlignmentStatus::Unconfirmed
    }
}

/// What the impact computation reads of one TestCase at `head`.
pub struct HeadCase {
    pub case_id: String,
    pub case_uid: Option<String>,
    pub feature: String,
    pub requirement_uids: Option<Vec<String>>,
}

/// Whether a case hangs off the Requirement with uid `uid`.
pub open spec fn relates_to(c: HeadCase, uid: Seq<char>) -> bool {
    match c.requirement_uids {
        Some(v) => views(v@).contains(uid),
        None => false,
    }
}

pub type AlignmentView = (Seq<char>, Option<Seq<char>>, bool, AlignmentStatus);

pub open spec fn alignment_view(a: CaseAlignment) -> AlignmentView {
    (a.case_id@, opt_view(a.case_uid), a.case_changed, a.status)
}

/// The alignment a case gets against the Requirement with uid
/// `requirement_uid`: changed when its uid is among `changed_cases`,
/// confirmed when the pair is among `confirmed_pairs`.
pub open spec fn expected_alignment(
    c: HeadCase,
    requirement_uid: Seq<char>,
    changed_cases: Seq<Seq<char>>,
    confirmed_pairs: Seq<(Seq<char>, Seq<char>)>,
) -> AlignmentView {
    let changed = match opt_view(c.case_uid) {
        Some(u) => changed_cases.contains(u),
        None => false,
    };
    let confirmed = match opt_view(c.case_uid) {
        Some(u) => confirmed_pairs.contains((requirement_uid, u)),
        None => false,
    };
    (c.case_id@, opt_view(c.case_uid), changed, spec_case_status(confirmed, changed))
}

/// The first index at `k` or later whose case id is greater than `key`.
pub open spec fn first_greater(s: Seq<AlignmentView>, key: Seq<char>, k: nat) -> nat
    decreases s.len() - k,
{
    if k >= s.len() {
        s.len()
    } else if seq_lt(key, s[k as int].0) {
        k
    } else {
        first_greater(s, key, k + 1)
    }
}

/// `x` inserted after every entry whose case id is at most its own.
pub open spec fn insert_by_case_id(s: Seq<AlignmentView>, x: AlignmentView) -> Seq<AlignmentView> {
    s.insert(first_greater(s, x.0, 0) as int, x)
}

/// `s` sorted by case id, keeping the order of equal ids (a stable sort).
pub open spec fn sort_by_case_id(s: Seq<AlignmentView>) -> Seq<AlignmentView>
    decreases s.len(),
{
    if s.len() == 0 {
        seq![]
    } else {
        insert_by_case_id(sort_by_case_id(s.drop_last()), s.last())
    }
}

pub open spec fn case_ids(s: Seq<AlignmentView>) -> Seq<Seq<char>> {
    s.map_values(|v: AlignmentView| v.0)
}

proof fn lemma_first_greater(s: Seq<AlignmentView>, key: Seq<char>, k: nat)
    requires
        k <= s.len(),
    ensures
        k <= first_greater(s, key, k) <= s.len(),
        forall|m: int| k <= m < first_greater(s, key, k) ==> !seq_lt(key, #[trigger] s[m].0),
        first_greater(s, key, k) < s.len() ==> seq_lt(key, s[first_greater(s, key, k) as int].0),
    decreases s.len() - k,
{
    if k < s.len() && !seq_lt(key, s[k as int].0) {
        lemma_first_greater(s, key, k + 1);
    }
}

/// Sorting by case id gives ids in ascending order.
pub proof fn lemma_sort_by_case_id_sorted(s: Seq<AlignmentView>)
    ensures
        sorted(case_ids(sort_by_case_id(s))),
        sort_by_case_id(s).len() == s.len(),
    decreases s.len(),
{
    if s.len() > 0 {
        let t = sort_by_case_id(s.drop_last());
        let x = s.last();
        lemma_sort_by_case_id_sorted(s.drop_last());
        lemma_first_greater(t, x.0, 0);
        let p = first_greater(t, x.0, 0) as int;
        let ks = case_ids(t);
        assert forall|k: int| 0 <= k < p implies seq_le(#[trigger] ks[k], x.0) by {
            assert(!seq_lt(x.0, t[k].0));
            lemma_seq_lt_total(x.0, t[k].0);
        }
        lemma_sorted_insert(ks, p, x.0);
        assert(case_ids(t.insert(p, x)) =~= ks.insert(p, x.0));
    }
}

/// The cases among the first `n` that hang off the Requirement.
pub open spec fn related_cases(cases: Seq<HeadCase>, uid: Seq<char>, n: nat) -> Seq<HeadCase>
    decreases n,
{
    if n == 0 {
        seq![]
    } else if relates_to(cases[n - 1], uid) {
        related_cases(cases, uid, (n - 1) as nat).push(cases[n - 1])
    } else {
        related_cases(cases, uid, (n - 1) as nat)
    }
}

pub open spec fn pairs_view(v: Seq<(String, String)>) -> Seq<(Seq<char>, Seq<char>)> {
    v.map_values(|p: (String, String)| (p.0@, p.1@))
}

fn contains_string(v: &Vec<String>, x: &str) -> (r: bool)
    ensures
        r == views(v@).contains(x@),
{
    let ghost vs = views(v@);
    let mut i: usize = 0;
    while i < v.len()
        invariant
            i <= v@.len(),
            vs == views(v@),
            forall|k: int| 0 <= k < i ==> vs[k] != x@,
        decreases v.len() - i,
    {
        assert(vs[i as int] == v@[i as int]@);
        if str_eq(v[i].as_str(), x) {
            return true;
        }
        i = i + 1;
    }
    false
}

fn contains_pair(v: &Vec<(String, String)>, a: &str, b: &str) -> (r: bool)
    ensures
        r == pairs_view(v@).contains((a@, b@)),
{
    let ghost pv = pairs_view(v@);
    let mut i: usize = 0;
    while i < v.len()
        invariant
            i <= v@.len(),
            pv == pairs_view(v@),
            forall|k: int| 0 <= k < i ==> pv[k] != (a@, b@),
        decreases v.len() - i,
    {
        assert(pv[i as int] == (v@[i as int].0@, v@[i as int].1@));
        if str_eq(v[i].0.as_str(), a) && str_eq(v[i].1.as_str(), b) {
            return true;
        }
        i = i + 1;
    }
    false
}

/// `r` is the impact on the Requirement `requirement_id` (uid
/// `requirement_uid`) whose spec changed: every case at `head` that hangs
/// off it, with its verdict, sorted by case id (cases with the same id keep
/// their `head_cases` order), and the ids of their Features, ascending and
/// each once.
pub open spec fn impact_is(
    r: RequirementImpact,
    requirement_id: Seq<char>,
    requirement_uid: Seq<char>,
    source: &'static str,
    head_cases: Seq<HeadCase>,
    changed_cases: Seq<Seq<char>>,
    confirmed_pairs: Seq<(Seq<char>, Seq<char>)>,
) -> bool {
    let related = related_cases(head_cases, requirement_uid, head_cases.len());
    &&& r.requirement_id@ == requirement_id
    &&& opt_view(r.requirement_uid) == Some(requirement_uid)
    &&& r.source == source
    &&& r.spec_changed
    &&& strictly_sorted(views(r.feature_ids@))
    &&& views(r.feature_ids@).to_set() == related.map_values(|c: HeadCase| c.feature@).to_set()
    &&& r.cases@.map_values(|a: CaseAlignment| alignment_view(a)) == sort_by_case_id(
        related.map_values(
            |c: HeadCase| expected_alignment(c, requirement_uid, changed_cases, confirmed_pairs),
        ),
    )
    &&& sorted(r.cases@.map_values(|a: CaseAlignment| a.case_id@))
}

fn clone_alignment(a: &CaseAlignment) -> (r: CaseAlignment)
    ensures
        alignment_view(r) == alignment_view(*a),
{
    CaseAlignment {
        case_id: a.case_id.clone(),
        case_uid: crate::text::clone_opt(&a.case_uid),
        case_changed: a.case_changed,
        status: a.status,
    }
}

/// `v` sorted by case id, stably.
fn sort_cases_by_id(v: &Vec<CaseAlignment>) -> (r: Vec<CaseAlignment>)
    ensures
        r@.map_values(|a: CaseAlignment| alignment_view(a)) == sort_by_case_id(
            v@.map_values(|a: CaseAlignment| alignment_view(a)),
        ),
{
    let ghost vv = v@.map_values(|a: CaseAlignment| alignment_view(a));
    let mut out: Vec<CaseAlignment> = Vec::new();
    let mut i: usize = 0;
    assert(vv.take(0) =~= seq![]);
    assert(out@.map_values(|a: CaseAlignment| alignment_view(a)) =~= seq![]);
    while i < v.len()
        invariant
            i <= v@.len(),
            vv == v@.map_values(|a: CaseAlignment| alignment_view(a)),
            out@.map_values(|a: CaseAlignment| alignment_view(a)) == sort_by_case_id(
                vv.take(i as int),
            ),
        decreases v.len() - i,
    {
        let x = clone_alignment(&v[i]);
        let ghost ov = out@.map_values(|a: CaseAlignment| alignment_view(a));
        let ghost key = alignment_view(x).0;
        let mut pos: usize = 0;
        while pos < out.len() && !str_lt(x.case_id.as_str(), out[pos].case_id.as_str())
            invariant
                pos <= out@.len(),
                ov == out@.map_values(|a: CaseAlignment| alignment_view(a)),
                key == x.case_id@,
                first_greater(ov, key, 0) == first_greater(ov, key, pos as nat),
            decreases out.len() - pos,
        {
            assert(ov[pos as int].0 == out@[pos as int].case_id@);
            pos = pos + 1;
        }
        proof {
            if pos < out.len() {
                assert(ov[pos as int].0 == out@[pos as int].case_id@);
            }
        }
        out.insert(pos, x);
        proof {
            assert(out@.map_values(|a: CaseAlignment| alignment_view(a)) =~= ov.insert(
                pos as int,
                alignment_view(x),
            ));
            assert(vv.take(i + 1).drop_last() =~= vv.take(i as int));
            assert(vv.take(i + 1).last() == alignment_view(x));
        }
        i = i + 1;
    }
    assert(vv.take(v.len() as int) =~= vv);
    out
}

/// The impact on one Requirement whose spec changed: every case at `head`
/// that hangs off it, with its verdict, sorted by case id; and the ids of
/// their Features, ascending and each once.
pub fn requirement_impact(
    requirement_id: &str,
    requirement_uid: &str,
    source: &'static str,
    head_cases: &Vec<HeadCase>,
    changed_cases: &Vec<String>,
    confirmed_pairs: &Vec<(String, String)>,
) -> (r: RequirementImpact)
    ensures
        impact_is(
            r,
            requirement_id@,
            requirement_uid@,
            source,
            head_cases@,
            views(changed_cases@),
            pairs_view(confirmed_pairs@),
        ),
{
    let ghost ch = views(changed_cases@);
    let ghost cp = pairs_view(confirmed_pairs@);
    let ghost ru = requirement_uid@;
    let mut feature_ids: Vec<String> = Vec::new();
    let mut cases: Vec<CaseAlignment> = Vec::new();
    let mut i: usize = 0;
    assert(views(feature_ids@).to_set() =~= related_cases(head_cases@, requirement_uid@, 0).map_values(
        |c: HeadCase| c.feature@,
    ).to_set());
    assert(cases@.map_values(|a: CaseAlignment| alignment_view(a)) =~= related_cases(
        head_cases@,
        ru,
        0,
    ).map_values(|c: HeadCase| expected_alignment(c, ru, ch, cp)));
    while i < head_cases.len()
        invariant
            i <= head_cases@.len(),
            ch == views(changed_cases@),
            cp == pairs_view(confirmed_pairs@),
            ru == requirement_uid@,
            strictly_sorted(views(feature_ids@)),
            views(feature_ids@).to_set() == related_cases(
                head_cases@,
                requirement_uid@,
                i as nat,
            ).map_values(|c: HeadCase| c.feature@).to_set(),
            cases@.map_values(|a: CaseAlignment| alignment_view(a)) == related_cases(
                head_cases@,
                ru,
                i as nat,
            ).map_values(|c: HeadCase| expected_alignment(c, ru, ch, cp)),
        decreases head_cases.len() - i,
    {
        let c = &head_cases[i];
        let related = match &c.requirement_uids {
            Some(v) => contains_string(v, requirement_uid),
            None => false,
        };
        let ghost prev = related_cases(head_cases@, requirement_uid@, i as nat);
        let ghost next = related_cases(head_cases@, requirement_uid@, (i + 1) as nat);
        if related {
            let ghost fprev = prev.map_values(|c: HeadCase| c.feature@);
            let ghost before = views(feature_ids@).to_set();
            insert_sorted_unique(&mut feature_ids, c.feature.clone());
            assert(next == prev.push(*c));
            assert(next.map_values(|c: HeadCase| c.feature@) =~= fprev.push(c.feature@));
            assert(views(feature_ids@).to_set() =~= next.map_values(|c: HeadCase| c.feature@).to_set())
                by {
                fprev.lemma_push_to_set_commute(c.feature@);
                assert(before == fprev.to_set());
            }
            let (case_changed, confirmed) = match &c.case_uid {
                Some(u) => (
                    contains_string(changed_cases, u.as_str()),
                    contains_pair(confirmed_pairs, requirement_uid, u.as_str()),
                ),
                None => (false, false),
            };
            let status = case_status(confirmed, case_changed);
            let ghost cases_before = cases@;
            cases.push(
                CaseAlignment {
                    case_id: c.case_id.clone(),
                    case_uid: crate::text::clone_opt(&c.case_uid),
                    case_changed,
                    status,
                },
            );
            assert(cases@.map_values(|a: CaseAlignment| alignment_view(a)) =~= cases_before.map_values(
                |a: CaseAlignment| alignment_view(a),
            ).push(expected_alignment(*c, ru, ch, cp)));
            assert(next.map_values(|c: HeadCase| expected_alignment(c, ru, ch, cp)) =~= prev.map_values(
                |c: HeadCase| expected_alignment(c, ru, ch, cp),
            ).push(expected_alignment(*c, ru, ch, cp)));
        } else {
            assert(next == prev);
        }
        i = i + 1;
    }
    let sorted_cases = sort_cases_by_id(&cases);
    proof {
        let u = related_cases(head_cases@, ru, head_cases@.len()).map_values(
            |c: HeadCase| expected_alignment(c, ru, ch, cp),
        );
        lemma_sort_by_case_id_sorted(u);
        let sv = sorted_cases@.map_values(|a: CaseAlignment| alignment_view(a));
        assert(sorted_cases@.map_values(|a: CaseAlignment| a.case_id@) =~= case_ids(sv));
    }
    RequirementImpact {
        requirement_id: String::from_str(requirement_id),
        requirement_uid: Some(String::from_str(requirement_uid)),
        source,
        spec_changed: true,
        feature_ids,
        cases: sorted_cases,
    }
}

} // verus!
