//! The decisions Change Impact makes over a range once the refs were
//! read: whose content changed between two refs, which external pins are
//! stale at head, and the impact of every Requirement whose spec changed.
use vstd::prelude::*;

use crate::impact::{
    impact_is, pairs_view, requirement_impact, HeadCase, RejectedTrailerReport, RequirementImpact,
    StalePin,
};
use crate::text::{
    insert_sorted_unique, lemma_seq_lt_irreflexive, lemma_seq_lt_total, lemma_seq_lt_transitive,
    opt_view, seq_lt, str_eq, str_lt, strictly_sorted, views,
};

verus! {

// ---------------------------------------------------------------------------
// Changed cases.
// ---------------------------------------------------------------------------

/// A TestCase at one ref: its id, its uid once computable, and its
/// revision (derived from what it verifies).
pub struct CaseRevision {
    pub case_id: String,
    pub case_uid: Option<String>,
    pub case_revision: String,
}

/// The revision of the first case, at `k` or later, with id `id`.
pub open spec fn revision_of(cases: Seq<CaseRevision>, id: Seq<char>, k: nat) -> Option<Seq<char>>
    decreases cases.len() - k,
{
    if k >= cases.len() {
        None
    } else if cases[k as int].case_id@ == id {
        Some(cases[k as int].case_revision@)
    } else {
        revision_of(cases, id, k + 1)
    }
}

/// A case changed when it did not exist at the earlier ref, or its
/// revision differs there.
pub open spec fn case_changed(from: Seq<CaseRevision>, c: CaseRevision) -> bool {
    match revision_of(from, c.case_id@, 0) {
        Some(r) => r != c.case_revision@,
        None => true,
    }
}

/// The uids of the changed cases among the first `n` cases at the later
/// ref.
pub open spec fn changed_case_set(from: Seq<CaseRevision>, to: Seq<CaseRevision>, n: int) -> Set<
    Seq<char>,
> {
    Set::new(
        |u: Seq<char>|
            exists|k: int|
                0 <= k < n && opt_view(#[trigger] to[k].case_uid) == Some(u) && case_changed(
                    from,
                    to[k],
                ),
    )
}

fn revision_at_earlier_ref<'a>(from: &'a Vec<CaseRevision>, id: &String) -> (r: Option<&'a String>)
    ensures
        match r {
            Some(x) => revision_of(from@, id@, 0) == Some(x@),
            None => revision_of(from@, id@, 0) is None,
        },
{
    let mut i: usize = 0;
    while i < from.len()
        invariant
            i <= from@.len(),
            revision_of(from@, id@, 0) == revision_of(from@, id@, i as nat),
        decreases from.len() - i,
    {
        if str_eq(from[i].case_id.as_str(), id.as_str()) {
            return Some(&from[i].case_revision);
        }
        i = i + 1;
    }
    None
}

/// The uids of the cases at the later ref (`to`) whose content changed
/// since the earlier one (`from`), ascending and each once. A case without
/// a uid yet is left out.
pub fn changed_case_uids(from: &Vec<CaseRevision>, to: &Vec<CaseRevision>) -> (r: Vec<String>)
    ensures
        strictly_sorted(views(r@)),
        views(r@).to_set() == changed_case_set(from@, to@, to@.len() as int),
{
    let mut out: Vec<String> = Vec::new();
    assert(views(out@).to_set() =~= changed_case_set(from@, to@, 0));
    let mut i: usize = 0;
    while i < to.len()
        invariant
            i <= to@.len(),
            strictly_sorted(views(out@)),
            views(out@).to_set() == changed_case_set(from@, to@, i as int),
        decreases to.len() - i,
    {
        let c = &to[i];
        if let Some(u) = &c.case_uid {
            let changed = match revision_at_earlier_ref(from, &c.case_id) {
                Some(before) => !str_eq(before.as_str(), c.case_revision.as_str()),
                None => true,
            };
            if changed {
                insert_sorted_unique(&mut out, u.clone());
            }
        }
        assert(views(out@).to_set() =~= changed_case_set(from@, to@, i + 1));
        i = i + 1;
    }
    out
}

// ---------------------------------------------------------------------------
// Changed requirements.
// ---------------------------------------------------------------------------

/// A Requirement at the later ref, with the blob its spec content lives
/// in (`spec_path`, empty when there is none) at both refs.
pub struct RequirementChange {
    pub uid: Option<String>,
    pub spec_path: String,
    pub blob_before: Option<String>,
    pub blob_after: Option<String>,
    /// Whether the Requirement existed at the earlier ref.
    pub existed_before: bool,
}

/// A Requirement's spec changed when its content blob differs between the
/// refs, or it is new in the range.
pub open spec fn requirement_changed(r: RequirementChange) -> bool {
    &&& r.uid is Some
    &&& r.spec_path@.len() > 0
    &&& (opt_view(r.blob_before) != opt_view(r.blob_after) || !r.existed_before)
}

pub open spec fn changed_requirement_set(rs: Seq<RequirementChange>, n: int) -> Set<Seq<char>> {
    Set::new(
        |u: Seq<char>|
            exists|k: int|
                0 <= k < n && opt_view(#[trigger] rs[k].uid) == Some(u) && requirement_changed(
                    rs[k],
                ),
    )
}

fn same_blob(a: &Option<String>, b: &Option<String>) -> (r: bool)
    ensures
        r == (opt_view(*a) == opt_view(*b)),
{
    match (a, b) {
        (Some(x), Some(y)) => str_eq(x.as_str(), y.as_str()),
        (None, None) => true,
        _ => false,
    }
}

/// The uids of the Requirements whose spec changed, ascending and each
/// once.
pub fn changed_requirement_uids(rs: &Vec<RequirementChange>) -> (r: Vec<String>)
    ensures
        strictly_sorted(views(r@)),
        views(r@).to_set() == changed_requirement_set(rs@, rs@.len() as int),
{
    let mut out: Vec<String> = Vec::new();
    assert(views(out@).to_set() =~= changed_requirement_set(rs@, 0));
    let mut i: usize = 0;
    while i < rs.len()
        invariant
            i <= rs@.len(),
            strictly_sorted(views(out@)),
            views(out@).to_set() == changed_requirement_set(rs@, i as int),
        decreases rs.len() - i,
    {
        let r = &rs[i];
        if let Some(u) = &r.uid {
            if r.spec_path.unicode_len() > 0 && (!same_blob(&r.blob_before, &r.blob_after)
                || !r.existed_before) {
                insert_sorted_unique(&mut out, u.clone());
            }
        }
        assert(views(out@).to_set() =~= changed_requirement_set(rs@, i + 1));
        i = i + 1;
    }
    out
}

// ---------------------------------------------------------------------------
// Head: stale pins and impacts.
// ---------------------------------------------------------------------------

/// A Requirement at head, as the impact computation reads it.
pub struct HeadRequirement {
    pub requirement_id: String,
    pub uid: Option<String>,
    /// Whether its spec lives in an external source it pins.
    pub external: bool,
    pub source_locator: Option<String>,
    pub source_revision: Option<String>,
    /// The blob of `source_locator` at head, where it was looked up (an
    /// external Requirement with a locator and a pin) and found.
    pub head_revision: Option<String>,
}

pub type StalePinView = (Seq<char>, Seq<char>, Seq<char>, Seq<char>);

pub open spec fn stale_pin_view(p: StalePin) -> StalePinView {
    (p.requirement_id@, p.source_locator@, p.pinned_revision@, p.head_revision@)
}

/// An external Requirement's pin is stale when its source's blob at head
/// differs from the pinned revision.
pub open spec fn stale_pin_of(r: HeadRequirement) -> Option<StalePinView> {
    if r.external {
        match (r.source_locator, r.source_revision, r.head_revision) {
            (Some(l), Some(p), Some(h)) => if h@ != p@ {
                Some((r.requirement_id@, l@, p@, h@))
            } else {
                None
            },
            _ => None,
        }
    } else {
        None
    }
}

/// The stale pins among the first `n` Requirements, in order.
pub open spec fn stale_pins(rs: Seq<HeadRequirement>, n: nat) -> Seq<StalePinView>
    decreases n,
{
    if n == 0 {
        seq![]
    } else {
        match stale_pin_of(rs[n - 1]) {
            Some(p) => stale_pins(rs, (n - 1) as nat).push(p),
            None => stale_pins(rs, (n - 1) as nat),
        }
    }
}

/// The Requirements among the first `n` whose spec changed, in order: each
/// with its uid.
pub open spec fn impacted(rs: Seq<HeadRequirement>, changed: Seq<Seq<char>>, n: nat) -> Seq<
    (HeadRequirement, Seq<char>),
>
    decreases n,
{
    if n == 0 {
        seq![]
    } else {
        let prev = impacted(rs, changed, (n - 1) as nat);
        match opt_view(rs[n - 1].uid) {
            Some(u) => if changed.contains(u) {
                prev.push((rs[n - 1], u))
            } else {
                prev
            },
            None => prev,
        }
    }
}

/// Where a Requirement's spec content lives: the source it pins when
/// external (nothing when it names none), its own `requirement.yml`
/// otherwise.
pub open spec fn spec_blob_path_of(
    requirement_id: Seq<char>,
    external: bool,
    source_locator: Option<Seq<char>>,
) -> Seq<char> {
    if external {
        match source_locator {
            Some(l) => l,
            None => Seq::empty(),
        }
    } else {
        ".markharness/knowledge/requirements/"@ + requirement_id + "/requirement.yml"@
    }
}

pub fn spec_blob_path(requirement_id: &str, external: bool, source_locator: &Option<String>) -> (r:
    String)
    ensures
        r@ == spec_blob_path_of(requirement_id@, external, opt_view(*source_locator)),
{
    if external {
        match source_locator {
            Some(l) => l.clone(),
            None => String::new(),
        }
    } else {
        let mut p = String::from_str(".markharness/knowledge/requirements/");
        p.append(requirement_id);
        p.append("/requirement.yml");
        proof {
            reveal_strlit(".markharness/knowledge/requirements/");
            reveal_strlit("/requirement.yml");
        }
        p
    }
}

/// The ids at the positions `idx`.
pub open spec fn ids_at(ids: Seq<String>, idx: Seq<usize>) -> Seq<Seq<char>> {
    idx.map_values(|x: usize| ids[x as int]@)
}

/// No entry after position `p` (among the first `n`) has the id at `p`.
pub open spec fn last_at(ids: Seq<String>, p: int, n: int) -> bool {
    forall|j: int| p < j < n ==> ids[j]@ != ids[p]@
}

/// Some position in `idx` holds the id of entry `j`.
pub open spec fn covered(ids: Seq<String>, idx: Seq<usize>, j: int) -> bool {
    exists|k: int| 0 <= k < idx.len() && ids[idx[k] as int]@ == ids[j]@
}

/// `idx` keys `ids` by id, a later entry replacing an earlier one: it
/// holds, in ascending id order, the position of the last entry of each
/// id among the first `n`.
pub open spec fn keyed_by_id(ids: Seq<String>, idx: Seq<usize>, n: int) -> bool {
    &&& forall|k: int| 0 <= k < idx.len() ==> #[trigger] idx[k] < n
    &&& strictly_sorted(ids_at(ids, idx))
    &&& forall|k: int| 0 <= k < idx.len() ==> #[trigger] last_at(ids, idx[k] as int, n)
    &&& forall|j: int| 0 <= j < n ==> #[trigger] covered(ids, idx, j)
}

proof fn lemma_keyed_replace(ids: Seq<String>, old_out: Seq<usize>, pos: int, i: usize)
    requires
        i < ids.len(),
        keyed_by_id(ids, old_out, i as int),
        0 <= pos < old_out.len(),
        ids[old_out[pos] as int]@ == ids[i as int]@,
    ensures
        keyed_by_id(ids, old_out.update(pos, i), i + 1),
{
    let x = ids[i as int]@;
    let out = old_out.update(pos, i);
    let ks = ids_at(ids, old_out);
    let nk = ids_at(ids, out);
    assert forall|k: int| 0 <= k < nk.len() implies nk[k] == ks[k] by {
        if k == pos {
            assert(nk[k] == ids[i as int]@);
        } else {
            assert(out[k] == old_out[k]);
        }
    }
    assert(nk =~= ks);
    assert forall|k: int| 0 <= k < out.len() implies #[trigger] last_at(ids, out[k] as int, i + 1) by {
        if k == pos {
            assert(out[k] == i);
        } else {
            assert(out[k] == old_out[k]);
            assert(last_at(ids, old_out[k] as int, i as int));
            assert(ks[k] == ids[old_out[k] as int]@);
            lemma_seq_lt_irreflexive(x);
            if k < pos {
                assert(seq_lt(ks[k], ks[pos]));
            } else {
                assert(seq_lt(ks[pos], ks[k]));
            }
        }
    }
    assert forall|j: int| 0 <= j < i + 1 implies #[trigger] covered(ids, out, j) by {
        if j == i as int {
            assert(ids[out[pos] as int]@ == ids[j]@);
        } else {
            assert(covered(ids, old_out, j));
            let k = choose|k: int| 0 <= k < old_out.len() && ids[old_out[k] as int]@ == ids[j]@;
            assert(ks[k] == ids[old_out[k] as int]@);
            assert(nk[k] == ids[out[k] as int]@);
        }
    }
}

proof fn lemma_keyed_insert(ids: Seq<String>, old_out: Seq<usize>, pos: int, i: usize)
    requires
        i < ids.len(),
        keyed_by_id(ids, old_out, i as int),
        0 <= pos <= old_out.len(),
        forall|k: int| 0 <= k < pos ==> seq_lt(#[trigger] ids_at(ids, old_out)[k], ids[i as int]@),
        pos < old_out.len() ==> seq_lt(ids[i as int]@, ids_at(ids, old_out)[pos]),
    ensures
        keyed_by_id(ids, old_out.insert(pos, i), i + 1),
{
    let x = ids[i as int]@;
    let out = old_out.insert(pos, i);
    let ks = ids_at(ids, old_out);
    let nk = ids_at(ids, out);
    assert(nk =~= ks.insert(pos, x));
    assert forall|a: int, b: int| 0 <= a < b < nk.len() implies seq_lt(
        #[trigger] nk[a],
        #[trigger] nk[b],
    ) by {
        if a < pos && b == pos {
        } else if a == pos && b > pos {
            if b - 1 > pos {
                lemma_seq_lt_transitive(x, ks[pos], ks[b - 1]);
            }
        } else if a < pos && b > pos {
            assert(seq_lt(ks[a], ks[b - 1]));
        } else if a > pos {
            assert(seq_lt(ks[a - 1], ks[b - 1]));
        } else {
            assert(seq_lt(ks[a], ks[b]));
        }
    }
    assert forall|k: int| 0 <= k < out.len() implies #[trigger] out[k] < i + 1 by {
        if k < pos {
            assert(out[k] == old_out[k]);
        } else if k > pos {
            assert(out[k] == old_out[k - 1]);
        }
    }
    assert forall|k: int| 0 <= k < out.len() implies #[trigger] last_at(ids, out[k] as int, i + 1) by {
        if k == pos {
            assert(out[k] == i);
        } else {
            lemma_seq_lt_irreflexive(x);
            let m = if k < pos { k } else { k - 1 };
            assert(out[k] == old_out[m]);
            assert(last_at(ids, old_out[m] as int, i as int));
            assert(ks[m] == ids[old_out[m] as int]@);
            if m > pos {
                lemma_seq_lt_transitive(x, ks[pos], ks[m]);
            }
            assert(ks[m] != x);
        }
    }
    assert forall|j: int| 0 <= j < i + 1 implies #[trigger] covered(ids, out, j) by {
        if j == i as int {
            assert(ids[out[pos] as int]@ == ids[j]@);
        } else {
            assert(covered(ids, old_out, j));
            let k = choose|k: int| 0 <= k < old_out.len() && ids[old_out[k] as int]@ == ids[j]@;
            if k < pos {
                assert(out[k] == old_out[k]);
            } else {
                assert(out[k + 1] == old_out[k]);
            }
        }
    }
}

fn place_last(ids: &Vec<String>, out: &mut Vec<usize>, i: usize)
    requires
        i < ids@.len(),
        keyed_by_id(ids@, old(out)@, i as int),
    ensures
        keyed_by_id(ids@, final(out)@, i + 1),
{
    let ghost x = ids@[i as int]@;
    let ghost ks = ids_at(ids@, out@);
    let mut pos: usize = 0;
    while pos < out.len() && str_lt(ids[out[pos]].as_str(), ids[i].as_str())
        invariant
            pos <= out@.len(),
            keyed_by_id(ids@, out@, i as int),
            i < ids@.len(),
            ks == ids_at(ids@, out@),
            x == ids@[i as int]@,
            forall|k: int| 0 <= k < pos ==> seq_lt(#[trigger] ks[k], x),
        decreases out.len() - pos,
    {
        assert(ks[pos as int] == ids@[out@[pos as int] as int]@);
        pos = pos + 1;
    }
    let ghost old_out = out@;
    if pos < out.len() && str_eq(ids[out[pos]].as_str(), ids[i].as_str()) {
        out.set(pos, i);
        proof {
            lemma_keyed_replace(ids@, old_out, pos as int, i);
        }
    } else {
        proof {
            if pos < old_out.len() {
                assert(ks[pos as int] == ids@[old_out[pos as int] as int]@);
                lemma_seq_lt_total(ks[pos as int], x);
            }
        }
        out.insert(pos, i);
        proof {
            lemma_keyed_insert(ids@, old_out, pos as int, i);
        }
    }
}

/// The position of the last entry of each id in `ids`, in ascending id
/// order: what a map keyed by id keeps of a list.
pub fn last_of_each_id(ids: &Vec<String>) -> (r: Vec<usize>)
    ensures
        keyed_by_id(ids@, r@, ids@.len() as int),
{
    let mut out: Vec<usize> = Vec::new();
    let mut i: usize = 0;
    while i < ids.len()
        invariant
            i <= ids@.len(),
            keyed_by_id(ids@, out@, i as int),
        decreases ids.len() - i,
    {
        place_last(ids, &mut out, i);
        i = i + 1;
    }
    out
}

pub open spec fn head_requirement_ids(rs: Seq<HeadRequirement>) -> Seq<Seq<char>> {
    rs.map_values(|r: HeadRequirement| r.requirement_id@)
}

/// Impacted Requirements keep the order of their ids: each comes before
/// every later Requirement of `rs`.
proof fn lemma_impacted_sorted(rs: Seq<HeadRequirement>, changed: Seq<Seq<char>>, n: nat)
    requires
        n <= rs.len(),
        strictly_sorted(head_requirement_ids(rs)),
    ensures
        strictly_sorted(
            impacted(rs, changed, n).map_values(
                |p: (HeadRequirement, Seq<char>)| p.0.requirement_id@,
            ),
        ),
        forall|k: int, m: int|
            0 <= k < impacted(rs, changed, n).len() && n <= m < rs.len() ==> seq_lt(
                #[trigger] impacted(rs, changed, n)[k].0.requirement_id@,
                #[trigger] rs[m].requirement_id@,
            ),
    decreases n,
{
    if n > 0 {
        lemma_impacted_sorted(rs, changed, (n - 1) as nat);
        let prev = impacted(rs, changed, (n - 1) as nat);
        let cur = impacted(rs, changed, n);
        let ids = head_requirement_ids(rs);
        assert forall|m: int| n - 1 < m < rs.len() implies seq_lt(
            rs[n - 1].requirement_id@,
            #[trigger] rs[m].requirement_id@,
        ) by {
            assert(ids[n - 1] == rs[n - 1].requirement_id@ && ids[m] == rs[m].requirement_id@);
        }
        assert forall|k: int, m: int|
            0 <= k < cur.len() && n <= m < rs.len() implies seq_lt(
            #[trigger] cur[k].0.requirement_id@,
            #[trigger] rs[m].requirement_id@,
        ) by {
            if k < prev.len() {
                assert(cur[k] == prev[k]);
                assert(seq_lt(prev[k].0.requirement_id@, rs[m].requirement_id@));
            } else {
                assert(cur[k].0 == rs[n - 1]);
            }
        }
        let cids = cur.map_values(|p: (HeadRequirement, Seq<char>)| p.0.requirement_id@);
        assert forall|a: int, b: int| 0 <= a < b < cids.len() implies seq_lt(
            #[trigger] cids[a],
            #[trigger] cids[b],
        ) by {
            let pids = prev.map_values(|p: (HeadRequirement, Seq<char>)| p.0.requirement_id@);
            if b < prev.len() {
                assert(cur[a] == prev[a] && cur[b] == prev[b]);
                assert(seq_lt(pids[a], pids[b]));
            } else {
                assert(cur[a] == prev[a]);
                assert(cur[b].0 == rs[n - 1]);
                assert(seq_lt(prev[a].0.requirement_id@, rs[n - 1].requirement_id@));
            }
        }
    }
}

pub open spec fn source_name(external: bool) -> &'static str {
    if external {
        "external"
    } else {
        "native"
    }
}

fn source_of(external: bool) -> (r: &'static str)
    ensures
        r == source_name(external),
{
    if external {
        "external"
    } else {
        "native"
    }
}

fn listed(v: &Vec<String>, s: &String) -> (r: bool)
    ensures
        r == views(v@).contains(s@),
{
    let mut k: usize = 0;
    while k < v.len()
        invariant
            k <= v@.len(),
            forall|m: int| 0 <= m < k ==> v@[m]@ != s@,
        decreases v.len() - k,
    {
        if str_eq(v[k].as_str(), s.as_str()) {
            assert(views(v@)[k as int] == s@);
            return true;
        }
        k = k + 1;
    }
    proof {
        if views(v@).contains(s@) {
            let m = choose|m: int| 0 <= m < views(v@).len() && views(v@)[m] == s@;
            assert(v@[m]@ == s@);
        }
    }
    false
}

fn stale_pin(r: &HeadRequirement) -> (p: Option<StalePin>)
    ensures
        match p {
            Some(x) => stale_pin_of(*r) == Some(stale_pin_view(x)),
            None => stale_pin_of(*r) is None,
        },
{
    if !r.external {
        return None;
    }
    match (&r.source_locator, &r.source_revision, &r.head_revision) {
        (Some(l), Some(p), Some(h)) => if !str_eq(h.as_str(), p.as_str()) {
            Some(
                StalePin {
                    requirement_id: r.requirement_id.clone(),
                    source_locator: l.clone(),
                    pinned_revision: p.clone(),
                    head_revision: h.clone(),
                },
            )
        } else {
            None
        },
        _ => None,
    }
}

/// What a range's report says of head: the stale pins, in Requirement
/// order; and the impact of every Requirement whose spec changed in the
/// range (`changed_requirements`), in Requirement order.
pub fn head_impacts(
    head_requirements: &Vec<HeadRequirement>,
    head_cases: &Vec<HeadCase>,
    changed_requirements: &Vec<String>,
    changed_cases: &Vec<String>,
    confirmed_pairs: &Vec<(String, String)>,
) -> (r: (Vec<RequirementImpact>, Vec<StalePin>))
    requires
        strictly_sorted(head_requirement_ids(head_requirements@)),
    ensures
        strictly_sorted(r.0@.map_values(|x: RequirementImpact| x.requirement_id@)),
        r.1@.map_values(|p: StalePin| stale_pin_view(p)) == stale_pins(
            head_requirements@,
            head_requirements@.len(),
        ),
        r.0@.len() == impacted(
            head_requirements@,
            views(changed_requirements@),
            head_requirements@.len(),
        ).len(),
        forall|k: int|
            0 <= k < r.0@.len() ==> {
                let (hr, u) = impacted(
                    head_requirements@,
                    views(changed_requirements@),
                    head_requirements@.len(),
                )[k];
                impact_is(
                    #[trigger] r.0@[k],
                    hr.requirement_id@,
                    u,
                    source_name(hr.external),
                    head_cases@,
                    views(changed_cases@),
                    pairs_view(confirmed_pairs@),
                )
            },
{
    let ghost rs = head_requirements@;
    let ghost ch = views(changed_requirements@);
    let mut impacts: Vec<RequirementImpact> = Vec::new();
    let mut pins: Vec<StalePin> = Vec::new();
    let mut i: usize = 0;
    assert(pins@.map_values(|p: StalePin| stale_pin_view(p)) =~= stale_pins(rs, 0));
    while i < head_requirements.len()
        invariant
            i <= rs.len(),
            rs == head_requirements@,
            ch == views(changed_requirements@),
            pins@.map_values(|p: StalePin| stale_pin_view(p)) == stale_pins(rs, i as nat),
            impacts@.len() == impacted(rs, ch, i as nat).len(),
            forall|k: int|
                0 <= k < impacts@.len() ==> {
                    let (hr, u) = impacted(rs, ch, i as nat)[k];
                    impact_is(
                        #[trigger] impacts@[k],
                        hr.requirement_id@,
                        u,
                        source_name(hr.external),
                        head_cases@,
                        views(changed_cases@),
                        pairs_view(confirmed_pairs@),
                    )
                },
        decreases head_requirements.len() - i,
    {
        let r = &head_requirements[i];
        let ghost pins_before = pins@;
        match stale_pin(r) {
            Some(p) => {
                pins.push(p);
                assert(pins@.map_values(|p: StalePin| stale_pin_view(p)) =~= pins_before.map_values(
                    |p: StalePin| stale_pin_view(p),
                ).push(stale_pin_view(pins@[pins@.len() - 1])));
            },
            None => {},
        }
        let ghost prev = impacted(rs, ch, i as nat);
        let ghost impacts_before = impacts@;
        if let Some(u) = &r.uid {
            if listed(changed_requirements, u) {
                let impact = requirement_impact(
                    r.requirement_id.as_str(),
                    u.as_str(),
                    source_of(r.external),
                    head_cases,
                    changed_cases,
                    confirmed_pairs,
                );
                impacts.push(impact);
                assert forall|k: int| 0 <= k < impacts@.len() implies {
                    let (hr, uu) = impacted(rs, ch, (i + 1) as nat)[k];
                    impact_is(
                        #[trigger] impacts@[k],
                        hr.requirement_id@,
                        uu,
                        source_name(hr.external),
                        head_cases@,
                        views(changed_cases@),
                        pairs_view(confirmed_pairs@),
                    )
                } by {
                    if k < impacts_before.len() {
                        assert(impacts@[k] == impacts_before[k]);
                        assert(impacted(rs, ch, (i + 1) as nat)[k] == prev[k]);
                    }
                }
            }
        }
        i = i + 1;
    }
    proof {
        lemma_impacted_sorted(rs, ch, rs.len());
        let imp = impacted(rs, ch, rs.len());
        let ids = impacts@.map_values(|x: RequirementImpact| x.requirement_id@);
        let iids = imp.map_values(|p: (HeadRequirement, Seq<char>)| p.0.requirement_id@);
        assert forall|k: int| 0 <= k < ids.len() implies ids[k] == iids[k] by {
            let (hr, u) = imp[k];
            assert(impact_is(
                impacts@[k],
                hr.requirement_id@,
                u,
                source_name(hr.external),
                head_cases@,
                views(changed_cases@),
                pairs_view(confirmed_pairs@),
            ));
        }
        assert(ids =~= iids);
    }
    (impacts, pins)
}

// ---------------------------------------------------------------------------
// Trailers at one commit.
// ---------------------------------------------------------------------------

/// A commit trailer naming a `(requirement id, case id)` pair, as parsed.
pub struct PairTrailer {
    pub requirement_id: String,
    pub case_id: String,
}

/// A commit's confirmation of a `(requirement uid, case uid)` pair.
#[derive(Debug, Clone, PartialEq, Eq)]
pub struct Confirmation {
    pub commit: String,
    pub requirement_uid: String,
    pub case_uid: String,
}

/// The uid of the first entry, at `k` or later, with id `id`: `None` when
/// there is no such entry or it has no uid.
pub open spec fn uid_of_id(entries: Seq<(String, Option<String>)>, id: Seq<char>, k: nat) -> Option<
    Seq<char>,
>
    decreases entries.len() - k,
{
    if k >= entries.len() {
        None
    } else if entries[k as int].0@ == id {
        opt_view(entries[k as int].1)
    } else {
        uid_of_id(entries, id, k + 1)
    }
}

pub type ConfirmationView = (Seq<char>, Seq<char>, Seq<char>);

pub open spec fn confirmation_view(c: Confirmation) -> ConfirmationView {
    (c.commit@, c.requirement_uid@, c.case_uid@)
}

pub type ReportView = (Seq<char>, Seq<char>, Seq<char>);

pub open spec fn report_view(r: RejectedTrailerReport) -> ReportView {
    (r.commit@, r.line@, r.reason@)
}

pub open spec fn unresolved_reason() -> Seq<char> {
    "requirement or case could not be resolved to a uid at this commit"@
}

/// The trailer as a report line: `"<key>: requirement=<id> case=<id>"`.
pub open spec fn trailer_line(key: Seq<char>, t: PairTrailer) -> Seq<char> {
    key + ": requirement="@ + t.requirement_id@ + " case="@ + t.case_id@
}

/// Of the first `n` trailers, in order: the confirmations of those whose
/// requirement and case both have a uid at the commit (`.0`), and a report
/// for each of the others (`.1`).
pub open spec fn trailer_outcomes(
    commit: Seq<char>,
    trailers: Seq<PairTrailer>,
    requirements: Seq<(String, Option<String>)>,
    cases: Seq<(String, Option<String>)>,
    key: Seq<char>,
    n: nat,
) -> (Seq<ConfirmationView>, Seq<ReportView>)
    decreases n,
{
    if n == 0 {
        (seq![], seq![])
    } else {
        let prev = trailer_outcomes(commit, trailers, requirements, cases, key, (n - 1) as nat);
        let t = trailers[n - 1];
        match (uid_of_id(requirements, t.requirement_id@, 0), uid_of_id(cases, t.case_id@, 0)) {
            (Some(r), Some(c)) => (prev.0.push((commit, r, c)), prev.1),
            _ => (prev.0, prev.1.push((commit, trailer_line(key, t), unresolved_reason()))),
        }
    }
}

fn uid_for_id(entries: &Vec<(String, Option<String>)>, id: &String) -> (r: Option<String>)
    ensures
        opt_view(r) == uid_of_id(entries@, id@, 0),
{
    let mut k: usize = 0;
    while k < entries.len()
        invariant
            k <= entries@.len(),
            uid_of_id(entries@, id@, 0) == uid_of_id(entries@, id@, k as nat),
        decreases entries.len() - k,
    {
        if str_eq(entries[k].0.as_str(), id.as_str()) {
            return match &entries[k].1 {
                Some(u) => Some(u.clone()),
                None => None,
            };
        }
        k = k + 1;
    }
    None
}

/// Resolves a commit's pair trailers against the display ids as they stood
/// at that commit (`requirements` and `cases`: id and uid): a trailer whose
/// requirement and case both resolve to a uid confirms that pair; any other
/// cannot identify a pair and is reported, under the trailer key
/// `trailer_key`.
pub fn confirmations_at_commit(
    commit: &str,
    trailers: &Vec<PairTrailer>,
    requirements: &Vec<(String, Option<String>)>,
    cases: &Vec<(String, Option<String>)>,
    trailer_key: &str,
) -> (r: (Vec<Confirmation>, Vec<RejectedTrailerReport>))
    ensures
        ({
            let o = trailer_outcomes(
                commit@,
                trailers@,
                requirements@,
                cases@,
                trailer_key@,
                trailers@.len(),
            );
            &&& r.0@.map_values(|c: Confirmation| confirmation_view(c)) == o.0
            &&& r.1@.map_values(|x: RejectedTrailerReport| report_view(x)) == o.1
        }),
{
    let mut confirmations: Vec<Confirmation> = Vec::new();
    let mut reports: Vec<RejectedTrailerReport> = Vec::new();
    let mut i: usize = 0;
    while i < trailers.len()
        invariant
            i <= trailers@.len(),
            confirmations@.map_values(|c: Confirmation| confirmation_view(c)) == trailer_outcomes(
                commit@,
                trailers@,
                requirements@,
                cases@,
                trailer_key@,
                i as nat,
            ).0,
            reports@.map_values(|x: RejectedTrailerReport| report_view(x)) == trailer_outcomes(
                commit@,
                trailers@,
                requirements@,
                cases@,
                trailer_key@,
                i as nat,
            ).1,
        decreases trailers.len() - i,
    {
        let t = &trailers[i];
        let ghost cb = confirmations@;
        let ghost rb = reports@;
        match (uid_for_id(requirements, &t.requirement_id), uid_for_id(cases, &t.case_id)) {
            (Some(r), Some(c)) => {
                confirmations.push(
                    Confirmation {
                        commit: String::from_str(commit),
                        requirement_uid: r,
                        case_uid: c,
                    },
                );
                assert(confirmations@.map_values(|c: Confirmation| confirmation_view(c))
                    =~= cb.map_values(|c: Confirmation| confirmation_view(c)).push(
                    confirmation_view(confirmations@[cb.len() as int]),
                ));
            },
            _ => {
                let mut line = String::from_str(trailer_key);
                line.append(": requirement=");
                line.append(t.requirement_id.as_str());
                line.append(" case=");
                line.append(t.case_id.as_str());
                reports.push(
                    RejectedTrailerReport {
                        commit: String::from_str(commit),
                        line,
                        reason: String::from_str(
                            "requirement or case could not be resolved to a uid at this commit",
                        ),
                    },
                );
                assert(reports@.map_values(|x: RejectedTrailerReport| report_view(x))
                    =~= rb.map_values(|x: RejectedTrailerReport| report_view(x)).push(
                    report_view(reports@[rb.len() as int]),
                ));
            },
        }
        i = i + 1;
    }
    (confirmations, reports)
}

} // verus!
