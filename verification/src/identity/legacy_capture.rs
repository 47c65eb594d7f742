//! Capturing each case's legacy snapshot before a migration, and recording
//! the `(case_id, case_uid)` pairings a migration made computable.
use vstd::prelude::*;

use crate::identity::entity_kind::EntityKind;
use crate::identity::migration_manifest::{
    locator_view, locators_view, snapshot_view, LegacyElementLocator, LegacySnapshot, Manifest,
    ManifestEntry, LocatorView, SnapshotView,
};
use crate::text::{seq_lt, str_eq, str_lt};

verus! {

/// Where one of a case's contributing elements is: the id it carries and
/// its repo-relative path.
pub struct ElementSource {
    pub id: String,
    pub path: String,
}

/// What generating a case from the knowledge tree tells about it: its id,
/// its `case_uid` once all its elements carry a uid, and its contributing
/// elements (the expected results in order).
pub struct CaseSources {
    pub case_id: String,
    pub case_uid: Option<String>,
    pub requirement: ElementSource,
    pub feature: ElementSource,
    pub behavior: ElementSource,
    pub condition: ElementSource,
    pub expected: Vec<ElementSource>,
}

pub open spec fn source_locator(kind: EntityKind, s: ElementSource) -> (
    EntityKind,
    Seq<char>,
    Seq<char>,
) {
    (kind, s.id@, s.path@)
}

/// The legacy snapshot of `case` within the tree `tree_sha`.
pub open spec fn snapshot_of(tree_sha: Seq<char>, case: CaseSources) -> SnapshotView {
    (
        tree_sha,
        source_locator(EntityKind::Requirement, case.requirement),
        source_locator(EntityKind::Feature, case.feature),
        source_locator(EntityKind::Behavior, case.behavior),
        source_locator(EntityKind::Condition, case.condition),
        case.expected@.map_values(|s: ElementSource| source_locator(EntityKind::ExpectedResult, s)),
    )
}

fn locator(kind: EntityKind, s: &ElementSource) -> (r: LegacyElementLocator)
    ensures
        locator_view(r) == source_locator(kind, *s),
{
    LegacyElementLocator { entity_kind: kind, legacy_id: s.id.clone(), path: s.path.clone() }
}

/// `case`'s legacy snapshot within the tree `tree_sha`.
pub fn build_legacy_snapshot(tree_sha: String, case: &CaseSources) -> (r: LegacySnapshot)
    ensures
        snapshot_view(r) == snapshot_of(tree_sha@, *case),
{
    let mut expected: Vec<LegacyElementLocator> = Vec::new();
    let ghost target = case.expected@.map_values(
        |s: ElementSource| source_locator(EntityKind::ExpectedResult, s),
    );
    let mut i: usize = 0;
    while i < case.expected.len()
        invariant
            i <= case.expected@.len(),
            expected@.len() == i,
            target == case.expected@.map_values(
                |s: ElementSource| source_locator(EntityKind::ExpectedResult, s),
            ),
            locators_view(expected@) =~= target.take(i as int),
        decreases case.expected.len() - i,
    {
        let l = locator(EntityKind::ExpectedResult, &case.expected[i]);
        expected.push(l);
        i = i + 1;
    }
    assert(target.take(i as int) =~= target);
    LegacySnapshot {
        tree_sha,
        requirement: locator(EntityKind::Requirement, &case.requirement),
        feature: locator(EntityKind::Feature, &case.feature),
        behavior: locator(EntityKind::Behavior, &case.behavior),
        condition: locator(EntityKind::Condition, &case.condition),
        expected,
    }
}

fn clone_locator(l: &LegacyElementLocator) -> (r: LegacyElementLocator)
    ensures
        locator_view(r) == locator_view(*l),
{
    LegacyElementLocator {
        entity_kind: l.entity_kind,
        legacy_id: l.legacy_id.clone(),
        path: l.path.clone(),
    }
}

/// A copy of `s`, field for field.
pub fn clone_snapshot(s: &LegacySnapshot) -> (r: LegacySnapshot)
    ensures
        snapshot_view(r) == snapshot_view(*s),
{
    let mut expected: Vec<LegacyElementLocator> = Vec::new();
    let mut i: usize = 0;
    while i < s.expected.len()
        invariant
            i <= s.expected@.len(),
            expected@.len() == i,
            locators_view(expected@) =~= locators_view(s.expected@).take(i as int),
        decreases s.expected.len() - i,
    {
        expected.push(clone_locator(&s.expected[i]));
        i = i + 1;
    }
    assert(locators_view(s.expected@).take(i as int) =~= locators_view(s.expected@));
    LegacySnapshot {
        tree_sha: s.tree_sha.clone(),
        requirement: clone_locator(&s.requirement),
        feature: clone_locator(&s.feature),
        behavior: clone_locator(&s.behavior),
        condition: clone_locator(&s.condition),
        expected,
    }
}

/// Each case's legacy snapshot, by `case_id`, as captured before a
/// migration wrote anything (or as recorded durably at that time). A case
/// id listed twice has its later snapshot.
pub struct LegacyCaseSignatures {
    entries: Vec<(String, LegacySnapshot)>,
}

pub open spec fn signature_in(entries: Seq<(String, LegacySnapshot)>, case_id: Seq<char>, n: nat) -> Option<
    SnapshotView,
>
    decreases n,
{
    if n == 0 {
        None
    } else if entries[n - 1].0@ == case_id {
        Some(snapshot_view(entries[n - 1].1))
    } else {
        signature_in(entries, case_id, (n - 1) as nat)
    }
}

impl LegacyCaseSignatures {
    /// The pairs `(case_id, snapshot)`, in the order they were taken.
    pub closed spec fn pairs(self) -> Seq<(String, LegacySnapshot)> {
        self.entries@
    }

    /// The snapshot recorded for `case_id`, if any.
    pub open spec fn signature(self, case_id: Seq<char>) -> Option<SnapshotView> {
        signature_in(self.pairs(), case_id, self.pairs().len())
    }

    /// Rebuilds the signatures exactly as they were recorded durably.
    pub fn from_durable_payload(entries: Vec<(String, LegacySnapshot)>) -> (r: LegacyCaseSignatures)
        ensures
            r.pairs() == entries@,
    {
        LegacyCaseSignatures { entries }
    }

    /// The pairs, to record them durably.
    pub fn durable_entries(&self) -> (r: &Vec<(String, LegacySnapshot)>)
        ensures
            r@ == self.pairs(),
    {
        &self.entries
    }

    /// The snapshot recorded for `case_id`, if any.
    pub fn get(&self, case_id: &str) -> (r: Option<&LegacySnapshot>)
        ensures
            match r {
                Some(s) => self.signature(case_id@) == Some(snapshot_view(*s)),
                None => self.signature(case_id@) is None,
            },
    {
        let mut n: usize = self.entries.len();
        while n > 0
            invariant
                n <= self.entries@.len(),
                self.signature(case_id@) == signature_in(self.entries@, case_id@, n as nat),
            decreases n,
        {
            if str_eq(self.entries[n - 1].0.as_str(), case_id) {
                return Some(&self.entries[n - 1].1);
            }
            n = n - 1;
        }
        None
    }
}

/// Captures every case's legacy snapshot within the tree `tree_sha`, in
/// the order the cases are given.
pub fn capture_case_signatures(tree_sha: &String, cases: &Vec<CaseSources>) -> (r:
    LegacyCaseSignatures)
    ensures
        r.pairs().len() == cases@.len(),
        forall|k: int|
            0 <= k < cases@.len() ==> (#[trigger] r.pairs()[k]).0@ == cases@[k].case_id@
                && snapshot_view(r.pairs()[k].1) == snapshot_of(tree_sha@, cases@[k]),
{
    let mut entries: Vec<(String, LegacySnapshot)> = Vec::new();
    let mut i: usize = 0;
    while i < cases.len()
        invariant
            i <= cases@.len(),
            entries@.len() == i,
            forall|k: int|
                0 <= k < i ==> (#[trigger] entries@[k]).0@ == cases@[k].case_id@ && snapshot_view(
                    entries@[k].1,
                ) == snapshot_of(tree_sha@, cases@[k]),
        decreases cases.len() - i,
    {
        let snapshot = build_legacy_snapshot(tree_sha.clone(), &cases[i]);
        entries.push((cases[i].case_id.clone(), snapshot));
        i = i + 1;
    }
    LegacyCaseSignatures { entries }
}

// ---------------------------------------------------------------------------
// Recording new pairings.
// ---------------------------------------------------------------------------

/// A manifest entry as plain values: case id, case uid, legacy snapshot,
/// recording time.
pub type EntryView = (Seq<char>, Seq<char>, SnapshotView, Seq<char>);

pub open spec fn entry_view(e: ManifestEntry) -> EntryView {
    (e.legacy_case_id@, e.case_uid@, snapshot_view(e.legacy_snapshot), e.recorded_at@)
}

pub open spec fn entries_view(es: Seq<ManifestEntry>) -> Seq<EntryView> {
    es.map_values(|e: ManifestEntry| entry_view(e))
}

pub open spec fn pair_recorded(recorded: Seq<EntryView>, id: Seq<char>, uid: Seq<char>) -> bool {
    exists|k: int| 0 <= k < recorded.len() && (#[trigger] recorded[k]).0 == id && recorded[k].1 == uid
}

/// The entries recording the pairings among the first `n` cases that are
/// new: the case has a `case_uid`, `recorded` does not hold that pairing
/// yet, and the case had a legacy snapshot (it existed before the
/// migration).
pub open spec fn new_entries(
    recorded: Seq<EntryView>,
    cases: Seq<CaseSources>,
    legacy: LegacyCaseSignatures,
    recorded_at: Seq<char>,
    n: nat,
) -> Seq<EntryView>
    decreases n,
{
    if n == 0 {
        seq![]
    } else {
        let prev = new_entries(recorded, cases, legacy, recorded_at, (n - 1) as nat);
        let c = cases[n - 1];
        match c.case_uid {
            None => prev,
            Some(u) => if pair_recorded(recorded, c.case_id@, u@) {
                prev
            } else {
                match legacy.signature(c.case_id@) {
                    None => prev,
                    Some(s) => prev.push((c.case_id@, u@, s, recorded_at)),
                }
            },
        }
    }
}

fn pair_in_manifest(manifest: &Manifest, id: &String, uid: &String) -> (r: bool)
    ensures
        r == pair_recorded(entries_view(manifest.entries@), id@, uid@),
{
    let ghost rv = entries_view(manifest.entries@);
    let mut k: usize = 0;
    while k < manifest.entries.len()
        invariant
            k <= manifest.entries@.len(),
            rv == entries_view(manifest.entries@),
            forall|j: int| 0 <= j < k ==> !((#[trigger] rv[j]).0 == id@ && rv[j].1 == uid@),
        decreases manifest.entries.len() - k,
    {
        let e = &manifest.entries[k];
        if str_eq(e.legacy_case_id.as_str(), id.as_str()) && str_eq(e.case_uid.as_str(), uid.as_str()) {
            assert(rv[k as int].0 == id@ && rv[k as int].1 == uid@);
            return true;
        }
        k = k + 1;
    }
    false
}

/// The manifest entries to add for the pairings among `cases` that became
/// computable and are not recorded yet, in case order, each with the case's
/// legacy snapshot from `legacy` and recorded at `recorded_at`. A case with
/// no legacy snapshot did not exist before the migration and gets none.
pub fn record_new_case_uids(
    manifest: &Manifest,
    cases: &Vec<CaseSources>,
    legacy: &LegacyCaseSignatures,
    recorded_at: &String,
) -> (r: Vec<ManifestEntry>)
    ensures
        entries_view(r@) == new_entries(
            entries_view(manifest.entries@),
            cases@,
            *legacy,
            recorded_at@,
            cases@.len(),
        ),
{
    let ghost rv = entries_view(manifest.entries@);
    let mut out: Vec<ManifestEntry> = Vec::new();
    let mut i: usize = 0;
    while i < cases.len()
        invariant
            i <= cases@.len(),
            rv == entries_view(manifest.entries@),
            entries_view(out@) =~= new_entries(rv, cases@, *legacy, recorded_at@, i as nat),
        decreases cases.len() - i,
    {
        let c = &cases[i];
        if let Some(u) = &c.case_uid {
            if !pair_in_manifest(manifest, &c.case_id, u) {
                if let Some(s) = legacy.get(c.case_id.as_str()) {
                    let entry = ManifestEntry {
                        legacy_case_id: c.case_id.clone(),
                        case_uid: u.clone(),
                        legacy_snapshot: clone_snapshot(s),
                        recorded_at: recorded_at.clone(),
                    };
                    let ghost before = out@;
                    out.push(entry);
                    assert(entries_view(out@) =~= entries_view(before).push(
                        entry_view(out@[before.len() as int]),
                    ));
                }
            }
        }
        i = i + 1;
    }
    out
}

proof fn lemma_new_entries_prefix(
    recorded: Seq<EntryView>,
    cases: Seq<CaseSources>,
    legacy: LegacyCaseSignatures,
    at: Seq<char>,
    m: nat,
    n: nat,
)
    requires
        m <= n,
    ensures
        new_entries(recorded, cases, legacy, at, m).len() <= new_entries(
            recorded,
            cases,
            legacy,
            at,
            n,
        ).len(),
        new_entries(recorded, cases, legacy, at, m) == new_entries(
            recorded,
            cases,
            legacy,
            at,
            n,
        ).subrange(0, new_entries(recorded, cases, legacy, at, m).len() as int),
    decreases n - m,
{
    if m < n {
        lemma_new_entries_prefix(recorded, cases, legacy, at, m, (n - 1) as nat);
        let a = new_entries(recorded, cases, legacy, at, m);
        let b = new_entries(recorded, cases, legacy, at, (n - 1) as nat);
        let c = new_entries(recorded, cases, legacy, at, n);
        assert(b.subrange(0, a.len() as int) == a);
        if c != b {
            assert(c == b.push(c.last()));
            assert(c.subrange(0, a.len() as int) =~= b.subrange(0, a.len() as int));
        }
    } else {
        let a = new_entries(recorded, cases, legacy, at, m);
        assert(a.subrange(0, a.len() as int) =~= a);
    }
}

proof fn lemma_skipped_upto(
    recorded: Seq<EntryView>,
    cases: Seq<CaseSources>,
    legacy: LegacyCaseSignatures,
    at: Seq<char>,
    later: Seq<char>,
    m: nat,
)
    requires
        m <= cases.len(),
    ensures
        new_entries(
            recorded + new_entries(recorded, cases, legacy, at, cases.len()),
            cases,
            legacy,
            later,
            m,
        ).len() == 0,
    decreases m,
{
    if m > 0 {
        let n = cases.len();
        let first = new_entries(recorded, cases, legacy, at, n);
        let all = recorded + first;
        lemma_skipped_upto(recorded, cases, legacy, at, later, (m - 1) as nat);
        let c = cases[m - 1];
        if let Some(u) = c.case_uid {
            if !pair_recorded(recorded, c.case_id@, u@) {
                if let Some(s) = legacy.signature(c.case_id@) {
                    lemma_new_entries_prefix(recorded, cases, legacy, at, m, n);
                    let pre = new_entries(recorded, cases, legacy, at, m);
                    let k = pre.len() - 1;
                    assert(pre[k] == (c.case_id@, u@, s, at));
                    assert(first[k] == pre[k]);
                    assert(all[recorded.len() + k] == first[k]);
                    assert(pair_recorded(all, c.case_id@, u@));
                }
            } else {
                let j = choose|j: int|
                    0 <= j < recorded.len() && (#[trigger] recorded[j]).0 == c.case_id@
                        && recorded[j].1 == u@;
                assert(all[j] == recorded[j]);
                assert(pair_recorded(all, c.case_id@, u@));
            }
        }
    }
}

/// Recording twice is recording once: once the new entries are added to
/// the manifest, the same cases and signatures yield no further entry, at
/// any later time.
pub proof fn lemma_record_new_case_uids_idempotent(
    recorded: Seq<EntryView>,
    cases: Seq<CaseSources>,
    legacy: LegacyCaseSignatures,
    at: Seq<char>,
    later: Seq<char>,
)
    ensures
        new_entries(
            recorded + new_entries(recorded, cases, legacy, at, cases.len()),
            cases,
            legacy,
            later,
            cases.len(),
        ).len() == 0,
{
    lemma_skipped_upto(recorded, cases, legacy, at, later, cases.len());
}

// ---------------------------------------------------------------------------
// The manifest's order.
// ---------------------------------------------------------------------------

/// An entity kind's place in declaration order.
pub open spec fn kind_rank(k: EntityKind) -> int {
    match k {
        EntityKind::Requirement => 0,
        EntityKind::Feature => 1,
        EntityKind::Behavior => 2,
        EntityKind::Condition => 3,
        EntityKind::ExpectedResult => 4,
    }
}

/// Locators ordered by kind, then id, then path.
pub open spec fn locator_lt(a: LocatorView, b: LocatorView) -> bool {
    ||| kind_rank(a.0) < kind_rank(b.0)
    ||| kind_rank(a.0) == kind_rank(b.0) && seq_lt(a.1, b.1)
    ||| kind_rank(a.0) == kind_rank(b.0) && a.1 == b.1 && seq_lt(a.2, b.2)
}

/// Lists of locators ordered lexicographically (a proper prefix first).
pub open spec fn locators_lt(a: Seq<LocatorView>, b: Seq<LocatorView>) -> bool
    decreases a.len(),
{
    if a.len() == 0 {
        b.len() > 0
    } else if b.len() == 0 {
        false
    } else if locator_lt(a[0], b[0]) {
        true
    } else if a[0] == b[0] {
        locators_lt(a.drop_first(), b.drop_first())
    } else {
        false
    }
}

/// Snapshots ordered field by field: tree, then each element's locator in
/// chain order, then the expected results.
pub open spec fn snapshot_lt(a: SnapshotView, b: SnapshotView) -> bool {
    ||| seq_lt(a.0, b.0)
    ||| a.0 == b.0 && locator_lt(a.1, b.1)
    ||| a.0 == b.0 && a.1 == b.1 && locator_lt(a.2, b.2)
    ||| a.0 == b.0 && a.1 == b.1 && a.2 == b.2 && locator_lt(a.3, b.3)
    ||| a.0 == b.0 && a.1 == b.1 && a.2 == b.2 && a.3 == b.3 && locator_lt(a.4, b.4)
    ||| a.0 == b.0 && a.1 == b.1 && a.2 == b.2 && a.3 == b.3 && a.4 == b.4 && locators_lt(a.5, b.5)
}

/// Manifest entries ordered by case id, then legacy snapshot.
pub open spec fn entry_lt(a: EntryView, b: EntryView) -> bool {
    seq_lt(a.0, b.0) || (a.0 == b.0 && snapshot_lt(a.2, b.2))
}

/// The first index at `k` or later whose entry comes after `x`.
pub open spec fn first_after(s: Seq<EntryView>, x: EntryView, k: nat) -> nat
    decreases s.len() - k,
{
    if k >= s.len() {
        s.len()
    } else if entry_lt(x, s[k as int]) {
        k
    } else {
        first_after(s, x, k + 1)
    }
}

/// `s` in manifest order, entries that compare equal keeping their order
/// (a stable sort).
pub open spec fn sort_entries(s: Seq<EntryView>) -> Seq<EntryView>
    decreases s.len(),
{
    if s.len() == 0 {
        seq![]
    } else {
        let t = sort_entries(s.drop_last());
        t.insert(first_after(t, s.last(), 0) as int, s.last())
    }
}

fn kind_rank_of(k: EntityKind) -> (r: u8)
    ensures
        r as int == kind_rank(k),
{
    match k {
        EntityKind::Requirement => 0,
        EntityKind::Feature => 1,
        EntityKind::Behavior => 2,
        EntityKind::Condition => 3,
        EntityKind::ExpectedResult => 4,
    }
}

fn locator_before(a: &LegacyElementLocator, b: &LegacyElementLocator) -> (r: bool)
    ensures
        r == locator_lt(locator_view(*a), locator_view(*b)),
{
    let ka = kind_rank_of(a.entity_kind);
    let kb = kind_rank_of(b.entity_kind);
    if ka != kb {
        return ka < kb;
    }
    if str_lt(a.legacy_id.as_str(), b.legacy_id.as_str()) {
        return true;
    }
    if !str_eq(a.legacy_id.as_str(), b.legacy_id.as_str()) {
        return false;
    }
    str_lt(a.path.as_str(), b.path.as_str())
}

fn same_locator(a: &LegacyElementLocator, b: &LegacyElementLocator) -> (r: bool)
    ensures
        r == (locator_view(*a) == locator_view(*b)),
{
    a.entity_kind == b.entity_kind && str_eq(a.legacy_id.as_str(), b.legacy_id.as_str()) && str_eq(
        a.path.as_str(),
        b.path.as_str(),
    )
}

fn locators_before(a: &Vec<LegacyElementLocator>, b: &Vec<LegacyElementLocator>) -> (r: bool)
    ensures
        r == locators_lt(locators_view(a@), locators_view(b@)),
{
    let ghost av = locators_view(a@);
    let ghost bv = locators_view(b@);
    let mut i: usize = 0;
    assert(av.skip(0) =~= av);
    assert(bv.skip(0) =~= bv);
    while i < a.len() && i < b.len()
        invariant
            i <= a@.len(),
            i <= b@.len(),
            av == locators_view(a@),
            bv == locators_view(b@),
            locators_lt(av, bv) == locators_lt(av.skip(i as int), bv.skip(i as int)),
        decreases a.len() - i,
    {
        assert(av.skip(i as int)[0] == locator_view(a@[i as int]));
        assert(bv.skip(i as int)[0] == locator_view(b@[i as int]));
        if locator_before(&a[i], &b[i]) {
            return true;
        }
        if !same_locator(&a[i], &b[i]) {
            return false;
        }
        assert(av.skip(i as int).drop_first() =~= av.skip(i + 1));
        assert(bv.skip(i as int).drop_first() =~= bv.skip(i + 1));
        i = i + 1;
    }
    i < b.len()
}

fn snapshot_before(a: &LegacySnapshot, b: &LegacySnapshot) -> (r: bool)
    ensures
        r == snapshot_lt(snapshot_view(*a), snapshot_view(*b)),
{
    if str_lt(a.tree_sha.as_str(), b.tree_sha.as_str()) {
        return true;
    }
    if !str_eq(a.tree_sha.as_str(), b.tree_sha.as_str()) {
        return false;
    }
    if locator_before(&a.requirement, &b.requirement) {
        return true;
    }
    if !same_locator(&a.requirement, &b.requirement) {
        return false;
    }
    if locator_before(&a.feature, &b.feature) {
        return true;
    }
    if !same_locator(&a.feature, &b.feature) {
        return false;
    }
    if locator_before(&a.behavior, &b.behavior) {
        return true;
    }
    if !same_locator(&a.behavior, &b.behavior) {
        return false;
    }
    if locator_before(&a.condition, &b.condition) {
        return true;
    }
    if !same_locator(&a.condition, &b.condition) {
        return false;
    }
    locators_before(&a.expected, &b.expected)
}

fn entry_before(a: &ManifestEntry, b: &ManifestEntry) -> (r: bool)
    ensures
        r == entry_lt(entry_view(*a), entry_view(*b)),
{
    if str_lt(a.legacy_case_id.as_str(), b.legacy_case_id.as_str()) {
        return true;
    }
    if !str_eq(a.legacy_case_id.as_str(), b.legacy_case_id.as_str()) {
        return false;
    }
    snapshot_before(&a.legacy_snapshot, &b.legacy_snapshot)
}

fn clone_entry(e: &ManifestEntry) -> (r: ManifestEntry)
    ensures
        entry_view(r) == entry_view(*e),
{
    ManifestEntry {
        legacy_case_id: e.legacy_case_id.clone(),
        case_uid: e.case_uid.clone(),
        legacy_snapshot: clone_snapshot(&e.legacy_snapshot),
        recorded_at: e.recorded_at.clone(),
    }
}

fn insert_entry(out: &mut Vec<ManifestEntry>, x: ManifestEntry)
    ensures
        entries_view(final(out)@) == ({
            let ov = entries_view(old(out)@);
            ov.insert(first_after(ov, entry_view(x), 0) as int, entry_view(x))
        }),
{
    let ghost ov = entries_view(out@);
    let ghost xv = entry_view(x);
    let mut pos: usize = 0;
    while pos < out.len() && !entry_before(&x, &out[pos])
        invariant
            pos <= out@.len(),
            ov == entries_view(out@),
            xv == entry_view(x),
            first_after(ov, xv, 0) == first_after(ov, xv, pos as nat),
        decreases out.len() - pos,
    {
        assert(ov[pos as int] == entry_view(out@[pos as int]));
        pos = pos + 1;
    }
    proof {
        if pos < out.len() {
            assert(ov[pos as int] == entry_view(out@[pos as int]));
        }
    }
    out.insert(pos, x);
    assert(entries_view(out@) =~= ov.insert(pos as int, xv));
}

/// The manifest once `new_entries` are recorded in it: its entries and the
/// new ones, ordered by case id and then legacy snapshot.
pub fn manifest_with_entries(manifest: &Manifest, new_entries: &Vec<ManifestEntry>) -> (r: Manifest)
    requires
        manifest.entries@.len() + new_entries@.len() <= usize::MAX,
    ensures
        entries_view(r.entries@) == sort_entries(entries_view(manifest.entries@ + new_entries@)),
{
    let ghost all = entries_view(manifest.entries@ + new_entries@);
    let mut out: Vec<ManifestEntry> = Vec::new();
    let total = manifest.entries.len() + new_entries.len();
    let mut i: usize = 0;
    assert(all.take(0) =~= seq![]);
    assert(entries_view(out@) =~= seq![]);
    while i < total
        invariant
            i <= total,
            total == manifest.entries@.len() + new_entries@.len(),
            all == entries_view(manifest.entries@ + new_entries@),
            entries_view(out@) == sort_entries(all.take(i as int)),
        decreases total - i,
    {
        let x = if i < manifest.entries.len() {
            clone_entry(&manifest.entries[i])
        } else {
            clone_entry(&new_entries[i - manifest.entries.len()])
        };
        assert(entry_view(x) == all[i as int]);
        insert_entry(&mut out, x);
        assert(all.take(i + 1).drop_last() =~= all.take(i as int));
        i = i + 1;
    }
    assert(all.take(total as int) =~= all);
    Manifest { entries: out }
}

} // verus!
