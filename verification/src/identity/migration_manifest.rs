//! The migration manifest: a `legacy_case_id` -> `case_uid` Rosetta stone.
//!
//! A TestCase is a derived artifact with no identity event log of its own.
//! Once all five of its contributing elements carry a `uid`, its `case_uid`
//! becomes computable, but the `case_id` strings that existing change
//! records and execution results already reference predate it. The manifest
//! records each `(case_id, case_uid)` pairing together with the legacy
//! snapshot it was captured from, and resolution never guesses: several
//! candidates are an error, and a snapshot that matches nothing resolves to
//! nothing.
use vstd::prelude::*;

use crate::identity::entity_kind::EntityKind;
use crate::text::{insert_sorted_unique, str_eq, strictly_sorted, views};

verus! {

/// Where one of a case's contributing elements lived within a snapshot's
/// shared `tree_sha`: its kind, the id it carried, and its repo-relative
/// path.
#[derive(Debug, Clone, PartialEq, Eq, PartialOrd, Ord)]
pub struct LegacyElementLocator {
    pub entity_kind: EntityKind,
    pub legacy_id: String,
    pub path: String,
}

/// A case's legacy (pre-migration) snapshot identity: the git tree SHA of
/// the whole knowledge tree at capture time, qualified by where each of the
/// case's elements lived in it.
#[derive(Debug, Clone, PartialEq, Eq, PartialOrd, Ord)]
pub struct LegacySnapshot {
    pub tree_sha: String,
    pub requirement: LegacyElementLocator,
    pub feature: LegacyElementLocator,
    pub behavior: LegacyElementLocator,
    pub condition: LegacyElementLocator,
    /// Sorted by path.
    pub expected: Vec<LegacyElementLocator>,
}

/// One `case_id` -> `case_uid` resolution, and when it was recorded.
#[derive(Debug, Clone, PartialEq, Eq)]
pub struct ManifestEntry {
    pub legacy_case_id: String,
    pub case_uid: String,
    pub legacy_snapshot: LegacySnapshot,
    pub recorded_at: String,
}

#[derive(Debug, Clone, PartialEq, Eq)]
pub struct Manifest {
    pub entries: Vec<ManifestEntry>,
}

/// `legacy_case_id` resolved to more than one distinct `case_uid`; carries
/// every distinct candidate, sorted.
#[derive(Debug, Clone, PartialEq, Eq)]
pub struct AmbiguousCaseId {
    pub legacy_case_id: String,
    pub case_uids: Vec<String>,
}

pub type LocatorView = (EntityKind, Seq<char>, Seq<char>);

pub open spec fn locator_view(l: LegacyElementLocator) -> LocatorView {
    (l.entity_kind, l.legacy_id@, l.path@)
}

pub open spec fn locators_view(v: Seq<LegacyElementLocator>) -> Seq<LocatorView> {
    v.map_values(|l: LegacyElementLocator| locator_view(l))
}

pub type SnapshotView = (
    Seq<char>,
    LocatorView,
    LocatorView,
    LocatorView,
    LocatorView,
    Seq<LocatorView>,
);

/// A snapshot as plain values; two snapshots are the same exactly when
/// their views are equal.
pub open spec fn snapshot_view(s: LegacySnapshot) -> SnapshotView {
    (
        s.tree_sha@,
        locator_view(s.requirement),
        locator_view(s.feature),
        locator_view(s.behavior),
        locator_view(s.condition),
        locators_view(s.expected@),
    )
}

fn locators_equal(a: &LegacyElementLocator, b: &LegacyElementLocator) -> (r: bool)
    ensures
        r == (locator_view(*a) == locator_view(*b)),
{
    a.entity_kind == b.entity_kind && str_eq(a.legacy_id.as_str(), b.legacy_id.as_str()) && str_eq(
        a.path.as_str(),
        b.path.as_str(),
    )
}

/// Field-by-field equality of two snapshots.
pub fn snapshots_equal(a: &LegacySnapshot, b: &LegacySnapshot) -> (r: bool)
    ensures
        r == (snapshot_view(*a) == snapshot_view(*b)),
{
    if !str_eq(a.tree_sha.as_str(), b.tree_sha.as_str()) || !locators_equal(
        &a.requirement,
        &b.requirement,
    ) || !locators_equal(&a.feature, &b.feature) || !locators_equal(&a.behavior, &b.behavior)
        || !locators_equal(&a.condition, &b.condition) {
        return false;
    }
    if a.expected.len() != b.expected.len() {
        assert(locators_view(a.expected@).len() != locators_view(b.expected@).len());
        return false;
    }
    let ghost va = locators_view(a.expected@);
    let ghost vb = locators_view(b.expected@);
    let mut i: usize = 0;
    while i < a.expected.len()
        invariant
            i <= a.expected@.len(),
            a.expected@.len() == b.expected@.len(),
            va == locators_view(a.expected@),
            vb == locators_view(b.expected@),
            forall|k: int| 0 <= k < i ==> va[k] == vb[k],
        decreases a.expected.len() - i,
    {
        if !locators_equal(&a.expected[i], &b.expected[i]) {
            assert(va[i as int] != vb[i as int]);
            return false;
        }
        i = i + 1;
    }
    assert(va =~= vb);
    true
}

/// The distinct `case_uid`s recorded for `id` among the first `n` entries,
/// counting only entries whose snapshot is `snapshot` when one is given.
pub open spec fn recorded_uids(
    entries: Seq<ManifestEntry>,
    id: Seq<char>,
    snapshot: Option<SnapshotView>,
    n: int,
) -> Set<Seq<char>> {
    Set::new(
        |u: Seq<char>|
            exists|k: int|
                0 <= k < n && #[trigger] entries[k].legacy_case_id@ == id && entries[k].case_uid@
                    == u && (snapshot matches Some(s) ==> snapshot_view(entries[k].legacy_snapshot)
                    == s),
    )
}

/// How a lookup answers for the set `uids` of candidates it found: nothing
/// for none, the candidate for one, and the sorted candidates as an error
/// for more than one.
pub open spec fn resolution_is(
    r: Result<Option<&str>, AmbiguousCaseId>,
    id: Seq<char>,
    uids: Set<Seq<char>>,
) -> bool {
    &&& (r matches Ok(None)) <==> uids.is_empty()
    &&& (r is Err) <==> (exists|a: Seq<char>, b: Seq<char>|
        uids.contains(a) && uids.contains(b) && a != b)
    &&& r matches Ok(Some(u)) ==> uids == set![u@]
    &&& r matches Err(e) ==> {
        &&& e.legacy_case_id@ == id
        &&& strictly_sorted(views(e.case_uids@))
        &&& views(e.case_uids@).to_set() == uids
    }
}

fn lookup<'a>(
    manifest: &'a Manifest,
    legacy_case_id: &str,
    snapshot: Option<&LegacySnapshot>,
) -> (r: Result<Option<&'a str>, AmbiguousCaseId>)
    ensures
        resolution_is(
            r,
            legacy_case_id@,
            recorded_uids(
                manifest.entries@,
                legacy_case_id@,
                match snapshot {
                    Some(s) => Some(snapshot_view(*s)),
                    None => None,
                },
                manifest.entries@.len() as int,
            ),
        ),
{
    let ghost es = manifest.entries@;
    let ghost sv: Option<SnapshotView> = match snapshot {
        Some(s) => Some(snapshot_view(*s)),
        None => None,
    };
    let mut uids: Vec<String> = Vec::new();
    let mut first: usize = 0;
    let mut i: usize = 0;
    assert(views(uids@).to_set() =~= recorded_uids(es, legacy_case_id@, sv, 0));
    while i < manifest.entries.len()
        invariant
            i <= es.len(),
            es == manifest.entries@,
            sv == match snapshot {
                Some(s) => Some(snapshot_view(*s)),
                None => None,
            },
            strictly_sorted(views(uids@)),
            views(uids@).to_set() == recorded_uids(es, legacy_case_id@, sv, i as int),
            uids@.len() > 0 ==> first < i && es[first as int].legacy_case_id@ == legacy_case_id@
                && recorded_uids(es, legacy_case_id@, sv, i as int).contains(
                es[first as int].case_uid@,
            ),
        decreases es.len() - i,
    {
        let entry = &manifest.entries[i];
        let matches_id = str_eq(entry.legacy_case_id.as_str(), legacy_case_id);
        let matches_snapshot = match snapshot {
            Some(s) => snapshots_equal(&entry.legacy_snapshot, s),
            None => true,
        };
        let ghost before = recorded_uids(es, legacy_case_id@, sv, i as int);
        let ghost after = recorded_uids(es, legacy_case_id@, sv, i + 1);
        if matches_id && matches_snapshot {
            if uids.len() == 0 {
                first = i;
            }
            insert_sorted_unique(&mut uids, entry.case_uid.clone());
            proof {
                assert forall|u: Seq<char>| after.contains(u) <==> before.insert(
                    es[i as int].case_uid@,
                ).contains(u) by {
                    if after.contains(u) {
                        let k = choose|k: int|
                            0 <= k < i + 1 && #[trigger] es[k].legacy_case_id@ == legacy_case_id@
                                && es[k].case_uid@ == u && (sv matches Some(s) ==> snapshot_view(
                                es[k].legacy_snapshot,
                            ) == s);
                        if k < i {
                            assert(before.contains(u));
                        }
                    }
                    if before.contains(u) {
                        let k = choose|k: int|
                            0 <= k < i && #[trigger] es[k].legacy_case_id@ == legacy_case_id@
                                && es[k].case_uid@ == u && (sv matches Some(s) ==> snapshot_view(
                                es[k].legacy_snapshot,
                            ) == s);
                        assert(0 <= k < i + 1);
                    }
                    if u == es[i as int].case_uid@ {
                        assert(es[i as int].legacy_case_id@ == legacy_case_id@);
                    }
                }
                assert(after =~= before.insert(es[i as int].case_uid@));
                assert(after.contains(es[first as int].case_uid@)) by {
                    if first < i {
                        assert(before.contains(es[first as int].case_uid@));
                    }
                }
            }
        } else {
            proof {
                assert forall|u: Seq<char>| after.contains(u) <==> before.contains(u) by {
                    if after.contains(u) {
                        let k = choose|k: int|
                            0 <= k < i + 1 && #[trigger] es[k].legacy_case_id@ == legacy_case_id@
                                && es[k].case_uid@ == u && (sv matches Some(s) ==> snapshot_view(
                                es[k].legacy_snapshot,
                            ) == s);
                        assert(k != i);
                    }
                    if before.contains(u) {
                        let k = choose|k: int|
                            0 <= k < i && #[trigger] es[k].legacy_case_id@ == legacy_case_id@
                                && es[k].case_uid@ == u && (sv matches Some(s) ==> snapshot_view(
                                es[k].legacy_snapshot,
                            ) == s);
                        assert(0 <= k < i + 1);
                    }
                }
                assert(after =~= before);
                if uids@.len() > 0 {
                    assert(after.contains(es[first as int].case_uid@));
                }
            }
        }
        i = i + 1;
    }
    let ghost all = recorded_uids(es, legacy_case_id@, sv, es.len() as int);
    if uids.len() == 0 {
        proof {
            assert(views(uids@).to_set() =~= Set::empty());
        }
        return Ok(None);
    }
    if uids.len() == 1 {
        proof {
            let only = views(uids@)[0];
            assert(views(uids@) =~= seq![only]);
            assert(views(uids@).to_set() =~= set![only]) by {
                assert forall|u: Seq<char>| views(uids@).to_set().contains(u) <==> u == only by {
                    if u == only {
                        assert(views(uids@)[0] == u);
                    }
                }
            }
            assert(all.contains(es[first as int].case_uid@));
        }
        return Ok(Some(manifest.entries[first].case_uid.as_str()));
    }
    proof {
        let vs = views(uids@);
        assert(vs.to_set().contains(vs[0]));
        assert(vs.to_set().contains(vs[1]));
        crate::text::lemma_seq_lt_irreflexive(vs[0]);
        assert(vs[0] != vs[1]);
    }
    Err(AmbiguousCaseId { legacy_case_id: String::from_str(legacy_case_id), case_uids: uids })
}

/// Looks up `legacy_case_id`'s `case_uid`, when the manifest recorded
/// exactly one; more than one distinct `case_uid` for the same `case_id` is
/// an error carrying every candidate.
pub fn resolve_case_uid<'a>(manifest: &'a Manifest, legacy_case_id: &str) -> (r: Result<
    Option<&'a str>,
    AmbiguousCaseId,
>)
    ensures
        resolution_is(
            r,
            legacy_case_id@,
            recorded_uids(
                manifest.entries@,
                legacy_case_id@,
                None,
                manifest.entries@.len() as int,
            ),
        ),
{
    lookup(manifest, legacy_case_id, None)
}

/// Looks up `legacy_case_id`'s `case_uid` qualified by `legacy_snapshot`:
/// with a snapshot, only entries recorded from exactly that snapshot count
/// (none matching resolves to nothing, never to a case-id-only guess);
/// without one, this is `resolve_case_uid`.
pub fn resolve_case_uid_with_signature<'a>(
    manifest: &'a Manifest,
    legacy_case_id: &str,
    legacy_snapshot: Option<&LegacySnapshot>,
) -> (r: Result<Option<&'a str>, AmbiguousCaseId>)
    ensures
        resolution_is(
            r,
            legacy_case_id@,
            recorded_uids(
                manifest.entries@,
                legacy_case_id@,
                match legacy_snapshot {
                    Some(s) => Some(snapshot_view(*s)),
                    None => None,
                },
                manifest.entries@.len() as int,
            ),
        ),
{
    lookup(manifest, legacy_case_id, legacy_snapshot)
}

/// Why `case_id` could not be identified as the same logical TestCase on
/// both sides of a comparison across refs.
#[derive(Debug)]
pub enum CrossBoundaryError {
    /// Neither ref's manifest resolves `case_id`.
    NoResolution,
    /// The two refs resolve `case_id` to different `case_uid`s.
    Ambiguous { from_case_uid: String, to_case_uid: String },
    /// One ref's own manifest already holds several candidates.
    AmbiguousWithinRef { git_ref: String, candidates: AmbiguousCaseId },
    Io(std::io::Error),
}

/// Whether some entry records exactly the pairing `(id, uid)`.
pub open spec fn records_pair(entries: Seq<ManifestEntry>, id: Seq<char>, uid: Seq<char>) -> bool {
    exists|k: int|
        0 <= k < entries.len() && #[trigger] entries[k].legacy_case_id@ == id && entries[k].case_uid@
            == uid
}

/// The answer at one ref for the candidates `uids` its manifest holds:
/// nothing, the one candidate, or several as an error naming the ref.
pub open spec fn at_ref_resolution(
    r: Result<Option<String>, CrossBoundaryError>,
    git_ref: Seq<char>,
    case_id: Seq<char>,
    uids: Set<Seq<char>>,
) -> bool {
    &&& (r matches Ok(None)) <==> uids.is_empty()
    &&& r matches Ok(Some(v)) ==> uids == set![v@]
    &&& (r is Err) <==> (exists|a: Seq<char>, b: Seq<char>|
        uids.contains(a) && uids.contains(b) && a != b)
    &&& r matches Err(e) ==> (e matches CrossBoundaryError::AmbiguousWithinRef {
        git_ref: g,
        candidates: c,
    } && g@ == git_ref && c.legacy_case_id@ == case_id && strictly_sorted(views(c.case_uids@))
        && views(c.case_uids@).to_set() == uids)
}

/// The resolution at one ref, given that ref's own manifest and what the
/// ref's Knowledge tree says about `case_id`: `found_case_uid` is the
/// `case_uid` computed there (when the case exists there and is fully
/// migrated), `snapshot` its legacy snapshot (when the case exists there).
/// A computed `case_uid` counts only when the ref's manifest records that
/// exact pairing; otherwise the manifest is consulted, qualified by the
/// snapshot.
pub fn resolve_case_uid_at_ref(
    manifest: &Manifest,
    git_ref: &str,
    case_id: &str,
    found_case_uid: Option<String>,
    snapshot: Option<&LegacySnapshot>,
) -> (r: Result<Option<String>, CrossBoundaryError>)
    ensures
        found_case_uid matches Some(u) ==> (r matches Ok(x) && (x matches Some(v) ==> v@ == u@) && (
        x is Some <==> records_pair(manifest.entries@, case_id@, u@))),
        found_case_uid is None ==> at_ref_resolution(
            r,
            git_ref@,
            case_id@,
            recorded_uids(
                manifest.entries@,
                case_id@,
                match snapshot {
                    Some(s) => Some(snapshot_view(*s)),
                    None => None,
                },
                manifest.entries@.len() as int,
            ),
        ),
{
    if let Some(case_uid) = &found_case_uid {
        let ghost es = manifest.entries@;
        let mut i: usize = 0;
        while i < manifest.entries.len()
            invariant
                i <= es.len(),
                es == manifest.entries@,
                found_case_uid == Some(*case_uid),
                forall|k: int|
                    0 <= k < i ==> !(#[trigger] es[k].legacy_case_id@ == case_id@ && es[k].case_uid@
                        == case_uid@),
            decreases es.len() - i,
        {
            let entry = &manifest.entries[i];
            if str_eq(entry.legacy_case_id.as_str(), case_id) && str_eq(
                entry.case_uid.as_str(),
                case_uid.as_str(),
            ) {
                return Ok(Some(case_uid.clone()));
            }
            i = i + 1;
        }
        return Ok(None);
    }
    let res = resolve_case_uid_with_signature(manifest, case_id, snapshot);
    let ghost uids = recorded_uids(
        manifest.entries@,
        case_id@,
        match snapshot {
            Some(s) => Some(snapshot_view(*s)),
            None => None,
        },
        manifest.entries@.len() as int,
    );
    let r = match res {
        Ok(Some(hit)) => Ok(Some(String::from_str(hit))),
        Ok(None) => Ok(None),
        Err(candidates) => Err(
            CrossBoundaryError::AmbiguousWithinRef { git_ref: String::from_str(git_ref), candidates },
        ),
    };
    assert(at_ref_resolution(r, git_ref@, case_id@, uids));
    r
}

/// Combines the resolutions at two refs (`from` first, then `to`): a
/// failed lookup at either ref is handed on as it is, the one at `from`
/// first; otherwise equal answers, or one answer with nothing on the other
/// side, resolve; different answers are ambiguous; nothing on either side
/// is no resolution.
pub fn resolve_case_uid_across_refs(
    from: Result<Option<String>, CrossBoundaryError>,
    to: Result<Option<String>, CrossBoundaryError>,
) -> (r: Result<String, CrossBoundaryError>)
    ensures
        match (from, to) {
            (Err(e), _) => r matches Err(x) && x == e,
            (Ok(_), Err(e)) => r matches Err(x) && x == e,
            (Ok(Some(a)), Ok(Some(b))) => if a@ == b@ {
                r matches Ok(u) && u@ == a@
            } else {
                r matches Err(CrossBoundaryError::Ambiguous { from_case_uid: f, to_case_uid: t })
                    && f@ == a@ && t@ == b@
            },
            (Ok(Some(a)), Ok(None)) => r matches Ok(u) && u@ == a@,
            (Ok(None), Ok(Some(b))) => r matches Ok(u) && u@ == b@,
            (Ok(None), Ok(None)) => r matches Err(CrossBoundaryError::NoResolution),
        },
{
    let from_hit = match from {
        Err(e) => {
            return Err(e);
        },
        Ok(h) => h,
    };
    let to_hit = match to {
        Err(e) => {
            return Err(e);
        },
        Ok(h) => h,
    };
    match (from_hit, to_hit) {
        (Some(a), Some(b)) => {
            if str_eq(a.as_str(), b.as_str()) {
                Ok(a)
            } else {
                Err(CrossBoundaryError::Ambiguous { from_case_uid: a, to_case_uid: b })
            }
        },
        (Some(a), None) => Ok(a),
        (None, Some(b)) => Ok(b),
        (None, None) => Err(CrossBoundaryError::NoResolution),
    }
}

} // verus!
