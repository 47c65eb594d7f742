//! Identity operations on Knowledge elements: renaming a Feature's id,
//! resolving a branch divergence, re-syncing an element's file, and
//! `identity migrate`. The locking, reading and writing around them happens
//! elsewhere; what is decided here is whether an operation may go ahead,
//! which identity event it records, and what a migration would assign.
use vstd::prelude::*;

use crate::identity::engine::{ReplayError, ReplayResult};
use crate::identity::entity_kind::{kind_name, EntityKind};
use crate::identity::event::{IdentityEvent, IdentityMutation};
use crate::identity::fresh::{is_ulid_text, new_ulid};
use crate::identity::knowledge_walk::{found_view, FoundEntity, FoundView};
use crate::identity::recovery::{event_file_path, event_path};
use crate::knowledge::{join_comma, join_with_comma};
use crate::text::{
    ascending, insert_sorted_unique, lemma_ascending, opt_view, str_eq, strictly_sorted, views,
};

verus! {

/// Why `rename_id` refused to run, or failed partway.
#[derive(Debug)]
pub enum RenameError {
    /// No Feature has `id: <old_id>`.
    FeatureNotFound(String),
    /// The Feature has no `uid` yet.
    NotMigrated(String),
    /// `new_id` already names a different Feature.
    NewIdAlreadyInUse(String),
    /// A concurrent identity operation is in progress.
    OperationInProgress,
    /// Replaying the Feature's identity events failed.
    ReplayFailed(ReplayError),
    /// The file's `id:` disagrees with the id the event log says is current.
    CurrentIdMismatch { expected: String, actual: String },
    Io(std::io::Error),
}

/// The Feature a rename acts on, by its `uid`: the first Feature whose id
/// is `old_id`, which must carry a uid, while no Feature holds `new_id`
/// (unless the two ids are the same).
pub fn rename_target(features: &Vec<FoundEntity>, old_id: &str, new_id: &str) -> (r: Result<
    String,
    RenameError,
>)
    ensures
        match r {
            Ok(uid) => exists|i: int|
                0 <= i < features@.len() && #[trigger] features@[i].id@ == old_id@ && (forall|k: int|
                    0 <= k < i ==> #[trigger] features@[k].id@ != old_id@) && opt_view(
                    features@[i].uid,
                ) == Some(uid@) && (old_id@ != new_id@ ==> forall|k: int|
                    0 <= k < features@.len() ==> #[trigger] features@[k].id@ != new_id@),
            Err(RenameError::FeatureNotFound(id)) => id@ == old_id@ && forall|k: int|
                0 <= k < features@.len() ==> #[trigger] features@[k].id@ != old_id@,
            Err(RenameError::NotMigrated(id)) => id@ == old_id@ && exists|i: int|
                0 <= i < features@.len() && #[trigger] features@[i].id@ == old_id@ && (forall|k: int|
                    0 <= k < i ==> #[trigger] features@[k].id@ != old_id@) && features@[i].uid is None,
            Err(RenameError::NewIdAlreadyInUse(id)) => id@ == new_id@ && old_id@ != new_id@ && (exists|
                i: int,
            |
                0 <= i < features@.len() && #[trigger] features@[i].id@ == old_id@ && (forall|k: int|
                    0 <= k < i ==> #[trigger] features@[k].id@ != old_id@) && features@[i].uid is Some)
                && exists|k: int| 0 <= k < features@.len() && #[trigger] features@[k].id@ == new_id@,
            Err(_) => false,
        },
{
    let found = crate::identity::knowledge_walk::find_by_id(features, old_id);
    let found = match found {
        Some(f) => f,
        None => {
            return Err(RenameError::FeatureNotFound(String::from_str(old_id)));
        },
    };
    let uid = match found.uid {
        Some(u) => u,
        None => {
            return Err(RenameError::NotMigrated(String::from_str(old_id)));
        },
    };
    if !str_eq(old_id, new_id) {
        if crate::identity::knowledge_walk::find_by_id(features, new_id).is_some() {
            return Err(RenameError::NewIdAlreadyInUse(String::from_str(new_id)));
        }
    }
    Ok(uid)
}

pub open spec fn is_rename(m: IdentityMutation, from: Seq<char>, to: Seq<char>) -> bool {
    match m {
        IdentityMutation::Renamed { from_id, to_id } => from_id@ == from && to_id@ == to,
        _ => false,
    }
}

pub open spec fn is_resolution(m: IdentityMutation, winner: Seq<char>) -> bool {
    match m {
        IdentityMutation::Resolved { winning_event_uid } => winning_event_uid@ == winner,
        _ => false,
    }
}

/// The `Renamed` event's content for a rename: refused when replay failed
/// or when the replayed current id is not `old_id`; otherwise its
/// predecessor (the current head) and its mutation.
pub fn rename_event(replay: Result<ReplayResult, ReplayError>, old_id: &str, new_id: &str) -> (r:
    Result<(String, IdentityMutation), RenameError>)
    ensures
        match replay {
            Err(e) => r matches Err(RenameError::ReplayFailed(e2)) && e2 == e,
            Ok(res) => if res.current_id@ == old_id@ {
                r matches Ok((head, m)) && head@ == res.current_head_event_uid@ && is_rename(
                    m,
                    old_id@,
                    new_id@,
                )
            } else {
                r matches Err(RenameError::CurrentIdMismatch { expected: x, actual: a }) && x@
                    == old_id@ && a@ == res.current_id@
            },
        },
{
    match replay {
        Err(e) => Err(RenameError::ReplayFailed(e)),
        Ok(res) => {
            if !str_eq(res.current_id.as_str(), old_id) {
                return Err(
                    RenameError::CurrentIdMismatch {
                        expected: String::from_str(old_id),
                        actual: res.current_id,
                    },
                );
            }
            Ok(
                (
                    res.current_head_event_uid,
                    IdentityMutation::Renamed {
                        from_id: String::from_str(old_id),
                        to_id: String::from_str(new_id),
                    },
                ),
            )
        },
    }
}

/// Why `resolve_divergence` refused to run, or failed partway.
#[derive(Debug)]
pub enum ResolveError {
    /// The entity has no branch divergence to resolve right now.
    NoDivergence,
    /// `keep_event_uid` is not one of the divergent heads.
    NotADivergentHead { keep_event_uid: String, divergent_head_uids: Vec<String> },
    OperationInProgress,
    Io(std::io::Error),
}

/// What resolving a divergence records: the `Resolved` event's
/// predecessors (every divergent head) and mutation. Only an ambiguous
/// divergence can be resolved, and only by keeping one of its heads.
pub fn resolution_event(replay: Result<ReplayResult, ReplayError>, keep_event_uid: &str) -> (r:
    Result<(Vec<String>, IdentityMutation), ResolveError>)
    ensures
        match replay {
            Err(ReplayError::AmbiguousDivergence { divergent_head_uids: heads }) => if views(
                heads@,
            ).contains(keep_event_uid@) {
                r matches Ok((preds, m)) && preds@ == heads@ && is_resolution(m, keep_event_uid@)
            } else {
                r matches Err(ResolveError::NotADivergentHead {
                    keep_event_uid: k,
                    divergent_head_uids: h,
                }) && k@ == keep_event_uid@ && h@ == heads@
            },
            _ => r matches Err(ResolveError::NoDivergence),
        },
{
    match replay {
        Err(ReplayError::AmbiguousDivergence { divergent_head_uids }) => {
            let ghost hv = views(divergent_head_uids@);
            let mut found = false;
            let mut i: usize = 0;
            while i < divergent_head_uids.len()
                invariant
                    i <= divergent_head_uids@.len(),
                    hv == views(divergent_head_uids@),
                    found == (exists|k: int| 0 <= k < i && hv[k] == keep_event_uid@),
                decreases divergent_head_uids.len() - i,
            {
                assert(hv[i as int] == divergent_head_uids@[i as int]@);
                if str_eq(divergent_head_uids[i].as_str(), keep_event_uid) {
                    found = true;
                }
                i = i + 1;
            }
            if !found {
                return Err(
                    ResolveError::NotADivergentHead {
                        keep_event_uid: String::from_str(keep_event_uid),
                        divergent_head_uids,
                    },
                );
            }
            Ok(
                (
                    divergent_head_uids,
                    IdentityMutation::Resolved { winning_event_uid: String::from_str(keep_event_uid) },
                ),
            )
        },
        _ => Err(ResolveError::NoDivergence),
    }
}

/// Why `sync_entity` refused to run, or failed partway.
#[derive(Debug)]
pub enum SyncError {
    /// The entity has no identity events: nothing to sync.
    NotFound,
    OperationInProgress,
    ReplayFailed(ReplayError),
    Io(std::io::Error),
}

/// Whether a sync may go ahead: the entity must have events, and they must
/// replay.
pub fn sync_check(event_count: usize, replay: Result<ReplayResult, ReplayError>) -> (r: Result<
    ReplayResult,
    SyncError,
>)
    ensures
        event_count == 0 ==> r matches Err(SyncError::NotFound),
        event_count > 0 ==> match replay {
            Ok(res) => r matches Ok(x) && x == res,
            Err(e) => r matches Err(SyncError::ReplayFailed(e2)) && e2 == e,
        },
{
    if event_count == 0 {
        return Err(SyncError::NotFound);
    }
    match replay {
        Ok(res) => Ok(res),
        Err(e) => Err(SyncError::ReplayFailed(e)),
    }
}

// ---------------------------------------------------------------------------
// `identity migrate`.
// ---------------------------------------------------------------------------

/// One Knowledge element `identity migrate` newly assigned a `uid` to.
#[derive(Debug, Clone, PartialEq, Eq)]
pub struct MigratedEntity {
    pub kind: EntityKind,
    pub id: String,
    pub uid: String,
}

#[derive(Debug, Clone, PartialEq, Eq)]
pub struct MigrateReport {
    pub migrated: Vec<MigratedEntity>,
    pub conflicts: Vec<String>,
    pub changed_files: Vec<String>,
}

/// Why `migrate_entities` refused to run, or failed partway.
#[derive(Debug)]
pub enum MigrateError {
    OperationInProgress,
    Conflicts(Vec<String>),
    Io(std::io::Error),
}

/// Every element of one kind in the working tree, in listing order; each
/// `path` is relative to the project root.
pub struct KindListing {
    pub kind: EntityKind,
    pub entities: Vec<FoundEntity>,
}

/// A Feature file's `requirement_uids` entries, as written (an entry may
/// still hold a Requirement's display id).
pub struct FeatureReferences {
    pub path: String,
    pub requirement_uids: Vec<String>,
}

/// A root `Issued` event to record, for a new entity uid.
pub struct PlannedEvent {
    pub kind: EntityKind,
    pub entity_uid: String,
    pub event: IdentityEvent,
}

/// The assignments a migration makes, without writing anything.
pub struct MigrationPlan {
    pub report: MigrateReport,
    pub events: Vec<PlannedEvent>,
    /// Feature files whose `requirement_uids` held display ids, with the
    /// resolved uids they should hold instead.
    pub feature_fixups: Vec<(String, Vec<String>)>,
}

// Pass 1: duplicate ids and uids within each kind.

/// The paths (in listing order) of the first `n` entities whose id is `id`.
pub open spec fn paths_with_id(es: Seq<FoundView>, id: Seq<char>, n: nat) -> Seq<Seq<char>>
    decreases n,
{
    if n == 0 {
        seq![]
    } else {
        let prev = paths_with_id(es, id, (n - 1) as nat);
        if es[n - 1].1 == id {
            prev.push(es[n - 1].0)
        } else {
            prev
        }
    }
}

/// The paths (in listing order) of the first `n` entities whose uid is
/// `uid`.
pub open spec fn paths_with_uid(es: Seq<FoundView>, uid: Seq<char>, n: nat) -> Seq<Seq<char>>
    decreases n,
{
    if n == 0 {
        seq![]
    } else {
        let prev = paths_with_uid(es, uid, (n - 1) as nat);
        if es[n - 1].2 == Some(uid) {
            prev.push(es[n - 1].0)
        } else {
            prev
        }
    }
}

pub open spec fn id_set(es: Seq<FoundView>) -> Set<Seq<char>> {
    Set::new(|d: Seq<char>| exists|k: int| 0 <= k < es.len() && #[trigger] es[k].1 == d)
}

pub open spec fn uid_set(es: Seq<FoundView>) -> Set<Seq<char>> {
    Set::new(|u: Seq<char>| exists|k: int| 0 <= k < es.len() && #[trigger] es[k].2 == Some(u))
}

pub open spec fn duplicate_message(
    kind: EntityKind,
    what: Seq<char>,
    key: Seq<char>,
    paths: Seq<Seq<char>>,
) -> Seq<char> {
    "duplicate "@ + kind_name(kind) + what + " '"@ + key + "': "@ + join_comma(paths)
}

/// One message per key (among the first `n` of `keys`) shared by more
/// than one entity.
pub open spec fn duplicate_messages(
    kind: EntityKind,
    what: Seq<char>,
    keys: Seq<Seq<char>>,
    paths_of: spec_fn(Seq<char>) -> Seq<Seq<char>>,
    n: nat,
) -> Seq<Seq<char>>
    decreases n,
{
    if n == 0 {
        seq![]
    } else {
        let prev = duplicate_messages(kind, what, keys, paths_of, (n - 1) as nat);
        let key = keys[n - 1];
        if paths_of(key).len() > 1 {
            prev.push(duplicate_message(kind, what, key, paths_of(key)))
        } else {
            prev
        }
    }
}

/// The conflicts of one kind: duplicate ids, by id, then duplicate uids, by
/// uid.
pub open spec fn kind_conflicts(kind: EntityKind, es: Seq<FoundView>) -> Seq<Seq<char>> {
    let ids = ascending(id_set(es));
    let uids = ascending(uid_set(es));
    duplicate_messages(kind, " id"@, ids, |d: Seq<char>| paths_with_id(es, d, es.len()), ids.len())
        + duplicate_messages(
        kind,
        " uid"@,
        uids,
        |u: Seq<char>| paths_with_uid(es, u, es.len()),
        uids.len(),
    )
}

pub open spec fn listing_view(l: KindListing) -> (EntityKind, Seq<FoundView>) {
    (l.kind, l.entities@.map_values(|e: FoundEntity| found_view(e)))
}

pub open spec fn listings_view(ls: Seq<KindListing>) -> Seq<(EntityKind, Seq<FoundView>)> {
    ls.map_values(|l: KindListing| listing_view(l))
}

/// The duplicate conflicts of the first `n` kinds, in listing order.
pub open spec fn listing_conflicts(ls: Seq<(EntityKind, Seq<FoundView>)>, n: nat) -> Seq<Seq<char>>
    decreases n,
{
    if n == 0 {
        seq![]
    } else {
        listing_conflicts(ls, (n - 1) as nat) + kind_conflicts(ls[n - 1].0, ls[n - 1].1)
    }
}

fn distinct_ids(es: &Vec<FoundEntity>) -> (r: Vec<String>)
    ensures
        views(r@) == ascending(id_set(es@.map_values(|e: FoundEntity| found_view(e)))),
{
    let ghost ev = es@.map_values(|e: FoundEntity| found_view(e));
    let mut out: Vec<String> = Vec::new();
    let mut i: usize = 0;
    while i < es.len()
        invariant
            i <= es@.len(),
            ev == es@.map_values(|e: FoundEntity| found_view(e)),
            strictly_sorted(views(out@)),
            views(out@).to_set() == id_set(ev.take(i as int)),
        decreases es.len() - i,
    {
        let ghost before = views(out@).to_set();
        insert_sorted_unique(&mut out, es[i].id.clone());
        proof {
            assert(ev[i as int].1 == es@[i as int].id@);
            assert forall|d: Seq<char>| #[trigger] id_set(ev.take(i + 1)).contains(d) <==> before.insert(
                es@[i as int].id@,
            ).contains(d) by {
                if id_set(ev.take(i + 1)).contains(d) {
                    let k = choose|k: int| 0 <= k < i + 1 && #[trigger] ev.take(i + 1)[k].1 == d;
                    if k < i {
                        assert(ev.take(i as int)[k].1 == d);
                    }
                }
                if id_set(ev.take(i as int)).contains(d) {
                    let k = choose|k: int| 0 <= k < i && #[trigger] ev.take(i as int)[k].1 == d;
                    assert(ev.take(i + 1)[k].1 == d);
                }
                if d == es@[i as int].id@ {
                    assert(ev.take(i + 1)[i as int].1 == d);
                }
            }
            assert(id_set(ev.take(i + 1)) =~= before.insert(es@[i as int].id@));
        }
        i = i + 1;
    }
    proof {
        assert(ev.take(es@.len() as int) =~= ev);
        lemma_ascending(views(out@));
    }
    out
}

fn distinct_uids(es: &Vec<FoundEntity>) -> (r: Vec<String>)
    ensures
        views(r@) == ascending(uid_set(es@.map_values(|e: FoundEntity| found_view(e)))),
{
    let ghost ev = es@.map_values(|e: FoundEntity| found_view(e));
    let mut out: Vec<String> = Vec::new();
    let mut i: usize = 0;
    while i < es.len()
        invariant
            i <= es@.len(),
            ev == es@.map_values(|e: FoundEntity| found_view(e)),
            strictly_sorted(views(out@)),
            views(out@).to_set() == uid_set(ev.take(i as int)),
        decreases es.len() - i,
    {
        let ghost before = views(out@).to_set();
        assert(ev[i as int].2 == opt_view(es@[i as int].uid));
        match &es[i].uid {
            Some(u) => {
                insert_sorted_unique(&mut out, u.clone());
                proof {
                    assert forall|d: Seq<char>| #[trigger] uid_set(ev.take(i + 1)).contains(d)
                        <==> before.insert(u@).contains(d) by {
                        if uid_set(ev.take(i + 1)).contains(d) {
                            let k = choose|k: int|
                                0 <= k < i + 1 && #[trigger] ev.take(i + 1)[k].2 == Some(d);
                            if k < i {
                                assert(ev.take(i as int)[k].2 == Some(d));
                            }
                        }
                        if uid_set(ev.take(i as int)).contains(d) {
                            let k = choose|k: int|
                                0 <= k < i && #[trigger] ev.take(i as int)[k].2 == Some(d);
                            assert(ev.take(i + 1)[k].2 == Some(d));
                        }
                        if d == u@ {
                            assert(ev.take(i + 1)[i as int].2 == Some(d));
                        }
                    }
                    assert(uid_set(ev.take(i + 1)) =~= before.insert(u@));
                }
            },
            None => {
                proof {
                    assert forall|d: Seq<char>| #[trigger] uid_set(ev.take(i + 1)).contains(d)
                        <==> before.contains(d) by {
                        if uid_set(ev.take(i + 1)).contains(d) {
                            let k = choose|k: int|
                                0 <= k < i + 1 && #[trigger] ev.take(i + 1)[k].2 == Some(d);
                            assert(k != i);
                            assert(ev.take(i as int)[k].2 == Some(d));
                        }
                        if uid_set(ev.take(i as int)).contains(d) {
                            let k = choose|k: int|
                                0 <= k < i && #[trigger] ev.take(i as int)[k].2 == Some(d);
                            assert(ev.take(i + 1)[k].2 == Some(d));
                        }
                    }
                    assert(uid_set(ev.take(i + 1)) =~= before);
                }
            },
        }
        i = i + 1;
    }
    proof {
        assert(ev.take(es@.len() as int) =~= ev);
        lemma_ascending(views(out@));
    }
    out
}

/// The paths of the entities whose id (`by_uid` false) or uid (`by_uid`
/// true) is `key`.
fn paths_with(es: &Vec<FoundEntity>, key: &str, by_uid: bool) -> (r: Vec<String>)
    ensures
        by_uid ==> views(r@) == paths_with_uid(
            es@.map_values(|e: FoundEntity| found_view(e)),
            key@,
            es@.len(),
        ),
        !by_uid ==> views(r@) == paths_with_id(
            es@.map_values(|e: FoundEntity| found_view(e)),
            key@,
            es@.len(),
        ),
{
    let ghost ev = es@.map_values(|e: FoundEntity| found_view(e));
    let mut out: Vec<String> = Vec::new();
    let mut i: usize = 0;
    while i < es.len()
        invariant
            i <= es@.len(),
            ev == es@.map_values(|e: FoundEntity| found_view(e)),
            by_uid ==> views(out@) == paths_with_uid(ev, key@, i as nat),
            !by_uid ==> views(out@) == paths_with_id(ev, key@, i as nat),
        decreases es.len() - i,
    {
        assert(ev[i as int] == found_view(es@[i as int]));
        let hit = if by_uid {
            match &es[i].uid {
                Some(u) => str_eq(u.as_str(), key),
                None => false,
            }
        } else {
            str_eq(es[i].id.as_str(), key)
        };
        if hit {
            let ghost before = views(out@);
            out.push(es[i].path.clone());
            assert(views(out@) =~= before.push(es@[i as int].path@));
        }
        i = i + 1;
    }
    out
}

fn push_duplicates(
    out: &mut Vec<String>,
    kind: EntityKind,
    es: &Vec<FoundEntity>,
    keys: &Vec<String>,
    by_uid: bool,
)
    ensures
        by_uid ==> views(final(out)@) == views(old(out)@) + duplicate_messages(
            kind,
            " uid"@,
            views(keys@),
            |u: Seq<char>|
                paths_with_uid(es@.map_values(|e: FoundEntity| found_view(e)), u, es@.len()),
            keys@.len(),
        ),
        !by_uid ==> views(final(out)@) == views(old(out)@) + duplicate_messages(
            kind,
            " id"@,
            views(keys@),
            |d: Seq<char>| paths_with_id(es@.map_values(|e: FoundEntity| found_view(e)), d, es@.len()),
            keys@.len(),
        ),
{
    let ghost ev = es@.map_values(|e: FoundEntity| found_view(e));
    let ghost start = views(out@);
    let ghost kv = views(keys@);
    let ghost f_uid = |u: Seq<char>| paths_with_uid(ev, u, es@.len());
    let ghost f_id = |d: Seq<char>| paths_with_id(ev, d, es@.len());
    let mut j: usize = 0;
    assert(start + seq![] =~= start);
    while j < keys.len()
        invariant
            j <= keys@.len(),
            ev == es@.map_values(|e: FoundEntity| found_view(e)),
            kv == views(keys@),
            f_uid == (|u: Seq<char>| paths_with_uid(ev, u, es@.len())),
            f_id == (|d: Seq<char>| paths_with_id(ev, d, es@.len())),
            by_uid ==> views(out@) == start + duplicate_messages(kind, " uid"@, kv, f_uid, j as nat),
            !by_uid ==> views(out@) == start + duplicate_messages(kind, " id"@, kv, f_id, j as nat),
        decreases keys.len() - j,
    {
        let key = &keys[j];
        assert(kv[j as int] == key@);
        let paths = paths_with(es, key.as_str(), by_uid);
        if paths.len() > 1 {
            let mut m = String::from_str("duplicate ");
            m.append(kind.as_str());
            if by_uid {
                m.append(" uid");
            } else {
                m.append(" id");
            }
            m.append(" '");
            m.append(key.as_str());
            m.append("': ");
            let joined = join_with_comma(&paths);
            m.append(joined.as_str());
            let ghost before = views(out@);
            out.push(m);
            assert(views(out@) =~= before.push(m@));
        }
        proof {
            if by_uid {
                assert(views(out@) =~= start + duplicate_messages(
                    kind,
                    " uid"@,
                    kv,
                    f_uid,
                    (j + 1) as nat,
                ));
            } else {
                assert(views(out@) =~= start + duplicate_messages(
                    kind,
                    " id"@,
                    kv,
                    f_id,
                    (j + 1) as nat,
                ));
            }
        }
        j = j + 1;
    }
}

/// The duplicate id and uid conflicts of one kind's listing.
pub fn duplicate_conflicts(kind: EntityKind, entities: &Vec<FoundEntity>) -> (r: Vec<String>)
    ensures
        views(r@) == kind_conflicts(kind, entities@.map_values(|e: FoundEntity| found_view(e))),
{
    let mut out: Vec<String> = Vec::new();
    let ids = distinct_ids(entities);
    let uids = distinct_uids(entities);
    assert(views(out@) =~= seq![]);
    push_duplicates(&mut out, kind, entities, &ids, false);
    push_duplicates(&mut out, kind, entities, &uids, true);
    proof {
        let ev = entities@.map_values(|e: FoundEntity| found_view(e));
        assert(views(out@) =~= kind_conflicts(kind, ev));
    }
    out
}

// Pass 2: a root `Issued` event per uid-less element.

/// One uid assignment: kind, id, path, new entity uid, new event uid.
pub type Issuance = (EntityKind, Seq<char>, Seq<char>, Seq<char>, Seq<char>);

pub type FreshPair = (Seq<char>, Seq<char>);

pub open spec fn fresh_view(v: Seq<(String, String)>) -> Seq<FreshPair> {
    v.map_values(|p: (String, String)| (p.0@, p.1@))
}

/// The assignments for the first `m` entities of one kind's listing, the
/// `k`-th uid-less entity taking fresh pair `start + k`.
pub open spec fn issue_entities(
    kind: EntityKind,
    es: Seq<FoundView>,
    m: nat,
    fresh: Seq<FreshPair>,
    start: nat,
) -> Seq<Issuance>
    decreases m,
{
    if m == 0 {
        seq![]
    } else {
        let prev = issue_entities(kind, es, (m - 1) as nat, fresh, start);
        let e = es[m - 1];
        if e.2 is Some {
            prev
        } else {
            let f = fresh[(start + prev.len()) as int];
            prev.push((kind, e.1, e.0, f.0, f.1))
        }
    }
}

/// The assignments for the first `n` listings, in listing order.
pub open spec fn issue_all(ls: Seq<(EntityKind, Seq<FoundView>)>, n: nat, fresh: Seq<FreshPair>) -> Seq<
    Issuance,
>
    decreases n,
{
    if n == 0 {
        seq![]
    } else {
        let prev = issue_all(ls, (n - 1) as nat, fresh);
        prev + issue_entities(ls[n - 1].0, ls[n - 1].1, ls[n - 1].1.len(), fresh, prev.len())
    }
}

/// `(id, uid)` for the first `m` requirements of a listing: the uid they
/// carry, or the one assigned to them.
pub open spec fn requirement_entities(
    kind: EntityKind,
    es: Seq<FoundView>,
    m: nat,
    fresh: Seq<FreshPair>,
    start: nat,
) -> Seq<(Seq<char>, Seq<char>)>
    decreases m,
{
    if m == 0 {
        seq![]
    } else {
        let prev = requirement_entities(kind, es, (m - 1) as nat, fresh, start);
        let e = es[m - 1];
        if kind != EntityKind::Requirement {
            prev
        } else {
            match e.2 {
                Some(u) => prev.push((e.1, u)),
                None => prev.push(
                    (e.1, fresh[(start + issue_entities(kind, es, (m - 1) as nat, fresh, start).len()) as int].0),
                ),
            }
        }
    }
}

pub open spec fn requirement_all(
    ls: Seq<(EntityKind, Seq<FoundView>)>,
    n: nat,
    fresh: Seq<FreshPair>,
) -> Seq<(Seq<char>, Seq<char>)>
    decreases n,
{
    if n == 0 {
        seq![]
    } else {
        requirement_all(ls, (n - 1) as nat, fresh) + requirement_entities(
            ls[n - 1].0,
            ls[n - 1].1,
            ls[n - 1].1.len(),
            fresh,
            issue_all(ls, (n - 1) as nat, fresh).len(),
        )
    }
}

/// The files an assignment touches: the element's own file, then its new
/// event file.
pub open spec fn changed_files_of(iss: Seq<Issuance>, n: nat) -> Seq<Seq<char>>
    decreases n,
{
    if n == 0 {
        seq![]
    } else {
        let x = iss[n - 1];
        changed_files_of(iss, (n - 1) as nat) + seq![x.2, event_path(x.0, x.3, x.4)]
    }
}

/// `e` is the root `Issued` event of assignment `x`.
pub open spec fn is_issued_event(e: IdentityEvent, x: Issuance, recorded_at: Seq<char>) -> bool {
    &&& e.identity_event_uid@ == x.4
    &&& e.entity_uid@ == x.3
    &&& e.entity_kind == x.0
    &&& e.previous_identity_event_uid is None
    &&& e.previous_identity_event_uids@.len() == 0
    &&& e.recorded_at@ == recorded_at
    &&& match e.mutation {
        IdentityMutation::Issued { id } => id@ == x.1,
        _ => false,
    }
}

pub open spec fn migrated_view(m: MigratedEntity) -> (EntityKind, Seq<char>, Seq<char>) {
    (m.kind, m.id@, m.uid@)
}

proof fn lemma_issue_entities_mono(
    kind: EntityKind,
    es: Seq<FoundView>,
    a: nat,
    b: nat,
    fresh: Seq<FreshPair>,
    start: nat,
)
    requires
        a <= b,
    ensures
        issue_entities(kind, es, a, fresh, start).len() <= issue_entities(
            kind,
            es,
            b,
            fresh,
            start,
        ).len(),
    decreases b - a,
{
    if a < b {
        lemma_issue_entities_mono(kind, es, a, (b - 1) as nat, fresh, start);
    }
}

proof fn lemma_issue_all_mono(ls: Seq<(EntityKind, Seq<FoundView>)>, a: nat, b: nat, fresh: Seq<FreshPair>)
    requires
        a <= b,
    ensures
        issue_all(ls, a, fresh).len() <= issue_all(ls, b, fresh).len(),
    decreases b - a,
{
    if a < b {
        lemma_issue_all_mono(ls, a, (b - 1) as nat, fresh);
    }
}

/// What pass 2 produces.
pub struct Issued {
    pub events: Vec<PlannedEvent>,
    pub migrated: Vec<MigratedEntity>,
    pub changed_files: Vec<String>,
    pub requirement_uids: Vec<(String, String)>,
}

pub open spec fn pairs_view(v: Seq<(String, String)>) -> Seq<(Seq<char>, Seq<char>)> {
    v.map_values(|p: (String, String)| (p.0@, p.1@))
}

fn issue_uids(listings: &Vec<KindListing>, fresh: &Vec<(String, String)>, recorded_at: &str) -> (r:
    Issued)
    requires
        fresh@.len() >= issue_all(listings_view(listings@), listings@.len(), fresh_view(fresh@)).len(),
    ensures
        ({
            let iss = issue_all(listings_view(listings@), listings@.len(), fresh_view(fresh@));
            &&& r.events@.len() == iss.len()
            &&& r.migrated@.len() == iss.len()
            &&& forall|i: int|
                0 <= i < iss.len() ==> #[trigger] r.events@[i].kind == iss[i].0
                    && r.events@[i].entity_uid@ == iss[i].3 && is_issued_event(
                    r.events@[i].event,
                    iss[i],
                    recorded_at@,
                )
            &&& forall|i: int|
                0 <= i < iss.len() ==> #[trigger] migrated_view(r.migrated@[i]) == (
                    iss[i].0,
                    iss[i].1,
                    iss[i].3,
                )
            &&& views(r.changed_files@) == changed_files_of(iss, iss.len())
            &&& pairs_view(r.requirement_uids@) == requirement_all(
                listings_view(listings@),
                listings@.len(),
                fresh_view(fresh@),
            )
        }),
{
    let ghost lv = listings_view(listings@);
    let ghost fv = fresh_view(fresh@);
    let ghost total = issue_all(lv, listings@.len(), fv);
    let mut events: Vec<PlannedEvent> = Vec::new();
    let mut migrated: Vec<MigratedEntity> = Vec::new();
    let mut changed: Vec<String> = Vec::new();
    let mut pairs: Vec<(String, String)> = Vec::new();
    let mut used: usize = 0;
    let fl = fresh.len();
    let mut i: usize = 0;
    assert(views(changed@) =~= seq![]);
    assert(pairs_view(pairs@) =~= seq![]);
    while i < listings.len()
        invariant
            i <= listings@.len(),
            lv == listings_view(listings@),
            fv == fresh_view(fresh@),
            total == issue_all(lv, listings@.len(), fv),
            fresh@.len() >= total.len(),
            fl == fresh@.len(),
            used == issue_all(lv, i as nat, fv).len(),
            events@.len() == used,
            migrated@.len() == used,
            forall|t: int|
                0 <= t < used ==> #[trigger] events@[t].kind == issue_all(lv, i as nat, fv)[t].0
                    && events@[t].entity_uid@ == issue_all(lv, i as nat, fv)[t].3 && is_issued_event(
                    events@[t].event,
                    issue_all(lv, i as nat, fv)[t],
                    recorded_at@,
                ),
            forall|t: int|
                0 <= t < used ==> #[trigger] migrated_view(migrated@[t]) == (
                    issue_all(lv, i as nat, fv)[t].0,
                    issue_all(lv, i as nat, fv)[t].1,
                    issue_all(lv, i as nat, fv)[t].3,
                ),
            views(changed@) == changed_files_of(issue_all(lv, i as nat, fv), used as nat),
            pairs_view(pairs@) == requirement_all(lv, i as nat, fv),
        decreases listings.len() - i,
    {
        let listing = &listings[i];
        let kind = listing.kind;
        let ghost es = listing.entities@.map_values(|e: FoundEntity| found_view(e));
        let ghost start = used as nat;
        let ghost prefix = issue_all(lv, i as nat, fv);
        let ghost prefix_pairs = requirement_all(lv, i as nat, fv);
        assert(lv[i as int] == (kind, es));
        proof {
            lemma_issue_all_mono(lv, (i + 1) as nat, listings@.len(), fv);
        }
        let mut j: usize = 0;
        while j < listing.entities.len()
            invariant
                j <= listing.entities@.len(),
                i < listings@.len(),
                listing == &listings@[i as int],
                kind == listing.kind,
                es == listing.entities@.map_values(|e: FoundEntity| found_view(e)),
                lv == listings_view(listings@),
                fv == fresh_view(fresh@),
                lv[i as int] == (kind, es),
                prefix == issue_all(lv, i as nat, fv),
                prefix_pairs == requirement_all(lv, i as nat, fv),
                start == prefix.len(),
                fresh@.len() >= issue_all(lv, (i + 1) as nat, fv).len(),
                fl == fresh@.len(),
                issue_all(lv, (i + 1) as nat, fv) == prefix + issue_entities(
                    kind,
                    es,
                    es.len(),
                    fv,
                    start,
                ),
                used == start + issue_entities(kind, es, j as nat, fv, start).len(),
                events@.len() == used,
                migrated@.len() == used,
                forall|t: int|
                    0 <= t < used ==> #[trigger] events@[t].kind == (prefix + issue_entities(
                        kind,
                        es,
                        j as nat,
                        fv,
                        start,
                    ))[t].0 && events@[t].entity_uid@ == (prefix + issue_entities(
                        kind,
                        es,
                        j as nat,
                        fv,
                        start,
                    ))[t].3 && is_issued_event(
                        events@[t].event,
                        (prefix + issue_entities(kind, es, j as nat, fv, start))[t],
                        recorded_at@,
                    ),
                forall|t: int|
                    0 <= t < used ==> #[trigger] migrated_view(migrated@[t]) == (
                        (prefix + issue_entities(kind, es, j as nat, fv, start))[t].0,
                        (prefix + issue_entities(kind, es, j as nat, fv, start))[t].1,
                        (prefix + issue_entities(kind, es, j as nat, fv, start))[t].3,
                    ),
                views(changed@) == changed_files_of(
                    prefix + issue_entities(kind, es, j as nat, fv, start),
                    used as nat,
                ),
                pairs_view(pairs@) == prefix_pairs + requirement_entities(
                    kind,
                    es,
                    j as nat,
                    fv,
                    start,
                ),
            decreases listing.entities.len() - j,
        {
            let e = &listing.entities[j];
            assert(es[j as int] == found_view(*e));
            let ghost cur = prefix + issue_entities(kind, es, j as nat, fv, start);
            let ghost next = prefix + issue_entities(kind, es, (j + 1) as nat, fv, start);
            match &e.uid {
                Some(u) => {
                    if kind == EntityKind::Requirement {
                        let ghost before = pairs_view(pairs@);
                        pairs.push((e.id.clone(), u.clone()));
                        assert(pairs_view(pairs@) =~= before.push((e.id@, u@)));
                    }
                    assert(next =~= cur);
                    assert(pairs_view(pairs@) =~= prefix_pairs + requirement_entities(
                        kind,
                        es,
                        (j + 1) as nat,
                        fv,
                        start,
                    ));
                },
                None => {
                    proof {
                        lemma_issue_entities_mono(kind, es, (j + 1) as nat, es.len(), fv, start);
                        assert(used < fresh@.len());
                    }
                    let entity_uid = fresh[used].0.clone();
                    let event_uid = fresh[used].1.clone();
                    assert(fv[used as int] == (fresh@[used as int].0@, fresh@[used as int].1@));
                    let ghost x: Issuance = (kind, e.id@, e.path@, entity_uid@, event_uid@);
                    assert(next =~= cur.push(x));
                    let event = IdentityEvent {
                        identity_event_uid: event_uid.clone(),
                        entity_uid: entity_uid.clone(),
                        entity_kind: kind,
                        previous_identity_event_uid: None,
                        previous_identity_event_uids: Vec::new(),
                        recorded_at: String::from_str(recorded_at),
                        mutation: IdentityMutation::Issued { id: e.id.clone() },
                    };
                    events.push(PlannedEvent { kind, entity_uid: entity_uid.clone(), event });
                    let ghost before_changed = views(changed@);
                    changed.push(e.path.clone());
                    let event_file = event_file_path(kind, entity_uid.as_str(), event_uid.as_str());
                    changed.push(event_file);
                    assert(views(changed@) =~= before_changed + seq![x.2, event_path(x.0, x.3, x.4)]);
                    assert(changed_files_of(next, (used + 1) as nat) =~= changed_files_of(
                        next,
                        used as nat,
                    ) + seq![x.2, event_path(x.0, x.3, x.4)]);
                    assert(changed_files_of(next, used as nat) == changed_files_of(cur, used as nat))
                        by {
                        assert(next.take(used as int) =~= cur.take(used as int));
                        lemma_changed_files_prefix(cur, next, used as nat);
                    }
                    if kind == EntityKind::Requirement {
                        let ghost before = pairs_view(pairs@);
                        pairs.push((e.id.clone(), entity_uid.clone()));
                        assert(pairs_view(pairs@) =~= before.push((e.id@, entity_uid@)));
                    }
                    migrated.push(MigratedEntity { kind, id: e.id.clone(), uid: entity_uid });
                    used = used + 1;
                    assert(pairs_view(pairs@) =~= prefix_pairs + requirement_entities(
                        kind,
                        es,
                        (j + 1) as nat,
                        fv,
                        start,
                    ));
                },
            }
            j = j + 1;
        }
        assert(listing.entities@.len() == es.len());
        i = i + 1;
    }
    Issued { events, migrated, changed_files: changed, requirement_uids: pairs }
}

proof fn lemma_changed_files_prefix(a: Seq<Issuance>, b: Seq<Issuance>, n: nat)
    requires
        n <= a.len(),
        n <= b.len(),
        a.take(n as int) == b.take(n as int),
    ensures
        changed_files_of(a, n) == changed_files_of(b, n),
    decreases n,
{
    if n > 0 {
        assert(a.take(n - 1) =~= a.take(n as int).take(n - 1));
        assert(b.take(n - 1) =~= b.take(n as int).take(n - 1));
        assert(a[n - 1] == a.take(n as int)[n - 1]);
        assert(b[n - 1] == b.take(n as int)[n - 1]);
        lemma_changed_files_prefix(a, b, (n - 1) as nat);
    }
}

// Pass 3: Features whose `requirement_uids` hold display ids.

/// The uid recorded for requirement id `id` among the first `n` pairs
/// (a later pair for the same id wins, as map insertion does).
pub open spec fn lookup_requirement(pairs: Seq<(Seq<char>, Seq<char>)>, id: Seq<char>, n: nat) -> Option<
    Seq<char>,
>
    decreases n,
{
    if n == 0 {
        None
    } else if pairs[n - 1].0 == id {
        Some(pairs[n - 1].1)
    } else {
        lookup_requirement(pairs, id, (n - 1) as nat)
    }
}

pub open spec fn known_requirement_uid(pairs: Seq<(Seq<char>, Seq<char>)>, uid: Seq<char>) -> bool {
    exists|k: int| 0 <= k < pairs.len() && #[trigger] pairs[k].1 == uid
}

pub open spec fn unknown_reference_message(path: Seq<char>, entry: Seq<char>) -> Seq<char> {
    path + ": requirement_uids references unknown requirement '"@ + entry + "'"@
}

/// The first `m` entries of one Feature's references, resolved: a known
/// uid stays, a known requirement id becomes its uid (a change), anything
/// else is a conflict.
pub open spec fn resolve_references(
    pairs: Seq<(Seq<char>, Seq<char>)>,
    path: Seq<char>,
    refs: Seq<Seq<char>>,
    m: nat,
) -> (Seq<Seq<char>>, bool, Seq<Seq<char>>)
    decreases m,
{
    if m == 0 {
        (seq![], false, seq![])
    } else {
        let prev = resolve_references(pairs, path, refs, (m - 1) as nat);
        let entry = refs[m - 1];
        if known_requirement_uid(pairs, entry) {
            (prev.0.push(entry), prev.1, prev.2)
        } else {
            match lookup_requirement(pairs, entry, pairs.len()) {
                Some(uid) => (prev.0.push(uid), true, prev.2),
                None => (prev.0, prev.1, prev.2.push(unknown_reference_message(path, entry))),
            }
        }
    }
}

pub open spec fn feature_refs_view(f: FeatureReferences) -> (Seq<char>, Seq<Seq<char>>) {
    (f.path@, views(f.requirement_uids@))
}

/// Conflicts and fix-ups for the first `n` Features: a Feature is fixed up
/// when one of its entries changed and no conflict has been found so far.
pub open spec fn fixups_of(
    features: Seq<(Seq<char>, Seq<Seq<char>>)>,
    pairs: Seq<(Seq<char>, Seq<char>)>,
    n: nat,
) -> (Seq<Seq<char>>, Seq<(Seq<char>, Seq<Seq<char>>)>)
    decreases n,
{
    if n == 0 {
        (seq![], seq![])
    } else {
        let prev = fixups_of(features, pairs, (n - 1) as nat);
        let f = features[n - 1];
        let res = resolve_references(pairs, f.0, f.1, f.1.len());
        let conflicts = prev.0 + res.2;
        if res.1 && conflicts.len() == 0 {
            (conflicts, prev.1.push((f.0, res.0)))
        } else {
            (conflicts, prev.1)
        }
    }
}

pub open spec fn fixups_view(v: Seq<(String, Vec<String>)>) -> Seq<(Seq<char>, Seq<Seq<char>>)> {
    v.map_values(|p: (String, Vec<String>)| (p.0@, views(p.1@)))
}

fn requirement_uid_for(pairs: &Vec<(String, String)>, id: &str) -> (r: Option<String>)
    ensures
        opt_view(r) == lookup_requirement(pairs_view(pairs@), id@, pairs@.len()),
{
    let ghost pv = pairs_view(pairs@);
    let mut k: usize = pairs.len();
    while k > 0
        invariant
            k <= pairs@.len(),
            pv == pairs_view(pairs@),
            lookup_requirement(pv, id@, pairs@.len()) == lookup_requirement(pv, id@, k as nat),
        decreases k,
    {
        assert(pv[k - 1] == (pairs@[k - 1].0@, pairs@[k - 1].1@));
        if str_eq(pairs[k - 1].0.as_str(), id) {
            return Some(pairs[k - 1].1.clone());
        }
        k = k - 1;
    }
    None
}

fn is_known_uid(pairs: &Vec<(String, String)>, uid: &str) -> (r: bool)
    ensures
        r == known_requirement_uid(pairs_view(pairs@), uid@),
{
    let ghost pv = pairs_view(pairs@);
    let mut k: usize = 0;
    while k < pairs.len()
        invariant
            k <= pairs@.len(),
            pv == pairs_view(pairs@),
            forall|t: int| 0 <= t < k ==> #[trigger] pv[t].1 != uid@,
        decreases pairs.len() - k,
    {
        assert(pv[k as int] == (pairs@[k as int].0@, pairs@[k as int].1@));
        if str_eq(pairs[k].1.as_str(), uid) {
            assert(pv[k as int].1 == uid@);
            return true;
        }
        k = k + 1;
    }
    false
}

fn resolve_feature(pairs: &Vec<(String, String)>, feature: &FeatureReferences) -> (r: (
    Vec<String>,
    bool,
    Vec<String>,
))
    ensures
        ({
            let res = resolve_references(
                pairs_view(pairs@),
                feature.path@,
                views(feature.requirement_uids@),
                feature.requirement_uids@.len(),
            );
            views(r.0@) == res.0 && r.1 == res.1 && views(r.2@) == res.2
        }),
{
    let ghost pv = pairs_view(pairs@);
    let ghost refs = views(feature.requirement_uids@);
    let mut resolved: Vec<String> = Vec::new();
    let mut changed = false;
    let mut conflicts: Vec<String> = Vec::new();
    let mut m: usize = 0;
    assert(views(resolved@) =~= seq![]);
    assert(views(conflicts@) =~= seq![]);
    while m < feature.requirement_uids.len()
        invariant
            m <= feature.requirement_uids@.len(),
            pv == pairs_view(pairs@),
            refs == views(feature.requirement_uids@),
            ({
                let res = resolve_references(pv, feature.path@, refs, m as nat);
                views(resolved@) == res.0 && changed == res.1 && views(conflicts@) == res.2
            }),
        decreases feature.requirement_uids.len() - m,
    {
        let entry = &feature.requirement_uids[m];
        assert(refs[m as int] == entry@);
        let ghost r0 = views(resolved@);
        let ghost c0 = views(conflicts@);
        if is_known_uid(pairs, entry.as_str()) {
            resolved.push(entry.clone());
            assert(views(resolved@) =~= r0.push(entry@));
        } else {
            match requirement_uid_for(pairs, entry.as_str()) {
                Some(uid) => {
                    let ghost u = uid@;
                    resolved.push(uid);
                    assert(views(resolved@) =~= r0.push(u));
                    changed = true;
                },
                None => {
                    let mut msg = feature.path.clone();
                    msg.append(": requirement_uids references unknown requirement '");
                    msg.append(entry.as_str());
                    msg.append("'");
                    conflicts.push(msg);
                    assert(views(conflicts@) =~= c0.push(
                        unknown_reference_message(feature.path@, entry@),
                    ));
                },
            }
        }
        m = m + 1;
    }
    (resolved, changed, conflicts)
}

fn resolve_features(pairs: &Vec<(String, String)>, features: &Vec<FeatureReferences>) -> (r: (
    Vec<String>,
    Vec<(String, Vec<String>)>,
))
    ensures
        ({
            let fx = fixups_of(
                features@.map_values(|f: FeatureReferences| feature_refs_view(f)),
                pairs_view(pairs@),
                features@.len(),
            );
            views(r.0@) == fx.0 && fixups_view(r.1@) == fx.1
        }),
{
    let ghost fs = features@.map_values(|f: FeatureReferences| feature_refs_view(f));
    let ghost pv = pairs_view(pairs@);
    let mut conflicts: Vec<String> = Vec::new();
    let mut fixups: Vec<(String, Vec<String>)> = Vec::new();
    let mut n: usize = 0;
    assert(views(conflicts@) =~= seq![]);
    assert(fixups_view(fixups@) =~= seq![]);
    while n < features.len()
        invariant
            n <= features@.len(),
            fs == features@.map_values(|f: FeatureReferences| feature_refs_view(f)),
            pv == pairs_view(pairs@),
            ({
                let fx = fixups_of(fs, pv, n as nat);
                views(conflicts@) == fx.0 && fixups_view(fixups@) == fx.1
            }),
        decreases features.len() - n,
    {
        let f = &features[n];
        assert(fs[n as int] == feature_refs_view(*f));
        let (resolved, changed, mut found) = resolve_feature(pairs, f);
        let ghost c0 = views(conflicts@);
        let ghost f0 = fixups_view(fixups@);
        let ghost fc = views(found@);
        conflicts.append(&mut found);
        assert(views(conflicts@) =~= c0 + fc);
        if changed && conflicts.len() == 0 {
            let ghost rv = views(resolved@);
            fixups.push((f.path.clone(), resolved));
            assert(fixups_view(fixups@) =~= f0.push((f.path@, rv)));
        }
        n = n + 1;
    }
    (conflicts, fixups)
}

// The plan.

/// The plan's content for every assignment of fresh uids: duplicate
/// conflicts stop everything; otherwise every uid-less element gets the
/// next fresh `(entity uid, event uid)` pair, and a Feature reference
/// conflict drops the events and fix-ups but keeps the report.
pub open spec fn plan_is(
    p: MigrationPlan,
    listings: Seq<(EntityKind, Seq<FoundView>)>,
    features: Seq<(Seq<char>, Seq<Seq<char>>)>,
    fresh: Seq<FreshPair>,
    recorded_at: Seq<char>,
) -> bool {
    let dups = listing_conflicts(listings, listings.len());
    if dups.len() > 0 {
        &&& views(p.report.conflicts@) == dups
        &&& p.report.migrated@.len() == 0
        &&& p.report.changed_files@.len() == 0
        &&& p.events@.len() == 0
        &&& p.feature_fixups@.len() == 0
    } else {
        let iss = issue_all(listings, listings.len(), fresh);
        let pairs = requirement_all(listings, listings.len(), fresh);
        let fx = fixups_of(features, pairs, features.len());
        &&& views(p.report.conflicts@) == fx.0
        &&& p.report.migrated@.len() == iss.len()
        &&& forall|i: int|
            0 <= i < iss.len() ==> #[trigger] migrated_view(p.report.migrated@[i]) == (
                iss[i].0,
                iss[i].1,
                iss[i].3,
            )
        &&& views(p.report.changed_files@) == changed_files_of(iss, iss.len())
        &&& if fx.0.len() == 0 {
            &&& p.events@.len() == iss.len()
            &&& forall|i: int|
                0 <= i < iss.len() ==> #[trigger] p.events@[i].kind == iss[i].0
                    && p.events@[i].entity_uid@ == iss[i].3 && is_issued_event(
                    p.events@[i].event,
                    iss[i],
                    recorded_at,
                )
            &&& fixups_view(p.feature_fixups@) == fx.1
        } else {
            p.events@.len() == 0 && p.feature_fixups@.len() == 0
        }
    }
}

/// How many elements lack a uid.
pub open spec fn pending_count(listings: Seq<(EntityKind, Seq<FoundView>)>) -> nat {
    issue_all(listings, listings.len(), seq![]).len()
}

proof fn lemma_issue_entities_len_indep(
    kind: EntityKind,
    es: Seq<FoundView>,
    m: nat,
    f1: Seq<FreshPair>,
    f2: Seq<FreshPair>,
    s1: nat,
    s2: nat,
)
    ensures
        issue_entities(kind, es, m, f1, s1).len() == issue_entities(kind, es, m, f2, s2).len(),
    decreases m,
{
    if m > 0 {
        lemma_issue_entities_len_indep(kind, es, (m - 1) as nat, f1, f2, s1, s2);
    }
}

proof fn lemma_issue_all_len_indep(
    ls: Seq<(EntityKind, Seq<FoundView>)>,
    n: nat,
    f1: Seq<FreshPair>,
    f2: Seq<FreshPair>,
)
    ensures
        issue_all(ls, n, f1).len() == issue_all(ls, n, f2).len(),
    decreases n,
{
    if n > 0 {
        lemma_issue_all_len_indep(ls, (n - 1) as nat, f1, f2);
        lemma_issue_entities_len_indep(
            ls[n - 1].0,
            ls[n - 1].1,
            ls[n - 1].1.len(),
            f1,
            f2,
            issue_all(ls, (n - 1) as nat, f1).len(),
            issue_all(ls, (n - 1) as nat, f2).len(),
        );
    }
}

/// How many of the first `m` entities of a listing lack a uid.
pub open spec fn uidless_count(es: Seq<FoundView>, m: nat) -> nat
    decreases m,
{
    if m == 0 {
        0
    } else if es[m - 1].2 is Some {
        uidless_count(es, (m - 1) as nat)
    } else {
        uidless_count(es, (m - 1) as nat) + 1
    }
}

/// How many elements of the first `n` listings lack a uid.
pub open spec fn uidless_total(ls: Seq<(EntityKind, Seq<FoundView>)>, n: nat) -> nat
    decreases n,
{
    if n == 0 {
        0
    } else {
        uidless_total(ls, (n - 1) as nat) + uidless_count(ls[n - 1].1, ls[n - 1].1.len())
    }
}

proof fn lemma_issue_entities_count(
    kind: EntityKind,
    es: Seq<FoundView>,
    m: nat,
    fresh: Seq<FreshPair>,
    start: nat,
)
    ensures
        issue_entities(kind, es, m, fresh, start).len() == uidless_count(es, m),
    decreases m,
{
    if m > 0 {
        lemma_issue_entities_count(kind, es, (m - 1) as nat, fresh, start);
    }
}

proof fn lemma_issue_all_count(ls: Seq<(EntityKind, Seq<FoundView>)>, n: nat, fresh: Seq<FreshPair>)
    ensures
        issue_all(ls, n, fresh).len() == uidless_total(ls, n),
    decreases n,
{
    if n > 0 {
        lemma_issue_all_count(ls, (n - 1) as nat, fresh);
        lemma_issue_entities_count(
            ls[n - 1].0,
            ls[n - 1].1,
            ls[n - 1].1.len(),
            fresh,
            issue_all(ls, (n - 1) as nat, fresh).len(),
        );
    }
}

proof fn lemma_changed_files_len(iss: Seq<Issuance>, n: nat)
    ensures
        changed_files_of(iss, n).len() == 2 * n,
    decreases n,
{
    if n > 0 {
        lemma_changed_files_len(iss, (n - 1) as nat);
    }
}

/// A migration plan's counts: a duplicate id or uid within a kind stops
/// everything (no element migrated, no file changed, no event); otherwise
/// exactly the elements lacking a uid are migrated, each touching two files
/// (its own and its new event file), and when every Feature reference
/// resolves there is no conflict and one root `Issued` event per migrated
/// element, all stamped `recorded_at`.
pub proof fn lemma_migration_plan_counts(
    p: MigrationPlan,
    listings: Seq<(EntityKind, Seq<FoundView>)>,
    features: Seq<(Seq<char>, Seq<Seq<char>>)>,
    fresh: Seq<FreshPair>,
    recorded_at: Seq<char>,
)
    requires
        plan_is(p, listings, features, fresh, recorded_at),
    ensures
        p.report.changed_files@.len() == 2 * p.report.migrated@.len(),
        listing_conflicts(listings, listings.len()).len() > 0 ==> p.report.migrated@.len() == 0
            && p.events@.len() == 0 && p.report.conflicts@.len() > 0,
        listing_conflicts(listings, listings.len()).len() == 0 ==> p.report.migrated@.len()
            == uidless_total(listings, listings.len()),
        listing_conflicts(listings, listings.len()).len() == 0 && fixups_of(
            features,
            requirement_all(listings, listings.len(), fresh),
            features.len(),
        ).0.len() == 0 ==> {
            &&& p.report.conflicts@.len() == 0
            &&& p.events@.len() == p.report.migrated@.len()
            &&& forall|i: int|
                0 <= i < p.events@.len() ==> (#[trigger] p.events@[i]).event.recorded_at@
                    == recorded_at && p.events@[i].event.previous_identity_event_uid is None
                    && p.events@[i].event.mutation is Issued
        },
{
    let dups = listing_conflicts(listings, listings.len());
    if dups.len() > 0 {
        assert(views(p.report.conflicts@).len() == p.report.conflicts@.len());
    } else {
        let iss = issue_all(listings, listings.len(), fresh);
        lemma_issue_all_count(listings, listings.len(), fresh);
        lemma_changed_files_len(iss, iss.len());
        assert(views(p.report.changed_files@).len() == p.report.changed_files@.len());
        assert(views(p.report.conflicts@).len() == p.report.conflicts@.len());
        let fx = fixups_of(features, requirement_all(listings, listings.len(), fresh), features.len());
        if fx.0.len() == 0 {
            assert forall|i: int| 0 <= i < p.events@.len() implies (#[trigger] p.events@[i]).event.recorded_at@
                == recorded_at && p.events@[i].event.previous_identity_event_uid is None
                && p.events@[i].event.mutation is Issued by {
                assert(p.events@.len() == iss.len());
                assert(p.events@[i].kind == iss[i].0);
                assert(is_issued_event(p.events@[i].event, iss[i], recorded_at));
            }
        }
    }
}

/// The migration plan for given fresh `(entity uid, event uid)` pairs, one
/// per uid-less element in listing order (`listings` in kind order).
pub fn plan_migration_with_uids(
    listings: &Vec<KindListing>,
    features: &Vec<FeatureReferences>,
    recorded_at: &str,
    fresh: &Vec<(String, String)>,
) -> (r: MigrationPlan)
    requires
        fresh@.len() >= pending_count(listings_view(listings@)),
    ensures
        plan_is(
            r,
            listings_view(listings@),
            features@.map_values(|f: FeatureReferences| feature_refs_view(f)),
            fresh_view(fresh@),
            recorded_at@,
        ),
{
    let ghost lv = listings_view(listings@);
    let mut conflicts: Vec<String> = Vec::new();
    let mut i: usize = 0;
    assert(views(conflicts@) =~= seq![]);
    while i < listings.len()
        invariant
            i <= listings@.len(),
            lv == listings_view(listings@),
            views(conflicts@) == listing_conflicts(lv, i as nat),
        decreases listings.len() - i,
    {
        let listing = &listings[i];
        assert(lv[i as int] == listing_view(*listing));
        let mut found = duplicate_conflicts(listing.kind, &listing.entities);
        let ghost c0 = views(conflicts@);
        let ghost fc = views(found@);
        conflicts.append(&mut found);
        assert(views(conflicts@) =~= c0 + fc);
        i = i + 1;
    }
    if conflicts.len() > 0 {
        return MigrationPlan {
            report: MigrateReport { migrated: Vec::new(), conflicts, changed_files: Vec::new() },
            events: Vec::new(),
            feature_fixups: Vec::new(),
        };
    }
    proof {
        assert(lv.len() == listings@.len());
        assert(listing_conflicts(lv, lv.len()).len() == 0);
        lemma_issue_all_len_indep(lv, lv.len(), seq![], fresh_view(fresh@));
    }
    let issued = issue_uids(listings, fresh, recorded_at);
    let (feature_conflicts, fixups) = resolve_features(&issued.requirement_uids, features);
    let ghost fs = features@.map_values(|f: FeatureReferences| feature_refs_view(f));
    let ghost fv = fresh_view(fresh@);
    let ghost iss = issue_all(lv, lv.len(), fv);
    let ghost pairs = requirement_all(lv, lv.len(), fv);
    let ghost fx = fixups_of(fs, pairs, fs.len());
    assert(pairs_view(issued.requirement_uids@) == pairs);
    assert(views(feature_conflicts@) == fx.0);
    assert(issued.migrated@.len() == iss.len());
    assert(forall|i: int|
        0 <= i < iss.len() ==> #[trigger] migrated_view(issued.migrated@[i]) == (
            iss[i].0,
            iss[i].1,
            iss[i].3,
        ));
    assert(views(issued.changed_files@) == changed_files_of(iss, iss.len()));
    if feature_conflicts.len() > 0 {
        return MigrationPlan {
            report: MigrateReport {
                migrated: issued.migrated,
                conflicts: feature_conflicts,
                changed_files: issued.changed_files,
            },
            events: Vec::new(),
            feature_fixups: Vec::new(),
        };
    }
    MigrationPlan {
        report: MigrateReport {
            migrated: issued.migrated,
            conflicts: feature_conflicts,
            changed_files: issued.changed_files,
        },
        events: issued.events,
        feature_fixups: fixups,
    }
}

/// `identity migrate`'s plan: every uid-less element (across all kinds, in
/// listing order) gets a fresh ULID entity uid and a root `Issued` event
/// with a fresh ULID event uid, all stamped `recorded_at`. The fresh uids
/// come from the clock and randomness; everything else is the plan of
/// `plan_migration_with_uids` for them.
pub fn build_migration_plan(
    listings: &Vec<KindListing>,
    features: &Vec<FeatureReferences>,
    recorded_at: &str,
) -> (r: MigrationPlan)
    ensures
        exists|fresh: Seq<FreshPair>|
            fresh.len() == pending_count(listings_view(listings@)) && (forall|i: int|
                0 <= i < fresh.len() ==> is_ulid_text(#[trigger] fresh[i].0) && is_ulid_text(
                    fresh[i].1,
                )) && plan_is(
                r,
                listings_view(listings@),
                features@.map_values(|f: FeatureReferences| feature_refs_view(f)),
                fresh,
                recorded_at@,
            ),
{
    let ghost lv = listings_view(listings@);
    let mut fresh: Vec<(String, String)> = Vec::new();
    let mut i: usize = 0;
    while i < listings.len()
        invariant
            i <= listings@.len(),
            lv == listings_view(listings@),
            fresh@.len() == issue_all(lv, i as nat, seq![]).len(),
            forall|t: int|
                0 <= t < fresh@.len() ==> is_ulid_text(#[trigger] fresh_view(fresh@)[t].0)
                    && is_ulid_text(fresh_view(fresh@)[t].1),
        decreases listings.len() - i,
    {
        let listing = &listings[i];
        let ghost es = listing.entities@.map_values(|e: FoundEntity| found_view(e));
        assert(lv[i as int] == (listing.kind, es));
        let ghost start = fresh@.len();
        let mut j: usize = 0;
        while j < listing.entities.len()
            invariant
                j <= listing.entities@.len(),
                i < listings@.len(),
                listing == &listings@[i as int],
                es == listing.entities@.map_values(|e: FoundEntity| found_view(e)),
                fresh@.len() == start + issue_entities(listing.kind, es, j as nat, seq![], start).len(),
                forall|t: int|
                    0 <= t < fresh@.len() ==> is_ulid_text(#[trigger] fresh_view(fresh@)[t].0)
                        && is_ulid_text(fresh_view(fresh@)[t].1),
            decreases listing.entities.len() - j,
        {
            assert(es[j as int] == found_view(listing.entities@[j as int]));
            if listing.entities[j].uid.is_none() {
                let entity_uid = new_ulid();
                let event_uid = new_ulid();
                let ghost before = fresh_view(fresh@);
                let ghost pair: FreshPair = (entity_uid@, event_uid@);
                assert(is_ulid_text(pair.0) && is_ulid_text(pair.1));
                fresh.push((entity_uid, event_uid));
                assert(fresh_view(fresh@) =~= before.push(pair));
                assert forall|t: int| 0 <= t < fresh@.len() implies is_ulid_text(
                    #[trigger] fresh_view(fresh@)[t].0,
                ) && is_ulid_text(fresh_view(fresh@)[t].1) by {
                    if t < before.len() {
                        assert(fresh_view(fresh@)[t] == before[t]);
                        assert(is_ulid_text(before[t].0) && is_ulid_text(before[t].1));
                    } else {
                        assert(fresh_view(fresh@)[t] == pair);
                        assert(is_ulid_text(pair.0) && is_ulid_text(pair.1));
                    }
                }
            }
            assert(forall|t: int|
                0 <= t < fresh@.len() ==> is_ulid_text(#[trigger] fresh_view(fresh@)[t].0)
                    && is_ulid_text(fresh_view(fresh@)[t].1));
            j = j + 1;
        }
        assert(listing.entities@.len() == es.len());
        i = i + 1;
    }
    proof {
        assert(lv.len() == listings@.len());
        lemma_issue_all_len_indep(lv, lv.len(), seq![], fresh_view(fresh@));
    }
    let r = plan_migration_with_uids(listings, features, recorded_at, &fresh);
    proof {
        let fv = fresh_view(fresh@);
        assert(fv.len() == pending_count(lv));
        assert(forall|t: int| 0 <= t < fv.len() ==> is_ulid_text(#[trigger] fv[t].0) && is_ulid_text(fv[t].1));
        assert(plan_is(
            r,
            lv,
            features@.map_values(|f: FeatureReferences| feature_refs_view(f)),
            fv,
            recorded_at@,
        ));
    }
    r
}

/// The report a migration would produce, without writing anything.
pub fn plan_migration(
    listings: &Vec<KindListing>,
    features: &Vec<FeatureReferences>,
    recorded_at: &str,
) -> (r: MigrateReport)
    ensures
        exists|fresh: Seq<FreshPair>, p: MigrationPlan|
            fresh.len() == pending_count(listings_view(listings@)) && (forall|i: int|
                0 <= i < fresh.len() ==> is_ulid_text(#[trigger] fresh[i].0) && is_ulid_text(
                    fresh[i].1,
                )) && plan_is(
                p,
                listings_view(listings@),
                features@.map_values(|f: FeatureReferences| feature_refs_view(f)),
                fresh,
                recorded_at@,
            ) && p.report == r,
        r.changed_files@.len() == 2 * r.migrated@.len(),
        listing_conflicts(listings_view(listings@), listings@.len()).len() > 0 ==> views(
            r.conflicts@,
        ) == listing_conflicts(listings_view(listings@), listings@.len()) && r.migrated@.len() == 0
            && r.changed_files@.len() == 0,
        listing_conflicts(listings_view(listings@), listings@.len()).len() == 0
            ==> r.migrated@.len() == uidless_total(listings_view(listings@), listings@.len()),
{
    let plan = build_migration_plan(listings, features, recorded_at);
    let ghost p = plan;
    proof {
        let lv = listings_view(listings@);
        let fr = choose|fresh: Seq<FreshPair>|
            fresh.len() == pending_count(lv) && (forall|i: int|
                0 <= i < fresh.len() ==> is_ulid_text(#[trigger] fresh[i].0) && is_ulid_text(
                    fresh[i].1,
                )) && plan_is(
                p,
                lv,
                features@.map_values(|f: FeatureReferences| feature_refs_view(f)),
                fresh,
                recorded_at@,
            );
        lemma_migration_plan_counts(
            p,
            lv,
            features@.map_values(|f: FeatureReferences| feature_refs_view(f)),
            fr,
            recorded_at@,
        );
        assert(lv.len() == listings@.len());
    }
    let r = plan.report;
    assert(p.report == r);
    r
}

} // verus!
