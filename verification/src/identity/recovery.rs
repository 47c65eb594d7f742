//! Crash-safe identity operations: an intent is recorded durably before the
//! single logical commit point (the identity event reaching its final
//! location), so that an interrupted operation is either rolled forward or
//! discarded by the next command. Writing and reading the staging files
//! happens around this module; what is decided here is where events go and
//! what an intent holds.
use vstd::prelude::*;

use crate::identity::entity_kind::{kind_segment, EntityKind};
use crate::identity::event::{IdentityEvent, IdentityMutation};
use crate::identity::fresh::{is_ulid_text, new_ulid};
use crate::text::{str_eq, views};

verus! {

/// `.markharness/identity-events/<kind>/<uid>/<event_uid>.yml`, relative to
/// the project root.
pub open spec fn event_path(kind: EntityKind, entity_uid: Seq<char>, event_uid: Seq<char>) -> Seq<
    char,
> {
    ".markharness/identity-events/"@ + kind_segment(kind) + "/"@ + entity_uid + "/"@ + event_uid
        + ".yml"@
}

/// The identity event's final location, relative to the project root.
/// Writing this file is the operation's single logical commit point.
pub fn event_file_path(kind: EntityKind, entity_uid: &str, event_uid: &str) -> (r: String)
    ensures
        r@ == event_path(kind, entity_uid@, event_uid@),
{
    let mut p = String::from_str(".markharness/identity-events/");
    p.append(kind.directory_segment());
    p.append("/");
    p.append(entity_uid);
    p.append("/");
    p.append(event_uid);
    p.append(".yml");
    p
}

/// One event of a multi-entity operation, already serialized.
#[derive(Debug, Clone, PartialEq, Eq)]
pub struct BatchEvent {
    pub entity_kind: EntityKind,
    pub entity_uid: String,
    pub identity_event_uid: String,
    pub event_yaml: String,
}

/// A caller's own data, recorded durably before the commit point.
#[derive(Debug, Clone, PartialEq, Eq)]
pub enum IntentPayload {
    /// The migration's legacy case identity: `case_id` -> serialized legacy
    /// snapshot, ordered by `case_id`.
    IdentityMigration(Vec<(String, String)>),
}

/// Durable proof that an identity operation was attempted. Recovery checks
/// whether the event named by `identity_event_uid` reached
/// `event_file_path`.
#[derive(Debug, Clone, PartialEq, Eq)]
pub struct Intent {
    pub operation_id: String,
    pub entity_kind: EntityKind,
    pub entity_uid: String,
    pub identity_event_uid: String,
    /// All events of a project-wide operation; the first is the commit
    /// point. Empty for a single-entity operation.
    pub batch_events: Vec<BatchEvent>,
    pub caller_payload: Option<IntentPayload>,
}

/// What happened to one leftover staging entry during recovery.
#[derive(Debug, Clone, PartialEq, Eq)]
pub enum RecoveryOutcome {
    /// The event never reached its final location: nothing happened.
    Discarded { operation_id: String },
    /// The event was committed and the operation was rolled forward.
    RolledForward { operation_id: String },
}

/// The intent of a single-entity operation under `operation_id`.
pub fn single_intent(
    operation_id: String,
    entity_kind: EntityKind,
    entity_uid: &str,
    identity_event_uid: &str,
) -> (r: Intent)
    ensures
        r.operation_id@ == operation_id@,
        r.entity_kind == entity_kind,
        r.entity_uid@ == entity_uid@,
        r.identity_event_uid@ == identity_event_uid@,
        r.batch_events@.len() == 0,
        r.caller_payload is None,
{
    Intent {
        operation_id,
        entity_kind,
        entity_uid: String::from_str(entity_uid),
        identity_event_uid: String::from_str(identity_event_uid),
        batch_events: Vec::new(),
        caller_payload: None,
    }
}

/// The intent of a batch under `operation_id`: it is keyed by the batch's
/// first event, the commit point. An empty batch has no intent.
pub fn batch_intent(
    operation_id: String,
    batch_events: Vec<BatchEvent>,
    caller_payload: Option<IntentPayload>,
) -> (r: Option<Intent>)
    ensures
        batch_events@.len() == 0 <==> r is None,
        r matches Some(i) ==> {
            &&& i.operation_id@ == operation_id@
            &&& i.entity_kind == batch_events@[0].entity_kind
            &&& i.entity_uid@ == batch_events@[0].entity_uid@
            &&& i.identity_event_uid@ == batch_events@[0].identity_event_uid@
            &&& i.batch_events@ == batch_events@
            &&& i.caller_payload == caller_payload
        },
{
    if batch_events.len() == 0 {
        return None;
    }
    let entity_kind = batch_events[0].entity_kind;
    let entity_uid = batch_events[0].entity_uid.clone();
    let identity_event_uid = batch_events[0].identity_event_uid.clone();
    Some(
        Intent {
            operation_id,
            entity_kind,
            entity_uid,
            identity_event_uid,
            batch_events,
            caller_payload,
        },
    )
}

/// The intent of a single-entity operation, under a fresh operation id.
pub fn begin(entity_kind: EntityKind, entity_uid: &str, identity_event_uid: &str) -> (r: Intent)
    ensures
        is_ulid_text(r.operation_id@),
        r.entity_kind == entity_kind,
        r.entity_uid@ == entity_uid@,
        r.identity_event_uid@ == identity_event_uid@,
        r.batch_events@.len() == 0,
        r.caller_payload is None,
{
    single_intent(new_ulid(), entity_kind, entity_uid, identity_event_uid)
}

/// An operation that appends one event to `entity_uid`'s log: the event,
/// under a fresh uid, and the intent that records that uid, under a fresh
/// operation id. Recovery decides whether the operation happened by that
/// uid alone, so the two agree on it, and on the entity.
pub fn single_event_operation(
    entity_kind: EntityKind,
    entity_uid: &str,
    previous_identity_event_uid: Option<String>,
    previous_identity_event_uids: Vec<String>,
    mutation: IdentityMutation,
    recorded_at: &str,
) -> (r: (Intent, IdentityEvent))
    ensures
        is_ulid_text(r.1.identity_event_uid@),
        r.0.identity_event_uid@ == r.1.identity_event_uid@,
        r.0.entity_uid@ == entity_uid@,
        r.1.entity_uid@ == entity_uid@,
        r.0.entity_kind == entity_kind,
        r.1.entity_kind == entity_kind,
        is_ulid_text(r.0.operation_id@),
        r.0.batch_events@.len() == 0,
        r.0.caller_payload is None,
        r.1.previous_identity_event_uid == previous_identity_event_uid,
        r.1.previous_identity_event_uids == previous_identity_event_uids,
        r.1.recorded_at@ == recorded_at@,
        r.1.mutation == mutation,
{
    let event_uid = new_ulid();
    let intent = begin(entity_kind, entity_uid, event_uid.as_str());
    let event = IdentityEvent {
        identity_event_uid: event_uid,
        entity_uid: String::from_str(entity_uid),
        entity_kind,
        previous_identity_event_uid,
        previous_identity_event_uids,
        recorded_at: String::from_str(recorded_at),
        mutation,
    };
    (intent, event)
}

/// Committing the event of a single-event operation is what makes its
/// intent committed: the event's file is the intent's commit point.
pub proof fn lemma_single_event_commits(intent: Intent, event: IdentityEvent)
    requires
        intent.identity_event_uid@ == event.identity_event_uid@,
        intent.entity_uid@ == event.entity_uid@,
        intent.entity_kind == event.entity_kind,
    ensures
        event_path(event.entity_kind, event.entity_uid@, event.identity_event_uid@) == event_path(
            intent.entity_kind,
            intent.entity_uid@,
            intent.identity_event_uid@,
        ),
{
}

/// The intent of a batch, under a fresh operation id, with the caller's
/// payload; `None` for an empty batch.
pub fn begin_batch_with_payload(
    batch_events: Vec<BatchEvent>,
    caller_payload: Option<IntentPayload>,
) -> (r: Option<Intent>)
    ensures
        batch_events@.len() == 0 <==> r is None,
        r matches Some(i) ==> {
            &&& is_ulid_text(i.operation_id@)
            &&& i.entity_kind == batch_events@[0].entity_kind
            &&& i.entity_uid@ == batch_events@[0].entity_uid@
            &&& i.identity_event_uid@ == batch_events@[0].identity_event_uid@
            &&& i.batch_events@ == batch_events@
            &&& i.caller_payload == caller_payload
        },
{
    if batch_events.len() == 0 {
        return None;
    }
    batch_intent(new_ulid(), batch_events, caller_payload)
}

/// The intent of a batch with no caller payload; `None` for an empty batch.
pub fn begin_batch(batch_events: Vec<BatchEvent>) -> (r: Option<Intent>)
    ensures
        batch_events@.len() == 0 <==> r is None,
        r matches Some(i) ==> {
            &&& is_ulid_text(i.operation_id@)
            &&& i.entity_kind == batch_events@[0].entity_kind
            &&& i.entity_uid@ == batch_events@[0].entity_uid@
            &&& i.identity_event_uid@ == batch_events@[0].identity_event_uid@
            &&& i.batch_events@ == batch_events@
            &&& i.caller_payload is None
        },
{
    begin_batch_with_payload(batch_events, None)
}

/// The file an intent's own event is committed to.
pub fn intent_event_path(intent: &Intent) -> (r: String)
    ensures
        r@ == event_path(intent.entity_kind, intent.entity_uid@, intent.identity_event_uid@),
{
    event_file_path(intent.entity_kind, intent.entity_uid.as_str(), intent.identity_event_uid.as_str())
}

/// A write: the file's path, relative to the project root, and its text.
pub type WriteView = (Seq<char>, Seq<char>);

pub open spec fn write_view(w: (String, String)) -> WriteView {
    (w.0@, w.1@)
}

pub open spec fn writes_view(ws: Seq<(String, String)>) -> Seq<WriteView> {
    ws.map_values(|w: (String, String)| write_view(w))
}

pub open spec fn batch_write(e: BatchEvent) -> WriteView {
    (event_path(e.entity_kind, e.entity_uid@, e.identity_event_uid@), e.event_yaml@)
}

/// The writes that commit a batch, in order.
pub open spec fn batch_writes_view(events: Seq<BatchEvent>) -> Seq<WriteView> {
    events.map_values(|e: BatchEvent| batch_write(e))
}

/// Of `writes`, those whose file is not among `existing`, in order.
pub open spec fn pending_writes(writes: Seq<WriteView>, existing: Set<Seq<char>>) -> Seq<
    WriteView,
> {
    writes.filter(|w: WriteView| !existing.contains(w.0))
}

/// The writes that commit a batch, in order: each event's YAML to its final
/// location, the first being the commit point.
pub fn commit_batch(intent: &Intent) -> (r: Vec<(String, String)>)
    ensures
        writes_view(r@) == batch_writes_view(intent.batch_events@),
{
    let mut out: Vec<(String, String)> = Vec::new();
    let mut i: usize = 0;
    while i < intent.batch_events.len()
        invariant
            i <= intent.batch_events@.len(),
            out@.len() == i,
            writes_view(out@) =~= batch_writes_view(intent.batch_events@.take(i as int)),
        decreases intent.batch_events.len() - i,
    {
        let e = &intent.batch_events[i];
        let path = event_file_path(e.entity_kind, e.entity_uid.as_str(), e.identity_event_uid.as_str());
        let yaml = e.event_yaml.clone();
        assert(yaml@ == e.event_yaml@);
        assert(path@ == event_path(e.entity_kind, e.entity_uid@, e.identity_event_uid@));
        let ghost before = out@;
        out.push((path, yaml));
        proof {
            assert(intent.batch_events@.take(i + 1) =~= intent.batch_events@.take(i as int).push(
                intent.batch_events@[i as int],
            ));
            assert(write_view(out@[i as int]) == batch_write(intent.batch_events@[i as int]));
            assert(writes_view(out@) =~= writes_view(before).push(write_view(out@[i as int])));
        }
        i = i + 1;
    }
    proof {
        assert(intent.batch_events@.take(i as int) =~= intent.batch_events@);
    }
    out
}

/// Whether the file at `path` is among `existing`.
fn path_listed(path: &String, existing: &Vec<String>) -> (r: bool)
    ensures
        r == views(existing@).to_set().contains(path@),
{
    let mut k: usize = 0;
    while k < existing.len()
        invariant
            k <= existing@.len(),
            forall|m: int| 0 <= m < k ==> existing@[m]@ != path@,
        decreases existing.len() - k,
    {
        if str_eq(existing[k].as_str(), path.as_str()) {
            proof {
                assert(views(existing@)[k as int] == path@);
            }
            return true;
        }
        k = k + 1;
    }
    proof {
        if views(existing@).to_set().contains(path@) {
            let m = choose|m: int| 0 <= m < views(existing@).len() && views(existing@)[m] == path@;
            assert(existing@[m]@ == path@);
        }
    }
    false
}

/// Whether an intent's event reached its final location, given the files
/// among those the intent names that exist: the sole criterion for "did
/// this operation happen".
pub fn is_committed(intent: &Intent, existing: &Vec<String>) -> (r: bool)
    ensures
        r == views(existing@).to_set().contains(
            event_path(intent.entity_kind, intent.entity_uid@, intent.identity_event_uid@),
        ),
{
    let path = intent_event_path(intent);
    path_listed(&path, existing)
}

/// The writes that finish a committed batch whose writing was interrupted:
/// those of `commit_batch` whose file does not exist yet, in order.
pub fn complete_batch_commits(intent: &Intent, existing: &Vec<String>) -> (r: Vec<(String, String)>)
    ensures
        writes_view(r@) == pending_writes(
            batch_writes_view(intent.batch_events@),
            views(existing@).to_set(),
        ),
{
    let all = commit_batch(intent);
    let ghost bw = writes_view(all@);
    let ghost ex = views(existing@).to_set();
    let mut out: Vec<(String, String)> = Vec::new();
    let mut i: usize = 0;
    while i < all.len()
        invariant
            i <= all@.len(),
            bw == writes_view(all@),
            ex == views(existing@).to_set(),
            writes_view(out@) =~= pending_writes(bw.take(i as int), ex),
        decreases all.len() - i,
    {
        let listed = path_listed(&all[i].0, existing);
        proof {
            assert(bw.take(i + 1) =~= bw.take(i as int).push(bw[i as int]));
            bw.take(i as int).lemma_filter_push(bw[i as int], |w: WriteView| !ex.contains(w.0));
        }
        if !listed {
            out.push((all[i].0.clone(), all[i].1.clone()));
        }
        i = i + 1;
    }
    proof {
        assert(bw.take(i as int) =~= bw);
    }
    out
}

/// Running the completion again, once its writes were made, writes
/// nothing: recovering twice is recovering once.
pub proof fn lemma_complete_batch_commits_idempotent(
    writes: Seq<WriteView>,
    existing: Set<Seq<char>>,
)
    ensures
        pending_writes(
            writes,
            existing.union(pending_writes(writes, existing).map_values(|w: WriteView| w.0).to_set()),
        ).len() == 0,
    decreases writes.len(),
{
    let done = existing.union(pending_writes(writes, existing).map_values(|w: WriteView| w.0).to_set());
    let p = |w: WriteView| !done.contains(w.0);
    assert forall|k: int| 0 <= k < writes.len() implies !p(writes[k]) by {
        let w = writes[k];
        if !existing.contains(w.0) {
            lemma_filter_keeps(writes, |w: WriteView| !existing.contains(w.0), k);
            let f = pending_writes(writes, existing);
            let j = choose|j: int| 0 <= j < f.len() && f[j] == w;
            assert(f.map_values(|w: WriteView| w.0)[j] == w.0);
        }
    }
    writes.lemma_all_neg_filter_empty(p);
}

/// An element that meets the predicate stays in the filtered sequence.
proof fn lemma_filter_keeps(s: Seq<WriteView>, pred: spec_fn(WriteView) -> bool, k: int)
    requires
        0 <= k < s.len(),
        pred(s[k]),
    ensures
        s.filter(pred).contains(s[k]),
{
    s.filter_lemma(pred);
}

/// The first write of a batch goes to the intent's own commit point, so
/// an intent made for a batch is committed once that write is made.
pub proof fn lemma_first_batch_write_commits(intent: Intent)
    requires
        intent.batch_events@.len() > 0,
        intent.entity_kind == intent.batch_events@[0].entity_kind,
        intent.entity_uid@ == intent.batch_events@[0].entity_uid@,
        intent.identity_event_uid@ == intent.batch_events@[0].identity_event_uid@,
    ensures
        batch_writes_view(intent.batch_events@)[0].0 == event_path(
            intent.entity_kind,
            intent.entity_uid@,
            intent.identity_event_uid@,
        ),
{
}

/// What recovery does with a leftover operation: roll it forward when its
/// event was committed, discard it otherwise (also when its intent could
/// not be read).
pub fn recovery_outcome(operation_id: String, intent_readable: bool, committed: bool) -> (r:
    RecoveryOutcome)
    ensures
        intent_readable && committed ==> r == (RecoveryOutcome::RolledForward { operation_id }),
        !(intent_readable && committed) ==> r == (RecoveryOutcome::Discarded { operation_id }),
{
    if intent_readable && committed {
        RecoveryOutcome::RolledForward { operation_id }
    } else {
        RecoveryOutcome::Discarded { operation_id }
    }
}

} // verus!
