//! Replaying one entity's identity events into its current identity state.
//!
//! Replay order is decided entirely by each event's predecessor references
//! (`previous_identity_event_uid` / `previous_identity_event_uids`), never by
//! the order the events are listed in.
use vstd::prelude::*;

use crate::identity::entity_kind::EntityKind;
use crate::identity::event::{spec_can_be_root, IdentityEvent, IdentityMutation};
use crate::text::{sort_strings, sorted, views};

verus! {

/// Why replaying one entity's identity events failed.
#[derive(Debug, Clone, PartialEq, Eq)]
pub enum ReplayError {
    /// No event has an empty predecessor set.
    NoRootEvent,
    /// More than one event has an empty predecessor set.
    MultipleRootEvents(Vec<String>),
    /// The one root event's mutation is not `Issued`/`Reissued`.
    RootIsNotAnIssuance(String),
    /// An event references a predecessor uid absent from the input set.
    DanglingPredecessor { event_uid: String, missing_predecessor: String },
    /// The predecessor graph contains a cycle: some events are never
    /// reachable from the root (or an event uid is listed twice).
    CycleDetected,
    /// More than one event has no successor: divergent heads with no
    /// `Resolved` event joining them. The uids are sorted.
    AmbiguousDivergence { divergent_head_uids: Vec<String> },
    /// A `Renamed` event's `from_id` disagrees with the id computed by
    /// replaying everything before it.
    InconsistentRename { event_uid: String, expected_from_id: String, actual_from_id: String },
}

#[derive(Debug, Clone, Copy, PartialEq, Eq, Structural)]
pub enum Status {
    Active,
    Retired,
}

#[derive(Debug, Clone, PartialEq, Eq)]
pub struct IdHistoryEntry {
    pub id: String,
    pub from_identity_event_uid: String,
}

/// The materialized state obtained by replaying one entity's events.
#[derive(Debug, Clone, PartialEq, Eq)]
pub struct ReplayResult {
    pub entity_uid: String,
    pub entity_kind: EntityKind,
    pub current_head_event_uid: String,
    pub status: Status,
    pub current_id: String,
    pub id_history: Vec<IdHistoryEntry>,
}

// ---------------------------------------------------------------------------
// The model.
// ---------------------------------------------------------------------------

pub open spec fn uid_of(e: IdentityEvent) -> Seq<char> {
    e.identity_event_uid@
}

/// The predecessors an event names: the singular one first, then the plural
/// list in order.
pub open spec fn preds(e: IdentityEvent) -> Seq<Seq<char>> {
    match e.previous_identity_event_uid {
        Some(p) => seq![p@] + views(e.previous_identity_event_uids@),
        None => views(e.previous_identity_event_uids@),
    }
}

pub open spec fn has_uid(events: Seq<IdentityEvent>, u: Seq<char>) -> bool {
    exists|i: int| 0 <= i < events.len() && uid_of(#[trigger] events[i]) == u
}

/// The first of `ps` that names no event.
pub open spec fn first_missing(events: Seq<IdentityEvent>, ps: Seq<Seq<char>>) -> Option<Seq<char>>
    decreases ps.len(),
{
    if ps.len() == 0 {
        None
    } else if !has_uid(events, ps[0]) {
        Some(ps[0])
    } else {
        first_missing(events, ps.drop_first())
    }
}

/// The first event, at index `k` or later, naming a missing predecessor,
/// with the first such predecessor.
pub open spec fn first_dangling_from(events: Seq<IdentityEvent>, k: nat) -> Option<
    (Seq<char>, Seq<char>),
>
    decreases events.len() - k,
{
    if k >= events.len() {
        None
    } else {
        match first_missing(events, preds(events[k as int])) {
            Some(p) => Some((uid_of(events[k as int]), p)),
            None => first_dangling_from(events, k + 1),
        }
    }
}

pub open spec fn is_root_shape(e: IdentityEvent) -> bool {
    e.previous_identity_event_uid is None && e.previous_identity_event_uids@.len() == 0
}

/// Indices (in order) of the events among the first `n` with no predecessor.
pub open spec fn roots_upto(events: Seq<IdentityEvent>, n: nat) -> Seq<int>
    decreases n,
{
    if n == 0 {
        Seq::empty()
    } else {
        let r = roots_upto(events, (n - 1) as nat);
        if is_root_shape(events[n - 1]) {
            r.push(n - 1)
        } else {
            r
        }
    }
}

pub open spec fn roots(events: Seq<IdentityEvent>) -> Seq<int> {
    roots_upto(events, events.len())
}

/// The uids of the events at the indices `idx`, in order.
pub open spec fn uids_of(events: Seq<IdentityEvent>, idx: Seq<int>) -> Seq<Seq<char>> {
    idx.map_values(|i: int| uid_of(events[i]))
}

pub open spec fn distinct_uids(events: Seq<IdentityEvent>) -> bool {
    forall|i: int, j: int|
        0 <= i < events.len() && 0 <= j < events.len() && i != j ==> uid_of(#[trigger] events[i])
            != uid_of(#[trigger] events[j])
}

/// Some event is a successor of an event with uid in `s`.
pub open spec fn succeeds_one_of(e: IdentityEvent, s: Set<Seq<char>>) -> bool {
    exists|j: int| 0 <= j < preds(e).len() && s.contains(#[trigger] preds(e)[j])
}

/// Uids reachable from `root` in at most `k` predecessor-of steps.
pub open spec fn reach(events: Seq<IdentityEvent>, root: Seq<char>, k: nat) -> Set<Seq<char>>
    decreases k,
{
    if k == 0 {
        set![root]
    } else {
        let prev = reach(events, root, (k - 1) as nat);
        prev.union(
            Set::new(
                |u: Seq<char>|
                    exists|i: int|
                        0 <= i < events.len() && uid_of(#[trigger] events[i]) == u
                            && succeeds_one_of(events[i], prev),
            ),
        )
    }
}

/// Every event is reachable from the root through predecessor-of steps.
pub open spec fn all_reachable(events: Seq<IdentityEvent>, root: Seq<char>) -> bool {
    forall|i: int|
        0 <= i < events.len() ==> reach(events, root, events.len()).contains(
            uid_of(#[trigger] events[i]),
        )
}

/// Some event names `u` as a predecessor.
pub open spec fn has_successor(events: Seq<IdentityEvent>, u: Seq<char>) -> bool {
    exists|m: int| 0 <= m < events.len() && preds(#[trigger] events[m]).contains(u)
}

/// Indices (in order) of the events among the first `n` with no successor.
pub open spec fn heads_upto(events: Seq<IdentityEvent>, n: nat) -> Seq<int>
    decreases n,
{
    if n == 0 {
        Seq::empty()
    } else {
        let r = heads_upto(events, (n - 1) as nat);
        if !has_successor(events, uid_of(events[n - 1])) {
            r.push(n - 1)
        } else {
            r
        }
    }
}

pub open spec fn heads(events: Seq<IdentityEvent>) -> Seq<int> {
    heads_upto(events, events.len())
}

/// The first index at `k` or later whose event has uid `u`.
pub open spec fn find_from(events: Seq<IdentityEvent>, u: Seq<char>, k: nat) -> Option<int>
    decreases events.len() - k,
{
    if k >= events.len() {
        None
    } else if uid_of(events[k as int]) == u {
        Some(k as int)
    } else {
        find_from(events, u, k + 1)
    }
}

pub enum WalkStep {
    End,
    Broken,
    Next(int),
}

/// One step backward from event `i` along the winning branch: through
/// `winning_event_uid` for a `Resolved` event, else through the singular
/// predecessor.
pub open spec fn walk_step(events: Seq<IdentityEvent>, i: int) -> WalkStep {
    match events[i].mutation {
        IdentityMutation::Resolved { winning_event_uid } => match find_from(
            events,
            winning_event_uid@,
            0,
        ) {
            Some(m) => WalkStep::Next(m),
            None => WalkStep::Broken,
        },
        _ => match events[i].previous_identity_event_uid {
            Some(p) => match find_from(events, p@, 0) {
                Some(m) => WalkStep::Next(m),
                None => WalkStep::Broken,
            },
            None => WalkStep::End,
        },
    }
}

/// The backward walk from `i` (head first), if it ends within `fuel` steps
/// without following a uid that names no event.
pub open spec fn walk(events: Seq<IdentityEvent>, i: int, fuel: nat) -> Option<Seq<int>>
    decreases fuel,
{
    if fuel == 0 {
        None
    } else {
        match walk_step(events, i) {
            WalkStep::End => Some(seq![i]),
            WalkStep::Broken => None,
            WalkStep::Next(m) => match walk(events, m, (fuel - 1) as nat) {
                Some(rest) => Some(seq![i] + rest),
                None => None,
            },
        }
    }
}

pub struct ErrorView {
    pub event_uid: Seq<char>,
    pub expected: Seq<char>,
    pub actual: Seq<char>,
}

/// The state while applying the winning chain, oldest event first.
pub struct ChainState {
    pub id: Option<Seq<char>>,
    pub history: Seq<(Seq<char>, Seq<char>)>,
    pub retired: bool,
    pub inconsistent: Option<ErrorView>,
}

pub open spec fn initial_state() -> ChainState {
    ChainState { id: None, history: Seq::empty(), retired: false, inconsistent: None }
}

pub open spec fn apply_event(st: ChainState, e: IdentityEvent) -> ChainState {
    if st.inconsistent is Some {
        st
    } else {
        match e.mutation {
            IdentityMutation::Issued { id } => ChainState {
                id: Some(id@),
                history: st.history.push((id@, uid_of(e))),
                ..st
            },
            IdentityMutation::Reissued { id, .. } => ChainState {
                id: Some(id@),
                history: st.history.push((id@, uid_of(e))),
                ..st
            },
            IdentityMutation::Renamed { from_id, to_id } => {
                let expected = match st.id {
                    Some(x) => x,
                    None => Seq::empty(),
                };
                if expected != from_id@ {
                    ChainState {
                        inconsistent: Some(
                            ErrorView { event_uid: uid_of(e), expected, actual: from_id@ },
                        ),
                        ..st
                    }
                } else {
                    ChainState {
                        id: Some(to_id@),
                        history: st.history.push((to_id@, uid_of(e))),
                        ..st
                    }
                }
            },
            IdentityMutation::Retired => ChainState { retired: true, ..st },
            IdentityMutation::Restored => ChainState { retired: false, ..st },
            _ => st,
        }
    }
}

/// The state after applying the first `k` events of `chain` (indices into
/// `events`, oldest first).
pub open spec fn apply_upto(events: Seq<IdentityEvent>, chain: Seq<int>, k: nat) -> ChainState
    decreases k,
{
    if k == 0 {
        initial_state()
    } else {
        apply_event(apply_upto(events, chain, (k - 1) as nat), events[chain[k - 1]])
    }
}

/// The replay as a whole, stage by stage: `None` where the replay is
/// undefined (the backward walk never ends or follows a uid that names no
/// event, or the winning chain never assigns an id).
pub struct ReplayView {
    pub entity_uid: Seq<char>,
    pub entity_kind: EntityKind,
    pub current_head_event_uid: Seq<char>,
    pub status: Status,
    pub current_id: Seq<char>,
    pub id_history: Seq<(Seq<char>, Seq<char>)>,
}

pub open spec fn history_view(h: Seq<IdHistoryEntry>) -> Seq<(Seq<char>, Seq<char>)> {
    h.map_values(|e: IdHistoryEntry| (e.id@, e.from_identity_event_uid@))
}

pub open spec fn result_view(r: ReplayResult) -> ReplayView {
    ReplayView {
        entity_uid: r.entity_uid@,
        entity_kind: r.entity_kind,
        current_head_event_uid: r.current_head_event_uid@,
        status: r.status,
        current_id: r.current_id@,
        id_history: history_view(r.id_history@),
    }
}

/// All checks before the backward walk pass, with `head` the single head.
pub open spec fn reaches_walk(events: Seq<IdentityEvent>) -> bool {
    &&& first_dangling_from(events, 0) is None
    &&& roots(events).len() == 1
    &&& spec_can_be_root(events[roots(events)[0]].mutation)
    &&& distinct_uids(events)
    &&& all_reachable(events, uid_of(events[roots(events)[0]]))
    &&& heads(events).len() == 1
}

/// The winning chain, oldest first.
pub open spec fn winning_chain(events: Seq<IdentityEvent>) -> Option<Seq<int>> {
    match walk(events, heads(events)[0], events.len()) {
        Some(w) => Some(w.reverse()),
        None => None,
    }
}

pub open spec fn final_state(events: Seq<IdentityEvent>) -> ChainState {
    let chain = winning_chain(events)->Some_0;
    apply_upto(events, chain, chain.len())
}

/// Whether `replay` is defined on `events`: it is everywhere except where
/// the backward walk from the single head cycles or follows a uid that
/// names no event, or the winning chain assigns no id.
pub open spec fn replay_defined(events: Seq<IdentityEvent>) -> bool {
    reaches_walk(events) ==> {
        &&& winning_chain(events) is Some
        &&& (final_state(events).inconsistent is Some || final_state(events).id is Some)
    }
}

pub open spec fn string_opt(o: Option<String>) -> Option<Seq<char>> {
    match o {
        Some(s) => Some(s@),
        None => None,
    }
}

/// What `replay(entity_uid, events)` returns, stage by stage.
pub open spec fn replay_post(
    entity_uid: Seq<char>,
    events: Seq<IdentityEvent>,
    r: Result<ReplayResult, ReplayError>,
) -> bool {
    if let Some((e, p)) = first_dangling_from(events, 0) {
        r matches Err(ReplayError::DanglingPredecessor { event_uid, missing_predecessor })
            && event_uid@ == e && missing_predecessor@ == p
    } else if roots(events).len() == 0 {
        r matches Err(ReplayError::NoRootEvent)
    } else if roots(events).len() > 1 {
        r matches Err(ReplayError::MultipleRootEvents(uids)) && views(uids@) == uids_of(
            events,
            roots(events),
        )
    } else if !spec_can_be_root(events[roots(events)[0]].mutation) {
        r matches Err(ReplayError::RootIsNotAnIssuance(u)) && u@ == uid_of(
            events[roots(events)[0]],
        )
    } else if !distinct_uids(events) || !all_reachable(events, uid_of(events[roots(events)[0]])) {
        r matches Err(ReplayError::CycleDetected)
    } else if heads(events).len() == 0 {
        r matches Err(ReplayError::CycleDetected)
    } else if heads(events).len() > 1 {
        r matches Err(ReplayError::AmbiguousDivergence { divergent_head_uids })
            && sorted(views(divergent_head_uids@)) && views(divergent_head_uids@).to_multiset()
            == uids_of(events, heads(events)).to_multiset()
    } else {
        let st = final_state(events);
        match st.inconsistent {
            Some(ev) => r matches Err(
                ReplayError::InconsistentRename { event_uid, expected_from_id, actual_from_id },
            ) && event_uid@ == ev.event_uid && expected_from_id@ == ev.expected
                && actual_from_id@ == ev.actual,
            None => r matches Ok(res) && result_view(res) == (ReplayView {
                entity_uid,
                entity_kind: events[heads(events)[0]].entity_kind,
                current_head_event_uid: uid_of(events[heads(events)[0]]),
                status: if st.retired {
                    Status::Retired
                } else {
                    Status::Active
                },
                current_id: st.id->Some_0,
                id_history: st.history,
            }),
        }
    }
}


// ---------------------------------------------------------------------------
// Lemmas.
// ---------------------------------------------------------------------------

pub(crate) proof fn lemma_find_from(events: Seq<IdentityEvent>, u: Seq<char>, k: nat)
    ensures
        match find_from(events, u, k) {
            Some(m) => k <= m < events.len() && uid_of(events[m]) == u && forall|i: int|
                k <= i < m ==> uid_of(#[trigger] events[i]) != u,
            None => forall|i: int| k <= i < events.len() ==> uid_of(#[trigger] events[i]) != u,
        },
    decreases events.len() - k,
{
    if k < events.len() && uid_of(events[k as int]) != u {
        lemma_find_from(events, u, k + 1);
    }
}

pub(crate) proof fn lemma_has_uid_find(events: Seq<IdentityEvent>, u: Seq<char>)
    ensures
        has_uid(events, u) <==> find_from(events, u, 0) is Some,
{
    lemma_find_from(events, u, 0);
    if has_uid(events, u) {
        let i = choose|i: int| 0 <= i < events.len() && uid_of(#[trigger] events[i]) == u;
        assert(uid_of(events[i]) == u);
    }
}

proof fn lemma_apply_stays_inconsistent(events: Seq<IdentityEvent>, chain: Seq<int>, k1: nat, k2: nat)
    requires
        k1 <= k2,
        apply_upto(events, chain, k1).inconsistent is Some,
    ensures
        apply_upto(events, chain, k2).inconsistent == apply_upto(events, chain, k1).inconsistent,
    decreases k2 - k1,
{
    if k1 < k2 {
        lemma_apply_stays_inconsistent(events, chain, k1, (k2 - 1) as nat);
    }
}

// ---------------------------------------------------------------------------
// The implementation.
// ---------------------------------------------------------------------------

/// The index of the first event whose uid is `u`.
fn find_uid(events: &[IdentityEvent], u: &String) -> (r: Option<usize>)
    ensures
        match r {
            Some(m) => find_from(events@, u@, 0) == Some(m as int) && m < events@.len()
                && uid_of(events@[m as int]) == u@,
            None => find_from(events@, u@, 0) is None,
        },
{
    let mut i: usize = 0;
    while i < events.len()
        invariant
            i <= events@.len(),
            find_from(events@, u@, i as nat) == find_from(events@, u@, 0),
        decreases events.len() - i,
    {
        if events[i].identity_event_uid == *u {
            return Some(i);
        }
        i = i + 1;
    }
    None
}

/// The first predecessor of `events[i]` that names no event.
fn first_missing_pred(events: &[IdentityEvent], i: usize) -> (r: Option<String>)
    requires
        i < events@.len(),
    ensures
        string_opt(r) == first_missing(events@, preds(events@[i as int])),
{
    let e = &events[i];
    let ghost ps = preds(events@[i as int]);
    let ghost plural = views(e.previous_identity_event_uids@);
    match &e.previous_identity_event_uid {
        Some(p) => {
            proof {
                lemma_has_uid_find(events@, p@);
                assert(ps.drop_first() =~= plural);
            }
            if find_uid(events, p).is_none() {
                return Some(p.clone());
            }
        },
        None => {
            assert(ps =~= plural);
        },
    }
    let n = e.previous_identity_event_uids.len();
    let mut j: usize = 0;
    assert(plural.skip(0) =~= plural);
    while j < n
        invariant
            n == e.previous_identity_event_uids@.len(),
            plural == views(e.previous_identity_event_uids@),
            j <= n,
            first_missing(events@, plural.skip(j as int)) == first_missing(events@, ps),
            ps == preds(events@[i as int]),
        decreases n - j,
    {
        let p = &e.previous_identity_event_uids[j];
        proof {
            lemma_has_uid_find(events@, p@);
            assert(plural.skip(j as int)[0] == p@);
            assert(plural.skip(j as int).drop_first() =~= plural.skip(j + 1));
        }
        if find_uid(events, p).is_none() {
            return Some(p.clone());
        }
        j = j + 1;
    }
    assert(plural.skip(n as int) =~= Seq::<Seq<char>>::empty());
    None
}

/// The first event naming a missing predecessor, with that predecessor.
fn first_dangling(events: &[IdentityEvent]) -> (r: Option<(String, String)>)
    ensures
        match r {
            Some((e, p)) => first_dangling_from(events@, 0) == Some((e@, p@)),
            None => first_dangling_from(events@, 0) is None,
        },
{
    let mut i: usize = 0;
    while i < events.len()
        invariant
            i <= events@.len(),
            first_dangling_from(events@, i as nat) == first_dangling_from(events@, 0),
        decreases events.len() - i,
    {
        if let Some(p) = first_missing_pred(events, i) {
            return Some((events[i].identity_event_uid.clone(), p));
        }
        i = i + 1;
    }
    None
}

fn is_root_shape_exec(e: &IdentityEvent) -> (r: bool)
    ensures
        r == is_root_shape(*e),
{
    e.previous_identity_event_uid.is_none() && e.previous_identity_event_uids.len() == 0
}

pub open spec fn as_ints(v: Seq<usize>) -> Seq<int> {
    v.map_values(|x: usize| x as int)
}

fn root_indices(events: &[IdentityEvent]) -> (r: Vec<usize>)
    ensures
        as_ints(r@) == roots(events@),
        forall|k: int| 0 <= k < r@.len() ==> r@[k] < events@.len(),
{
    let mut out: Vec<usize> = Vec::new();
    let mut i: usize = 0;
    while i < events.len()
        invariant
            i <= events@.len(),
            as_ints(out@) == roots_upto(events@, i as nat),
            forall|k: int| 0 <= k < out@.len() ==> out@[k] < i,
        decreases events.len() - i,
    {
        if is_root_shape_exec(&events[i]) {
            out.push(i);
            assert(as_ints(out@) =~= roots_upto(events@, i as nat).push(i as int));
        }
        i = i + 1;
    }
    out
}

/// The uids of the events at `idx`, in order.
fn uids_at(events: &[IdentityEvent], idx: &Vec<usize>) -> (r: Vec<String>)
    requires
        forall|k: int| 0 <= k < idx@.len() ==> idx@[k] < events@.len(),
    ensures
        views(r@) == uids_of(events@, as_ints(idx@)),
{
    let mut out: Vec<String> = Vec::new();
    let mut k: usize = 0;
    while k < idx.len()
        invariant
            k <= idx@.len(),
            forall|k: int| 0 <= k < idx@.len() ==> idx@[k] < events@.len(),
            views(out@) == uids_of(events@, as_ints(idx@.take(k as int))),
        decreases idx.len() - k,
    {
        let ghost old_out = out@;
        out.push(events[idx[k]].identity_event_uid.clone());
        assert(views(out@) =~= views(old_out).push(uid_of(events@[idx@[k as int] as int])));
        assert(idx@.take(k + 1) =~= idx@.take(k as int).push(idx@[k as int]));
        assert(as_ints(idx@.take(k + 1)) =~= as_ints(idx@.take(k as int)).push(idx@[k as int] as int));
        assert(views(out@) =~= uids_of(events@, as_ints(idx@.take(k + 1))));
        k = k + 1;
    }
    assert(idx@.take(idx@.len() as int) =~= idx@);
    out
}

fn all_uids_distinct(events: &[IdentityEvent]) -> (r: bool)
    ensures
        r == distinct_uids(events@),
{
    let n = events.len();
    let mut i: usize = 0;
    while i < n
        invariant
            n == events@.len(),
            i <= n,
            forall|a: int, b: int|
                0 <= a < i && 0 <= b < n && a != b ==> uid_of(#[trigger] events@[a]) != uid_of(
                    #[trigger] events@[b],
                ),
        decreases n - i,
    {
        let mut j: usize = 0;
        while j < n
            invariant
                n == events@.len(),
                i < n,
                j <= n,
                forall|a: int, b: int|
                    0 <= a < i && 0 <= b < n && a != b ==> uid_of(#[trigger] events@[a])
                        != uid_of(#[trigger] events@[b]),
                forall|b: int|
                    0 <= b < j && i != b ==> uid_of(events@[i as int]) != uid_of(
                        #[trigger] events@[b],
                    ),
            decreases n - j,
        {
            if i != j && events[i].identity_event_uid == events[j].identity_event_uid {
                assert(uid_of(events@[i as int]) == uid_of(events@[j as int]));
                return false;
            }
            j = j + 1;
        }
        i = i + 1;
    }
    true
}


/// Some event whose flag is set has uid `u`.
pub open spec fn flagged(events: Seq<IdentityEvent>, flags: Seq<bool>, u: Seq<char>) -> bool {
    exists|m: int| 0 <= m < events.len() && uid_of(#[trigger] events[m]) == u && flags[m]
}

fn pred_flagged(events: &[IdentityEvent], flags: &Vec<bool>, p: &String) -> (r: bool)
    requires
        flags@.len() == events@.len(),
    ensures
        r == flagged(events@, flags@, p@),
{
    let mut m: usize = 0;
    while m < events.len()
        invariant
            flags@.len() == events@.len(),
            m <= events@.len(),
            forall|k: int| 0 <= k < m ==> !(uid_of(#[trigger] events@[k]) == p@ && flags@[k]),
        decreases events.len() - m,
    {
        if flags[m] && events[m].identity_event_uid == *p {
            return true;
        }
        m = m + 1;
    }
    false
}

/// Some predecessor of `events[i]` is flagged.
fn any_pred_flagged(events: &[IdentityEvent], i: usize, flags: &Vec<bool>) -> (r: bool)
    requires
        i < events@.len(),
        flags@.len() == events@.len(),
    ensures
        r == exists|j: int|
            0 <= j < preds(events@[i as int]).len() && flagged(
                events@,
                flags@,
                #[trigger] preds(events@[i as int])[j],
            ),
{
    let e = &events[i];
    let ghost ps = preds(events@[i as int]);
    let ghost off: int = if e.previous_identity_event_uid is Some { 1 } else { 0 };
    if let Some(p) = &e.previous_identity_event_uid {
        if pred_flagged(events, flags, p) {
            assert(ps[0] == p@);
            return true;
        }
    }
    let n = e.previous_identity_event_uids.len();
    let mut j: usize = 0;
    while j < n
        invariant
            n == e.previous_identity_event_uids@.len(),
            *e == events@[i as int],
            ps == preds(events@[i as int]),
            off == (if e.previous_identity_event_uid is Some { 1int } else { 0 }),
            ps.len() == off + n,
            forall|k: int| 0 <= k < off ==> !flagged(events@, flags@, #[trigger] ps[k]),
            forall|k: int| off <= k < off + j ==> !flagged(events@, flags@, #[trigger] ps[k]),
            flags@.len() == events@.len(),
            j <= n,
        decreases n - j,
    {
        assert(ps[off + j] == e.previous_identity_event_uids@[j as int]@);
        if pred_flagged(events, flags, &e.previous_identity_event_uids[j]) {
            return true;
        }
        j = j + 1;
    }
    proof {
        assert forall|k: int| 0 <= k < ps.len() implies !flagged(events@, flags@, #[trigger] ps[k]) by {
            if k < off {
            } else {
            }
        }
    }
    false
}

proof fn lemma_reach_in_uids(events: Seq<IdentityEvent>, root: Seq<char>, k: nat)
    requires
        has_uid(events, root),
    ensures
        forall|u: Seq<char>| #[trigger] reach(events, root, k).contains(u) ==> has_uid(events, u),
    decreases k,
{
    if k > 0 {
        lemma_reach_in_uids(events, root, (k - 1) as nat);
        assert forall|u: Seq<char>| #[trigger] reach(events, root, k).contains(u) implies has_uid(
            events,
            u,
        ) by {
            if !reach(events, root, (k - 1) as nat).contains(u) {
                let i = choose|i: int|
                    0 <= i < events.len() && uid_of(#[trigger] events[i]) == u && succeeds_one_of(
                        events[i],
                        reach(events, root, (k - 1) as nat),
                    );
                assert(uid_of(events[i]) == u);
            }
        }
    }
}

/// `r[m]` says whether `events[m]` is reachable from `events[root]`.
fn reachable_flags(events: &[IdentityEvent], root: usize) -> (r: Vec<bool>)
    requires
        root < events@.len(),
        distinct_uids(events@),
    ensures
        r@.len() == events@.len(),
        forall|m: int|
            0 <= m < events@.len() ==> r@[m] == reach(
                events@,
                uid_of(events@[root as int]),
                events@.len(),
            ).contains(uid_of(#[trigger] events@[m])),
{
    let n = events.len();
    let ghost root_uid = uid_of(events@[root as int]);
    proof {
        assert(uid_of(events@[root as int]) == root_uid);
        assert(has_uid(events@, root_uid));
    }
    let mut flags: Vec<bool> = Vec::new();
    let mut i: usize = 0;
    while i < n
        invariant
            n == events@.len(),
            root < n,
            root_uid == uid_of(events@[root as int]),
            distinct_uids(events@),
            i <= n,
            flags@.len() == i,
            forall|m: int| 0 <= m < i ==> flags@[m] == reach(events@, root_uid, 0).contains(
                uid_of(#[trigger] events@[m]),
            ),
        decreases n - i,
    {
        flags.push(i == root);
        assert(reach(events@, root_uid, 0) == set![root_uid]);
        i = i + 1;
    }
    let mut k: usize = 0;
    while k < n
        invariant
            n == events@.len(),
            root < n,
            root_uid == uid_of(events@[root as int]),
            has_uid(events@, root_uid),
            distinct_uids(events@),
            k <= n,
            flags@.len() == n,
            forall|m: int| 0 <= m < n ==> flags@[m] == reach(events@, root_uid, k as nat).contains(
                uid_of(#[trigger] events@[m]),
            ),
        decreases n - k,
    {
        let ghost cur = reach(events@, root_uid, k as nat);
        proof {
            lemma_reach_in_uids(events@, root_uid, k as nat);
        }
        let mut next: Vec<bool> = Vec::new();
        let mut i: usize = 0;
        while i < n
            invariant
                n == events@.len(),
                cur == reach(events@, root_uid, k as nat),
                has_uid(events@, root_uid),
                distinct_uids(events@),
                flags@.len() == n,
                forall|m: int| 0 <= m < n ==> flags@[m] == cur.contains(
                    uid_of(#[trigger] events@[m]),
                ),
                forall|u: Seq<char>| #[trigger] cur.contains(u) ==> has_uid(events@, u),
                i <= n,
                next@.len() == i,
                forall|m: int| 0 <= m < i ==> next@[m] == reach(events@, root_uid, (k + 1) as nat).contains(
                    uid_of(#[trigger] events@[m]),
                ),
            decreases n - i,
        {
            let b = flags[i] || any_pred_flagged(events, i, &flags);
            proof {
                let e = events@[i as int];
                let nxt = reach(events@, root_uid, (k + 1) as nat);
                assert(nxt == cur.union(
                    Set::new(
                        |u: Seq<char>|
                            exists|x: int|
                                0 <= x < events@.len() && uid_of(#[trigger] events@[x]) == u
                                    && succeeds_one_of(events@[x], cur),
                    ),
                ));
                // flagged(p) <==> cur.contains(p)
                assert forall|p: Seq<char>| flagged(events@, flags@, p) <==> cur.contains(p) by {
                    if cur.contains(p) {
                        let m = choose|m: int| 0 <= m < events@.len() && uid_of(#[trigger] events@[m]) == p;
                        assert(flags@[m]);
                    }
                    if flagged(events@, flags@, p) {
                        let m = choose|m: int| 0 <= m < events@.len() && uid_of(#[trigger] events@[m]) == p && flags@[m];
                        assert(cur.contains(uid_of(events@[m])));
                    }
                }
                if b {
                    if !flags@[i as int] {
                        let j = choose|j: int|
                            0 <= j < preds(e).len() && flagged(events@, flags@, #[trigger] preds(e)[j]);
                        assert(cur.contains(preds(e)[j]));
                        assert(succeeds_one_of(e, cur));
                    }
                    assert(nxt.contains(uid_of(e)));
                } else {
                    if nxt.contains(uid_of(e)) {
                        assert(!cur.contains(uid_of(e)));
                        let x = choose|x: int|
                            0 <= x < events@.len() && uid_of(#[trigger] events@[x]) == uid_of(e)
                                && succeeds_one_of(events@[x], cur);
                        assert(x == i);
                        let j = choose|j: int| 0 <= j < preds(e).len() && cur.contains(#[trigger] preds(e)[j]);
                        assert(flagged(events@, flags@, preds(e)[j]));
                    }
                }
            }
            next.push(b);
            i = i + 1;
        }
        flags = next;
        k = k + 1;
    }
    flags
}

/// Whether some event names `u` as a predecessor.
fn names_pred(e: &IdentityEvent, u: &String) -> (r: bool)
    ensures
        r == preds(*e).contains(u@),
{
    let ghost ps = preds(*e);
    let ghost off: int = if e.previous_identity_event_uid is Some { 1 } else { 0 };
    if let Some(p) = &e.previous_identity_event_uid {
        if *p == *u {
            assert(ps[0] == u@);
            return true;
        }
    }
    let n = e.previous_identity_event_uids.len();
    let mut j: usize = 0;
    while j < n
        invariant
            n == e.previous_identity_event_uids@.len(),
            ps == preds(*e),
            off == (if e.previous_identity_event_uid is Some { 1int } else { 0 }),
            ps.len() == off + n,
            forall|k: int| 0 <= k < off ==> #[trigger] ps[k] != u@,
            forall|k: int| off <= k < off + j ==> #[trigger] ps[k] != u@,
            j <= n,
        decreases n - j,
    {
        assert(ps[off + j] == e.previous_identity_event_uids@[j as int]@);
        if e.previous_identity_event_uids[j] == *u {
            return true;
        }
        j = j + 1;
    }
    false
}

fn has_successor_exec(events: &[IdentityEvent], u: &String) -> (r: bool)
    ensures
        r == has_successor(events@, u@),
{
    let mut m: usize = 0;
    while m < events.len()
        invariant
            m <= events@.len(),
            forall|k: int| 0 <= k < m ==> !preds(#[trigger] events@[k]).contains(u@),
        decreases events.len() - m,
    {
        if names_pred(&events[m], u) {
            return true;
        }
        m = m + 1;
    }
    false
}

fn head_indices(events: &[IdentityEvent]) -> (r: Vec<usize>)
    ensures
        as_ints(r@) == heads(events@),
        forall|k: int| 0 <= k < r@.len() ==> r@[k] < events@.len(),
{
    let mut out: Vec<usize> = Vec::new();
    let mut i: usize = 0;
    while i < events.len()
        invariant
            i <= events@.len(),
            as_ints(out@) == heads_upto(events@, i as nat),
            forall|k: int| 0 <= k < out@.len() ==> out@[k] < i,
        decreases events.len() - i,
    {
        if !has_successor_exec(events, &events[i].identity_event_uid) {
            out.push(i);
            assert(as_ints(out@) =~= heads_upto(events@, i as nat).push(i as int));
        }
        i = i + 1;
    }
    out
}


pub open spec fn prepend(acc: Seq<int>, rest: Option<Seq<int>>) -> Option<Seq<int>> {
    match rest {
        Some(r) => Some(acc + r),
        None => None,
    }
}

/// The backward walk from `head`, head first; `None` when it does not end
/// within `events.len()` steps or follows a uid that names no event.
fn walk_from(events: &[IdentityEvent], head: usize) -> (r: Option<Vec<usize>>)
    requires
        head < events@.len(),
    ensures
        match r {
            Some(w) => walk(events@, head as int, events@.len()) == Some(as_ints(w@)) && forall|k: int|
                0 <= k < w@.len() ==> w@[k] < events@.len(),
            None => walk(events@, head as int, events@.len()) is None,
        },
{
    let mut acc: Vec<usize> = Vec::new();
    let mut cur: usize = head;
    let mut fuel: usize = events.len();
    assert(as_ints(acc@) =~= Seq::<int>::empty());
    assert(prepend(as_ints(acc@), walk(events@, cur as int, fuel as nat)) =~= walk(events@, head as int, events@.len()));
    loop
        invariant
            cur < events@.len(),
            fuel <= events@.len(),
            forall|k: int| 0 <= k < acc@.len() ==> acc@[k] < events@.len(),
            walk(events@, head as int, events@.len()) == prepend(
                as_ints(acc@),
                walk(events@, cur as int, fuel as nat),
            ),
        decreases fuel,
    {
        if fuel == 0 {
            return None;
        }
        let ghost old_acc = as_ints(acc@);
        acc.push(cur);
        assert(as_ints(acc@) =~= old_acc + seq![cur as int]);
        let e = &events[cur];
        let next: Option<usize> = match &e.mutation {
            IdentityMutation::Resolved { winning_event_uid } => {
                match find_uid(events, winning_event_uid) {
                    Some(m) => Some(m),
                    None => {
                        return None;
                    },
                }
            },
            _ => match &e.previous_identity_event_uid {
                Some(p) => match find_uid(events, p) {
                    Some(m) => Some(m),
                    None => {
                        return None;
                    },
                },
                None => None,
            },
        };
        match next {
            None => {
                assert(walk_step(events@, cur as int) is End);
                assert(old_acc + seq![cur as int] =~= as_ints(acc@));
                return Some(acc);
            },
            Some(m) => {
                proof {
                    assert(walk_step(events@, cur as int) == WalkStep::Next(m as int));
                    let rest = walk(events@, m as int, (fuel - 1) as nat);
                    match rest {
                        Some(rr) => {
                            assert(old_acc + (seq![cur as int] + rr) =~= as_ints(acc@) + rr);
                        },
                        None => {},
                    }
                }
                cur = m;
                fuel = fuel - 1;
            },
        }
    }
}

/// Applies the chain `w` read backwards (oldest first).
fn apply_walk(entity_uid: &str, events: &[IdentityEvent], w: &Vec<usize>) -> (r: Option<
    Result<ReplayResult, ReplayError>,
>)
    requires
        w@.len() > 0,
        forall|k: int| 0 <= k < w@.len() ==> w@[k] < events@.len(),
    ensures
        ({
            let chain = as_ints(w@).reverse();
            let st = apply_upto(events@, chain, chain.len());
            match r {
                None => st.inconsistent is None && st.id is None,
                Some(Err(ReplayError::InconsistentRename { event_uid, expected_from_id, actual_from_id })) =>
                    st.inconsistent matches Some(ev) && event_uid@ == ev.event_uid
                        && expected_from_id@ == ev.expected && actual_from_id@ == ev.actual,
                Some(Err(_)) => false,
                Some(Ok(res)) => st.inconsistent is None && st.id is Some && result_view(res) == (ReplayView {
                    entity_uid: entity_uid@,
                    entity_kind: events@[w@[0] as int].entity_kind,
                    current_head_event_uid: uid_of(events@[w@[0] as int]),
                    status: if st.retired {
                        Status::Retired
                    } else {
                        Status::Active
                    },
                    current_id: st.id->Some_0,
                    id_history: st.history,
                }),
            }
        }),
{
    let ghost chain = as_ints(w@).reverse();
    let n = w.len();
    let mut current_id: Option<String> = None;
    let mut id_history: Vec<IdHistoryEntry> = Vec::new();
    let mut retired = false;
    let mut k: usize = 0;
    assert(history_view(id_history@) =~= Seq::empty());
    while k < n
        invariant
            n == w@.len(),
            chain == as_ints(w@).reverse(),
            forall|x: int| 0 <= x < w@.len() ==> w@[x] < events@.len(),
            k <= n,
            apply_upto(events@, chain, k as nat) == (ChainState {
                id: string_opt(current_id),
                history: history_view(id_history@),
                retired,
                inconsistent: None,
            }),
        decreases n - k,
    {
        let idx = w[n - 1 - k];
        assert(chain[k as int] == idx as int);
        let e = &events[idx];
        let ghost before = id_history@;
        match &e.mutation {
            IdentityMutation::Issued { id } | IdentityMutation::Reissued { id, .. } => {
                current_id = Some(id.clone());
                id_history.push(
                    IdHistoryEntry {
                        id: id.clone(),
                        from_identity_event_uid: e.identity_event_uid.clone(),
                    },
                );
            },
            IdentityMutation::Renamed { from_id, to_id } => {
                let expected = match &current_id {
                    Some(x) => x.clone(),
                    None => String::new(),
                };
                if expected != *from_id {
                    proof {
                        lemma_apply_stays_inconsistent(events@, chain, (k + 1) as nat, chain.len());
                    }
                    return Some(
                        Err(
                            ReplayError::InconsistentRename {
                                event_uid: e.identity_event_uid.clone(),
                                expected_from_id: expected,
                                actual_from_id: from_id.clone(),
                            },
                        ),
                    );
                }
                current_id = Some(to_id.clone());
                id_history.push(
                    IdHistoryEntry {
                        id: to_id.clone(),
                        from_identity_event_uid: e.identity_event_uid.clone(),
                    },
                );
            },
            IdentityMutation::Retired => {
                retired = true;
            },
            IdentityMutation::Restored => {
                retired = false;
            },
            _ => {},
        }
        assert(history_view(id_history@) =~= apply_upto(events@, chain, (k + 1) as nat).history);
        k = k + 1;
    }
    match current_id {
        None => None,
        Some(id) => {
            let head = &events[w[0]];
            assert(chain.len() == n);
            Some(
                Ok(
                    ReplayResult {
                        entity_uid: String::from_str(entity_uid),
                        entity_kind: head.entity_kind,
                        current_head_event_uid: head.identity_event_uid.clone(),
                        status: if retired {
                            Status::Retired
                        } else {
                            Status::Active
                        },
                        current_id: id,
                        id_history,
                    },
                ),
            )
        },
    }
}


proof fn lemma_walk_starts_at(events: Seq<IdentityEvent>, i: int, fuel: nat)
    requires
        walk(events, i, fuel) is Some,
    ensures
        walk(events, i, fuel)->Some_0.len() > 0,
        walk(events, i, fuel)->Some_0[0] == i,
{
}

fn all_flags_set(flags: &Vec<bool>) -> (r: bool)
    ensures
        r == forall|m: int| 0 <= m < flags@.len() ==> #[trigger] flags@[m],
{
    let mut i: usize = 0;
    while i < flags.len()
        invariant
            i <= flags@.len(),
            forall|m: int| 0 <= m < i ==> #[trigger] flags@[m],
        decreases flags.len() - i,
    {
        if !flags[i] {
            return false;
        }
        i = i + 1;
    }
    true
}

/// The replay, or `None` where it is undefined (see `replay_defined`).
fn replay_inner(entity_uid: &str, events: &[IdentityEvent]) -> (r: Option<
    Result<ReplayResult, ReplayError>,
>)
    ensures
        r is None <==> !replay_defined(events@),
        r matches Some(x) ==> replay_post(entity_uid@, events@, x),
{
    if let Some((e, p)) = first_dangling(events) {
        return Some(Err(ReplayError::DanglingPredecessor { event_uid: e, missing_predecessor: p }));
    }
    let root_idx = root_indices(events);
    if root_idx.len() == 0 {
        return Some(Err(ReplayError::NoRootEvent));
    }
    if root_idx.len() > 1 {
        return Some(Err(ReplayError::MultipleRootEvents(uids_at(events, &root_idx))));
    }
    let root = root_idx[0];
    assert(roots(events@)[0] == root as int);
    if !events[root].mutation.can_be_root() {
        return Some(Err(ReplayError::RootIsNotAnIssuance(events[root].identity_event_uid.clone())));
    }
    if !all_uids_distinct(events) {
        return Some(Err(ReplayError::CycleDetected));
    }
    let flags = reachable_flags(events, root);
    if !all_flags_set(&flags) {
        proof {
            let m = choose|m: int| 0 <= m < flags@.len() && !#[trigger] flags@[m];
            assert(!reach(events@, uid_of(events@[root as int]), events@.len()).contains(uid_of(events@[m])));
        }
        return Some(Err(ReplayError::CycleDetected));
    }
    assert(all_reachable(events@, uid_of(events@[root as int]))) by {
        assert forall|m: int| 0 <= m < events@.len() implies reach(events@, uid_of(events@[root as int]), events@.len()).contains(
            uid_of(#[trigger] events@[m])) by {
            assert(flags@[m]);
        }
    }
    let head_idx = head_indices(events);
    if head_idx.len() == 0 {
        return Some(Err(ReplayError::CycleDetected));
    }
    if head_idx.len() > 1 {
        let uids = uids_at(events, &head_idx);
        let sorted_uids = sort_strings(uids);
        return Some(Err(ReplayError::AmbiguousDivergence { divergent_head_uids: sorted_uids }));
    }
    let head = head_idx[0];
    assert(heads(events@)[0] == head as int);
    match walk_from(events, head) {
        None => None,
        Some(w) => {
            proof {
                lemma_walk_starts_at(events@, head as int, events@.len());
                assert(as_ints(w@)[0] == head as int);
            }
            apply_walk(entity_uid, events, &w)
        },
    }
}

/// Replays every identity event belonging to one entity. The order of
/// `events` does not matter for a successful replay: it is entirely
/// determined by the predecessor references.
pub fn replay(entity_uid: &str, events: &[IdentityEvent]) -> (r: Result<ReplayResult, ReplayError>)
    requires
        replay_defined(events@),
    ensures
        replay_post(entity_uid@, events@, r),
{
    match replay_inner(entity_uid, events) {
        Some(r) => r,
        None => {
            assert(false);
            Err(ReplayError::NoRootEvent)
        },
    }
}

/// Whether `replay` is defined on `events`. It is everywhere except on an
/// event set whose backward walk from its single head never ends (a cycle
/// through `winning_event_uid`/predecessors), follows a uid that names no
/// event, or applies a chain that never assigns an id.
pub fn replay_is_defined(events: &[IdentityEvent]) -> (r: bool)
    ensures
        r == replay_defined(events@),
{
    replay_inner("", events).is_some()
}

} // verus!
