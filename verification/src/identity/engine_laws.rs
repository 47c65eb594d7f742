//! What holds of every replay: the order events are listed in does not
//! matter, and the current id is the last one the id history records.
use vstd::prelude::*;

use crate::identity::engine::{
    all_reachable, apply_upto, distinct_uids, find_from, first_dangling_from, first_missing,
    has_successor, has_uid, heads, heads_upto, is_root_shape, lemma_find_from,
    lemma_has_uid_find, preds, reach, replay_defined, replay_post, result_view, roots,
    roots_upto, uid_of, walk, walk_step, winning_chain, ReplayError, ReplayResult, Status, WalkStep,
};
use crate::identity::event::{IdentityEvent, IdentityMutation};

verus! {

// ---------------------------------------------------------------------------
// The current id is the last recorded id.
// ---------------------------------------------------------------------------

proof fn lemma_id_is_last_history(events: Seq<IdentityEvent>, chain: Seq<int>, k: nat)
    ensures
        apply_upto(events, chain, k).id matches Some(x) ==> {
            &&& apply_upto(events, chain, k).history.len() > 0
            &&& apply_upto(events, chain, k).history.last().0 == x
        },
        apply_upto(events, chain, k).id is None ==> apply_upto(events, chain, k).history.len()
            == 0,
    decreases k,
{
    if k > 0 {
        lemma_id_is_last_history(events, chain, (k - 1) as nat);
    }
}

/// A successful replay's id history is never empty, and its last entry
/// records the current id.
pub proof fn lemma_current_id_is_last_history_entry(
    entity_uid: Seq<char>,
    events: Seq<IdentityEvent>,
    r: ReplayResult,
)
    requires
        replay_defined(events),
        replay_post(entity_uid, events, Ok(r)),
    ensures
        r.id_history@.len() > 0,
        r.id_history@.last().id@ == r.current_id@,
{
    let chain = winning_chain(events)->Some_0;
    lemma_id_is_last_history(events, chain, chain.len());
    let n = r.id_history@.len();
    assert(result_view(r).id_history.len() == n);
    assert(result_view(r).id_history[n - 1] == (
    r.id_history@[n - 1].id@,
    r.id_history@[n - 1].from_identity_event_uid@,
    ));
}

// ---------------------------------------------------------------------------
// Replay does not depend on the order of the events.
// ---------------------------------------------------------------------------

/// `events2` lists the events of `events` in another order: `events2[i]` is
/// `events[p[i]]`, and `q` undoes `p`.
pub open spec fn is_reordering(
    events: Seq<IdentityEvent>,
    events2: Seq<IdentityEvent>,
    p: Seq<int>,
    q: Seq<int>,
) -> bool {
    &&& events2.len() == events.len()
    &&& p.len() == events.len()
    &&& q.len() == events.len()
    &&& forall|i: int|
        0 <= i < events2.len() ==> 0 <= #[trigger] p[i] < events.len() && q[p[i]] == i
            && events2[i] == events[p[i]]
    &&& forall|j: int| 0 <= j < events.len() ==> 0 <= #[trigger] q[j] < events2.len() && p[q[j]] == j
}

proof fn lemma_has_uid_reordered(
    events: Seq<IdentityEvent>,
    events2: Seq<IdentityEvent>,
    p: Seq<int>,
    q: Seq<int>,
    u: Seq<char>,
)
    requires
        is_reordering(events, events2, p, q),
    ensures
        has_uid(events2, u) == has_uid(events, u),
{
    if has_uid(events, u) {
        let i = choose|i: int| 0 <= i < events.len() && uid_of(#[trigger] events[i]) == u;
        let i2 = q[i];
        assert(events2[i2] == events[p[i2]]);
        assert(uid_of(events2[i2]) == u);
    }
    if has_uid(events2, u) {
        let i2 = choose|i: int| 0 <= i < events2.len() && uid_of(#[trigger] events2[i]) == u;
        assert(events2[i2] == events[p[i2]]);
        assert(uid_of(events[p[i2]]) == u);
    }
}

proof fn lemma_has_successor_reordered(
    events: Seq<IdentityEvent>,
    events2: Seq<IdentityEvent>,
    p: Seq<int>,
    q: Seq<int>,
    u: Seq<char>,
)
    requires
        is_reordering(events, events2, p, q),
    ensures
        has_successor(events2, u) == has_successor(events, u),
{
    if has_successor(events, u) {
        let m = choose|m: int| 0 <= m < events.len() && preds(#[trigger] events[m]).contains(u);
        let m2 = q[m];
        assert(events2[m2] == events[p[m2]]);
        assert(preds(events2[m2]).contains(u));
    }
    if has_successor(events2, u) {
        let m2 = choose|m: int| 0 <= m < events2.len() && preds(#[trigger] events2[m]).contains(u);
        assert(events2[m2] == events[p[m2]]);
        assert(preds(events[p[m2]]).contains(u));
    }
}

proof fn lemma_first_missing_reordered(
    events: Seq<IdentityEvent>,
    events2: Seq<IdentityEvent>,
    p: Seq<int>,
    q: Seq<int>,
    ps: Seq<Seq<char>>,
)
    requires
        is_reordering(events, events2, p, q),
    ensures
        first_missing(events2, ps) == first_missing(events, ps),
    decreases ps.len(),
{
    if ps.len() > 0 {
        lemma_has_uid_reordered(events, events2, p, q, ps[0]);
        lemma_first_missing_reordered(events, events2, p, q, ps.drop_first());
    }
}

proof fn lemma_no_dangling(events: Seq<IdentityEvent>, k: nat)
    ensures
        first_dangling_from(events, k) is None <==> forall|i: int|
            k <= i < events.len() ==> (#[trigger] first_missing(events, preds(events[i]))) is None,
    decreases events.len() - k,
{
    if k < events.len() {
        lemma_no_dangling(events, k + 1);
    }
}

proof fn lemma_roots_upto(events: Seq<IdentityEvent>, n: nat)
    requires
        n <= events.len(),
    ensures
        forall|a: int|
            0 <= a < roots_upto(events, n).len() ==> 0 <= #[trigger] roots_upto(events, n)[a] < n
                && is_root_shape(events[roots_upto(events, n)[a]]),
        forall|a: int, b: int|
            0 <= a < b < roots_upto(events, n).len() ==> #[trigger] roots_upto(events, n)[a]
                < #[trigger] roots_upto(events, n)[b],
        forall|x: int|
            0 <= x < n && is_root_shape(events[x]) ==> #[trigger] roots_upto(events, n).contains(x),
    decreases n,
{
    if n > 0 {
        let m = (n - 1) as nat;
        lemma_roots_upto(events, m);
        let r = roots_upto(events, m);
        if is_root_shape(events[m as int]) {
            let r2 = r.push(m as int);
            assert(roots_upto(events, n) == r2);
            assert forall|x: int| 0 <= x < n && is_root_shape(events[x]) implies r2.contains(x) by {
                if x == m {
                    assert(r2[r.len() as int] == x);
                } else {
                    assert(r.contains(x));
                    let a = choose|a: int| 0 <= a < r.len() && r[a] == x;
                    assert(r2[a] == x);
                }
            }
        }
    }
}

proof fn lemma_heads_upto(events: Seq<IdentityEvent>, n: nat)
    requires
        n <= events.len(),
    ensures
        forall|a: int|
            0 <= a < heads_upto(events, n).len() ==> 0 <= #[trigger] heads_upto(events, n)[a] < n
                && !has_successor(events, uid_of(events[heads_upto(events, n)[a]])),
        forall|a: int, b: int|
            0 <= a < b < heads_upto(events, n).len() ==> #[trigger] heads_upto(events, n)[a]
                < #[trigger] heads_upto(events, n)[b],
        forall|x: int|
            0 <= x < n && !has_successor(events, uid_of(events[x])) ==> #[trigger] heads_upto(
                events,
                n,
            ).contains(x),
    decreases n,
{
    if n > 0 {
        let m = (n - 1) as nat;
        lemma_heads_upto(events, m);
        let r = heads_upto(events, m);
        if !has_successor(events, uid_of(events[m as int])) {
            let r2 = r.push(m as int);
            assert(heads_upto(events, n) == r2);
            assert forall|x: int|
                0 <= x < n && !has_successor(events, uid_of(events[x])) implies r2.contains(x) by {
                if x == m {
                    assert(r2[r.len() as int] == x);
                } else {
                    assert(r.contains(x));
                    let a = choose|a: int| 0 <= a < r.len() && r[a] == x;
                    assert(r2[a] == x);
                }
            }
        }
    }
}

proof fn lemma_single_index(s: Seq<int>, c: int)
    requires
        forall|a: int, b: int| 0 <= a < b < s.len() ==> #[trigger] s[a] < #[trigger] s[b],
        s.contains(c),
        forall|a: int| 0 <= a < s.len() ==> #[trigger] s[a] == c,
    ensures
        s.len() == 1,
        s[0] == c,
{
    if s.len() >= 2 {
        assert(s[0] < s[1]);
    }
}

proof fn lemma_single_root_reordered(
    events: Seq<IdentityEvent>,
    events2: Seq<IdentityEvent>,
    p: Seq<int>,
    q: Seq<int>,
)
    requires
        is_reordering(events, events2, p, q),
        roots(events).len() == 1,
    ensures
        roots(events2).len() == 1,
        0 <= roots(events2)[0] < events2.len(),
        p[roots(events2)[0]] == roots(events)[0],
{
    let n = events.len();
    lemma_roots_upto(events, n);
    lemma_roots_upto(events2, n);
    let r1 = roots(events);
    let r2 = roots(events2);
    let i1 = r1[0];
    let i2 = q[i1];
    assert(p[i2] == i1);
    assert(events2[i2] == events[p[i2]]);
    assert(r2.contains(i2));
    assert forall|a: int| 0 <= a < r2.len() implies #[trigger] r2[a] == i2 by {
        let x2 = r2[a];
        assert(events2[x2] == events[p[x2]]);
        assert(r1.contains(p[x2]));
        let b = choose|b: int| 0 <= b < r1.len() && r1[b] == p[x2];
        assert(b == 0);
        assert(q[p[x2]] == x2);
    }
    lemma_single_index(r2, i2);
}

proof fn lemma_single_head_reordered(
    events: Seq<IdentityEvent>,
    events2: Seq<IdentityEvent>,
    p: Seq<int>,
    q: Seq<int>,
)
    requires
        is_reordering(events, events2, p, q),
        heads(events).len() == 1,
    ensures
        heads(events2).len() == 1,
        0 <= heads(events2)[0] < events2.len(),
        p[heads(events2)[0]] == heads(events)[0],
{
    let n = events.len();
    lemma_heads_upto(events, n);
    lemma_heads_upto(events2, n);
    let r1 = heads(events);
    let r2 = heads(events2);
    let i1 = r1[0];
    let i2 = q[i1];
    assert(p[i2] == i1);
    assert(events2[i2] == events[p[i2]]);
    lemma_has_successor_reordered(events, events2, p, q, uid_of(events[i1]));
    assert(r2.contains(i2));
    assert forall|a: int| 0 <= a < r2.len() implies #[trigger] r2[a] == i2 by {
        let x2 = r2[a];
        assert(events2[x2] == events[p[x2]]);
        lemma_has_successor_reordered(events, events2, p, q, uid_of(events2[x2]));
        assert(r1.contains(p[x2]));
        let b = choose|b: int| 0 <= b < r1.len() && r1[b] == p[x2];
        assert(b == 0);
        assert(q[p[x2]] == x2);
    }
    lemma_single_index(r2, i2);
}

proof fn lemma_reach_reordered(
    events: Seq<IdentityEvent>,
    events2: Seq<IdentityEvent>,
    p: Seq<int>,
    q: Seq<int>,
    root: Seq<char>,
    k: nat,
)
    requires
        is_reordering(events, events2, p, q),
    ensures
        reach(events2, root, k) == reach(events, root, k),
    decreases k,
{
    if k > 0 {
        let k1 = (k - 1) as nat;
        lemma_reach_reordered(events, events2, p, q, root, k1);
        let prev = reach(events, root, k1);
        assert forall|u: Seq<char>|
            #[trigger] reach(events2, root, k).contains(u) == reach(events, root, k).contains(
                u,
            ) by {
            if !prev.contains(u) {
                if reach(events, root, k).contains(u) {
                    let i = choose|i: int|
                        0 <= i < events.len() && uid_of(#[trigger] events[i]) == u
                            && crate::identity::engine::succeeds_one_of(events[i], prev);
                    let i2 = q[i];
                    assert(events2[i2] == events[p[i2]]);
                    assert(reach(events2, root, k).contains(u));
                }
                if reach(events2, root, k).contains(u) {
                    let i2 = choose|i: int|
                        0 <= i < events2.len() && uid_of(#[trigger] events2[i]) == u
                            && crate::identity::engine::succeeds_one_of(events2[i], prev);
                    assert(events2[i2] == events[p[i2]]);
                    assert(reach(events, root, k).contains(u));
                }
            }
        }
        assert(reach(events2, root, k) =~= reach(events, root, k));
    }
}

proof fn lemma_find_reordered(
    events: Seq<IdentityEvent>,
    events2: Seq<IdentityEvent>,
    p: Seq<int>,
    q: Seq<int>,
    u: Seq<char>,
)
    requires
        is_reordering(events, events2, p, q),
        distinct_uids(events),
    ensures
        find_from(events, u, 0) is None <==> find_from(events2, u, 0) is None,
        find_from(events2, u, 0) matches Some(m2) ==> 0 <= m2 < events2.len() && find_from(
            events,
            u,
            0,
        ) == Some(p[m2]),
{
    lemma_find_from(events, u, 0);
    lemma_find_from(events2, u, 0);
    lemma_has_uid_find(events, u);
    lemma_has_uid_find(events2, u);
    lemma_has_uid_reordered(events, events2, p, q, u);
    if let Some(m2) = find_from(events2, u, 0) {
        assert(events2[m2] == events[p[m2]]);
        let m1 = find_from(events, u, 0)->Some_0;
        if m1 != p[m2] {
            assert(uid_of(events[m1]) != uid_of(events[p[m2]]));
        }
    }
}

proof fn lemma_walk_step_reordered(
    events: Seq<IdentityEvent>,
    events2: Seq<IdentityEvent>,
    p: Seq<int>,
    q: Seq<int>,
    i2: int,
)
    requires
        is_reordering(events, events2, p, q),
        distinct_uids(events),
        0 <= i2 < events2.len(),
    ensures
        match (walk_step(events2, i2), walk_step(events, p[i2])) {
            (WalkStep::End, WalkStep::End) => true,
            (WalkStep::Broken, WalkStep::Broken) => true,
            (WalkStep::Next(m2), WalkStep::Next(m1)) => 0 <= m2 < events2.len() && p[m2] == m1,
            _ => false,
        },
{
    assert(events2[i2] == events[p[i2]]);
    match events2[i2].mutation {
        crate::identity::event::IdentityMutation::Resolved { winning_event_uid } => {
            lemma_find_reordered(events, events2, p, q, winning_event_uid@);
        },
        _ => {
            if let Some(pr) = events2[i2].previous_identity_event_uid {
                lemma_find_reordered(events, events2, p, q, pr@);
            }
        },
    }
}

proof fn lemma_walk_reordered(
    events: Seq<IdentityEvent>,
    events2: Seq<IdentityEvent>,
    p: Seq<int>,
    q: Seq<int>,
    i2: int,
    fuel: nat,
)
    requires
        is_reordering(events, events2, p, q),
        distinct_uids(events),
        0 <= i2 < events2.len(),
    ensures
        walk(events2, i2, fuel) is Some <==> walk(events, p[i2], fuel) is Some,
        walk(events2, i2, fuel) is Some ==> {
            let w2 = walk(events2, i2, fuel)->Some_0;
            let w1 = walk(events, p[i2], fuel)->Some_0;
            &&& w2.len() == w1.len()
            &&& forall|k: int|
                0 <= k < w2.len() ==> 0 <= #[trigger] w2[k] < events2.len() && p[w2[k]] == w1[k]
        },
    decreases fuel,
{
    if fuel > 0 {
        lemma_walk_step_reordered(events, events2, p, q, i2);
        if let WalkStep::Next(m2) = walk_step(events2, i2) {
            let f = (fuel - 1) as nat;
            lemma_walk_reordered(events, events2, p, q, m2, f);
            if walk(events2, m2, f) is Some {
                let rest2 = walk(events2, m2, f)->Some_0;
                let rest1 = walk(events, p[m2], f)->Some_0;
                let w2 = seq![i2] + rest2;
                let w1 = seq![p[i2]] + rest1;
                assert(walk(events2, i2, fuel) == Some(w2));
                assert(walk(events, p[i2], fuel) == Some(w1));
                assert forall|k: int| 0 <= k < w2.len() implies 0 <= #[trigger] w2[k]
                    < events2.len() && p[w2[k]] == w1[k] by {
                    if k > 0 {
                        assert(w2[k] == rest2[k - 1]);
                        assert(w1[k] == rest1[k - 1]);
                    }
                }
            }
        }
    }
}

proof fn lemma_apply_same_events(
    events: Seq<IdentityEvent>,
    events2: Seq<IdentityEvent>,
    c1: Seq<int>,
    c2: Seq<int>,
    k: nat,
)
    requires
        forall|j: int| 0 <= j < k ==> events2[#[trigger] c2[j]] == events[c1[j]],
    ensures
        apply_upto(events2, c2, k) == apply_upto(events, c1, k),
    decreases k,
{
    if k > 0 {
        lemma_apply_same_events(events, events2, c1, c2, (k - 1) as nat);
        assert(events2[c2[k - 1]] == events[c1[k - 1]]);
    }
}

/// Replay does not depend on the order the events are listed in: where
/// replay succeeds on `events`, it is defined on every reordering `events2`
/// of them, and gives there a result equal to `r1`.
pub proof fn lemma_replay_order_independent(
    entity_uid: Seq<char>,
    events: Seq<IdentityEvent>,
    events2: Seq<IdentityEvent>,
    p: Seq<int>,
    q: Seq<int>,
    r1: ReplayResult,
    r2: Result<ReplayResult, ReplayError>,
)
    requires
        is_reordering(events, events2, p, q),
        replay_defined(events),
        replay_post(entity_uid, events, Ok(r1)),
    ensures
        replay_defined(events2),
        replay_post(entity_uid, events2, r2) ==> (r2 matches Ok(res2) && result_view(res2)
            == result_view(r1)),
{
    let n = events.len();
    // No dangling predecessor.
    lemma_no_dangling(events, 0);
    lemma_no_dangling(events2, 0);
    assert forall|i: int| 0 <= i < events2.len() implies (#[trigger] first_missing(
        events2,
        preds(events2[i]),
    )) is None by {
        assert(events2[i] == events[p[i]]);
        lemma_first_missing_reordered(events, events2, p, q, preds(events2[i]));
        assert(first_missing(events, preds(events[p[i]])) is None);
    }
    assert(first_dangling_from(events2, 0) is None);
    // One root, an issuance.
    lemma_single_root_reordered(events, events2, p, q);
    let root1 = roots(events)[0];
    let root2 = roots(events2)[0];
    assert(events2[root2] == events[root1]);
    // Distinct uids, all reachable from the root.
    assert forall|i: int, j: int|
        0 <= i < events2.len() && 0 <= j < events2.len() && i != j implies uid_of(
        #[trigger] events2[i],
    ) != uid_of(#[trigger] events2[j]) by {
        assert(events2[i] == events[p[i]]);
        assert(events2[j] == events[p[j]]);
        assert(q[p[i]] == i && q[p[j]] == j);
    }
    assert(distinct_uids(events2));
    lemma_reach_reordered(events, events2, p, q, uid_of(events[root1]), n);
    assert forall|i: int| 0 <= i < events2.len() implies reach(
        events2,
        uid_of(events2[root2]),
        events2.len(),
    ).contains(uid_of(#[trigger] events2[i])) by {
        assert(events2[i] == events[p[i]]);
    }
    assert(all_reachable(events2, uid_of(events2[root2])));
    // One head.
    lemma_single_head_reordered(events, events2, p, q);
    let h1 = heads(events)[0];
    let h2 = heads(events2)[0];
    assert(events2[h2] == events[h1]);
    // The winning chains list the same events.
    lemma_walk_reordered(events, events2, p, q, h2, n);
    let w1 = walk(events, h1, n)->Some_0;
    let w2 = walk(events2, h2, n)->Some_0;
    let c1 = w1.reverse();
    let c2 = w2.reverse();
    assert(winning_chain(events2) == Some(c2));
    assert forall|j: int| 0 <= j < c2.len() implies events2[#[trigger] c2[j]] == events[c1[j]] by {
        let k = w2.len() - 1 - j;
        assert(c2[j] == w2[k]);
        assert(c1[j] == w1[k]);
        assert(events2[w2[k]] == events[p[w2[k]]]);
    }
    lemma_apply_same_events(events, events2, c1, c2, c2.len());
    assert(apply_upto(events2, c2, c2.len()) == apply_upto(events, c1, c1.len()));
}

// ---------------------------------------------------------------------------
// The status is set by the last retire or restore.
// ---------------------------------------------------------------------------

/// Event `j` of the chain retires the entity.
pub open spec fn retires_at(events: Seq<IdentityEvent>, chain: Seq<int>, j: int) -> bool {
    events[chain[j]].mutation is Retired
}

/// Event `m` of the chain restores the entity.
pub open spec fn restores_at(events: Seq<IdentityEvent>, chain: Seq<int>, m: int) -> bool {
    events[chain[m]].mutation is Restored
}

/// Among the first `k` events of the chain, some retire is not followed by
/// a restore.
pub open spec fn retire_stands(events: Seq<IdentityEvent>, chain: Seq<int>, k: int) -> bool {
    exists|j: int|
        0 <= j < k && #[trigger] retires_at(events, chain, j) && forall|m: int|
            j < m < k ==> !#[trigger] restores_at(events, chain, m)
}

proof fn lemma_status_from_retires(events: Seq<IdentityEvent>, chain: Seq<int>, k: nat)
    requires
        k <= chain.len(),
        apply_upto(events, chain, k).inconsistent is None,
    ensures
        apply_upto(events, chain, k).retired == retire_stands(events, chain, k as int),
    decreases k,
{
    if k > 0 {
        let prev = apply_upto(events, chain, (k - 1) as nat);
        let e = events[chain[k - 1]];
        assert(apply_upto(events, chain, k) == crate::identity::engine::apply_event(prev, e));
        assert(prev.inconsistent is None);
        lemma_status_from_retires(events, chain, (k - 1) as nat);
        let kk = k as int;
        if retires_at(events, chain, kk - 1) {
            assert(apply_upto(events, chain, k).retired);
            assert(forall|m: int| kk - 1 < m < kk ==> !#[trigger] restores_at(events, chain, m));
            assert(retire_stands(events, chain, kk));
        } else if restores_at(events, chain, kk - 1) {
            assert(!apply_upto(events, chain, k).retired);
            assert forall|j: int| 0 <= j < kk && #[trigger] retires_at(events, chain, j)
                implies !(forall|m: int| j < m < kk ==> !#[trigger] restores_at(events, chain, m)) by {
                assert(restores_at(events, chain, kk - 1));
            }
        } else {
            assert(apply_upto(events, chain, k).retired == prev.retired);
            if prev.retired {
                let j = choose|j: int|
                    0 <= j < kk - 1 && #[trigger] retires_at(events, chain, j) && forall|m: int|
                        j < m < kk - 1 ==> !#[trigger] restores_at(events, chain, m);
                assert(forall|m: int| j < m < kk ==> !#[trigger] restores_at(events, chain, m));
                assert(retire_stands(events, chain, kk));
            } else {
                assert forall|j: int| 0 <= j < kk && #[trigger] retires_at(events, chain, j)
                    implies !(forall|m: int| j < m < kk ==> !#[trigger] restores_at(events, chain, m)) by {
                    if j == kk - 1 {
                    } else {
                        assert(!(forall|m: int| j < m < kk - 1 ==> !#[trigger] restores_at(events, chain, m)));
                    }
                }
            }
        }
    }
}

proof fn lemma_ok_status(entity_uid: Seq<char>, events: Seq<IdentityEvent>, res: ReplayResult)
    requires
        replay_post(entity_uid, events, Ok(res)),
    ensures
        ({
            let chain = winning_chain(events)->Some_0;
            let st = apply_upto(events, chain, chain.len());
            &&& st.inconsistent is None
            &&& (res.status == Status::Retired) == st.retired
        }),
{
    assert(result_view(res).status == res.status);
}

/// A replayed entity is retired exactly when its winning chain holds a
/// `Retired` event with no `Restored` event after it; in particular a
/// chain without any `Retired` event (such as a lone `Issued` or
/// `Reissued` root) replays as active.
pub proof fn lemma_replay_status(entity_uid: Seq<char>, events: Seq<IdentityEvent>, res: ReplayResult)
    requires
        replay_post(entity_uid, events, Ok(res)),
    ensures
        ({
            let chain = winning_chain(events)->Some_0;
            (res.status == Status::Retired) <==> exists|j: int|
                0 <= j < chain.len() && (#[trigger] events[chain[j]]).mutation is Retired
                    && forall|m: int|
                    j < m < chain.len() ==> !((#[trigger] events[chain[m]]).mutation is Restored)
        }),
{
    let chain = winning_chain(events)->Some_0;
    lemma_ok_status(entity_uid, events, res);
    lemma_status_from_retires(events, chain, chain.len());
    let n = chain.len() as int;
    if res.status == Status::Retired {
        let j = choose|j: int|
            0 <= j < n && #[trigger] retires_at(events, chain, j) && forall|m: int|
                j < m < n ==> !#[trigger] restores_at(events, chain, m);
        assert(events[chain[j]].mutation is Retired);
        assert forall|m: int| j < m < n implies !((#[trigger] events[chain[m]]).mutation is Restored) by {
            assert(!restores_at(events, chain, m));
        }
    } else {
        assert forall|j: int|
            0 <= j < n && (#[trigger] events[chain[j]]).mutation is Retired implies !(forall|m: int|
                j < m < n ==> !((#[trigger] events[chain[m]]).mutation is Restored)) by {
            assert(retires_at(events, chain, j));
            assert(!(forall|m: int| j < m < n ==> !#[trigger] restores_at(events, chain, m)));
            let m = choose|m: int| j < m < n && #[trigger] restores_at(events, chain, m);
            assert(events[chain[m]].mutation is Restored);
        }
    }
}

} // verus!
