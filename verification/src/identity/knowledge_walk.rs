//! Kind-generic lookups over the Knowledge elements found in the working
//! tree: by current `id:` and by `uid:`. Listing the tree itself happens
//! around this module.
use vstd::prelude::*;

use crate::text::{opt_view, str_eq};

verus! {

/// One Knowledge element found in the working tree: its file path, current
/// `id:`, and `uid:` (`None` when not yet migrated).
#[derive(Debug, Clone, PartialEq, Eq)]
pub struct FoundEntity {
    pub path: String,
    pub id: String,
    pub uid: Option<String>,
}

pub type FoundView = (Seq<char>, Seq<char>, Option<Seq<char>>);

pub open spec fn found_view(e: FoundEntity) -> FoundView {
    (e.path@, e.id@, opt_view(e.uid))
}

fn copy_found(e: &FoundEntity) -> (r: FoundEntity)
    ensures
        found_view(r) == found_view(*e),
{
    FoundEntity {
        path: e.path.clone(),
        id: e.id.clone(),
        uid: crate::text::clone_opt(&e.uid),
    }
}

/// The first element (in listing order) whose current `id:` is `id`.
pub fn find_by_id(entities: &Vec<FoundEntity>, id: &str) -> (r: Option<FoundEntity>)
    ensures
        match r {
            Some(e) => exists|i: int|
                0 <= i < entities@.len() && found_view(e) == found_view(#[trigger] entities@[i])
                    && entities@[i].id@ == id@ && forall|k: int|
                    0 <= k < i ==> #[trigger] entities@[k].id@ != id@,
            None => forall|k: int| 0 <= k < entities@.len() ==> #[trigger] entities@[k].id@ != id@,
        },
{
    let mut i: usize = 0;
    while i < entities.len()
        invariant
            i <= entities@.len(),
            forall|k: int| 0 <= k < i ==> #[trigger] entities@[k].id@ != id@,
        decreases entities.len() - i,
    {
        if str_eq(entities[i].id.as_str(), id) {
            return Some(copy_found(&entities[i]));
        }
        i = i + 1;
    }
    None
}

/// The first element (in listing order) whose `uid:` is `uid`.
pub fn find_by_uid(entities: &Vec<FoundEntity>, uid: &str) -> (r: Option<FoundEntity>)
    ensures
        match r {
            Some(e) => exists|i: int|
                0 <= i < entities@.len() && found_view(e) == found_view(#[trigger] entities@[i])
                    && opt_view(entities@[i].uid) == Some(uid@) && forall|k: int|
                    0 <= k < i ==> opt_view(#[trigger] entities@[k].uid) != Some(uid@),
            None => forall|k: int|
                0 <= k < entities@.len() ==> opt_view(#[trigger] entities@[k].uid) != Some(uid@),
        },
{
    let mut i: usize = 0;
    while i < entities.len()
        invariant
            i <= entities@.len(),
            forall|k: int| 0 <= k < i ==> opt_view(#[trigger] entities@[k].uid) != Some(uid@),
        decreases entities.len() - i,
    {
        let hit = match &entities[i].uid {
            Some(u) => str_eq(u.as_str(), uid),
            None => false,
        };
        if hit {
            return Some(copy_found(&entities[i]));
        }
        i = i + 1;
    }
    None
}

/// The index of the first entity, at `k` or later, carrying uid `uid`.
pub open spec fn first_with_uid(es: Seq<FoundEntity>, uid: Seq<char>, k: nat) -> Option<int>
    decreases es.len() - k,
{
    if k >= es.len() {
        None
    } else if opt_view(es[k as int].uid) == Some(uid) {
        Some(k as int)
    } else {
        first_with_uid(es, uid, k + 1)
    }
}

/// The index of the first entity, at `k` or later, with id `id`.
pub open spec fn first_with_id(es: Seq<FoundEntity>, id: Seq<char>, k: nat) -> Option<int>
    decreases es.len() - k,
{
    if k >= es.len() {
        None
    } else if es[k as int].id@ == id {
        Some(k as int)
    } else {
        first_with_id(es, id, k + 1)
    }
}

/// What a roll-forward rewrites to bring the working tree in line with an
/// entity's replayed state (uid `uid`, current id `current_id`): the entity
/// carrying the uid, else the one with the current id; and only when its id
/// or uid differ from the replayed ones.
pub open spec fn roll_forward_fix_of(es: Seq<FoundEntity>, uid: Seq<char>, current_id: Seq<char>) -> Option<
    FoundView,
> {
    let target = match first_with_uid(es, uid, 0) {
        Some(i) => Some(i),
        None => first_with_id(es, current_id, 0),
    };
    match target {
        Some(i) => if es[i].id@ != current_id || opt_view(es[i].uid) != Some(uid) {
            Some(found_view(es[i]))
        } else {
            None
        },
        None => None,
    }
}

proof fn lemma_first_with_uid(es: Seq<FoundEntity>, uid: Seq<char>, k: nat)
    ensures
        first_with_uid(es, uid, k) matches Some(i) ==> k <= i < es.len() && opt_view(es[i].uid)
            == Some(uid),
    decreases es.len() - k,
{
    if k < es.len() && opt_view(es[k as int].uid) != Some(uid) {
        lemma_first_with_uid(es, uid, k + 1);
    }
}

proof fn lemma_first_with_id(es: Seq<FoundEntity>, id: Seq<char>, k: nat)
    ensures
        first_with_id(es, id, k) matches Some(i) ==> k <= i < es.len() && es[i].id@ == id,
    decreases es.len() - k,
{
    if k < es.len() && es[k as int].id@ != id {
        lemma_first_with_id(es, id, k + 1);
    }
}

fn index_with_uid(es: &Vec<FoundEntity>, uid: &str) -> (r: Option<usize>)
    ensures
        match r {
            Some(i) => first_with_uid(es@, uid@, 0) == Some(i as int),
            None => first_with_uid(es@, uid@, 0) is None,
        },
{
    let mut k: usize = 0;
    while k < es.len()
        invariant
            k <= es@.len(),
            first_with_uid(es@, uid@, 0) == first_with_uid(es@, uid@, k as nat),
        decreases es.len() - k,
    {
        let hit = match &es[k].uid {
            Some(u) => str_eq(u.as_str(), uid),
            None => false,
        };
        if hit {
            return Some(k);
        }
        k = k + 1;
    }
    None
}

fn index_with_id(es: &Vec<FoundEntity>, id: &str) -> (r: Option<usize>)
    ensures
        match r {
            Some(i) => first_with_id(es@, id@, 0) == Some(i as int),
            None => first_with_id(es@, id@, 0) is None,
        },
{
    let mut k: usize = 0;
    while k < es.len()
        invariant
            k <= es@.len(),
            first_with_id(es@, id@, 0) == first_with_id(es@, id@, k as nat),
        decreases es.len() - k,
    {
        if str_eq(es[k].id.as_str(), id) {
            return Some(k);
        }
        k = k + 1;
    }
    None
}

/// The entity a roll-forward must rewrite (with the replayed id and the
/// uid), or `None` when the working tree already agrees or holds no such
/// entity.
pub fn roll_forward_fix(entities: &Vec<FoundEntity>, entity_uid: &str, current_id: &str) -> (r: Option<
    FoundEntity,
>)
    ensures
        match r {
            Some(e) => roll_forward_fix_of(entities@, entity_uid@, current_id@) == Some(found_view(e)),
            None => roll_forward_fix_of(entities@, entity_uid@, current_id@) is None,
        },
{
    proof {
        lemma_first_with_uid(entities@, entity_uid@, 0);
        lemma_first_with_id(entities@, current_id@, 0);
    }
    let target = match index_with_uid(entities, entity_uid) {
        Some(i) => Some(i),
        None => index_with_id(entities, current_id),
    };
    match target {
        Some(i) => {
            let e = &entities[i];
            let uid_agrees = match &e.uid {
                Some(u) => str_eq(u.as_str(), entity_uid),
                None => false,
            };
            if !str_eq(e.id.as_str(), current_id) || !uid_agrees {
                Some(copy_found(e))
            } else {
                None
            }
        },
        None => None,
    }
}

} // verus!
