//! A single identity-lifecycle declaration, stored one file per event under
//! `.markharness/identity-events/<kind>/<entity_uid>/<event_uid>.yml`.
use vstd::prelude::*;

use crate::identity::entity_kind::EntityKind;

verus! {

/// An identity event. Replay order is decided entirely by the predecessor
/// references, never by `recorded_at` or by the order events are listed in.
#[derive(Debug, Clone, PartialEq, Eq)]
pub struct IdentityEvent {
    pub identity_event_uid: String,
    pub entity_uid: String,
    pub entity_kind: EntityKind,
    /// The single predecessor for every mutation except `Resolved`; `None`
    /// for a root (`Issued`/`Reissued`).
    pub previous_identity_event_uid: Option<String>,
    /// Every divergent head being joined; populated only for `Resolved`.
    pub previous_identity_event_uids: Vec<String>,
    pub recorded_at: String,
    pub mutation: IdentityMutation,
}

/// The seven identity-lifecycle mutation kinds.
#[derive(Debug, Clone, PartialEq, Eq)]
pub enum IdentityMutation {
    /// New UID issuance, carrying the entity's initial `id`.
    Issued { id: String },
    /// An `id:` change.
    Renamed { from_id: String, to_id: String },
    /// UID retirement triggered by deleting the Knowledge element.
    Retired,
    /// Restoration of a previously retired UID.
    Restored,
    /// Explicit lift of the reuse reservation on a retired id.
    Released { released_id: String },
    /// New UID issuance during copy/import as a distinct element.
    Reissued { id: String, source_uid: Option<String> },
    /// Explicit resolution of a branch divergence, naming which head's
    /// outcome survives.
    Resolved { winning_event_uid: String },
}

/// Roots are the only mutations allowed to have no predecessor.
pub open spec fn spec_can_be_root(m: IdentityMutation) -> bool {
    m is Issued || m is Reissued
}

impl IdentityMutation {
    /// Roots are the only mutations with no predecessor.
    pub fn can_be_root(&self) -> (r: bool)
        ensures
            r == spec_can_be_root(*self),
    {
        match self {
            IdentityMutation::Issued { .. } | IdentityMutation::Reissued { .. } => true,
            _ => false,
        }
    }
}

} // verus!
