//! The closed set of Knowledge element kinds that carry an immutable `uid`,
//! with the static per-kind facts the identity model needs.
use vstd::prelude::*;

verus! {

/// The five persistent Knowledge element kinds that carry an immutable `uid`.
#[derive(Debug, Clone, Copy, PartialEq, Eq, PartialOrd, Ord, Hash, Structural)]
pub enum EntityKind {
    Requirement,
    Feature,
    Behavior,
    Condition,
    ExpectedResult,
}

/// The `kind:` value stored in identity events and Registry entries.
pub open spec fn kind_name(kind: EntityKind) -> Seq<char> {
    match kind {
        EntityKind::Requirement => "requirement"@,
        EntityKind::Feature => "feature"@,
        EntityKind::Behavior => "behavior"@,
        EntityKind::Condition => "condition"@,
        EntityKind::ExpectedResult => "expected_result"@,
    }
}

/// The plural directory segment under the identity-event and cache roots.
pub open spec fn kind_segment(kind: EntityKind) -> Seq<char> {
    match kind {
        EntityKind::Requirement => "requirements"@,
        EntityKind::Feature => "features"@,
        EntityKind::Behavior => "behaviors"@,
        EntityKind::Condition => "conditions"@,
        EntityKind::ExpectedResult => "expected_results"@,
    }
}

/// Every kind, in the stable declaration order.
pub open spec fn all_kinds() -> Seq<EntityKind> {
    seq![
        EntityKind::Requirement,
        EntityKind::Feature,
        EntityKind::Behavior,
        EntityKind::Condition,
        EntityKind::ExpectedResult,
    ]
}

impl EntityKind {
    /// Every `EntityKind`, in a stable order.
    pub const ALL: [EntityKind; 5] = [
        EntityKind::Requirement,
        EntityKind::Feature,
        EntityKind::Behavior,
        EntityKind::Condition,
        EntityKind::ExpectedResult,
    ];

    /// Every `EntityKind`, in the same order as `ALL`.
    pub fn all() -> (r: Vec<EntityKind>)
        ensures
            r@ == all_kinds(),
    {
        let r = vec![
            EntityKind::Requirement,
            EntityKind::Feature,
            EntityKind::Behavior,
            EntityKind::Condition,
            EntityKind::ExpectedResult,
        ];
        assert(r@ =~= all_kinds());
        r
    }

    /// The `kind:` value stored in identity events and Registry entries.
    pub fn as_str(self) -> (r: &'static str)
        ensures
            r@ == kind_name(self),
    {
        match self {
            EntityKind::Requirement => "requirement",
            EntityKind::Feature => "feature",
            EntityKind::Behavior => "behavior",
            EntityKind::Condition => "condition",
            EntityKind::ExpectedResult => "expected_result",
        }
    }

    /// The plural directory segment under `.markharness/identity-events/`
    /// and `.markharness-cache/identities/`.
    pub fn directory_segment(self) -> (r: &'static str)
        ensures
            r@ == kind_segment(self),
    {
        match self {
            EntityKind::Requirement => "requirements",
            EntityKind::Feature => "features",
            EntityKind::Behavior => "behaviors",
            EntityKind::Condition => "conditions",
            EntityKind::ExpectedResult => "expected_results",
        }
    }
}

/// The declarative, per-kind facts: parent kind, Knowledge file name and
/// JSON Schema file name.
#[derive(Debug, Clone, Copy, PartialEq, Eq)]
pub struct EntityDescriptor {
    pub kind: EntityKind,
    pub parent_kind: Option<EntityKind>,
    pub file_name: &'static str,
    pub schema_name: &'static str,
}

/// The parent in the Knowledge hierarchy: Requirement has none, and each
/// other kind hangs off the kind declared just before it.
pub open spec fn parent_of(kind: EntityKind) -> Option<EntityKind> {
    match kind {
        EntityKind::Requirement => None,
        EntityKind::Feature => Some(EntityKind::Requirement),
        EntityKind::Behavior => Some(EntityKind::Feature),
        EntityKind::Condition => Some(EntityKind::Behavior),
        EntityKind::ExpectedResult => Some(EntityKind::Condition),
    }
}

pub open spec fn file_name_of(kind: EntityKind) -> Seq<char> {
    match kind {
        EntityKind::Requirement => "requirement.yml"@,
        EntityKind::Feature => "feature.yml"@,
        EntityKind::Behavior => "behavior.yml"@,
        EntityKind::Condition => "condition.yml"@,
        EntityKind::ExpectedResult => "expected/*.yml"@,
    }
}

pub open spec fn schema_name_of(kind: EntityKind) -> Seq<char> {
    match kind {
        EntityKind::Requirement => "requirement.schema.json"@,
        EntityKind::Feature => "feature.schema.json"@,
        EntityKind::Behavior => "behavior.schema.json"@,
        EntityKind::Condition => "condition.schema.json"@,
        EntityKind::ExpectedResult => "expected_result.schema.json"@,
    }
}

/// One descriptor per kind, in `EntityKind::ALL` order.
pub fn descriptors() -> (r: Vec<EntityDescriptor>)
    ensures
        r@.len() == 5,
        forall|i: int| 0 <= i < 5 ==> (#[trigger] r@[i]).kind == all_kinds()[i],
        forall|i: int|
            0 <= i < 5 ==> {
                let d = #[trigger] r@[i];
                &&& d.parent_kind == parent_of(d.kind)
                &&& d.file_name@ == file_name_of(d.kind)
                &&& d.schema_name@ == schema_name_of(d.kind)
            },
{
    let mut r: Vec<EntityDescriptor> = Vec::new();
    r.push(descriptor(EntityKind::Requirement));
    r.push(descriptor(EntityKind::Feature));
    r.push(descriptor(EntityKind::Behavior));
    r.push(descriptor(EntityKind::Condition));
    r.push(descriptor(EntityKind::ExpectedResult));
    r
}

/// Looks up the `EntityDescriptor` for `kind`.
pub fn descriptor(kind: EntityKind) -> (r: EntityDescriptor)
    ensures
        r.kind == kind,
        r.parent_kind == parent_of(kind),
        r.file_name@ == file_name_of(kind),
        r.schema_name@ == schema_name_of(kind),
{
    match kind {
        EntityKind::Requirement => EntityDescriptor {
            kind,
            parent_kind: None,
            file_name: "requirement.yml",
            schema_name: "requirement.schema.json",
        },
        EntityKind::Feature => EntityDescriptor {
            kind,
            parent_kind: Some(EntityKind::Requirement),
            file_name: "feature.yml",
            schema_name: "feature.schema.json",
        },
        EntityKind::Behavior => EntityDescriptor {
            kind,
            parent_kind: Some(EntityKind::Feature),
            file_name: "behavior.yml",
            schema_name: "behavior.schema.json",
        },
        EntityKind::Condition => EntityDescriptor {
            kind,
            parent_kind: Some(EntityKind::Behavior),
            file_name: "condition.yml",
            schema_name: "condition.schema.json",
        },
        EntityKind::ExpectedResult => EntityDescriptor {
            kind,
            parent_kind: Some(EntityKind::Condition),
            file_name: "expected/*.yml",
            schema_name: "expected_result.schema.json",
        },
    }
}

} // verus!
