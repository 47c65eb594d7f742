//! Typed identifiers: each kind of uid, revision reference and display id is
//! a distinct type, so one can never be passed where another is expected.
//! Each holds non-blank text; the concrete format per kind (ULID, UUIDv5)
//! is enforced where the value is produced.
use vstd::prelude::*;

use crate::text::{is_blank, trim_is_empty};

verus! {

/// A value was empty or contained only whitespace.
#[derive(Debug, Clone, PartialEq, Eq)]
pub struct BlankValueError {
    pub type_label: &'static str,
}

impl BlankValueError {
    /// `"<type name> must not be empty or whitespace-only"`.
    pub fn to_string(&self) -> (r: String)
        ensures
            r@ == self.type_label@ + " must not be empty or whitespace-only"@,
    {
        let mut s = String::from_str(self.type_label);
        s.append(" must not be empty or whitespace-only");
        s
    }
}

/// The uid of a Requirement.
#[derive(Debug, PartialEq, Eq, PartialOrd, Ord, Hash)]
pub struct RequirementUid(String);

impl Clone for RequirementUid {
    fn clone(&self) -> (r: Self)
        ensures
            r@ == self@,
    {
        proof {
            use_type_invariant(self);
        }
        RequirementUid(self.0.clone())
    }
}

impl View for RequirementUid {
    type V = Seq<char>;

    closed spec fn view(&self) -> Seq<char> {
        self.0@
    }
}

impl RequirementUid {
    #[verifier::type_invariant]
    spec fn non_blank(self) -> bool {
        !is_blank(self.0@)
    }

    /// The value, refused when it is empty or whitespace only.
    pub fn new(value: &str) -> (r: Result<RequirementUid, BlankValueError>)
        ensures
            r is Err <==> is_blank(value@),
            r matches Ok(u) ==> u@ == value@,
            r matches Err(e) ==> e.type_label@ == "RequirementUid"@,
    {
        if trim_is_empty(value) {
            return Err(BlankValueError { type_label: "RequirementUid" });
        }
        Ok(RequirementUid(String::from_str(value)))
    }

    pub fn as_str(&self) -> (r: &str)
        ensures
            r@ == self@,
            !is_blank(r@),
    {
        proof {
            use_type_invariant(self);
        }
        self.0.as_str()
    }

    /// The inner value, as `Display` renders it.
    pub fn to_string(&self) -> (r: String)
        ensures
            r@ == self@,
    {
        self.0.clone()
    }
}

/// The uid of a Feature.
#[derive(Debug, PartialEq, Eq, PartialOrd, Ord, Hash)]
pub struct FeatureUid(String);

impl Clone for FeatureUid {
    fn clone(&self) -> (r: Self)
        ensures
            r@ == self@,
    {
        proof {
            use_type_invariant(self);
        }
        FeatureUid(self.0.clone())
    }
}

impl View for FeatureUid {
    type V = Seq<char>;

    closed spec fn view(&self) -> Seq<char> {
        self.0@
    }
}

impl FeatureUid {
    #[verifier::type_invariant]
    spec fn non_blank(self) -> bool {
        !is_blank(self.0@)
    }

    /// The value, refused when it is empty or whitespace only.
    pub fn new(value: &str) -> (r: Result<FeatureUid, BlankValueError>)
        ensures
            r is Err <==> is_blank(value@),
            r matches Ok(u) ==> u@ == value@,
            r matches Err(e) ==> e.type_label@ == "FeatureUid"@,
    {
        if trim_is_empty(value) {
            return Err(BlankValueError { type_label: "FeatureUid" });
        }
        Ok(FeatureUid(String::from_str(value)))
    }

    pub fn as_str(&self) -> (r: &str)
        ensures
            r@ == self@,
            !is_blank(r@),
    {
        proof {
            use_type_invariant(self);
        }
        self.0.as_str()
    }

    /// The inner value, as `Display` renders it.
    pub fn to_string(&self) -> (r: String)
        ensures
            r@ == self@,
    {
        self.0.clone()
    }
}

/// The uid of a Behavior.
#[derive(Debug, PartialEq, Eq, PartialOrd, Ord, Hash)]
pub struct BehaviorUid(String);

impl Clone for BehaviorUid {
    fn clone(&self) -> (r: Self)
        ensures
            r@ == self@,
    {
        proof {
            use_type_invariant(self);
        }
        BehaviorUid(self.0.clone())
    }
}

impl View for BehaviorUid {
    type V = Seq<char>;

    closed spec fn view(&self) -> Seq<char> {
        self.0@
    }
}

impl BehaviorUid {
    #[verifier::type_invariant]
    spec fn non_blank(self) -> bool {
        !is_blank(self.0@)
    }

    /// The value, refused when it is empty or whitespace only.
    pub fn new(value: &str) -> (r: Result<BehaviorUid, BlankValueError>)
        ensures
            r is Err <==> is_blank(value@),
            r matches Ok(u) ==> u@ == value@,
            r matches Err(e) ==> e.type_label@ == "BehaviorUid"@,
    {
        if trim_is_empty(value) {
            return Err(BlankValueError { type_label: "BehaviorUid" });
        }
        Ok(BehaviorUid(String::from_str(value)))
    }

    pub fn as_str(&self) -> (r: &str)
        ensures
            r@ == self@,
            !is_blank(r@),
    {
        proof {
            use_type_invariant(self);
        }
        self.0.as_str()
    }

    /// The inner value, as `Display` renders it.
    pub fn to_string(&self) -> (r: String)
        ensures
            r@ == self@,
    {
        self.0.clone()
    }
}

/// The uid of a Scenario.
#[derive(Debug, PartialEq, Eq, PartialOrd, Ord, Hash)]
pub struct ScenarioUid(String);

impl Clone for ScenarioUid {
    fn clone(&self) -> (r: Self)
        ensures
            r@ == self@,
    {
        proof {
            use_type_invariant(self);
        }
        ScenarioUid(self.0.clone())
    }
}

impl View for ScenarioUid {
    type V = Seq<char>;

    closed spec fn view(&self) -> Seq<char> {
        self.0@
    }
}

impl ScenarioUid {
    #[verifier::type_invariant]
    spec fn non_blank(self) -> bool {
        !is_blank(self.0@)
    }

    /// The value, refused when it is empty or whitespace only.
    pub fn new(value: &str) -> (r: Result<ScenarioUid, BlankValueError>)
        ensures
            r is Err <==> is_blank(value@),
            r matches Ok(u) ==> u@ == value@,
            r matches Err(e) ==> e.type_label@ == "ScenarioUid"@,
    {
        if trim_is_empty(value) {
            return Err(BlankValueError { type_label: "ScenarioUid" });
        }
        Ok(ScenarioUid(String::from_str(value)))
    }

    pub fn as_str(&self) -> (r: &str)
        ensures
            r@ == self@,
            !is_blank(r@),
    {
        proof {
            use_type_invariant(self);
        }
        self.0.as_str()
    }

    /// The inner value, as `Display` renders it.
    pub fn to_string(&self) -> (r: String)
        ensures
            r@ == self@,
    {
        self.0.clone()
    }
}

/// The uid of a TestCase (derived, UUIDv5).
#[derive(Debug, PartialEq, Eq, PartialOrd, Ord, Hash)]
pub struct CaseUid(String);

impl Clone for CaseUid {
    fn clone(&self) -> (r: Self)
        ensures
            r@ == self@,
    {
        proof {
            use_type_invariant(self);
        }
        CaseUid(self.0.clone())
    }
}

impl View for CaseUid {
    type V = Seq<char>;

    closed spec fn view(&self) -> Seq<char> {
        self.0@
    }
}

impl CaseUid {
    #[verifier::type_invariant]
    spec fn non_blank(self) -> bool {
        !is_blank(self.0@)
    }

    /// The value, refused when it is empty or whitespace only.
    pub fn new(value: &str) -> (r: Result<CaseUid, BlankValueError>)
        ensures
            r is Err <==> is_blank(value@),
            r matches Ok(u) ==> u@ == value@,
            r matches Err(e) ==> e.type_label@ == "CaseUid"@,
    {
        if trim_is_empty(value) {
            return Err(BlankValueError { type_label: "CaseUid" });
        }
        Ok(CaseUid(String::from_str(value)))
    }

    pub fn as_str(&self) -> (r: &str)
        ensures
            r@ == self@,
            !is_blank(r@),
    {
        proof {
            use_type_invariant(self);
        }
        self.0.as_str()
    }

    /// The inner value, as `Display` renders it.
    pub fn to_string(&self) -> (r: String)
        ensures
            r@ == self@,
    {
        self.0.clone()
    }
}

/// The revision of a TestCase's content (derived, UUIDv5).
#[derive(Debug, PartialEq, Eq, PartialOrd, Ord, Hash)]
pub struct CaseRevision(String);

impl Clone for CaseRevision {
    fn clone(&self) -> (r: Self)
        ensures
            r@ == self@,
    {
        proof {
            use_type_invariant(self);
        }
        CaseRevision(self.0.clone())
    }
}

impl View for CaseRevision {
    type V = Seq<char>;

    closed spec fn view(&self) -> Seq<char> {
        self.0@
    }
}

impl CaseRevision {
    #[verifier::type_invariant]
    spec fn non_blank(self) -> bool {
        !is_blank(self.0@)
    }

    /// The value, refused when it is empty or whitespace only.
    pub fn new(value: &str) -> (r: Result<CaseRevision, BlankValueError>)
        ensures
            r is Err <==> is_blank(value@),
            r matches Ok(u) ==> u@ == value@,
            r matches Err(e) ==> e.type_label@ == "CaseRevision"@,
    {
        if trim_is_empty(value) {
            return Err(BlankValueError { type_label: "CaseRevision" });
        }
        Ok(CaseRevision(String::from_str(value)))
    }

    pub fn as_str(&self) -> (r: &str)
        ensures
            r@ == self@,
            !is_blank(r@),
    {
        proof {
            use_type_invariant(self);
        }
        self.0.as_str()
    }

    /// The inner value, as `Display` renders it.
    pub fn to_string(&self) -> (r: String)
        ensures
            r@ == self@,
    {
        self.0.clone()
    }
}

/// The uid of one execution record.
#[derive(Debug, PartialEq, Eq, PartialOrd, Ord, Hash)]
pub struct ExecutionUid(String);

impl Clone for ExecutionUid {
    fn clone(&self) -> (r: Self)
        ensures
            r@ == self@,
    {
        proof {
            use_type_invariant(self);
        }
        ExecutionUid(self.0.clone())
    }
}

impl View for ExecutionUid {
    type V = Seq<char>;

    closed spec fn view(&self) -> Seq<char> {
        self.0@
    }
}

impl ExecutionUid {
    #[verifier::type_invariant]
    spec fn non_blank(self) -> bool {
        !is_blank(self.0@)
    }

    /// The value, refused when it is empty or whitespace only.
    pub fn new(value: &str) -> (r: Result<ExecutionUid, BlankValueError>)
        ensures
            r is Err <==> is_blank(value@),
            r matches Ok(u) ==> u@ == value@,
            r matches Err(e) ==> e.type_label@ == "ExecutionUid"@,
    {
        if trim_is_empty(value) {
            return Err(BlankValueError { type_label: "ExecutionUid" });
        }
        Ok(ExecutionUid(String::from_str(value)))
    }

    pub fn as_str(&self) -> (r: &str)
        ensures
            r@ == self@,
            !is_blank(r@),
    {
        proof {
            use_type_invariant(self);
        }
        self.0.as_str()
    }

    /// The inner value, as `Display` renders it.
    pub fn to_string(&self) -> (r: String)
        ensures
            r@ == self@,
    {
        self.0.clone()
    }
}

/// The opaque identifier of the build or commit under test.
#[derive(Debug, PartialEq, Eq, PartialOrd, Ord, Hash)]
pub struct TargetRevision(String);

impl Clone for TargetRevision {
    fn clone(&self) -> (r: Self)
        ensures
            r@ == self@,
    {
        proof {
            use_type_invariant(self);
        }
        TargetRevision(self.0.clone())
    }
}

impl View for TargetRevision {
    type V = Seq<char>;

    closed spec fn view(&self) -> Seq<char> {
        self.0@
    }
}

impl TargetRevision {
    #[verifier::type_invariant]
    spec fn non_blank(self) -> bool {
        !is_blank(self.0@)
    }

    /// The value, refused when it is empty or whitespace only.
    pub fn new(value: &str) -> (r: Result<TargetRevision, BlankValueError>)
        ensures
            r is Err <==> is_blank(value@),
            r matches Ok(u) ==> u@ == value@,
            r matches Err(e) ==> e.type_label@ == "TargetRevision"@,
    {
        if trim_is_empty(value) {
            return Err(BlankValueError { type_label: "TargetRevision" });
        }
        Ok(TargetRevision(String::from_str(value)))
    }

    pub fn as_str(&self) -> (r: &str)
        ensures
            r@ == self@,
            !is_blank(r@),
    {
        proof {
            use_type_invariant(self);
        }
        self.0.as_str()
    }

    /// The inner value, as `Display` renders it.
    pub fn to_string(&self) -> (r: String)
        ensures
            r@ == self@,
    {
        self.0.clone()
    }
}

/// A free-text environment identifier.
#[derive(Debug, PartialEq, Eq, PartialOrd, Ord, Hash)]
pub struct Environment(String);

impl Clone for Environment {
    fn clone(&self) -> (r: Self)
        ensures
            r@ == self@,
    {
        proof {
            use_type_invariant(self);
        }
        Environment(self.0.clone())
    }
}

impl View for Environment {
    type V = Seq<char>;

    closed spec fn view(&self) -> Seq<char> {
        self.0@
    }
}

impl Environment {
    #[verifier::type_invariant]
    spec fn non_blank(self) -> bool {
        !is_blank(self.0@)
    }

    /// The value, refused when it is empty or whitespace only.
    pub fn new(value: &str) -> (r: Result<Environment, BlankValueError>)
        ensures
            r is Err <==> is_blank(value@),
            r matches Ok(u) ==> u@ == value@,
            r matches Err(e) ==> e.type_label@ == "Environment"@,
    {
        if trim_is_empty(value) {
            return Err(BlankValueError { type_label: "Environment" });
        }
        Ok(Environment(String::from_str(value)))
    }

    pub fn as_str(&self) -> (r: &str)
        ensures
            r@ == self@,
            !is_blank(r@),
    {
        proof {
            use_type_invariant(self);
        }
        self.0.as_str()
    }

    /// The inner value, as `Display` renders it.
    pub fn to_string(&self) -> (r: String)
        ensures
            r@ == self@,
    {
        self.0.clone()
    }
}

/// A mutable, human-facing `id:` field; never a uid.
#[derive(Debug, PartialEq, Eq, PartialOrd, Ord, Hash)]
pub struct DisplayId(String);

impl Clone for DisplayId {
    fn clone(&self) -> (r: Self)
        ensures
            r@ == self@,
    {
        proof {
            use_type_invariant(self);
        }
        DisplayId(self.0.clone())
    }
}

impl View for DisplayId {
    type V = Seq<char>;

    closed spec fn view(&self) -> Seq<char> {
        self.0@
    }
}

impl DisplayId {
    #[verifier::type_invariant]
    spec fn non_blank(self) -> bool {
        !is_blank(self.0@)
    }

    /// The value, refused when it is empty or whitespace only.
    pub fn new(value: &str) -> (r: Result<DisplayId, BlankValueError>)
        ensures
            r is Err <==> is_blank(value@),
            r matches Ok(u) ==> u@ == value@,
            r matches Err(e) ==> e.type_label@ == "DisplayId"@,
    {
        if trim_is_empty(value) {
            return Err(BlankValueError { type_label: "DisplayId" });
        }
        Ok(DisplayId(String::from_str(value)))
    }

    pub fn as_str(&self) -> (r: &str)
        ensures
            r@ == self@,
            !is_blank(r@),
    {
        proof {
            use_type_invariant(self);
        }
        self.0.as_str()
    }

    /// The inner value, as `Display` renders it.
    pub fn to_string(&self) -> (r: String)
        ensures
            r@ == self@,
    {
        self.0.clone()
    }
}

} // verus!
