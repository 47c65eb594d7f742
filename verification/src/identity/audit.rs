//! The identity auditor's rules: identity events, once committed, are never
//! deleted or rewritten, and every commit's event set still replays.
//!
//! Walking the history (listing trees, diffing commit pairs, replaying)
//! happens around this module; what is decided here is which paths are
//! identity events, what a diff between two commits reports, and which
//! entities must be replayed again.
use vstd::prelude::*;

use crate::identity::entity_kind::{kind_name, kind_segment, EntityKind};
use crate::text::{seq_lt, str_eq, str_lt};

verus! {

/// The repo-relative directory holding every identity event.
pub open spec fn events_root() -> Seq<char> {
    ".markharness/identity-events"@
}

pub fn identity_events_root() -> (r: String)
    ensures
        r@ == events_root(),
{
    String::from_str(".markharness/identity-events")
}

/// The kind whose directory segment is `segment`.
pub open spec fn kind_of_segment(segment: Seq<char>) -> Option<EntityKind> {
    if segment == kind_segment(EntityKind::Requirement) {
        Some(EntityKind::Requirement)
    } else if segment == kind_segment(EntityKind::Feature) {
        Some(EntityKind::Feature)
    } else if segment == kind_segment(EntityKind::Behavior) {
        Some(EntityKind::Behavior)
    } else if segment == kind_segment(EntityKind::Condition) {
        Some(EntityKind::Condition)
    } else if segment == kind_segment(EntityKind::ExpectedResult) {
        Some(EntityKind::ExpectedResult)
    } else {
        None
    }
}

pub fn kind_from_directory_segment(segment: &str) -> (r: Option<EntityKind>)
    ensures
        r == kind_of_segment(segment@),
{
    if str_eq(segment, EntityKind::Requirement.directory_segment()) {
        Some(EntityKind::Requirement)
    } else if str_eq(segment, EntityKind::Feature.directory_segment()) {
        Some(EntityKind::Feature)
    } else if str_eq(segment, EntityKind::Behavior.directory_segment()) {
        Some(EntityKind::Behavior)
    } else if str_eq(segment, EntityKind::Condition.directory_segment()) {
        Some(EntityKind::Condition)
    } else if str_eq(segment, EntityKind::ExpectedResult.directory_segment()) {
        Some(EntityKind::ExpectedResult)
    } else {
        None
    }
}

/// `.markharness/identity-events/<kind>/<uid>/<event_uid>.yml`, taken apart.
pub struct ParsedEventPath {
    pub kind: EntityKind,
    pub entity_uid: String,
    pub event_uid: String,
}

/// The first `'/'` at or after `i`, or the length when there is none.
pub open spec fn next_slash(s: Seq<char>, i: nat) -> nat
    decreases s.len() - i,
{
    if i >= s.len() {
        s.len()
    } else if s[i as int] == '/' {
        i
    } else {
        next_slash(s, i + 1)
    }
}

proof fn lemma_next_slash(s: Seq<char>, i: nat)
    requires
        i <= s.len(),
    ensures
        i <= next_slash(s, i) <= s.len(),
        next_slash(s, i) < s.len() ==> s[next_slash(s, i) as int] == '/',
        forall|k: int| i <= k < next_slash(s, i) ==> s[k] != '/',
    decreases s.len() - i,
{
    if i < s.len() && s[i as int] != '/' {
        lemma_next_slash(s, i + 1);
    }
}

/// The path split as `str::split('/')` splits it, when the part after the
/// events root has exactly three segments and the last ends in `.yml`:
/// `(kind segment, entity uid, event uid)`.
pub open spec fn event_path_parts(path: Seq<char>) -> Option<(Seq<char>, Seq<char>, Seq<char>)> {
    let prefix = events_root() + "/"@;
    if path.len() < prefix.len() || path.subrange(0, prefix.len() as int) != prefix {
        None
    } else {
        let rest = path.subrange(prefix.len() as int, path.len() as int);
        let j1 = next_slash(rest, 0);
        let j2 = next_slash(rest, j1 + 1);
        if j1 >= rest.len() || j2 >= rest.len() || next_slash(rest, j2 + 1) < rest.len() {
            None
        } else {
            let file = rest.subrange(j2 + 1 as int, rest.len() as int);
            if file.len() < 4 || file.subrange(file.len() - 4, file.len() as int) != ".yml"@ {
                None
            } else {
                Some(
                    (
                        rest.subrange(0, j1 as int),
                        rest.subrange(j1 + 1 as int, j2 as int),
                        file.subrange(0, file.len() - 4),
                    ),
                )
            }
        }
    }
}

/// What `parse_event_path` finds in `path`: the parts, with a known kind.
pub open spec fn parsed_event_path(path: Seq<char>) -> Option<(EntityKind, Seq<char>, Seq<char>)> {
    match event_path_parts(path) {
        Some((segment, uid, event)) => match kind_of_segment(segment) {
            Some(kind) => Some((kind, uid, event)),
            None => None,
        },
        None => None,
    }
}

fn find_slash(s: &str, from: usize) -> (r: usize)
    requires
        from <= s@.len(),
    ensures
        r == next_slash(s@, from as nat),
{
    let n = s.unicode_len();
    let mut i = from;
    while i < n && s.get_char(i) != '/'
        invariant
            n == s@.len(),
            from <= i <= n,
            next_slash(s@, i as nat) == next_slash(s@, from as nat),
        decreases n - i,
    {
        i = i + 1;
    }
    i
}

/// Parses `.markharness/identity-events/<kind>/<uid>/<event_uid>.yml`;
/// anything else under that root gives `None`.
pub fn parse_event_path(path: &str) -> (r: Option<ParsedEventPath>)
    ensures
        match r {
            Some(p) => parsed_event_path(path@) == Some((p.kind, p.entity_uid@, p.event_uid@)),
            None => parsed_event_path(path@) is None,
        },
{
    let mut prefix = identity_events_root();
    prefix.append("/");
    let p = prefix.unicode_len();
    let n = path.unicode_len();
    if n < p {
        return None;
    }
    if !str_eq(path.substring_char(0, p), prefix.as_str()) {
        return None;
    }
    let rest = path.substring_char(p, n);
    let m = rest.unicode_len();
    let j1 = find_slash(rest, 0);
    proof {
        lemma_next_slash(rest@, 0);
    }
    if j1 >= m {
        return None;
    }
    let j2 = find_slash(rest, j1 + 1);
    proof {
        lemma_next_slash(rest@, (j1 + 1) as nat);
    }
    if j2 >= m {
        return None;
    }
    let j3 = find_slash(rest, j2 + 1);
    if j3 < m {
        return None;
    }
    let file = rest.substring_char(j2 + 1, m);
    let f = file.unicode_len();
    if f < 4 {
        return None;
    }
    if !str_eq(file.substring_char(f - 4, f), ".yml") {
        return None;
    }
    let segment = rest.substring_char(0, j1);
    let kind = match kind_from_directory_segment(segment) {
        Some(kind) => kind,
        None => {
            return None;
        },
    };
    Some(
        ParsedEventPath {
            kind,
            entity_uid: String::from_str(rest.substring_char(j1 + 1, j2)),
            event_uid: String::from_str(file.substring_char(0, f - 4)),
        },
    )
}

// ---------------------------------------------------------------------------
// Findings.
// ---------------------------------------------------------------------------

/// One historical finding of an audit walk.
#[derive(Debug, Clone, PartialEq, Eq)]
pub enum AuditViolation {
    /// An identity event file present at an earlier commit is gone at a
    /// later one.
    EventDisappeared {
        kind: EntityKind,
        entity_uid: String,
        event_uid: String,
        path: String,
        missing_at_commit: String,
    },
    /// The same identity event file's content differs between two commits.
    EventContentChanged {
        kind: EntityKind,
        entity_uid: String,
        event_uid: String,
        path: String,
        changed_at_commit: String,
    },
    /// At `commit`, replaying the entity's event set failed; `error` says
    /// how.
    CausalChainContradiction {
        kind: EntityKind,
        entity_uid: String,
        commit: String,
        error: String,
    },
}

/// How a finding reads in a report.
pub open spec fn violation_text(v: AuditViolation) -> Seq<char> {
    match v {
        AuditViolation::EventDisappeared {
            kind,
            entity_uid,
            event_uid,
            path,
            missing_at_commit,
        } => "event disappeared: "@ + kind_name(kind) + " '"@ + entity_uid@ + "' event '"@
            + event_uid@ + "' is missing as of commit "@ + missing_at_commit@ + " ("@ + path@
            + ")"@,
        AuditViolation::EventContentChanged {
            kind,
            entity_uid,
            event_uid,
            path,
            changed_at_commit,
        } => "event content changed: "@ + kind_name(kind) + " '"@ + entity_uid@ + "' event '"@
            + event_uid@ + "' differs as of commit "@ + changed_at_commit@ + " ("@ + path@
            + ")"@,
        AuditViolation::CausalChainContradiction { kind, entity_uid, commit, error } =>
            "causal chain contradiction: "@ + kind_name(kind) + " '"@ + entity_uid@
            + "' at commit "@ + commit@ + ": "@ + error@,
    }
}

impl AuditViolation {
    /// The finding as one line of text (what `Display` renders).
    pub fn to_string(&self) -> (r: String)
        ensures
            r@ == violation_text(*self),
    {
        match self {
            AuditViolation::EventDisappeared {
                kind,
                entity_uid,
                event_uid,
                path,
                missing_at_commit,
            } => {
                let mut s = String::from_str("event disappeared: ");
                s.append(kind.as_str());
                s.append(" '");
                s.append(entity_uid.as_str());
                s.append("' event '");
                s.append(event_uid.as_str());
                s.append("' is missing as of commit ");
                s.append(missing_at_commit.as_str());
                s.append(" (");
                s.append(path.as_str());
                s.append(")");
                s
            },
            AuditViolation::EventContentChanged {
                kind,
                entity_uid,
                event_uid,
                path,
                changed_at_commit,
            } => {
                let mut s = String::from_str("event content changed: ");
                s.append(kind.as_str());
                s.append(" '");
                s.append(entity_uid.as_str());
                s.append("' event '");
                s.append(event_uid.as_str());
                s.append("' differs as of commit ");
                s.append(changed_at_commit.as_str());
                s.append(" (");
                s.append(path.as_str());
                s.append(")");
                s
            },
            AuditViolation::CausalChainContradiction { kind, entity_uid, commit, error } => {
                let mut s = String::from_str("causal chain contradiction: ");
                s.append(kind.as_str());
                s.append(" '");
                s.append(entity_uid.as_str());
                s.append("' at commit ");
                s.append(commit.as_str());
                s.append(": ");
                s.append(error.as_str());
                s
            },
        }
    }
}

#[derive(Debug, Clone, PartialEq, Eq)]
pub struct AuditReport {
    /// First-parent commits actually walked.
    pub commits_scanned: usize,
    pub violations: Vec<AuditViolation>,
}

// ---------------------------------------------------------------------------
// Entities to replay, in the order of `(EntityKind, String)`.
// ---------------------------------------------------------------------------

pub open spec fn kind_rank(k: EntityKind) -> int {
    match k {
        EntityKind::Requirement => 0,
        EntityKind::Feature => 1,
        EntityKind::Behavior => 2,
        EntityKind::Condition => 3,
        EntityKind::ExpectedResult => 4,
    }
}

pub type EntityKey = (EntityKind, Seq<char>);

/// The order of `(EntityKind, String)` pairs: by kind (declaration order),
/// then by uid.
pub open spec fn key_lt(a: EntityKey, b: EntityKey) -> bool {
    kind_rank(a.0) < kind_rank(b.0) || (a.0 == b.0 && seq_lt(a.1, b.1))
}

pub open spec fn keys_view(v: Seq<(EntityKind, String)>) -> Seq<EntityKey> {
    v.map_values(|p: (EntityKind, String)| (p.0, p.1@))
}

pub open spec fn keys_sorted(s: Seq<EntityKey>) -> bool {
    forall|i: int, j: int| 0 <= i < j < s.len() ==> key_lt(#[trigger] s[i], #[trigger] s[j])
}

proof fn lemma_key_lt_transitive(a: EntityKey, b: EntityKey, c: EntityKey)
    requires
        key_lt(a, b),
        key_lt(b, c),
    ensures
        key_lt(a, c),
{
    crate::text::lemma_seq_lt_transitive(a.1, b.1, c.1);
}

proof fn lemma_key_lt_total(a: EntityKey, b: EntityKey)
    ensures
        a == b || key_lt(a, b) || key_lt(b, a),
{
    crate::text::lemma_seq_lt_total(a.1, b.1);
    if kind_rank(a.0) == kind_rank(b.0) {
        assert(a.0 == b.0);
    }
}

fn key_less(a_kind: EntityKind, a_uid: &str, b_kind: EntityKind, b_uid: &str) -> (r: bool)
    ensures
        r == key_lt((a_kind, a_uid@), (b_kind, b_uid@)),
{
    let ra: u8 = match a_kind {
        EntityKind::Requirement => 0,
        EntityKind::Feature => 1,
        EntityKind::Behavior => 2,
        EntityKind::Condition => 3,
        EntityKind::ExpectedResult => 4,
    };
    let rb: u8 = match b_kind {
        EntityKind::Requirement => 0,
        EntityKind::Feature => 1,
        EntityKind::Behavior => 2,
        EntityKind::Condition => 3,
        EntityKind::ExpectedResult => 4,
    };
    if ra != rb {
        return ra < rb;
    }
    str_lt(a_uid, b_uid)
}

/// Adds `(kind, uid)` to a strictly ordered set of entity keys.
fn insert_key(v: &mut Vec<(EntityKind, String)>, kind: EntityKind, uid: String)
    requires
        keys_sorted(keys_view(old(v)@)),
    ensures
        keys_sorted(keys_view(final(v)@)),
        keys_view(final(v)@).to_set() == keys_view(old(v)@).to_set().insert((kind, uid@)),
{
    let ghost old_v = keys_view(v@);
    let ghost x: EntityKey = (kind, uid@);
    let mut pos: usize = 0;
    while pos < v.len() && key_less(v[pos].0, v[pos].1.as_str(), kind, uid.as_str())
        invariant
            pos <= v@.len(),
            old_v == keys_view(v@),
            x == (kind, uid@),
            forall|k: int| 0 <= k < pos ==> key_lt(#[trigger] old_v[k], x),
        decreases v.len() - pos,
    {
        pos = pos + 1;
    }
    if pos < v.len() && v[pos].0 == kind && str_eq(v[pos].1.as_str(), uid.as_str()) {
        proof {
            assert(old_v[pos as int] == x);
            assert(old_v.to_set().insert(x) =~= old_v.to_set()) by {
                assert(old_v.to_set().contains(old_v[pos as int]));
            }
        }
        return;
    }
    proof {
        if pos < old_v.len() {
            lemma_key_lt_total(old_v[pos as int], x);
        }
    }
    v.insert(pos, (kind, uid));
    proof {
        let nv = keys_view(v@);
        assert(nv =~= old_v.insert(pos as int, x));
        assert forall|a: int, b: int| 0 <= a < b < nv.len() implies key_lt(
            #[trigger] nv[a],
            #[trigger] nv[b],
        ) by {
            if a < pos && b == pos {
            } else if a == pos && b > pos {
                if b > pos + 1 {
                    lemma_key_lt_transitive(x, old_v[pos as int], old_v[b - 1]);
                }
            } else if a < pos && b > pos {
                assert(key_lt(old_v[a], old_v[b - 1]));
            } else if a > pos {
            } else {
            }
        }
        assert forall|y: EntityKey| nv.to_set().contains(y) <==> old_v.to_set().insert(x).contains(
            y,
        ) by {
            if nv.to_set().contains(y) {
                let k = choose|k: int| 0 <= k < nv.len() && nv[k] == y;
                if k < pos {
                    assert(old_v[k] == y);
                } else if k > pos {
                    assert(old_v[k - 1] == y);
                }
            }
            if old_v.to_set().contains(y) {
                let k = choose|k: int| 0 <= k < old_v.len() && old_v[k] == y;
                if k < pos {
                    assert(nv[k] == y);
                } else {
                    assert(nv[k + 1] == y);
                }
            }
            if y == x {
                assert(nv[pos as int] == y);
            }
        }
        assert(nv.to_set() =~= old_v.to_set().insert(x));
    }
}

/// The entity an event path belongs to.
pub open spec fn event_entity(path: Seq<char>) -> Option<EntityKey> {
    match parsed_event_path(path) {
        Some(p) => Some((p.0, p.1)),
        None => None,
    }
}

/// The entities that have an event among the first `n` paths.
pub open spec fn entities_in(paths: Seq<Seq<char>>, n: int) -> Set<EntityKey> {
    Set::new(
        |key: EntityKey|
            exists|k: int|
                0 <= k < n && #[trigger] event_entity(paths[k]) == Some(key),
    )
}

/// Every entity with at least one event file among `paths` (a listing of
/// the events root at one commit), ordered and each once.
pub fn entities_with_events(paths: &Vec<String>) -> (r: Vec<(EntityKind, String)>)
    ensures
        keys_sorted(keys_view(r@)),
        keys_view(r@).to_set() == entities_in(crate::text::views(paths@), paths@.len() as int),
{
    let ghost ps = crate::text::views(paths@);
    let mut out: Vec<(EntityKind, String)> = Vec::new();
    assert(keys_view(out@).to_set() =~= entities_in(ps, 0));
    let mut i: usize = 0;
    while i < paths.len()
        invariant
            i <= paths@.len(),
            ps == crate::text::views(paths@),
            keys_sorted(keys_view(out@)),
            keys_view(out@).to_set() == entities_in(ps, i as int),
        decreases paths.len() - i,
    {
        assert(ps[i as int] == paths@[i as int]@);
        let parsed = parse_event_path(paths[i].as_str());
        let ghost before = entities_in(ps, i as int);
        let ghost after = entities_in(ps, i + 1);
        match parsed {
            Some(p) => {
                let ghost key: EntityKey = (p.kind, p.entity_uid@);
                insert_key(&mut out, p.kind, p.entity_uid);
                proof {
                    assert forall|y: EntityKey| after.contains(y) <==> before.insert(key).contains(
                        y,
                    ) by {
                        if after.contains(y) {
                            let k = choose|k: int|
                                0 <= k < i + 1 && #[trigger] event_entity(ps[k]) == Some(y);
                            if k < i {
                                assert(before.contains(y));
                            }
                        }
                        if before.contains(y) {
                            let k = choose|k: int|
                                0 <= k < i && #[trigger] event_entity(ps[k]) == Some(y);
                            assert(0 <= k < i + 1);
                        }
                        if y == key {
                            assert(event_entity(ps[i as int]) == Some(y));
                        }
                    }
                    assert(after =~= before.insert(key));
                }
            },
            None => {
                proof {
                    assert forall|y: EntityKey| after.contains(y) <==> before.contains(y) by {
                        if after.contains(y) {
                            let k = choose|k: int|
                                0 <= k < i + 1 && #[trigger] event_entity(ps[k]) == Some(y);
                            assert(k != i);
                        }
                        if before.contains(y) {
                            let k = choose|k: int|
                                0 <= k < i && #[trigger] event_entity(ps[k]) == Some(y);
                            assert(0 <= k < i + 1);
                        }
                    }
                    assert(after =~= before);
                }
            },
        }
        i = i + 1;
    }
    out
}

// ---------------------------------------------------------------------------
// One step of the walk: the diff between two consecutive commits.
// ---------------------------------------------------------------------------

#[derive(Debug, Clone, Copy, PartialEq, Eq, Structural)]
pub enum DiffStatus {
    Added,
    Modified,
    Deleted,
}

/// One changed path between two commits, under the events root.
#[derive(Debug, Clone, PartialEq, Eq)]
pub struct DiffEntry {
    pub path: String,
    pub status: DiffStatus,
}

pub open spec fn diffs_view(v: Seq<DiffEntry>) -> Seq<(Seq<char>, DiffStatus)> {
    v.map_values(|d: DiffEntry| (d.path@, d.status))
}

pub type ViolationView = (nat, EntityKind, Seq<char>, Seq<char>, Seq<char>, Seq<char>);

/// A finding as plain values: variant tag, kind, entity uid, event uid,
/// path (or error), commit.
pub open spec fn violation_view(v: AuditViolation) -> ViolationView {
    match v {
        AuditViolation::EventDisappeared {
            kind,
            entity_uid,
            event_uid,
            path,
            missing_at_commit,
        } => (0, kind, entity_uid@, event_uid@, path@, missing_at_commit@),
        AuditViolation::EventContentChanged {
            kind,
            entity_uid,
            event_uid,
            path,
            changed_at_commit,
        } => (1, kind, entity_uid@, event_uid@, path@, changed_at_commit@),
        AuditViolation::CausalChainContradiction { kind, entity_uid, commit, error } => (
            2,
            kind,
            entity_uid@,
            seq![],
            error@,
            commit@,
        ),
    }
}

pub open spec fn violations_view(v: Seq<AuditViolation>) -> Seq<ViolationView> {
    v.map_values(|x: AuditViolation| violation_view(x))
}

/// The findings the first `n` diff entries give at commit `to`: a deleted
/// event disappeared, a modified event changed; an added one is no
/// finding. Paths that are not identity events are ignored.
pub open spec fn diff_violations(diffs: Seq<(Seq<char>, DiffStatus)>, to: Seq<char>, n: nat) -> Seq<
    ViolationView,
>
    decreases n,
{
    if n == 0 {
        seq![]
    } else {
        let prev = diff_violations(diffs, to, (n - 1) as nat);
        let (path, status) = diffs[n - 1];
        match parsed_event_path(path) {
            Some((kind, uid, event)) => match status {
                DiffStatus::Deleted => prev.push((0, kind, uid, event, path, to)),
                DiffStatus::Modified => prev.push((1, kind, uid, event, path, to)),
                DiffStatus::Added => prev,
            },
            None => prev,
        }
    }
}

/// What one commit pair's diff gives: findings, and the entities whose
/// event set changed (to be replayed at the later commit), ordered and
/// each once.
pub struct CommitFindings {
    pub violations: Vec<AuditViolation>,
    pub changed_entities: Vec<(EntityKind, String)>,
}

/// Classifies the diff of the events root between two consecutive commits;
/// `to_commit` is the later one.
pub fn classify_commit_diff(diffs: &Vec<DiffEntry>, to_commit: &str) -> (r: CommitFindings)
    ensures
        violations_view(r.violations@) == diff_violations(
            diffs_view(diffs@),
            to_commit@,
            diffs@.len(),
        ),
        keys_sorted(keys_view(r.changed_entities@)),
        keys_view(r.changed_entities@).to_set() == entities_in(
            diffs_view(diffs@).map_values(|d: (Seq<char>, DiffStatus)| d.0),
            diffs@.len() as int,
        ),
{
    let ghost dv = diffs_view(diffs@);
    let ghost ps = dv.map_values(|d: (Seq<char>, DiffStatus)| d.0);
    let mut violations: Vec<AuditViolation> = Vec::new();
    let mut changed: Vec<(EntityKind, String)> = Vec::new();
    assert(violations_view(violations@) =~= seq![]);
    assert(keys_view(changed@).to_set() =~= entities_in(ps, 0));
    let mut i: usize = 0;
    while i < diffs.len()
        invariant
            i <= diffs@.len(),
            dv == diffs_view(diffs@),
            ps == dv.map_values(|d: (Seq<char>, DiffStatus)| d.0),
            violations_view(violations@) == diff_violations(dv, to_commit@, i as nat),
            keys_sorted(keys_view(changed@)),
            keys_view(changed@).to_set() == entities_in(ps, i as int),
        decreases diffs.len() - i,
    {
        let entry = &diffs[i];
        assert(dv[i as int] == (entry.path@, entry.status));
        assert(ps[i as int] == entry.path@);
        let ghost before_v = violations_view(violations@);
        let ghost before = entities_in(ps, i as int);
        let ghost after = entities_in(ps, i + 1);
        match parse_event_path(entry.path.as_str()) {
            Some(parsed) => {
                let ghost key: EntityKey = (parsed.kind, parsed.entity_uid@);
                match entry.status {
                    DiffStatus::Deleted => {
                        violations.push(
                            AuditViolation::EventDisappeared {
                                kind: parsed.kind,
                                entity_uid: parsed.entity_uid.clone(),
                                event_uid: parsed.event_uid.clone(),
                                path: entry.path.clone(),
                                missing_at_commit: String::from_str(to_commit),
                            },
                        );
                    },
                    DiffStatus::Modified => {
                        violations.push(
                            AuditViolation::EventContentChanged {
                                kind: parsed.kind,
                                entity_uid: parsed.entity_uid.clone(),
                                event_uid: parsed.event_uid.clone(),
                                path: entry.path.clone(),
                                changed_at_commit: String::from_str(to_commit),
                            },
                        );
                    },
                    DiffStatus::Added => {},
                }
                assert(violations_view(violations@) =~= diff_violations(
                    dv,
                    to_commit@,
                    (i + 1) as nat,
                ));
                insert_key(&mut changed, parsed.kind, parsed.entity_uid);
                proof {
                    assert forall|y: EntityKey| after.contains(y) <==> before.insert(key).contains(
                        y,
                    ) by {
                        if after.contains(y) {
                            let k = choose|k: int|
                                0 <= k < i + 1 && #[trigger] event_entity(ps[k]) == Some(y);
                            if k < i {
                                assert(before.contains(y));
                            }
                        }
                        if before.contains(y) {
                            let k = choose|k: int| 0 <= k < i && #[trigger] event_entity(ps[k]) == Some(y);
                            assert(0 <= k < i + 1);
                        }
                        if y == key {
                            assert(event_entity(ps[i as int]) == Some(y));
                        }
                    }
                    assert(after =~= before.insert(key));
                }
            },
            None => {
                assert(violations_view(violations@) =~= diff_violations(
                    dv,
                    to_commit@,
                    (i + 1) as nat,
                ));
                proof {
                    assert forall|y: EntityKey| after.contains(y) <==> before.contains(y) by {
                        if after.contains(y) {
                            let k = choose|k: int|
                                0 <= k < i + 1 && #[trigger] event_entity(ps[k]) == Some(y);
                            assert(k != i);
                        }
                        if before.contains(y) {
                            let k = choose|k: int| 0 <= k < i && #[trigger] event_entity(ps[k]) == Some(y);
                            assert(0 <= k < i + 1);
                        }
                    }
                    assert(after =~= before);
                }
            },
        }
        i = i + 1;
    }
    CommitFindings { violations, changed_entities: changed }
}

/// The finding that a diff entry gives: a deleted event file disappeared,
/// a modified one changed, both at commit `to`.
pub open spec fn entry_finding(path: Seq<char>, status: DiffStatus, to: Seq<char>) -> Option<
    ViolationView,
> {
    match parsed_event_path(path) {
        Some((kind, uid, event)) => match status {
            DiffStatus::Deleted => Some((0, kind, uid, event, path, to)),
            DiffStatus::Modified => Some((1, kind, uid, event, path, to)),
            DiffStatus::Added => None,
        },
        None => None,
    }
}

/// Committed identity events are never deleted or rewritten unseen: every
/// identity event file that a commit's diff deletes or modifies gives a
/// finding at that commit naming the file, its entity and its event.
pub proof fn lemma_removed_or_rewritten_events_are_reported(
    diffs: Seq<(Seq<char>, DiffStatus)>,
    to: Seq<char>,
    i: int,
)
    requires
        0 <= i < diffs.len(),
        entry_finding(diffs[i].0, diffs[i].1, to) is Some,
    ensures
        diff_violations(diffs, to, diffs.len()).contains(
            entry_finding(diffs[i].0, diffs[i].1, to)->0,
        ),
{
    lemma_finding_kept(diffs, to, i, diffs.len());
}

proof fn lemma_finding_kept(diffs: Seq<(Seq<char>, DiffStatus)>, to: Seq<char>, i: int, n: nat)
    requires
        0 <= i < n <= diffs.len(),
        entry_finding(diffs[i].0, diffs[i].1, to) is Some,
    ensures
        diff_violations(diffs, to, n).contains(entry_finding(diffs[i].0, diffs[i].1, to)->0),
    decreases n,
{
    let f = entry_finding(diffs[i].0, diffs[i].1, to)->0;
    let prev = diff_violations(diffs, to, (n - 1) as nat);
    if i == n - 1 {
        let cur = diff_violations(diffs, to, n);
        assert(cur == prev.push(f));
        assert(cur[prev.len() as int] == f);
    } else {
        lemma_finding_kept(diffs, to, i, (n - 1) as nat);
        let j = choose|j: int| 0 <= j < prev.len() && prev[j] == f;
        let cur = diff_violations(diffs, to, n);
        assert(cur == prev || cur == prev.push(cur.last()));
        assert(cur[j] == f);
    }
}

/// Adding identity events is never a finding: a diff whose every entry is
/// an addition gives no violation.
pub proof fn lemma_additions_are_no_findings(diffs: Seq<(Seq<char>, DiffStatus)>, to: Seq<char>)
    requires
        forall|k: int| 0 <= k < diffs.len() ==> (#[trigger] diffs[k]).1 == DiffStatus::Added,
    ensures
        diff_violations(diffs, to, diffs.len()).len() == 0,
{
    lemma_additions_prefix(diffs, to, diffs.len());
}

proof fn lemma_additions_prefix(diffs: Seq<(Seq<char>, DiffStatus)>, to: Seq<char>, n: nat)
    requires
        n <= diffs.len(),
        forall|k: int| 0 <= k < diffs.len() ==> (#[trigger] diffs[k]).1 == DiffStatus::Added,
    ensures
        diff_violations(diffs, to, n).len() == 0,
    decreases n,
{
    if n > 0 {
        lemma_additions_prefix(diffs, to, (n - 1) as nat);
        assert(diffs[n - 1].1 == DiffStatus::Added);
    }
}

/// The findings of a first-parent history `commits` (oldest first), for
/// its first `n` consecutive pairs: for pair `i`, what its diff `diffs[i]`
/// gives at the later commit, then the replay contradictions `contras[i]`
/// found for the entities that diff touched.
pub open spec fn history_violations(
    commits: Seq<String>,
    diffs: Seq<Vec<DiffEntry>>,
    contras: Seq<Vec<AuditViolation>>,
    n: nat,
) -> Seq<ViolationView>
    decreases n,
{
    if n == 0 {
        seq![]
    } else {
        history_violations(commits, diffs, contras, (n - 1) as nat) + diff_violations(
            diffs_view(diffs[n - 1]@),
            commits[n as int]@,
            diffs[n - 1]@.len(),
        ) + violations_view(contras[n - 1]@)
    }
}

/// The audit report of a first-parent history: every commit counts as
/// scanned; the findings are the replay contradictions at the oldest commit
/// (`oldest`), then, pair by pair, what each diff gives at its later commit
/// followed by the contradictions of replaying what it touched.
pub fn audit_history(
    commits: &Vec<String>,
    diffs: &Vec<Vec<DiffEntry>>,
    oldest: Vec<AuditViolation>,
    contradictions: Vec<Vec<AuditViolation>>,
) -> (r: AuditReport)
    requires
        diffs@.len() == contradictions@.len(),
        diffs@.len() + 1 == commits@.len() || (commits@.len() == 0 && diffs@.len() == 0),
    ensures
        r.commits_scanned == commits@.len(),
        violations_view(r.violations@) == violations_view(oldest@) + history_violations(
            commits@,
            diffs@,
            contradictions@,
            diffs@.len(),
        ),
{
    let ghost c0 = contradictions@;
    let ghost o0 = oldest@;
    let mut contras = contradictions;
    let mut violations = oldest;
    let mut i: usize = 0;
    assert(violations_view(o0) + seq![] =~= violations_view(o0));
    while i < diffs.len()
        invariant
            i <= diffs@.len(),
            diffs@.len() == c0.len(),
            diffs@.len() + 1 == commits@.len() || (commits@.len() == 0 && diffs@.len() == 0),
            contras@ == c0.skip(i as int),
            violations_view(violations@) == violations_view(o0) + history_violations(
                commits@,
                diffs@,
                c0,
                i as nat,
            ),
        decreases diffs.len() - i,
    {
        let ghost before = violations_view(violations@);
        let findings = classify_commit_diff(&diffs[i], commits[i + 1].as_str());
        let mut found = findings.violations;
        let ghost fv = violations_view(found@);
        violations.append(&mut found);
        assert(c0.skip(i as int)[0] == c0[i as int]);
        let mut extra = contras.remove(0);
        let ghost ev = violations_view(extra@);
        violations.append(&mut extra);
        proof {
            assert(contras@ =~= c0.skip(i + 1));
            assert(violations_view(violations@) =~= before + fv + ev);
            assert(history_violations(commits@, diffs@, c0, (i + 1) as nat) == history_violations(
                commits@,
                diffs@,
                c0,
                i as nat,
            ) + fv + ev);
            assert(violations_view(violations@) =~= violations_view(o0) + history_violations(
                commits@,
                diffs@,
                c0,
                (i + 1) as nat,
            ));
        }
        i = i + 1;
    }
    AuditReport { commits_scanned: commits.len(), violations }
}

proof fn lemma_history_prefix(
    commits: Seq<String>,
    diffs: Seq<Vec<DiffEntry>>,
    contras: Seq<Vec<AuditViolation>>,
    j: nat,
    m: nat,
)
    requires
        j <= m,
    ensures
        history_violations(commits, diffs, contras, j).len() <= history_violations(
            commits,
            diffs,
            contras,
            m,
        ).len(),
        forall|t: int|
            0 <= t < history_violations(commits, diffs, contras, j).len() ==> #[trigger] history_violations(
                commits,
                diffs,
                contras,
                m,
            )[t] == history_violations(commits, diffs, contras, j)[t],
    decreases m - j,
{
    if j < m {
        lemma_history_prefix(commits, diffs, contras, j, (m - 1) as nat);
    }
}

/// Over a whole first-parent history, committed identity events are never
/// deleted or rewritten unseen: every identity event file that the diff of
/// pair `i` deletes or modifies gives its finding at commit `i + 1`.
pub proof fn lemma_history_reports_every_removed_or_rewritten_event(
    commits: Seq<String>,
    diffs: Seq<Vec<DiffEntry>>,
    contras: Seq<Vec<AuditViolation>>,
    i: int,
    k: int,
)
    requires
        diffs.len() + 1 == commits.len(),
        0 <= i < diffs.len(),
        0 <= k < diffs[i]@.len(),
        entry_finding(diffs_view(diffs[i]@)[k].0, diffs_view(diffs[i]@)[k].1, commits[i + 1]@) is Some,
    ensures
        history_violations(commits, diffs, contras, diffs.len()).contains(
            entry_finding(
                diffs_view(diffs[i]@)[k].0,
                diffs_view(diffs[i]@)[k].1,
                commits[i + 1]@,
            )->0,
        ),
{
    let dv = diffs_view(diffs[i]@);
    let f = entry_finding(dv[k].0, dv[k].1, commits[i + 1]@)->0;
    lemma_removed_or_rewritten_events_are_reported(dv, commits[i + 1]@, k);
    let pair = diff_violations(dv, commits[i + 1]@, dv.len());
    let j = choose|j: int| 0 <= j < pair.len() && pair[j] == f;
    let h0 = history_violations(commits, diffs, contras, i as nat);
    let h1 = history_violations(commits, diffs, contras, (i + 1) as nat);
    assert(h1 == h0 + pair + violations_view(contras[i]@));
    assert(h1[h0.len() + j] == f);
    lemma_history_prefix(commits, diffs, contras, (i + 1) as nat, diffs.len());
    let h = history_violations(commits, diffs, contras, diffs.len());
    assert(h[h0.len() + j] == f);
}

} // verus!
