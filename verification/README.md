# markharness

A library for managing test knowledge (Requirement / Feature / Behavior /
Scenario) kept as YAML in a Git repository, with an immutable identity model
(a `uid` that survives `id:` renames, recorded as identity events), verified
with Verus.

## Layout

- `src/` — the verified library.
  - `knowledge.rs`: the knowledge elements, their deterministic YAML
    serialization, and the slug rules.
  - `knowledge_draft.rs`, `knowledge_apply.rs`, `knowledge_edit.rs`: draft
    validation, the files a valid draft writes, and the editor flow's
    decisions.
  - `interactive.rs`, `knowledge_add.rs`: the prompts of `knowledge add` and
    the whole dialog, over lines of input.
  - `impact.rs`, `impact_plan.rs`: Change Impact over a commit range.
  - `init.rs`: the `.gitignore` entries `init` manages.
  - `identity/`: entity kinds, identity events, replay (`engine.rs`, with
    its laws in `engine_laws.rs`), derived uids, typed uids, the migration
    manifest and legacy snapshots, the audit's decisions, staged intents and
    recovery, and the identity operations' decisions.
  - `text.rs`, `lines.rs`: string and line helpers with their models.
- `tests/` — tests run against the compiled library.
- `app/` — the parts that touch the file system, git, the terminal and the
  editor, and the serde/TOML file formats.
