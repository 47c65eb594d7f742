//! Test-knowledge management: Knowledge elements (Requirement / Feature /
//! Behavior / Scenario), their YAML serialization, draft validation, and the
//! immutable identity model (identity events, replay, migration).
pub mod identity;
pub mod io_error;
pub mod text;
pub mod lines;
pub mod knowledge;
pub mod knowledge_draft;
pub mod knowledge_edit;
pub mod knowledge_apply;
pub mod impact;
pub mod impact_plan;
pub mod init;
pub mod interactive;
pub mod knowledge_add;
