//! The immutable identity model: a `uid` that persists across `id:` renames,
//! layered on top of the Knowledge tree's mutable, human-facing ids.
pub mod entity_kind;
pub mod event;
pub mod engine;
pub mod engine_laws;
pub mod derived_uid;
pub mod typed_uid;
pub mod migration_manifest;
pub mod legacy_capture;
pub mod audit;
pub mod knowledge_walk;
pub mod fresh;
pub mod recovery;
pub mod feature_ops;
