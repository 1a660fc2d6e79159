//! Metadata synchronization for a modular simulation-game collection.
//!
//! Adding a game module requires consistent updates across three stores: the
//! game registry, the workspace manifest, and the aggregator module's
//! dependency/feature manifest.  This crate holds the verified core: the
//! store types with their invariants, the name-derivation policy, the
//! add/remove orchestration state machine, the serialized document codec for
//! each store, and the runtime plugin registry that resolves a game name to
//! its simulation handle.

pub mod codec;
pub mod errors;
pub mod module_manifest;
pub mod names;
pub mod orchestrator;
pub mod plugins;
pub mod registry;
pub mod workspace;
