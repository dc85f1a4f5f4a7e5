//! Bounded, evidence-driven discovery of regenerable files, with the durable
//! index and the reward ledger behind it.
pub mod activity;
pub mod adapters;
pub mod caches;
pub mod cargo;
pub mod classify;
pub mod digest;
pub mod document;
pub mod evidence;
pub mod git;
pub mod laws;
pub mod manifest;
pub mod model;
pub mod node;
pub mod order;
pub mod paths;
pub mod pnpm;
pub mod pnpm_cache;
pub mod policy;
pub mod probe;
pub mod scanner;
pub mod sightings;
pub mod sources;
pub mod storage_inventory;
pub mod store;
pub mod tables;
pub mod text;
pub mod workspace;
