//! Per-owner repository for labeled accounts, transaction labels, custom
//! transactions and taxonomy lists, backed by stable-structure partitions.
//!
//! Every collection is owned by exactly one identity key; operations are
//! atomic read-modify-write cycles against one serialized aggregate per key.

pub mod apis;
pub mod codec;
pub mod hour_summaries_store;
pub mod labeled_address;
pub mod labeled_address_store;
pub mod laws;
pub mod models;
pub mod repository;
pub mod store;
pub mod text;
pub mod types;
