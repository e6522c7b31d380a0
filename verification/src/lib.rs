//! A single-coordinator task runtime.
pub mod actor;
pub mod answers;
pub mod arena;
pub mod benchmark;
pub mod binding;
pub mod builtin;
pub mod client;
pub mod cluster;
pub mod common;
pub mod coordinator;
pub mod data_plane;
pub mod device;
pub mod error;
pub mod fields;
pub mod gcs;
pub mod guarantees;
pub mod ids;
pub mod judge;
pub mod local;
pub mod memory;
pub mod node;
pub mod object_store;
pub mod operation;
pub mod protocol;
pub mod replay;
pub mod resources;
pub mod scheduler;
pub mod serving;
pub mod sidecar;
pub mod status;
pub mod sums;
pub mod table;
pub mod text;
pub mod versioning;
pub mod worker;
