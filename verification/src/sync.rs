//! Synchronising a directory tree between the host and a box.

pub mod copy_laws;
pub mod digest;
pub mod effect;
pub mod endpoint;
pub mod entry;
pub mod exec;
pub mod file_copy;
pub mod laws;
pub mod links;
pub mod lookups;
pub mod names;
pub mod names_laws;
pub mod plan;
pub mod plan_laws;
pub mod probes;
pub mod run;
pub mod scan;
pub mod security;
pub mod session;
pub mod transfer;
