//! The user-facing verbs: what each one decides, given what the caller read.

pub mod clone;
pub mod export;
pub mod import;
pub mod query;
pub mod store;
