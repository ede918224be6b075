//! The shape of the command line: the verbs and their arguments.

use vstd::prelude::*;

verus! {

/// The whole command line: one verb.
pub struct Cli {
    pub command: Command,
}

/// The top-level verbs. Each variant's fields are its arguments and flags.
pub enum Command {
    /// Manage store credentials (no network calls).
    Store { command: StoreCommand },
    /// Run a raw Admin GraphQL query against a store.
    Query { query: String, store: Option<String>, json: bool },
    /// Export a resource (or all of them) from a store to JSON files.
    Export {
        resource: Option<String>,
        all: bool,
        store: Option<String>,
        out: Option<String>,
        dir: Option<String>,
        no_bulk: bool,
    },
    /// Import a resource (or all of them) into a store from JSON files.
    Import {
        resource: Option<String>,
        all: bool,
        file: Option<String>,
        dir: Option<String>,
        store: Option<String>,
        dry_run: bool,
        no_bulk: bool,
    },
    /// Clone resources from one store into another.
    Clone { from: String, to: String, only: Vec<String>, dry_run: bool },
}

/// Sub-verbs under `store`.
pub enum StoreCommand {
    /// Add or update a store credential.
    Add { name: String, shop: String, token: Option<String> },
    /// List configured stores (the default is marked).
    List,
    /// Set the default store.
    Use { name: String },
    /// Remove a store.
    Remove { name: String },
}

} // verus!
