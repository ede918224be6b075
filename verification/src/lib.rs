//! shopli — the logic of a Shopify store-development CLI, verified.
//!
//! `cli` is the shape of the command line; [`run`] turns one command line into
//! what is to be done. `commands` plans each verb, `config` holds the store
//! credentials, `client` makes the Admin API client's decisions, `bulk`
//! frames and reassembles bulk operations, and `resource` turns each
//! resource between the shape the Admin API reads and the shape it writes.
//! `json`, `text` and `lookup` are the values these work on.

pub mod json;
pub mod json_text;
pub mod decimal;
pub mod lookup;
pub mod client;
pub mod bulk;
pub mod text;
pub mod config;
pub mod cli;
pub mod commands;
pub mod resource;

use vstd::prelude::*;

use crate::cli::{Cli, Command, StoreCommand};
use crate::commands::export::{dir_of, file_name, files_in, ExportAllPlan, ExportPlan};
use crate::commands::import::{ImportAllPlan, ImportPlan};
use crate::commands::query::QueryPlan;
use crate::resource::{kind_named, UnknownResource};

verus! {

/// What one command line asks for.
pub enum Dispatch {
    /// Run a `store` sub-verb against the config file.
    Store { command: StoreCommand },
    /// Run a raw query.
    Query(QueryPlan),
    /// Export one resource.
    Export(ExportPlan),
    /// Export every resource.
    ExportAll(ExportAllPlan),
    /// Import one resource.
    Import(ImportPlan),
    /// Import every resource.
    ImportAll(ImportAllPlan),
    /// Clone resources between two configured stores.
    Clone { from: String, to: String, only: Vec<String>, dry_run: bool },
}

/// The command lines [`run`] takes: without `--all`, `export` names a
/// resource, and `import` a resource and a file (the argument parser makes
/// sure of it).
pub open spec fn complete(cli: Cli) -> bool {
    match cli.command {
        Command::Export { resource, all, .. } => !all ==> resource is Some,
        Command::Import { resource, all, file, .. } => !all ==> resource is Some && file is Some,
        _ => true,
    }
}

/// Turns a command line into what is to be done: each verb goes to its
/// command's plan, `--all` to the plan over every resource.
pub fn run(cli: Cli) -> (r: Result<Dispatch, UnknownResource>)
    requires
        complete(cli),
    ensures
        match cli.command {
            Command::Store { command } => r matches Ok(Dispatch::Store { command: c }) && c
                == command,
            Command::Query { query, store, json } => r matches Ok(Dispatch::Query(p)) && p.query
                == query && p.store == store && p.json == json,
            Command::Export { resource, all, store, out, dir, no_bulk } => if all {
                r matches Ok(Dispatch::ExportAll(p)) && p.dir@ == dir_of(dir) && p.store == store
                    && p.no_bulk == no_bulk && files_in(p.dir@, p.files@)
            } else {
                match r {
                    Ok(Dispatch::Export(p)) => kind_named(resource->Some_0@) == Some(p.resource)
                        && p.store == store && p.no_bulk == no_bulk && p.path@ == match out {
                        Some(o) => o@,
                        None => file_name(p.resource),
                    },
                    Err(e) => kind_named(resource->Some_0@) is None && e.name@ == resource->Some_0@,
                    _ => false,
                }
            },
            Command::Import { resource, all, file, dir, store, dry_run, no_bulk } => if all {
                r matches Ok(Dispatch::ImportAll(p)) && p.dir@ == dir_of(dir) && p.store == store
                    && p.dry_run == dry_run && p.no_bulk == no_bulk && files_in(p.dir@, p.files@)
            } else {
                match r {
                    Ok(Dispatch::Import(p)) => kind_named(resource->Some_0@) == Some(p.resource)
                        && p.file == file->Some_0 && p.store == store && p.dry_run == dry_run
                        && p.no_bulk == no_bulk,
                    Err(e) => kind_named(resource->Some_0@) is None && e.name@ == resource->Some_0@,
                    _ => false,
                }
            },
            Command::Clone { from, to, only, dry_run } => r matches Ok(
                Dispatch::Clone { from: f, to: t, only: o, dry_run: d },
            ) && f == from && t == to && o == only && d == dry_run,
        },
{
    match cli.command {
        Command::Store { command } => Ok(Dispatch::Store { command }),
        Command::Query { query, store, json } => Ok(
            Dispatch::Query(commands::query::run(query, store, json)),
        ),
        Command::Export { resource, all, store, out, dir, no_bulk } => {
            if all {
                Ok(Dispatch::ExportAll(commands::export::run_all(store, dir, no_bulk)))
            } else {
                let name = match resource {
                    Some(n) => n,
                    None => String::new(),
                };
                match commands::export::run(name.as_str(), store, out, no_bulk) {
                    Ok(p) => Ok(Dispatch::Export(p)),
                    Err(e) => Err(e),
                }
            }
        },
        Command::Import { resource, all, file, dir, store, dry_run, no_bulk } => {
            if all {
                Ok(Dispatch::ImportAll(commands::import::run_all(store, dir, dry_run, no_bulk)))
            } else {
                let name = match resource {
                    Some(n) => n,
                    None => String::new(),
                };
                let file = match file {
                    Some(f) => f,
                    None => String::new(),
                };
                match commands::import::run(name.as_str(), file, store, dry_run, no_bulk) {
                    Ok(p) => Ok(Dispatch::Import(p)),
                    Err(e) => Err(e),
                }
            }
        },
        Command::Clone { from, to, only, dry_run } => Ok(Dispatch::Clone { from, to, only, dry_run }),
    }
}

} // verus!
