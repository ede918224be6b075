//! `clone --from A --to B`: export each resource from store A and import it
//! into store B. Both stores are named, so both come from the config file.

use vstd::prelude::*;

use crate::config::{Config, ConfigError, CredV, StoreCredential};
use crate::resource::{all, by_name, clone_order, kind_named, ResourceKind, UnknownResource};

verus! {

/// Why a clone cannot start.
pub enum CloneError {
    /// A store is not configured.
    Config(ConfigError),
    /// A resource named with `--only` does not exist.
    Resource(UnknownResource),
}

/// What `clone` does: copy each resource, in order, from one store to the
/// other.
pub struct ClonePlan {
    pub from: StoreCredential,
    pub to: StoreCredential,
    pub resources: Vec<ResourceKind>,
    pub dry_run: bool,
}

/// The resources a clone copies: every one, in clone order, when none is
/// named; else the named ones, in the order given.
pub open spec fn clone_resources(only: Seq<String>, r: Seq<ResourceKind>) -> bool {
    if only.len() == 0 {
        r == clone_order()
    } else {
        r.len() == only.len() && forall|i: int|
            0 <= i < only.len() ==> kind_named((#[trigger] only[i])@) == Some(r[i])
    }
}

/// `name` is the first of `only` that names no resource.
pub open spec fn first_unknown(only: Seq<String>, name: Seq<char>) -> bool {
    exists|i: int|
        0 <= i < only.len() && #[trigger] kind_named(only[i]@) is None && name == only[i]@ && forall|j: int|
            0 <= j < i ==> kind_named((#[trigger] only[j])@) is Some
}

/// The resources named with `--only`, or the first name that is unknown.
fn named_resources(only: &Vec<String>) -> (r: Result<Vec<ResourceKind>, UnknownResource>)
    ensures
        match r {
            Ok(v) => v@.len() == only@.len() && forall|i: int|
                0 <= i < only@.len() ==> kind_named((#[trigger] only@[i])@) == Some(v@[i]),
            Err(e) => first_unknown(only@, e.name@),
        },
{
    let mut out: Vec<ResourceKind> = Vec::new();
    let mut i: usize = 0;
    while i < only.len()
        invariant
            i <= only@.len(),
            out@.len() == i,
            forall|j: int| 0 <= j < i ==> kind_named((#[trigger] only@[j])@) == Some(out@[j]),
        decreases only@.len() - i,
    {
        match by_name(only[i].as_str()) {
            Ok(k) => out.push(k),
            Err(e) => {
                return Err(e);
            },
        }
        i = i + 1;
    }
    Ok(out)
}

/// Plans `clone`: the source and target credentials from `config`, then the
/// resources to copy (see [`clone_resources`]).
pub fn run(config: &Config, from: &str, to: &str, only: &Vec<String>, dry_run: bool) -> (r: Result<
    ClonePlan,
    CloneError,
>)
    requires
        config@.wf(),
    ensures
        match r {
            Ok(p) => config@.get(Some(from@)) == Ok::<CredV, Option<Seq<char>>>(p.from@)
                && config@.get(Some(to@)) == Ok::<CredV, Option<Seq<char>>>(p.to@) && clone_resources(
                only@,
                p.resources@,
            ) && p.dry_run == dry_run,
            Err(CloneError::Config(ConfigError::UnknownStore { name })) => (config@.get(Some(from@))
                is Err && name@ == from@) || (config@.get(Some(from@)) is Ok && config@.get(
                Some(to@),
            ) is Err && name@ == to@),
            Err(CloneError::Config(ConfigError::NoDefault)) => false,
            Err(CloneError::Resource(e)) => config@.get(Some(from@)) is Ok && config@.get(
                Some(to@),
            ) is Ok && only@.len() > 0 && first_unknown(only@, e.name@),
        },
{
    let from_cred = match config.get(Some(from)) {
        Ok(c) => c.duplicate(),
        Err(e) => {
            return Err(CloneError::Config(e));
        },
    };
    let to_cred = match config.get(Some(to)) {
        Ok(c) => c.duplicate(),
        Err(e) => {
            return Err(CloneError::Config(e));
        },
    };
    let resources = if only.len() == 0 {
        all()
    } else {
        match named_resources(only) {
            Ok(v) => v,
            Err(e) => {
                return Err(CloneError::Resource(e));
            },
        }
    };
    Ok(ClonePlan { from: from_cred, to: to_cred, resources, dry_run })
}

} // verus!
