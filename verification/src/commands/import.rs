//! `import`: push a JSON file (or a directory of them) into the target store.
//! Imports write into the target store.

use vstd::prelude::*;

use crate::commands::export::{dir_of, files_in, resource_files};
use crate::resource::{by_name, kind_named, ResourceKind, UnknownResource};

verus! {

/// What `import <resource> <file>` does.
pub struct ImportPlan {
    pub resource: ResourceKind,
    pub file: String,
    pub store: Option<String>,
    pub dry_run: bool,
    pub no_bulk: bool,
}

/// Plans `import <resource> <file>`: the resource named, read from `file`.
pub fn run(
    resource_name: &str,
    file: String,
    store: Option<String>,
    dry_run: bool,
    no_bulk: bool,
) -> (r: Result<ImportPlan, UnknownResource>)
    ensures
        match r {
            Ok(p) => kind_named(resource_name@) == Some(p.resource) && p.file == file && p.store
                == store && p.dry_run == dry_run && p.no_bulk == no_bulk,
            Err(e) => kind_named(resource_name@) is None && e.name@ == resource_name@,
        },
{
    match by_name(resource_name) {
        Ok(resource) => Ok(ImportPlan { resource, file, store, dry_run, no_bulk }),
        Err(e) => Err(e),
    }
}

/// What `import --all` does: import each resource from its file in `dir`, in
/// dependency order; a resource whose file is missing is skipped.
pub struct ImportAllPlan {
    pub dir: String,
    pub store: Option<String>,
    pub files: Vec<(ResourceKind, String)>,
    pub dry_run: bool,
    pub no_bulk: bool,
}

/// Plans `import --all`: every resource, in clone order, from `dir` (by
/// default `shoptools_exports`), one `<resource>.json` each.
pub fn run_all(store: Option<String>, dir: Option<String>, dry_run: bool, no_bulk: bool) -> (r:
    ImportAllPlan)
    ensures
        r.dir@ == dir_of(dir),
        r.store == store,
        r.dry_run == dry_run,
        r.no_bulk == no_bulk,
        files_in(r.dir@, r.files@),
{
    let dir = match dir {
        Some(d) => d,
        None => crate::json::owned("shoptools_exports"),
    };
    let files = resource_files(dir.as_str());
    ImportAllPlan { dir, store, files, dry_run, no_bulk }
}

/// `import_one` may answer the file `path` of resource `kind` with success
/// (`out` is `Ok`) or with the error `out` holds.
pub open spec fn imported<E, F: Fn(ResourceKind, &str) -> Result<(), E>>(
    import_one: F,
    kind: ResourceKind,
    path: Seq<char>,
    out: Result<(), E>,
) -> bool {
    exists|s: &str, o: Result<(), E>|
        #![trigger import_one.ensures((kind, s), o)]
        s@ == path && import_one.ensures((kind, s), o) && match out {
            Ok(_) => o is Ok,
            Err(e) => o == Err::<(), E>(e),
        }
}

/// The first `m` files were imported, and the next one failed with `e`.
pub open spec fn stopped_at<E, F: Fn(ResourceKind, &str) -> Result<(), E>>(
    import_one: F,
    files: Seq<(ResourceKind, String)>,
    m: int,
    e: E,
) -> bool {
    &&& 0 <= m < files.len()
    &&& forall|i: int| 0 <= i < m ==> imported(import_one, (#[trigger] files[i]).0, files[i].1@, Ok(()))
    &&& imported(import_one, files[m].0, files[m].1@, Err(e))
}

/// Carries out `import --all`: `import_one` (which reads, parses and imports
/// one file, or skips it when it is missing) runs on each planned file in
/// order, and the first error stops the run and is returned.
pub fn import_each<E, F: Fn(ResourceKind, &str) -> Result<(), E>>(plan: &ImportAllPlan, import_one: &F) -> (r:
    Result<(), E>)
    requires
        forall|k: ResourceKind, s: &str| import_one.requires((k, s)),
    ensures
        match r {
            Ok(()) => forall|i: int|
                0 <= i < plan.files@.len() ==> imported(
                    *import_one,
                    (#[trigger] plan.files@[i]).0,
                    plan.files@[i].1@,
                    Ok(()),
                ),
            Err(e) => exists|m: int| #[trigger] stopped_at(*import_one, plan.files@, m, e),
        },
{
    let mut i: usize = 0;
    while i < plan.files.len()
        invariant
            i <= plan.files@.len(),
            forall|k: ResourceKind, s: &str| import_one.requires((k, s)),
            forall|j: int|
                0 <= j < i ==> imported(*import_one, (#[trigger] plan.files@[j]).0, plan.files@[j].1@, Ok(())),
        decreases plan.files@.len() - i,
    {
        let kind = plan.files[i].0;
        let path = plan.files[i].1.as_str();
        let res = import_one(kind, path);
        proof {
            assert(import_one.ensures((kind, path), res));
        }
        match res {
            Ok(()) => {
                proof {
                    assert(imported(*import_one, kind, path@, Ok(())));
                }
            },
            Err(e) => {
                proof {
                    assert(imported(*import_one, kind, path@, Err(e)));
                    assert(stopped_at(*import_one, plan.files@, i as int, e));
                }
                return Err(e);
            },
        }
        i = i + 1;
    }
    Ok(())
}

} // verus!
