//! `export`: pull a resource (or every resource) from the source store into
//! JSON files. Exports read from the source store.

use vstd::prelude::*;

use crate::resource::{all, by_name, clone_order, kind_name, kind_named, ResourceKind, UnknownResource};
use crate::text::{join, joined};

verus! {

/// The file a resource is exported to, or imported from: `<name>.json`.
pub open spec fn file_name(k: ResourceKind) -> Seq<char> {
    kind_name(k) + ".json"@
}

/// The directory used when none is given.
pub open spec fn default_dir() -> Seq<char> {
    "shoptools_exports"@
}

/// The file name a resource is exported to (see [`file_name`]).
pub fn file_name_of(k: ResourceKind) -> (r: String)
    ensures
        r@ == file_name(k),
{
    let mut s = crate::json::owned(k.name());
    s.append(".json");
    s
}

/// What `export <resource>` does: export `resource` from the source store
/// (named by `store`, or the environment's or the default one) into `path`.
pub struct ExportPlan {
    pub resource: ResourceKind,
    pub store: Option<String>,
    pub path: String,
    pub no_bulk: bool,
}

/// Plans `export <resource>`: the resource named, written to `out` or, when no
/// file is given, to `<resource>.json`.
pub fn run(resource_name: &str, store: Option<String>, out: Option<String>, no_bulk: bool) -> (r: Result<
    ExportPlan,
    UnknownResource,
>)
    ensures
        match r {
            Ok(p) => kind_named(resource_name@) == Some(p.resource) && p.store == store && p.no_bulk
                == no_bulk && p.path@ == match out {
                Some(o) => o@,
                None => file_name(p.resource),
            },
            Err(e) => kind_named(resource_name@) is None && e.name@ == resource_name@,
        },
{
    let resource = match by_name(resource_name) {
        Ok(k) => k,
        Err(e) => {
            return Err(e);
        },
    };
    let path = match out {
        Some(o) => o,
        None => file_name_of(resource),
    };
    Ok(ExportPlan { resource, store, path, no_bulk })
}

/// What `export --all` does: create `dir`, then export each resource into its
/// file there, in order.
pub struct ExportAllPlan {
    pub dir: String,
    pub store: Option<String>,
    pub files: Vec<(ResourceKind, String)>,
    pub no_bulk: bool,
}

/// The directory given, or the default one.
pub open spec fn dir_of(dir: Option<String>) -> Seq<char> {
    match dir {
        Some(d) => d@,
        None => default_dir(),
    }
}

/// Every resource, in clone order, with its file in `dir`.
pub open spec fn files_in(dir: Seq<char>, files: Seq<(ResourceKind, String)>) -> bool {
    &&& files.len() == clone_order().len()
    &&& forall|i: int|
        0 <= i < files.len() ==> (#[trigger] files[i]).0 == clone_order()[i] && files[i].1@
            == joined(dir, file_name(clone_order()[i]))
}

/// Each resource, in clone order, with its file in `dir`.
pub fn resource_files(dir: &str) -> (r: Vec<(ResourceKind, String)>)
    ensures
        files_in(dir@, r@),
{
    let kinds = all();
    let mut out: Vec<(ResourceKind, String)> = Vec::new();
    let mut i: usize = 0;
    while i < kinds.len()
        invariant
            i <= kinds@.len(),
            kinds@ == clone_order(),
            out@.len() == i,
            forall|j: int|
                0 <= j < i ==> (#[trigger] out@[j]).0 == clone_order()[j] && out@[j].1@ == joined(
                    dir@,
                    file_name(clone_order()[j]),
                ),
        decreases kinds@.len() - i,
    {
        let k = kinds[i];
        let f = file_name_of(k);
        out.push((k, join(dir, f.as_str())));
        i = i + 1;
    }
    out
}

/// Plans `export --all`: every resource, in clone order, into `dir` (by
/// default `shoptools_exports`), one `<resource>.json` each.
pub fn run_all(store: Option<String>, dir: Option<String>, no_bulk: bool) -> (r: ExportAllPlan)
    ensures
        r.dir@ == dir_of(dir),
        r.store == store,
        r.no_bulk == no_bulk,
        files_in(r.dir@, r.files@),
{
    let dir = match dir {
        Some(d) => d,
        None => crate::json::owned("shoptools_exports"),
    };
    let files = resource_files(dir.as_str());
    ExportAllPlan { dir, store, files, no_bulk }
}

} // verus!
