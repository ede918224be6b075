//! `query <graphql>`: run a raw Admin GraphQL query against the source store.

use vstd::prelude::*;

use crate::json::Json;

verus! {

/// What `query` does: send `query` with no variables to the store named by
/// `store` (or the environment's or the default one), and print the answer's
/// `data`, as indented JSON when `json` is set.
pub struct QueryPlan {
    pub query: String,
    pub variables: Json,
    pub store: Option<String>,
    pub json: bool,
}

/// Plans `query`: the query is sent as it is, with an empty object of
/// variables.
pub fn run(query: String, store: Option<String>, json: bool) -> (r: QueryPlan)
    ensures
        r.query == query,
        r.variables@ == crate::json::JsonV::Object(Seq::empty()),
        r.store == store,
        r.json == json,
{
    QueryPlan { query, variables: Json::empty_object(), store, json }
}

} // verus!
