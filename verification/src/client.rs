//! The decisions of the Admin API client: where requests go, when a throttled
//! request is retried and after how long, how a paginated query advances, and
//! how an id is read out of a lookup's answer. The caller sends the requests.

use vstd::prelude::*;

use crate::json::{seq_view, str_eq, Json, JsonV};

verus! {

/// The Admin API version targeted (Shopify versions the API by quarter).
pub const API_VERSION: &'static str = "2026-07";

/// How many times a request that Shopify throttled is retried.
pub const MAX_THROTTLE_RETRIES: u32 = 5;

/// The Admin GraphQL endpoint of a shop.
pub open spec fn endpoint_spec(shop: Seq<char>) -> Seq<char> {
    "https://"@ + shop + "/admin/api/"@ + "2026-07"@ + "/graphql.json"@
}

/// The Admin GraphQL endpoint of a shop, e.g.
/// `https://acme.myshopify.com/admin/api/2026-07/graphql.json`.
pub fn endpoint(shop: &str) -> (r: String)
    ensures
        r@ == endpoint_spec(shop@),
{
    let mut url = crate::json::owned("https://");
    url.append(shop);
    url.append("/admin/api/");
    url.append(API_VERSION);
    url.append("/graphql.json");
    proof {
        reveal_strlit("2026-07");
    }
    url
}

/// Some error of a GraphQL `errors` list is Shopify's throttle signal,
/// `extensions.code == "THROTTLED"`.
pub open spec fn throttled(errors: JsonV) -> bool {
    match errors {
        JsonV::Array(es) => exists|i: int|
            0 <= i < es.len() && (#[trigger] es[i]).at("extensions"@).at("code"@) == JsonV::Str(
                "THROTTLED"@,
            ),
        _ => false,
    }
}

/// Whether a GraphQL `errors` value reports throttling (see [`throttled`]).
pub fn is_throttled(errors: &Json) -> (r: bool)
    ensures
        r == throttled(errors@),
{
    let es = match errors.as_array() {
        Some(es) => es,
        None => {
            return false;
        },
    };
    let ghost ev = seq_view(es@);
    proof {
        crate::json::lemma_seq_view(es@);
    }
    let mut i: usize = 0;
    while i < es.len()
        invariant
            i <= es@.len(),
            errors@ == JsonV::Array(ev),
            ev == seq_view(es@),
            ev.len() == es@.len(),
            forall|j: int| 0 <= j < es@.len() ==> #[trigger] ev[j] == es@[j]@,
            forall|j: int|
                0 <= j < i ==> (#[trigger] ev[j]).at("extensions"@).at("code"@) != JsonV::Str(
                    "THROTTLED"@,
                ),
        decreases es@.len() - i,
    {
        let code = es[i].at("extensions").at("code");
        let hit = match code.as_str() {
            Some(c) => str_eq(c.as_str(), "THROTTLED"),
            None => false,
        };
        if hit {
            proof {
                assert(ev[i as int].at("extensions"@).at("code"@) == JsonV::Str("THROTTLED"@));
                assert(errors@ == JsonV::Array(ev));
            }
            return true;
        }
        i = i + 1;
    }
    false
}

/// The wait before retry number `attempt + 1`: one second, doubling each time.
pub open spec fn backoff_secs(attempt: nat) -> nat
    decreases attempt,
{
    if attempt == 0 {
        1
    } else {
        2 * backoff_secs((attempt - 1) as nat)
    }
}

/// What to do with one GraphQL response.
pub enum GraphqlStep {
    /// Throttled: wait `wait_secs` seconds, then send the same request again
    /// as attempt `attempt`.
    Retry { wait_secs: u64, attempt: u32 },
    /// Failed with these `errors`.
    Fail { errors: Json },
    /// Succeeded with this `data`.
    Done { data: Json },
}

/// The decision for a response to attempt `attempt` (counted from 0): a
/// response without `errors` succeeds with its `data`; a throttled one is
/// retried while fewer than [`MAX_THROTTLE_RETRIES`] retries were made; any
/// other fails with its errors.
pub open spec fn step_spec(response: JsonV, attempt: u32, step: GraphqlStep) -> bool {
    let errors = response.at("errors"@);
    if errors is Null {
        step matches GraphqlStep::Done { data } && data@ == response.at("data"@)
    } else if throttled(errors) && attempt < 5 {
        step matches GraphqlStep::Retry { wait_secs, attempt: next } && wait_secs
            == backoff_secs(attempt as nat) && next == attempt + 1
    } else {
        step matches GraphqlStep::Fail { errors: e } && e@ == errors
    }
}

/// Decides what to do with the response to attempt `attempt` (see
/// [`step_spec`]).
pub fn graphql_step(response: &Json, attempt: u32) -> (r: GraphqlStep)
    ensures
        step_spec(response@, attempt, r),
{
    let errors = response.at("errors");
    if errors.is_null() {
        return GraphqlStep::Done { data: response.at("data") };
    }
    if is_throttled(&errors) && attempt < MAX_THROTTLE_RETRIES {
        let mut wait: u64 = 1;
        let mut k: u32 = 0;
        while k < attempt
            invariant
                k <= attempt,
                attempt < 5,
                wait == backoff_secs(k as nat),
                wait <= 16,
                k < 5 ==> wait * 2 <= 32,
            decreases attempt - k,
        {
            proof {
                assert(backoff_secs((k + 1) as nat) == 2 * backoff_secs(k as nat));
                if k + 1 < 5 {
                    lemma_backoff_bound((k + 1) as nat);
                }
            }
            wait = wait * 2;
            k = k + 1;
        }
        return GraphqlStep::Retry { wait_secs: wait, attempt: attempt + 1 };
    }
    GraphqlStep::Fail { errors }
}

proof fn lemma_backoff_bound(a: nat)
    requires
        a < 5,
    ensures
        backoff_secs(a) <= 16,
{
    reveal_with_fuel(backoff_secs, 5);
}

/// The nodes of one page of a connection (none when `nodes` is not a list).
pub open spec fn page_nodes(conn: JsonV) -> Seq<JsonV> {
    match conn.at("nodes"@) {
        JsonV::Array(a) => a,
        _ => Seq::empty(),
    }
}

/// Where the next page starts: the page's `endCursor`, when `hasNextPage` is
/// `true` and there is a cursor to advance to; else the query is done.
pub open spec fn next_cursor(conn: JsonV) -> Option<Seq<char>> {
    let page = conn.at("pageInfo"@);
    if page.at("hasNextPage"@) == JsonV::Bool(true) {
        match page.at("endCursor"@) {
            JsonV::Str(c) => Some(c),
            _ => None,
        }
    } else {
        None
    }
}

/// Takes one page of a connection: its nodes are added to `all`, and the
/// cursor of the next page, if there is one to fetch, is returned.
pub fn page_step(conn: &Json, all: &mut Vec<Json>) -> (r: Option<String>)
    ensures
        seq_view(final(all)@) == seq_view(old(all)@) + page_nodes(conn@),
        match r {
            Some(c) => next_cursor(conn@) == Some(c@),
            None => next_cursor(conn@) is None,
        },
{
    if let Json::Array(nodes) = conn.at("nodes") {
        let ghost start = seq_view(all@);
        let ghost nv = seq_view(nodes@);
        proof {
            crate::json::lemma_seq_view(nodes@);
        }
        let mut i: usize = 0;
        while i < nodes.len()
            invariant
                i <= nodes@.len(),
                nv == seq_view(nodes@),
                nv.len() == nodes@.len(),
                forall|j: int| 0 <= j < nodes@.len() ==> #[trigger] nv[j] == nodes@[j]@,
                seq_view(all@) == start + nv.take(i as int),
            decreases nodes@.len() - i,
        {
            let n = nodes[i].duplicate();
            proof {
                crate::json::lemma_seq_view_push(all@, n);
                assert(start + nv.take(i + 1) =~= (start + nv.take(i as int)).push(nv[i as int]));
            }
            all.push(n);
            i = i + 1;
        }
        proof {
            assert(nv.take(nodes@.len() as int) =~= nv);
        }
    } else {
        assert(seq_view(all@) =~= seq_view(all@) + Seq::<JsonV>::empty());
    }
    let page = conn.at("pageInfo");
    let more = match page.get("hasNextPage") {
        Some(b) => match b.as_bool() {
            Some(x) => x,
            None => false,
        },
        None => false,
    };
    if !more {
        return None;
    }
    match page.str_at("endCursor") {
        Some(c) => Some(c.clone()),
        None => None,
    }
}

/// The variables of one page request: the query's own variables with
/// `cursor` set (to `null` on the first page).
pub open spec fn page_variables(variables: JsonV, cursor: Option<Seq<char>>) -> JsonV {
    variables.set(
        "cursor"@,
        match cursor {
            Some(c) => JsonV::Str(c),
            None => JsonV::Null,
        },
    )
}

/// The variables of one page request (see [`page_variables`]).
pub fn with_cursor(variables: &Json, cursor: &Option<String>) -> (r: Json)
    requires
        crate::json::settable(variables@),
    ensures
        r@ == page_variables(
            variables@,
            match cursor {
                Some(c) => Some(c@),
                None => None,
            },
        ),
{
    let mut vars = variables.duplicate();
    vars.set(crate::json::owned("cursor"), Json::opt_text(cursor));
    vars
}

/// The id a lookup query answers: `data[field].id`, when it is a string.
pub open spec fn found_id_spec(data: JsonV, field: Seq<char>) -> Option<Seq<char>> {
    match data.at(field).at("id"@) {
        JsonV::Str(id) => Some(id),
        _ => None,
    }
}

/// The id a lookup query answers (`None`: the target store has no such record).
pub fn found_id(data: &Json, field: &str) -> (r: Option<String>)
    ensures
        match r {
            Some(id) => found_id_spec(data@, field@) == Some(id@),
            None => found_id_spec(data@, field@) is None,
        },
{
    match data.at(field).str_at("id") {
        Some(id) => Some(id.clone()),
        None => None,
    }
}

/// The id of the first listed location named `name`, when that location has a
/// string id.
pub open spec fn location_id_spec(locations: Seq<JsonV>, name: Seq<char>) -> Option<Seq<char>> {
    if exists|i: int| 0 <= i < locations.len() && locations[i].at("name"@) == JsonV::Str(name) {
        let i = choose|i: int|
            0 <= i < locations.len() && locations[i].at("name"@) == JsonV::Str(name) && forall|j: int|
                0 <= j < i ==> locations[j].at("name"@) != JsonV::Str(name);
        match locations[i].at("id"@) {
            JsonV::Str(id) => Some(id),
            _ => None,
        }
    } else {
        None
    }
}

/// Finds a location by name among the target store's locations (see
/// [`location_id_spec`]).
pub fn find_location(locations: &Vec<Json>, name: &str) -> (r: Option<String>)
    ensures
        match r {
            Some(id) => location_id_spec(seq_view(locations@), name@) == Some(id@),
            None => location_id_spec(seq_view(locations@), name@) is None,
        },
{
    let ghost lv = seq_view(locations@);
    proof {
        crate::json::lemma_seq_view(locations@);
    }
    let mut i: usize = 0;
    while i < locations.len()
        invariant
            i <= locations@.len(),
            lv == seq_view(locations@),
            lv.len() == locations@.len(),
            forall|j: int| 0 <= j < locations@.len() ==> #[trigger] lv[j] == locations@[j]@,
            forall|j: int| 0 <= j < i ==> (#[trigger] lv[j]).at("name"@) != JsonV::Str(name@),
        decreases locations@.len() - i,
    {
        let hit = match locations[i].str_at("name") {
            Some(n) => str_eq(n.as_str(), name),
            None => false,
        };
        if hit {
            proof {
                let w = choose|w: int|
                    0 <= w < lv.len() && lv[w].at("name"@) == JsonV::Str(name@) && forall|j: int|
                        0 <= j < w ==> lv[j].at("name"@) != JsonV::Str(name@);
                assert(lv[i as int].at("name"@) == JsonV::Str(name@));
                if w < i {
                    assert(lv[w].at("name"@) != JsonV::Str(name@));
                }
                if w > i {
                    assert(lv[i as int].at("name"@) != JsonV::Str(name@));
                }
            }
            return match locations[i].str_at("id") {
                Some(id) => Some(id.clone()),
                None => None,
            };
        }
        i = i + 1;
    }
    None
}

/// A throttled request is retried at most [`MAX_THROTTLE_RETRIES`] times:
/// from that attempt on, no response is retried.
pub proof fn law_retries_are_bounded(response: JsonV, attempt: u32, step: GraphqlStep)
    requires
        step_spec(response, attempt, step),
        attempt >= MAX_THROTTLE_RETRIES,
    ensures
        !(step is Retry),
{
}

/// The waits between retries start at one second and double each time:
/// 1, 2, 4, 8 and 16 seconds.
pub proof fn law_backoff_doubles(attempt: nat)
    ensures
        backoff_secs(0) == 1,
        backoff_secs(attempt + 1) == 2 * backoff_secs(attempt),
{
}

/// A response without errors is answered with its data, whatever the attempt.
pub proof fn law_errorless_response_succeeds(response: JsonV, attempt: u32, step: GraphqlStep)
    requires
        step_spec(response, attempt, step),
        response.at("errors"@) is Null,
    ensures
        step matches GraphqlStep::Done { data } && data@ == response.at("data"@),
{
}

/// One request's run through the retry loop: `steps[i]` is the decision for
/// `responses[i]`, made at attempt `attempts[i]`; the run starts at attempt 0
/// and goes on only after a retry, at the attempt the retry names.
pub open spec fn retry_run(responses: Seq<JsonV>, attempts: Seq<u32>, steps: Seq<GraphqlStep>) -> bool {
    &&& responses.len() == attempts.len() == steps.len()
    &&& attempts.len() > 0 ==> attempts[0] == 0
    &&& forall|i: int| 0 <= i < steps.len() ==> step_spec(responses[i], attempts[i], #[trigger] steps[i])
    &&& forall|i: int|
        0 <= i < steps.len() - 1 ==> ((#[trigger] steps[i]) matches GraphqlStep::Retry { attempt, .. }
            && attempts[i + 1] == attempt)
}

/// A request is sent at most `1 + MAX_THROTTLE_RETRIES` times: the `i`-th
/// send is attempt `i`, the wait before the next one is `backoff_secs(i)`
/// (1, 2, 4, 8, 16 seconds), and when Shopify throttles every send the sixth
/// answer ends the run with a failure.
pub proof fn law_retry_run(responses: Seq<JsonV>, attempts: Seq<u32>, steps: Seq<GraphqlStep>)
    requires
        retry_run(responses, attempts, steps),
    ensures
        steps.len() <= 1 + MAX_THROTTLE_RETRIES,
        forall|i: int| 0 <= i < attempts.len() ==> #[trigger] attempts[i] == i,
        forall|i: int|
            0 <= i < steps.len() - 1 ==> ((#[trigger] steps[i]) matches GraphqlStep::Retry { wait_secs, .. }
                && wait_secs == backoff_secs(i as nat)),
        steps.len() == 1 + MAX_THROTTLE_RETRIES && (forall|i: int|
            0 <= i < responses.len() ==> !(#[trigger] responses[i].at("errors"@) is Null) && throttled(
                responses[i].at("errors"@),
            )) ==> steps[5] is Fail,
{
    assert forall|i: int| 0 <= i < attempts.len() implies #[trigger] attempts[i] == i by {
        lemma_attempt_is_index(responses, attempts, steps, i);
    }
    if steps.len() > 6 {
        assert(attempts[5] == 5);
        assert(steps[5] is Retry);
        assert(step_spec(responses[5], attempts[5], steps[5]));
    }
}

proof fn lemma_attempt_is_index(responses: Seq<JsonV>, attempts: Seq<u32>, steps: Seq<GraphqlStep>, i: int)
    requires
        retry_run(responses, attempts, steps),
        0 <= i < attempts.len(),
    ensures
        attempts[i] == i,
    decreases i,
{
    if i > 0 {
        lemma_attempt_is_index(responses, attempts, steps, i - 1);
        assert(steps[i - 1] is Retry);
        assert(step_spec(responses[i - 1], attempts[i - 1], steps[i - 1]));
    }
}

/// The nodes a paginated query collects from its pages, in order.
pub open spec fn collected(pages: Seq<JsonV>) -> Seq<JsonV>
    decreases pages.len(),
{
    if pages.len() == 0 {
        Seq::empty()
    } else {
        collected(pages.drop_last()) + page_nodes(pages.last())
    }
}

/// One paginated query: page `i` was requested with `cursors[i]`, starting
/// with none, each next cursor being the one the previous page gave, and the
/// last page giving none; `alls[i]` is what was collected before page `i`,
/// each page's nodes being added as [`page_step`] adds them.
pub open spec fn pagination_run(
    pages: Seq<JsonV>,
    cursors: Seq<Option<Seq<char>>>,
    alls: Seq<Seq<JsonV>>,
) -> bool {
    &&& pages.len() > 0
    &&& cursors.len() == pages.len()
    &&& alls.len() == pages.len() + 1
    &&& cursors[0] is None
    &&& alls[0] == Seq::<JsonV>::empty()
    &&& forall|i: int|
        0 <= i < pages.len() ==> #[trigger] alls[i + 1] == alls[i] + page_nodes(pages[i])
    &&& forall|i: int| 0 <= i < pages.len() - 1 ==> #[trigger] next_cursor(pages[i]) == cursors[i + 1]
        && cursors[i + 1] is Some
    &&& next_cursor(pages.last()) is None
}

/// A paginated query sends the first request without a cursor and each next
/// one with the cursor the previous page gave, stops at the first page that
/// gives none, and returns the nodes of all its pages, in order.
pub proof fn law_pagination_run(
    pages: Seq<JsonV>,
    cursors: Seq<Option<Seq<char>>>,
    alls: Seq<Seq<JsonV>>,
)
    requires
        pagination_run(pages, cursors, alls),
    ensures
        alls[pages.len() as int] == collected(pages),
        forall|i: int| 0 <= i < pages.len() - 1 ==> next_cursor(#[trigger] pages[i]) is Some,
{
    assert forall|k: int| 0 <= k <= pages.len() implies #[trigger] alls[k] == collected(pages.take(k)) by {
        lemma_collected_prefix(pages, cursors, alls, k);
    }
    assert(pages.take(pages.len() as int) =~= pages);
    assert(alls[pages.len() as int] == collected(pages.take(pages.len() as int)));
}

proof fn lemma_collected_prefix(
    pages: Seq<JsonV>,
    cursors: Seq<Option<Seq<char>>>,
    alls: Seq<Seq<JsonV>>,
    k: int,
)
    requires
        pagination_run(pages, cursors, alls),
        0 <= k <= pages.len(),
    ensures
        alls[k] == collected(pages.take(k)),
    decreases k,
{
    if k == 0 {
        assert(collected(pages.take(0)) =~= Seq::<JsonV>::empty());
    } else {
        lemma_collected_prefix(pages, cursors, alls, k - 1);
        assert(pages.take(k).drop_last() =~= pages.take(k - 1));
        assert(pages.take(k).last() == pages[k - 1]);
        let j = k - 1;
        assert(alls[j + 1] == alls[j] + page_nodes(pages[j]));
    }
}

/// Pagination stops unless the page says there is a next page and gives a
/// cursor to advance to, so a query without a cursor never loops.
pub proof fn law_pagination_needs_a_cursor(conn: JsonV)
    ensures
        next_cursor(conn) is Some ==> conn.at("pageInfo"@).at("hasNextPage"@) == JsonV::Bool(true)
            && conn.at("pageInfo"@).at("endCursor"@) == JsonV::Str(next_cursor(conn)->Some_0),
{
}

} // verus!
