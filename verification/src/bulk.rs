//! Bulk Operations: the pure parts of Shopify's server-side export/import.
//!
//! A bulk query streams nested connection nodes as separate flat JSONL lines
//! that carry a `__parentId`; [`reassemble`] rebuilds the nested export shape
//! from them. The rest of this module frames and checks what goes to and comes
//! back from the bulk endpoints.

use vstd::prelude::*;
use vstd::hash_map::StringHashMap;

use crate::json::{self, owned, str_eq, Json, JsonV};
use crate::json_text::{encode_json, json_text, parse_json, parsed_json};

verus! {

broadcast use vstd::std_specs::vec::group_vec_axioms;

/// Maps a nested connection's child `__typename` to the parent field the
/// reassembled children live under (e.g. `ProductVariant` → `variants`).
pub struct ChildSpec {
    /// The child node's GraphQL `__typename`, e.g. `"ProductVariant"`.
    pub typename: &'static str,
    /// The destination field on the parent, e.g. `"variants"`.
    pub field: &'static str,
}

/// The `__parentId` of a line, when it carries a string one.
pub open spec fn parent_id(line: JsonV) -> Option<Seq<char>> {
    match line.get("__parentId"@) {
        Some(JsonV::Str(p)) => Some(p),
        _ => None,
    }
}

/// The `id` of a root line, when it carries a string one.
pub open spec fn root_id(line: JsonV) -> Option<Seq<char>> {
    match line.get("id"@) {
        Some(JsonV::Str(p)) => Some(p),
        _ => None,
    }
}

pub open spec fn typenames(children: Seq<ChildSpec>) -> Seq<Seq<char>> {
    Seq::new(children.len(), |i: int| children[i].typename@)
}

/// Which child spec a child line is routed by: the only one when there is
/// exactly one, otherwise the first whose typename is the line's `__typename`.
pub open spec fn route(line: JsonV, children: Seq<ChildSpec>) -> Option<int> {
    if children.len() == 1 {
        Some(0)
    } else {
        match line.get("__typename"@) {
            Some(JsonV::Str(t)) => json::first_pos(typenames(children), t),
            _ => None,
        }
    }
}

/// A line with its transport-only keys removed: `__parentId` and `__typename`,
/// and for a child also its `id`.
pub open spec fn stripped(line: JsonV, is_child: bool) -> JsonV {
    let l = line.remove("__parentId"@).remove("__typename"@);
    if is_child {
        l.remove("id"@)
    } else {
        l
    }
}

/// The connection object a child is appended to: an existing object field is
/// kept, anything else is replaced by `{ "nodes": [] }`; the child goes to the
/// end of its `nodes` array. A `nodes` entry that is missing becomes `null`
/// and one that is not an array is left as it is, dropping the child.
pub open spec fn with_child(conn: JsonV, child: JsonV) -> JsonV {
    let c = if conn is Object {
        conn
    } else {
        JsonV::Object(seq![("nodes"@, JsonV::Array(seq![]))])
    };
    match c.get("nodes"@) {
        Some(JsonV::Array(a)) => c.set("nodes"@, JsonV::Array(a.push(child))),
        Some(_) => c,
        None => c.set("nodes"@, JsonV::Null),
    }
}

/// A root after a child was appended under `field`.
pub open spec fn attach(root: JsonV, field: Seq<char>, child: JsonV) -> JsonV {
    root.set(field, with_child(root.at(field), child))
}

/// One line of the fold: roots so far, and the index from root id to position.
pub open spec fn reassemble_step(
    st: (Seq<JsonV>, Map<Seq<char>, int>),
    line: JsonV,
    children: Seq<ChildSpec>,
) -> (Seq<JsonV>, Map<Seq<char>, int>) {
    let roots = st.0;
    let index = st.1;
    match parent_id(line) {
        Some(p) => match route(line, children) {
            Some(j) => if index.contains_key(p) {
                let i = index[p];
                (roots.update(i, attach(roots[i], children[j].field@, stripped(line, true))), index)
            } else {
                st
            },
            None => st,
        },
        None => {
            let index2 = match root_id(line) {
                Some(id) => index.insert(id, roots.len() as int),
                None => index,
            };
            (roots.push(stripped(line, false)), index2)
        },
    }
}

pub open spec fn reassemble_fold(lines: Seq<JsonV>, children: Seq<ChildSpec>) -> (
    Seq<JsonV>,
    Map<Seq<char>, int>,
)
    decreases lines.len(),
{
    if lines.len() == 0 {
        (Seq::empty(), Map::empty())
    } else {
        reassemble_step(reassemble_fold(lines.drop_last(), children), lines.last(), children)
    }
}

/// The reassembled roots of a sequence of bulk lines.
///
/// Lines without a string `__parentId` are roots, kept in order. A line with
/// one is a child: it is routed to a child spec (see [`route`]), stripped, and
/// appended under that spec's field of the latest root whose `id` is the
/// child's `__parentId`; unroutable children and children of unknown parents
/// are dropped.
pub open spec fn reassemble_spec(lines: Seq<JsonV>, children: Seq<ChildSpec>) -> Seq<JsonV> {
    reassemble_fold(lines, children).0
}

/// Removes the transport-only keys the bulk export adds (see [`stripped`]).
pub fn strip_transport(line: &mut Json, is_child: bool)
    ensures
        final(line)@ == stripped(old(line)@, is_child),
{
    line.remove("__parentId");
    line.remove("__typename");
    if is_child {
        line.remove("id");
    }
}

/// The child spec a child line is routed by.
fn route_of(line: &Json, children: &[ChildSpec]) -> (r: Option<usize>)
    ensures
        match r {
            Some(j) => j < children@.len() && route(line@, children@) == Some(j as int),
            None => route(line@, children@) is None,
        },
{
    if children.len() == 1 {
        return Some(0);
    }
    let t = match line.get("__typename") {
        Some(Json::Str(t)) => t,
        _ => {
            return None;
        },
    };
    let ghost names = typenames(children@);
    let mut j: usize = 0;
    while j < children.len()
        invariant
            j <= children@.len(),
            names == typenames(children@),
            line@.get("__typename"@) == Some(JsonV::Str(t@)),
            children@.len() != 1,
            forall|k: int| 0 <= k < j ==> names[k] != t@,
        decreases children@.len() - j,
    {
        if str_eq(children[j].typename, t.as_str()) {
            proof {
                json::lemma_first_pos_found(names, t@, j as int);
            }
            return Some(j);
        }
        j = j + 1;
    }
    proof {
        json::lemma_first_pos_absent(names, t@);
    }
    None
}

/// Appends `child` to the `nodes` of a connection value (see [`with_child`]).
fn push_child(conn: Json, child: Json) -> (r: Json)
    ensures
        r@ == with_child(conn@, child@),
{
    let mut c = if conn.is_object() {
        conn
    } else {
        let mut es: Vec<(String, Json)> = Vec::new();
        let empty: Vec<Json> = Vec::new();
        es.push((owned("nodes"), Json::Array(empty)));
        proof {
            json::lemma_entries_view(es@);
            assert(json::seq_view(empty@) =~= seq![]);
            assert(json::entries_view(es@) =~= seq![("nodes"@, JsonV::Array(seq![]))]);
        }
        Json::Object(es)
    };
    let ghost c0 = c@;
    match c.take("nodes") {
        Some(Json::Array(a)) => {
            proof {
                json::lemma_seq_view_push(a@, child);
                json::lemma_set_set(c0, "nodes"@, JsonV::Null, JsonV::Array(json::seq_view(a@).push(child@)));
            }
            let mut a = a;
            a.push(child);
            c.set(owned("nodes"), Json::Array(a));
        }
        Some(other) => {
            proof {
                json::lemma_set_set(c0, "nodes"@, JsonV::Null, other@);
                json::lemma_set_same(c0, "nodes"@, other@);
            }
            c.set(owned("nodes"), other);
        }
        None => {
            c.set(owned("nodes"), Json::Null);
        }
    }
    c
}

/// Appends `child` under `field` of an object root (see [`attach`]).
fn attach_child(root: &mut Json, field: &str, child: Json)
    requires
        old(root)@ is Object,
    ensures
        final(root)@ == attach(old(root)@, field@, child@),
        final(root)@ is Object,
{
    let ghost r0 = root@;
    let conn = match root.take(field) {
        Some(v) => v,
        None => Json::Null,
    };
    let updated = push_child(conn, child);
    proof {
        json::lemma_set_set(r0, field@, JsonV::Null, updated@);
    }
    root.set(owned(field), updated);
}

/// Rebuilds the nested export shape from flat bulk JSONL lines (see
/// [`reassemble_spec`]).
pub fn reassemble(lines: Vec<Json>, children: &[ChildSpec]) -> (out: Vec<Json>)
    ensures
        json::seq_view(out@) == reassemble_spec(json::seq_view(lines@), children@),
{
    let ghost lv = json::seq_view(lines@);
    proof {
        json::lemma_seq_view(lines@);
    }
    let mut roots: Vec<Json> = Vec::new();
    let mut index: StringHashMap<usize> = StringHashMap::new();
    let ghost mut done: int = 0;
    for line in it: lines
        invariant
            lv == json::seq_view(it.seq()),
            lv.len() == it.seq().len(),
            forall|k: int| 0 <= k < lv.len() ==> #[trigger] lv[k] == it.seq()[k]@,
            ({
                let st = reassemble_fold(lv.take(it.index() as int), children@);
                &&& json::seq_view(roots@) == st.0
                &&& index@.dom() == st.1.dom()
                &&& forall|k: Seq<char>| #[trigger] index@.contains_key(k) ==> index@[k] as int == st.1[k]
            }),
            forall|k: Seq<char>| #[trigger] index@.contains_key(k) ==> index@[k] < roots@.len()
                && roots@[index@[k] as int]@ is Object,
    {
        let ghost pre = lv.take(it.index() as int);
        let ghost st = reassemble_fold(pre, children@);
        proof {
            assert(lv.take(it.index() + 1).drop_last() =~= pre);
            json::lemma_seq_view(roots@);
        }
        let pid: Option<String> = match line.get("__parentId") {
            Some(Json::Str(p)) => Some(p.clone()),
            _ => None,
        };
        match pid {
            Some(p) => {
                match route_of(&line, children) {
                    Some(j) => {
                        let mut child = line;
                        strip_transport(&mut child, true);
                        match index.get(p.as_str()) {
                            Some(i) => {
                                let i = *i;
                                attach_child(&mut roots[i], children[j].field, child);
                                proof {
                                    json::lemma_seq_view(roots@);
                                    assert(json::seq_view(roots@) =~= st.0.update(
                                        i as int,
                                        attach(st.0[i as int], children@[j as int].field@, stripped(lv[it.index() as int], true)),
                                    ));
                                }
                            }
                            None => {}
                        }
                    }
                    None => {}
                }
            }
            None => {
                let id: Option<String> = match line.get("id") {
                    Some(Json::Str(s)) => Some(s.clone()),
                    _ => None,
                };
                let mut root = line;
                strip_transport(&mut root, false);
                let n = roots.len();
                proof {
                    json::lemma_seq_view_push(roots@, root);
                }
                roots.push(root);
                match id {
                    Some(id) => {
                        index.insert(id, n);
                    }
                    None => {}
                }
            }
        }
    }
    proof {
        assert(lv.take(lv.len() as int) =~= lv);
    }
    roots
}

/// Why a bulk operation could not be submitted, polled or collected.
pub enum BulkError {
    /// `{op} returned userErrors: {errors}`.
    UserErrors { op: String, errors: Json },
    /// `{op} returned no bulkOperation id`.
    MissingOperationId { op: String },
    /// The JSONL variables file is over the staged-upload size limit.
    PayloadTooLarge { bytes: usize },
    /// `stagedUploadsCreate returned no target url`.
    MissingTargetUrl,
    /// `stagedUploadsCreate returned no parameters`.
    MissingParameters,
    /// `staged-upload parameters missing a 'key' entry`.
    MissingKey,
    /// `staged-upload parameter missing a name`.
    ParameterWithoutName,
    /// `{label} {id} failed with errorCode {error_code}`.
    Failed { label: String, id: String, error_code: Json },
    /// `{label} {id} ended in unexpected status {status:?}`.
    UnexpectedStatus { label: String, id: String, status: Option<String> },
}

/// Shopify rejects staged-upload variables files larger than 100 MB.
pub const MAX_JSONL_BYTES: usize = 104857600;

/// `payload.userErrors` is a non-empty array.
pub open spec fn has_user_errors(payload: JsonV) -> bool {
    match payload.at("userErrors"@) {
        JsonV::Array(a) => a.len() > 0,
        _ => false,
    }
}

pub fn user_errors_present(payload: &Json) -> (r: bool)
    ensures
        r == has_user_errors(payload@),
{
    match payload.get("userErrors") {
        Some(Json::Array(a)) => {
            proof {
                json::lemma_seq_view(a@);
            }
            a.len() > 0
        }
        _ => false,
    }
}

/// The id of a just-submitted bulk operation in the response `data`, or why
/// there is none.
pub open spec fn submitted_id(data: JsonV, op: Seq<char>) -> Result<Seq<char>, ()> {
    let payload = data.at(op);
    if has_user_errors(payload) {
        Err(())
    } else {
        match payload.at("bulkOperation"@).at("id"@) {
            JsonV::Str(id) => Ok(id),
            _ => Err(()),
        }
    }
}

/// Reads the bulk operation id out of a `bulkOperationRunQuery` /
/// `bulkOperationRunMutation` response, failing on user errors first.
pub fn submitted_operation(data: &Json, op: &str) -> (r: Result<String, BulkError>)
    ensures
        match r {
            Ok(id) => submitted_id(data@, op@) == Ok::<Seq<char>, ()>(id@),
            Err(BulkError::UserErrors { op: o, errors }) => has_user_errors(data@.at(op@))
                && o@ == op@ && errors@ == data@.at(op@).at("userErrors"@),
            Err(BulkError::MissingOperationId { op: o }) => !has_user_errors(data@.at(op@))
                && submitted_id(data@, op@) is Err && o@ == op@,
            Err(_) => false,
        },
{
    let payload = data.at(op);
    if user_errors_present(&payload) {
        return Err(BulkError::UserErrors { op: owned(op), errors: payload.at("userErrors") });
    }
    let operation = payload.at("bulkOperation");
    match operation.str_at("id") {
        Some(id) => Ok(id.clone()),
        None => Err(BulkError::MissingOperationId { op: owned(op) }),
    }
}

/// A bulk operation status after which polling stops.
pub open spec fn is_terminal(status: Seq<char>) -> bool {
    ||| status == "COMPLETED"@
    ||| status == "FAILED"@
    ||| status == "CANCELED"@
    ||| status == "CANCELING"@
    ||| status == "EXPIRED"@
}

/// The status of a polled operation node (`""` when it has none).
pub open spec fn status_of(node: JsonV) -> Seq<char> {
    match node.at("status"@) {
        JsonV::Str(s) => s,
        _ => Seq::empty(),
    }
}

/// Reads a polled node's status and whether polling is over.
pub fn poll_status(node: &Json) -> (r: (String, bool))
    ensures
        r.0@ == status_of(node@),
        r.1 == is_terminal(status_of(node@)),
{
    let status = match node.str_at("status") {
        Some(s) => s.clone(),
        None => String::new(),
    };
    let st = status.as_str();
    let done = str_eq(st, "COMPLETED") || str_eq(st, "FAILED") || str_eq(st, "CANCELED")
        || str_eq(st, "CANCELING") || str_eq(st, "EXPIRED");
    (status, done)
}

/// The pause, in seconds, after one that lasted `backoff`: doubling up to 4,
/// then a flat 10.
pub open spec fn backoff_after(backoff: u64) -> u64 {
    if backoff < 4 {
        (backoff * 2) as u64
    } else {
        10
    }
}

pub fn next_backoff(backoff: u64) -> (r: u64)
    ensures
        r == backoff_after(backoff),
{
    if backoff < 4 {
        backoff * 2
    } else {
        10
    }
}

/// How long polling goes on before giving up, in nanoseconds (30 minutes).
pub const POLL_TIMEOUT_NANOS: u128 = 1800000000000;

/// What follows one status poll.
pub enum PollStep {
    /// The operation reached a terminal status: polling is over.
    Done,
    /// The operation is still `status` and the time is up.
    TimedOut { status: String },
    /// Sleep `secs` seconds, poll again, and then wait `next` seconds.
    Wait { secs: u64, next: u64 },
}

/// The decision after polling a node `elapsed_nanos` after the start, with
/// `backoff` the wait due now: stop on a terminal status; give up once more
/// than [`POLL_TIMEOUT_NANOS`] have passed; else wait `backoff` seconds and
/// then the next backoff.
pub fn poll_step(node: &Json, elapsed_nanos: u128, backoff: u64) -> (r: PollStep)
    ensures
        match r {
            PollStep::Done => is_terminal(status_of(node@)),
            PollStep::TimedOut { status } => !is_terminal(status_of(node@)) && elapsed_nanos
                > POLL_TIMEOUT_NANOS && status@ == status_of(node@),
            PollStep::Wait { secs, next } => !is_terminal(status_of(node@)) && elapsed_nanos
                <= POLL_TIMEOUT_NANOS && secs == backoff && next == backoff_after(backoff),
        },
{
    let (status, done) = poll_status(node);
    if done {
        PollStep::Done
    } else if elapsed_nanos > POLL_TIMEOUT_NANOS {
        PollStep::TimedOut { status }
    } else {
        PollStep::Wait { secs: backoff, next: next_backoff(backoff) }
    }
}

/// The wait before the `n`-th poll after the first, from a first wait of one
/// second.
pub open spec fn poll_wait(n: nat) -> u64
    decreases n,
{
    if n == 0 {
        1
    } else {
        backoff_after(poll_wait((n - 1) as nat))
    }
}

/// The waits between polls are 1, 2 and 4 seconds, then 10 seconds each.
pub proof fn law_poll_schedule(n: nat)
    ensures
        poll_wait(n) == (if n == 0 {
            1u64
        } else if n == 1 {
            2u64
        } else if n == 2 {
            4u64
        } else {
            10u64
        }),
    decreases n,
{
    if n > 0 {
        law_poll_schedule((n - 1) as nat);
    }
}

/// Where the result of a finished operation lives: `Ok(None)` for a completed
/// operation without a (non-empty) url, `Ok(Some(url))` for one with it, an
/// error for a failed one or any other status.
pub fn result_url(op: &Json, id: &str, label: &str) -> (r: Result<Option<String>, BulkError>)
    ensures
        match r {
            Ok(None) => status_of(op@) == "COMPLETED"@ && op@.at("status"@) is Str && (
            op@.at("url"@).as_str() is None || op@.at("url"@).as_str() == Some(Seq::<char>::empty())),
            Ok(Some(u)) => op@.at("status"@) == JsonV::Str("COMPLETED"@) && op@.at("url"@)
                == JsonV::Str(u@) && u@.len() > 0,
            Err(BulkError::Failed { label: l, id: i, error_code }) => op@.at("status"@)
                == JsonV::Str("FAILED"@) && l@ == label@ && i@ == id@ && error_code@ == op@.at(
                "errorCode"@,
            ),
            Err(BulkError::UnexpectedStatus { label: l, id: i, status }) => l@ == label@ && i@
                == id@ && op@.at("status"@) != JsonV::Str("COMPLETED"@) && op@.at("status"@)
                != JsonV::Str("FAILED"@) && match status {
                Some(s) => op@.at("status"@) == JsonV::Str(s@),
                None => op@.at("status"@).as_str() is None,
            },
            Err(_) => false,
        },
{
    match op.str_at("status") {
        Some(st) => {
            if str_eq(st.as_str(), "COMPLETED") {
                match op.str_at("url") {
                    Some(u) => {
                        if u.as_str().is_empty() {
                            Ok(None)
                        } else {
                            Ok(Some(u.clone()))
                        }
                    }
                    None => Ok(None),
                }
            } else if str_eq(st.as_str(), "FAILED") {
                Err(
                    BulkError::Failed {
                        label: owned(label),
                        id: owned(id),
                        error_code: op.at("errorCode"),
                    },
                )
            } else {
                Err(
                    BulkError::UnexpectedStatus {
                        label: owned(label),
                        id: owned(id),
                        status: Some(st.clone()),
                    },
                )
            }
        }
        None => Err(BulkError::UnexpectedStatus { label: owned(label), id: owned(id), status: None }),
    }
}

/// Position of the first parameter named `key`, if any.
pub open spec fn key_param_pos(params: Seq<JsonV>) -> Option<int> {
    if exists|i: int| 0 <= i < params.len() && params[i].at("name"@) == JsonV::Str("key"@) {
        Some(
            choose|i: int|
                0 <= i < params.len() && params[i].at("name"@) == JsonV::Str("key"@) && forall|
                    j: int,
                | 0 <= j < i ==> params[j].at("name"@) != JsonV::Str("key"@),
        )
    } else {
        None
    }
}

/// The `stagedUploadPath` in a staged target's parameters: the string value of
/// the first parameter named `key`.
pub open spec fn upload_path(params: Seq<JsonV>) -> Option<Seq<char>> {
    match key_param_pos(params) {
        Some(i) => params[i].at("value"@).as_str(),
        None => None,
    }
}

/// Extracts the `key` parameter of a staged-upload target (see [`upload_path`]).
pub fn staged_upload_path(params: &Vec<Json>) -> (r: Option<String>)
    ensures
        match r {
            Some(p) => upload_path(json::seq_view(params@)) == Some(p@),
            None => upload_path(json::seq_view(params@)) is None,
        },
{
    proof {
        json::lemma_seq_view(params@);
    }
    let ghost pv = json::seq_view(params@);
    let mut i: usize = 0;
    while i < params.len()
        invariant
            i <= params@.len(),
            pv == json::seq_view(params@),
            pv.len() == params@.len(),
            forall|k: int| 0 <= k < pv.len() ==> #[trigger] pv[k] == params@[k]@,
            forall|j: int| 0 <= j < i ==> pv[j].at("name"@) != JsonV::Str("key"@),
        decreases params@.len() - i,
    {
        let is_key = match params[i].str_at("name") {
            Some(n) => str_eq(n.as_str(), "key"),
            None => false,
        };
        if is_key {
            proof {
                let w = choose|w: int|
                    0 <= w < pv.len() && pv[w].at("name"@) == JsonV::Str("key"@) && forall|j: int|
                        0 <= j < w ==> pv[j].at("name"@) != JsonV::Str("key"@);
                assert(0 <= i < pv.len() && pv[i as int].at("name"@) == JsonV::Str("key"@));
                if w < i {
                    assert(pv[w].at("name"@) != JsonV::Str("key"@));
                }
                if w > i {
                    assert(pv[i as int].at("name"@) != JsonV::Str("key"@));
                }
                assert(key_param_pos(pv) == Some(i as int));
            }
            return match params[i].str_at("value") {
                Some(v) => Some(v.clone()),
                None => None,
            };
        }
        i = i + 1;
    }
    None
}

/// A reserved upload target: where to POST, the form fields to send before
/// the file part, and the `stagedUploadPath` to hand to the bulk mutation.
pub struct StagedTarget {
    pub url: String,
    pub fields: Vec<(String, String)>,
    pub path: String,
}

/// The form field of one staged-upload parameter: its name, and its value or
/// `""` when the value is not a string.
pub open spec fn form_field(p: JsonV) -> Option<(Seq<char>, Seq<char>)> {
    match p.at("name"@) {
        JsonV::Str(n) => Some(
            (
                n,
                match p.at("value"@) {
                    JsonV::Str(v) => v,
                    _ => Seq::empty(),
                },
            ),
        ),
        _ => None,
    }
}

/// The first staged target of a `stagedUploadsCreate` response (`Null` when
/// there is none).
pub open spec fn first_target(data: JsonV) -> JsonV {
    match data.at("stagedUploadsCreate"@).at("stagedTargets"@) {
        JsonV::Array(a) => if a.len() > 0 {
            a[0]
        } else {
            JsonV::Null
        },
        _ => JsonV::Null,
    }
}

/// Reads the staged target out of a `stagedUploadsCreate` response.
#[verifier::loop_isolation(false)]
pub fn staged_target(data: &Json) -> (r: Result<StagedTarget, BulkError>)
    ensures
        ({
            let payload = data@.at("stagedUploadsCreate"@);
            let target = first_target(data@);
            match r {
                Ok(t) => !has_user_errors(payload) && target.at("url"@) == JsonV::Str(t.url@)
                    && target.at("parameters"@) is Array && upload_path(
                    target.at("parameters"@)->Array_0,
                ) == Some(t.path@) && t.fields@.len() == target.at("parameters"@)->Array_0.len()
                    && forall|i: int|
                    0 <= i < t.fields@.len() ==> form_field(
                        target.at("parameters"@)->Array_0[i],
                    ) == Some((#[trigger] t.fields@[i].0@, t.fields@[i].1@)),
                Err(BulkError::UserErrors { op, errors }) => has_user_errors(payload) && op@
                    == "stagedUploadsCreate"@ && errors@ == payload.at("userErrors"@),
                Err(BulkError::MissingTargetUrl) => !has_user_errors(payload) && target.at(
                    "url"@,
                ).as_str() is None,
                Err(BulkError::MissingParameters) => !has_user_errors(payload) && target.at(
                    "url"@,
                ) is Str && !(target.at("parameters"@) is Array),
                Err(BulkError::MissingKey) => !has_user_errors(payload) && target.at("url"@) is Str
                    && target.at("parameters"@) is Array && upload_path(
                    target.at("parameters"@)->Array_0,
                ) is None,
                Err(BulkError::ParameterWithoutName) => !has_user_errors(payload) && target.at(
                    "url"@,
                ) is Str && target.at("parameters"@) is Array && upload_path(
                    target.at("parameters"@)->Array_0,
                ) is Some && exists|i: int|
                    0 <= i < target.at("parameters"@)->Array_0.len() && form_field(
                        #[trigger] target.at("parameters"@)->Array_0[i],
                    ) is None,
                Err(_) => false,
            }
        }),
{
    let payload = data.at("stagedUploadsCreate");
    if user_errors_present(&payload) {
        return Err(
            BulkError::UserErrors {
                op: owned("stagedUploadsCreate"),
                errors: payload.at("userErrors"),
            },
        );
    }
    let target = match payload.get("stagedTargets") {
        Some(Json::Array(a)) => {
            proof {
                json::lemma_seq_view(a@);
            }
            if a.len() > 0 {
                a[0].duplicate()
            } else {
                Json::Null
            }
        }
        _ => Json::Null,
    };
    let ghost tgt = first_target(data@);
    assert(target@ == tgt);
    let url = match target.str_at("url") {
        Some(u) => u.clone(),
        None => {
            return Err(BulkError::MissingTargetUrl);
        }
    };
    let params = match target.get("parameters") {
        Some(Json::Array(ps)) => ps,
        _ => {
            return Err(BulkError::MissingParameters);
        }
    };
    proof {
        json::lemma_seq_view(params@);
    }
    let path = match staged_upload_path(params) {
        Some(p) => p,
        None => {
            return Err(BulkError::MissingKey);
        }
    };
    let ghost pv = json::seq_view(params@);
    let mut fields: Vec<(String, String)> = Vec::new();
    let mut i: usize = 0;
    while i < params.len()
        invariant
            i <= params@.len(),
            pv == json::seq_view(params@),
            pv.len() == params@.len(),
            forall|k: int| 0 <= k < pv.len() ==> #[trigger] pv[k] == params@[k]@,
            fields@.len() == i,
            forall|k: int|
                0 <= k < i ==> form_field(pv[k]) == Some((#[trigger] fields@[k].0@, fields@[k].1@)),
        decreases params@.len() - i,
    {
        let name = match params[i].str_at("name") {
            Some(n) => n.clone(),
            None => {
                proof {
                    assert(target@.at("parameters"@) == JsonV::Array(pv));
                    assert(form_field(tgt.at("parameters"@)->Array_0[i as int]) is None);
                    assert(upload_path(tgt.at("parameters"@)->Array_0) is Some);

                }
                return Err(BulkError::ParameterWithoutName);
            }
        };
        let value = match params[i].str_at("value") {
            Some(v) => v.clone(),
            None => String::new(),
        };
        fields.push((name, value));
        i = i + 1;
    }
    Ok(StagedTarget { url, fields, path })
}

/// A JSONL document: each encoded line followed by a line feed.
pub open spec fn jsonl(lines: Seq<Seq<char>>) -> Seq<char>
    decreases lines.len(),
{
    if lines.len() == 0 {
        Seq::empty()
    } else {
        jsonl(lines.drop_last()) + lines.last() + seq!['\n']
    }
}

/// The texts of `lines` when each one encodes (see [`json_text`]).
pub open spec fn encoded_lines(lines: Seq<JsonV>) -> Seq<Seq<char>> {
    Seq::new(lines.len(), |i: int| json_text(lines[i])->Some_0)
}

/// A line that could not be written as JSON text: its 0-based index.
pub struct EncodeError {
    pub line: usize,
}

impl EncodeError {
    /// `serializing JSONL line {line}`.
    pub fn message(&self) -> (r: String)
        ensures
            r@ == "serializing JSONL line "@ + crate::json::decimal(self.line as nat),
    {
        let mut m = owned("serializing JSONL line ");
        m.append(crate::json::u64_to_decimal(self.line as u64).as_str());
        m
    }
}

/// Encodes each line as JSON text and frames them as a newline-delimited
/// document, the format Shopify's staged-upload endpoint expects; a line
/// that cannot be encoded is reported by its index (the first such line).
pub fn to_jsonl(lines: &Vec<Json>) -> (r: Result<String, EncodeError>)
    ensures
        match r {
            Ok(s) => (forall|i: int| 0 <= i < lines@.len() ==> (#[trigger] json_text(lines@[i]@)) is Some)
                && s@ == jsonl(encoded_lines(json::seq_view(lines@))),
            Err(e) => e.line < lines@.len() && json_text(lines@[e.line as int]@) is None && forall|i: int|
                0 <= i < e.line ==> (#[trigger] json_text(lines@[i]@)) is Some,
        },
{
    let ghost lv = json::seq_view(lines@);
    proof {
        json::lemma_seq_view(lines@);
    }
    let mut buf = String::new();
    let mut i: usize = 0;
    while i < lines.len()
        invariant
            i <= lines@.len(),
            lv == json::seq_view(lines@),
            lv.len() == lines@.len(),
            forall|j: int| 0 <= j < lines@.len() ==> #[trigger] lv[j] == lines@[j]@,
            forall|j: int| 0 <= j < i ==> (#[trigger] json_text(lines@[j]@)) is Some,
            buf@ == jsonl(encoded_lines(lv.take(i as int))),
        decreases lines@.len() - i,
    {
        let text = match encode_json(&lines[i]) {
            Some(t) => t,
            None => {
                return Err(EncodeError { line: i });
            },
        };
        buf.append(text.as_str());
        crate::text::push_char(&mut buf, '\n');
        proof {
            let e1 = encoded_lines(lv.take(i + 1));
            assert(e1.drop_last() =~= encoded_lines(lv.take(i as int)));
            assert(e1.last() == text@);
        }
        i = i + 1;
    }
    proof {
        assert(lv.take(lines@.len() as int) =~= lv);
    }
    Ok(buf)
}

/// The values of a JSONL document's numbered non-blank lines, read in order;
/// the number of the first line that is not one JSON document when there is
/// one.
pub open spec fn parse_numbered(ls: Seq<(nat, Seq<char>)>) -> Result<Seq<JsonV>, nat>
    decreases ls.len(),
{
    if ls.len() == 0 {
        Ok(Seq::empty())
    } else {
        match parse_numbered(ls.drop_last()) {
            Err(n) => Err(n),
            Ok(vs) => match parsed_json(ls.last().1) {
                Some(v) => Ok(vs.push(v)),
                None => Err(ls.last().0),
            },
        }
    }
}

/// What reading a JSONL document gives: the value of each non-blank line,
/// or the number of the first line that does not parse.
pub open spec fn jsonl_values(text: Seq<char>) -> Result<Seq<JsonV>, nat> {
    parse_numbered(crate::text::numbered_nonblank(crate::text::lines_of(text)))
}

/// A JSONL line that is not one JSON document: its 1-based number.
pub struct JsonlError {
    pub line: usize,
}

impl JsonlError {
    /// `parsing JSONL line {line}`.
    pub fn message(&self) -> (r: String)
        ensures
            r@ == "parsing JSONL line "@ + crate::json::decimal(self.line as nat),
    {
        let mut m = owned("parsing JSONL line ");
        m.append(crate::json::u64_to_decimal(self.line as u64).as_str());
        m
    }
}

proof fn lemma_parse_err_extends(ls: Seq<(nat, Seq<char>)>, k: int, n: nat)
    requires
        0 <= k <= ls.len(),
        parse_numbered(ls.take(k)) == Err::<Seq<JsonV>, nat>(n),
    ensures
        parse_numbered(ls) == Err::<Seq<JsonV>, nat>(n),
    decreases ls.len() - k,
{
    if k < ls.len() {
        assert(ls.take(k + 1).drop_last() =~= ls.take(k));
        lemma_parse_err_extends(ls, k + 1, n);
    } else {
        assert(ls.take(k) =~= ls);
    }
}

/// Reads a newline-delimited JSON document into one value per non-blank
/// line (see [`jsonl_values`]).
pub fn parse_jsonl(text: &str) -> (r: Result<Vec<Json>, JsonlError>)
    requires
        text@.len() < usize::MAX,
    ensures
        match r {
            Ok(v) => jsonl_values(text@) == Ok::<Seq<JsonV>, nat>(json::seq_view(v@)),
            Err(e) => jsonl_values(text@) == Err::<Seq<JsonV>, nat>(e.line as nat),
        },
{
    let numbered = crate::text::nonblank_lines(text);
    let ghost ls = crate::text::numbered_nonblank(crate::text::lines_of(text@));
    let mut out: Vec<Json> = Vec::new();
    let mut i: usize = 0;
    while i < numbered.len()
        invariant
            i <= numbered@.len(),
            crate::text::numbered_view(numbered@) == ls,
            ls == crate::text::numbered_nonblank(crate::text::lines_of(text@)),
            parse_numbered(ls.take(i as int)) == Ok::<Seq<JsonV>, nat>(json::seq_view(out@)),
        decreases numbered@.len() - i,
    {
        proof {
            assert(ls.take(i + 1).drop_last() =~= ls.take(i as int));
            assert(ls[i as int] == (numbered@[i as int].0 as nat, numbered@[i as int].1@));
        }
        match parse_json(numbered[i].1.as_str()) {
            Some(v) => {
                proof {
                    json::lemma_seq_view_push(out@, v);
                }
                out.push(v);
            },
            None => {
                let line = numbered[i].0;
                proof {
                    lemma_parse_err_extends(ls, i + 1, line as nat);
                }
                return Err(JsonlError { line });
            },
        }
        i = i + 1;
    }
    proof {
        assert(ls.take(numbered@.len() as int) =~= ls);
    }
    Ok(out)
}

/// A line as JSON encoding writes one: not blank, without a line feed, and
/// not ending in a carriage return.
pub open spec fn framable(l: Seq<char>) -> bool {
    &&& !crate::text::is_blank(l)
    &&& forall|j: int| 0 <= j < l.len() ==> l[j] != '\n'
    &&& !(l.len() > 0 && l.last() == '\r')
}

proof fn lemma_jsonl_front(ls: Seq<Seq<char>>)
    requires
        ls.len() > 0,
    ensures
        jsonl(ls) == ls[0] + seq!['\n'] + jsonl(ls.skip(1)),
    decreases ls.len(),
{
    if ls.len() == 1 {
        assert(ls.drop_last() =~= Seq::<Seq<char>>::empty());
        assert(ls.skip(1) =~= Seq::<Seq<char>>::empty());
        assert(jsonl(ls) =~= ls[0] + seq!['\n'] + jsonl(ls.skip(1)));
    } else {
        let dl = ls.drop_last();
        lemma_jsonl_front(dl);
        assert(ls.skip(1).drop_last() =~= dl.skip(1));
        assert(ls.skip(1).last() == ls.last());
        assert(dl[0] == ls[0]);
        assert(jsonl(ls) =~= ls[0] + seq!['\n'] + jsonl(ls.skip(1)));
    }
}

proof fn lemma_lines_of_jsonl(ls: Seq<Seq<char>>)
    requires
        forall|i: int| 0 <= i < ls.len() ==> framable(#[trigger] ls[i]),
    ensures
        crate::text::lines_of(jsonl(ls)) == ls,
    decreases ls.len(),
{
    if ls.len() == 0 {
        assert(jsonl(ls) =~= Seq::<char>::empty());
        assert(crate::text::lines_of(Seq::<char>::empty()) =~= ls);
    } else {
        let l = ls[0];
        assert(framable(l));
        let doc = jsonl(ls);
        lemma_jsonl_front(ls);
        let p = l.len() as int;
        assert(doc[p] == '\n');
        assert forall|j: int| 0 <= j < p implies doc[j] != '\n' by {
            assert(doc[j] == l[j]);
        }
        crate::text::lemma_lines_newline(doc, p);
        assert(doc.take(p) =~= l);
        assert(doc.skip(p + 1) =~= jsonl(ls.skip(1)));
        assert forall|i: int| 0 <= i < ls.skip(1).len() implies framable(#[trigger] ls.skip(1)[i]) by {
            assert(ls.skip(1)[i] == ls[i + 1]);
        }
        lemma_lines_of_jsonl(ls.skip(1));
        assert(crate::text::strip_cr(l) == l);
        assert(seq![l] + ls.skip(1) =~= ls);
    }
}

proof fn lemma_numbered_all(ls: Seq<Seq<char>>)
    requires
        forall|i: int| 0 <= i < ls.len() ==> !crate::text::is_blank(#[trigger] ls[i]),
    ensures
        crate::text::numbered_nonblank(ls) == Seq::new(ls.len(), |i: int| ((i + 1) as nat, ls[i])),
    decreases ls.len(),
{
    if ls.len() > 0 {
        let dl = ls.drop_last();
        assert forall|i: int| 0 <= i < dl.len() implies !crate::text::is_blank(#[trigger] dl[i]) by {
            assert(dl[i] == ls[i]);
        }
        lemma_numbered_all(dl);
        assert(!crate::text::is_blank(ls[ls.len() - 1]));
        assert(crate::text::numbered_nonblank(ls) =~= Seq::new(ls.len(), |i: int| ((i + 1) as nat, ls[i])));
    }
}

/// Reading back a JSONL document gives the lines framed into it: each, in
/// order, numbered from 1, when every line is as JSON encoding writes one.
pub proof fn law_jsonl_reads_back(ls: Seq<Seq<char>>)
    requires
        forall|i: int| 0 <= i < ls.len() ==> framable(#[trigger] ls[i]),
    ensures
        crate::text::numbered_nonblank(crate::text::lines_of(jsonl(ls))) == Seq::new(
            ls.len(),
            |i: int| ((i + 1) as nat, ls[i]),
        ),
{
    lemma_lines_of_jsonl(ls);
    assert forall|i: int| 0 <= i < ls.len() implies !crate::text::is_blank(#[trigger] ls[i]) by {
        assert(framable(ls[i]));
    }
    lemma_numbered_all(ls);
}

/// Reading back what [`to_jsonl`] wrote gives the values written, one per
/// line and in order, when each value's text is a line as JSON encoding
/// writes one and reads back as that value (which `serde_json` does not do
/// for every number: `1e2` is written back as `100.0`).
pub proof fn law_jsonl_round_trip(xs: Seq<JsonV>)
    requires
        forall|i: int|
            0 <= i < xs.len() ==> ((#[trigger] json_text(xs[i])) matches Some(t) && framable(t)
                && parsed_json(t) == Some(xs[i])),
    ensures
        jsonl_values(jsonl(encoded_lines(xs))) == Ok::<Seq<JsonV>, nat>(xs),
{
    let enc = encoded_lines(xs);
    assert forall|i: int| 0 <= i < enc.len() implies framable(#[trigger] enc[i]) by {
        assert(json_text(xs[i]) is Some);
    }
    law_jsonl_reads_back(enc);
    let ls = Seq::new(enc.len(), |i: int| ((i + 1) as nat, enc[i]));
    assert forall|k: int| 0 <= k <= xs.len() implies #[trigger] parse_numbered(ls.take(k)) == Ok::<
        Seq<JsonV>,
        nat,
    >(xs.take(k)) by {
        lemma_parse_prefix(xs, k);
    }
    assert(ls.take(xs.len() as int) =~= ls);
    assert(xs.take(xs.len() as int) =~= xs);
}

proof fn lemma_parse_prefix(xs: Seq<JsonV>, k: int)
    requires
        0 <= k <= xs.len(),
        forall|i: int|
            0 <= i < xs.len() ==> ((#[trigger] json_text(xs[i])) matches Some(t) && framable(t)
                && parsed_json(t) == Some(xs[i])),
    ensures
        parse_numbered(Seq::new(xs.len(), |i: int| ((i + 1) as nat, encoded_lines(xs)[i])).take(k))
            == Ok::<Seq<JsonV>, nat>(xs.take(k)),
    decreases k,
{
    let ls = Seq::new(xs.len(), |i: int| ((i + 1) as nat, encoded_lines(xs)[i]));
    if k == 0 {
        assert(ls.take(0) =~= Seq::<(nat, Seq<char>)>::empty());
        assert(xs.take(0) =~= Seq::<JsonV>::empty());
    } else {
        lemma_parse_prefix(xs, k - 1);
        assert(ls.take(k).drop_last() =~= ls.take(k - 1));
        assert(json_text(xs[k - 1]) is Some);
        assert(ls.take(k).last().1 == json_text(xs[k - 1])->Some_0);
        assert(xs.take(k) =~= xs.take(k - 1).push(xs[k - 1]));
    }
}

/// Refuses a JSONL variables file over [`MAX_JSONL_BYTES`] bytes of UTF-8.
pub fn check_payload_size(jsonl: &str) -> (r: Result<(), BulkError>)
    ensures
        match r {
            Ok(()) => jsonl.len() <= MAX_JSONL_BYTES,
            Err(BulkError::PayloadTooLarge { bytes }) => bytes == jsonl.len() && bytes
                > MAX_JSONL_BYTES,
            Err(_) => false,
        },
{
    let n = jsonl.len();
    if n > MAX_JSONL_BYTES {
        Err(BulkError::PayloadTooLarge { bytes: n })
    } else {
        Ok(())
    }
}

/// How an `objectCount` reads in progress lines: a string as it is, an
/// unsigned integer in decimal, anything else as `"0"`.
pub open spec fn count_text(v: JsonV) -> Seq<char> {
    match v {
        JsonV::Str(s) => s,
        _ => match json::u64_of(v) {
            Some(n) => json::decimal(n as nat),
            None => "0"@,
        },
    }
}

pub fn count_str(v: &Json) -> (r: String)
    ensures
        r@ == count_text(v@),
{
    match v.as_str() {
        Some(s) => s.clone(),
        None => match v.as_u64() {
            Some(n) => json::u64_to_decimal(n),
            None => owned("0"),
        },
    }
}

/// The input line a bulk-mutation result belongs to: its `__lineNumber`, or
/// `u64::MAX` when it has none.
pub open spec fn line_key(result: JsonV) -> u64 {
    match json::u64_of(result.at("__lineNumber"@)) {
        Some(n) => n,
        None => u64::MAX,
    }
}

pub fn line_number(result: &Json) -> (r: u64)
    ensures
        r == line_key(result@),
{
    match result.get("__lineNumber") {
        Some(n) => match n.as_u64() {
            Some(k) => k,
            None => u64::MAX,
        },
        None => u64::MAX,
    }
}

/// Results in non-decreasing line order.
pub open spec fn in_line_order(s: Seq<JsonV>) -> bool {
    forall|i: int, j: int| 0 <= i < j < s.len() ==> line_key(s[i]) <= line_key(s[j])
}

/// Where a result goes among sorted ones: before the first with a larger line
/// number, after every one with the same.
pub open spec fn insert_pos(s: Seq<JsonV>, x: JsonV) -> int {
    if exists|i: int| 0 <= i < s.len() && line_key(s[i]) > line_key(x) {
        choose|i: int|
            0 <= i < s.len() && line_key(s[i]) > line_key(x) && forall|j: int|
                0 <= j < i ==> line_key(s[j]) <= line_key(x)
    } else {
        s.len() as int
    }
}

/// Results sorted by line number, keeping the arrival order of equal ones.
pub open spec fn line_sorted(s: Seq<JsonV>) -> Seq<JsonV>
    decreases s.len(),
{
    if s.len() == 0 {
        Seq::empty()
    } else {
        let r = line_sorted(s.drop_last());
        r.insert(insert_pos(r, s.last()), s.last())
    }
}

proof fn lemma_insert_step(ov: Seq<JsonV>, x: JsonV, j: int)
    requires
        0 <= j <= ov.len(),
        in_line_order(ov),
        j > 0 ==> line_key(ov[j - 1]) <= line_key(x),
        forall|q: int| j <= q < ov.len() ==> line_key(ov[q]) > line_key(x),
    ensures
        insert_pos(ov, x) == j,
        in_line_order(ov.insert(j, x)),
{
    assert forall|q: int| 0 <= q < j implies line_key(ov[q]) <= line_key(x) by {
        if q < j - 1 {
            assert(line_key(ov[q]) <= line_key(ov[j - 1]));
        }
    }
    if j < ov.len() {
        let w = choose|w: int|
            0 <= w < ov.len() && line_key(ov[w]) > line_key(x) && forall|q: int|
                0 <= q < w ==> line_key(ov[q]) <= line_key(x);
        assert(0 <= j < ov.len() && line_key(ov[j]) > line_key(x));
        if w < j {
            assert(line_key(ov[w]) <= line_key(x));
        }
        if w > j {
            assert(line_key(ov[j]) <= line_key(x));
        }
    }
    let t = ov.insert(j, x);
    assert forall|a: int, b: int| 0 <= a < b < t.len() implies line_key(t[a]) <= line_key(t[b]) by {
        if a < j && b < j {
        } else if a < j && b == j {
        } else if a < j && b > j {
            assert(t[b] == ov[b - 1]);
        } else if a == j {
            assert(t[b] == ov[b - 1]);
        } else {
            assert(t[a] == ov[a - 1]);
            assert(t[b] == ov[b - 1]);
        }
    }
}

/// Inserting a key and its result at the same place keeps each key beside its
/// result.
proof fn lemma_keys_insert(keys: Seq<u64>, outs: Seq<JsonV>, j: int, k: u64, x: JsonV)
    requires
        keys.len() == outs.len(),
        forall|q: int| 0 <= q < keys.len() ==> #[trigger] keys[q] == line_key(outs[q]),
        0 <= j <= keys.len(),
        k == line_key(x),
    ensures
        forall|q: int|
            0 <= q < keys.len() + 1 ==> #[trigger] keys.insert(j, k)[q] == line_key(
                outs.insert(j, x)[q],
            ),
{
    assert forall|q: int| 0 <= q < keys.len() + 1 implies #[trigger] keys.insert(j, k)[q]
        == line_key(outs.insert(j, x)[q]) by {
        if q > j {
            assert(keys.insert(j, k)[q] == keys[q - 1]);
            assert(outs.insert(j, x)[q] == outs[q - 1]);
        } else if q < j {
            assert(keys.insert(j, k)[q] == keys[q]);
            assert(outs.insert(j, x)[q] == outs[q]);
        }
    }
}

/// One step of the sort: inserting the next result where [`insert_pos`] puts it
/// sorts one more result.
proof fn lemma_sorted_step(rv: Seq<JsonV>, i: int)
    requires
        0 <= i < rv.len(),
    ensures
        line_sorted(rv.take(i + 1)) == line_sorted(rv.take(i)).insert(
            insert_pos(line_sorted(rv.take(i)), rv[i]),
            rv[i],
        ),
{
    assert(rv.take(i + 1).drop_last() =~= rv.take(i));
}

/// The state of the sort after `i` results: `ov` holds them sorted and `ks`
/// holds the line number of each.
#[verifier::opaque]
spec fn sort_state(rv: Seq<JsonV>, i: int, ov: Seq<JsonV>, ks: Seq<u64>) -> bool {
    &&& 0 <= i <= rv.len()
    &&& ov == line_sorted(rv.take(i))
    &&& in_line_order(ov)
    &&& ks.len() == ov.len()
    &&& forall|q: int| 0 <= q < ks.len() ==> #[trigger] ks[q] == line_key(ov[q])
}

proof fn lemma_state_keys(rv: Seq<JsonV>, i: int, ov: Seq<JsonV>, ks: Seq<u64>)
    requires
        sort_state(rv, i, ov, ks),
    ensures
        ks.len() == ov.len(),
        forall|q: int| 0 <= q < ks.len() ==> #[trigger] ks[q] == line_key(ov[q]),
        forall|a: int, b: int| 0 <= a < b < ov.len() ==> line_key(ov[a]) <= line_key(ov[b]),
        i == rv.len() ==> ov == line_sorted(rv) && in_line_order(ov),
{
    reveal(sort_state);
    if i == rv.len() {
        assert(rv.take(i) =~= rv);
    }
}

proof fn lemma_state_start(rv: Seq<JsonV>)
    ensures
        sort_state(rv, 0, Seq::empty(), Seq::empty()),
{
    reveal(sort_state);
    assert(rv.take(0) =~= Seq::<JsonV>::empty());
}

proof fn lemma_state_step(rv: Seq<JsonV>, i: int, ov: Seq<JsonV>, ks: Seq<u64>, j: int, x: JsonV)
    requires
        sort_state(rv, i, ov, ks),
        0 <= i < rv.len(),
        x == rv[i],
        0 <= j <= ov.len(),
        j > 0 ==> line_key(ov[j - 1]) <= line_key(x),
        forall|q: int| j <= q < ov.len() ==> line_key(ov[q]) > line_key(x),
    ensures
        sort_state(rv, i + 1, ov.insert(j, x), ks.insert(j, line_key(x))),
{
    reveal(sort_state);
    lemma_sorted_step(rv, i);
    lemma_insert_step(ov, x, j);
    lemma_keys_insert(ks, ov, j, line_key(x), x);
}

/// Sorts bulk-mutation results by `__lineNumber` (stable), so they line up
/// with the input lines they answer.
pub fn order_results(results: Vec<Json>) -> (out: Vec<Json>)
    ensures
        json::seq_view(out@) == line_sorted(json::seq_view(results@)),
        in_line_order(json::seq_view(out@)),
{
    let ghost rv = json::seq_view(results@);
    proof {
        json::lemma_seq_view(results@);
        lemma_state_start(rv);
    }
    let mut out: Vec<Json> = Vec::new();
    let mut keys: Vec<u64> = Vec::new();
    proof {
        assert(json::seq_view(out@) =~= Seq::<JsonV>::empty());
        assert(keys@ =~= Seq::<u64>::empty());
    }
    for r in it: results
        invariant
            rv == json::seq_view(it.seq()),
            rv.len() == it.seq().len(),
            forall|k: int| 0 <= k < rv.len() ==> #[trigger] rv[k] == it.seq()[k]@,
            sort_state(rv, it.index() as int, json::seq_view(out@), keys@),
    {
        let ghost ov = json::seq_view(out@);
        let ghost idx = it.index() as int;
        proof {
            json::lemma_seq_view(out@);
            lemma_state_keys(rv, idx, ov, keys@);
        }
        let k = line_number(&r);
        let mut j = out.len();
        while j > 0 && keys[j - 1] > k
            invariant
                j <= out@.len(),
                keys@.len() == out@.len(),
                ov.len() == out@.len(),
                forall|q: int| 0 <= q < keys@.len() ==> #[trigger] keys@[q] == line_key(ov[q]),
                forall|q: int| j <= q < ov.len() ==> line_key(ov[q]) > k,
            decreases j,
        {
            j = j - 1;
        }
        let ghost rr = r@;
        let ghost old_keys = keys@;
        let ghost old_out = out@;
        proof {
            if j > 0 {
                assert(line_key(ov[j - 1]) <= k);
            }
            lemma_state_step(rv, idx, ov, old_keys, j as int, rr);
        }
        out.insert(j, r);
        keys.insert(j, k);
        proof {
            json::lemma_seq_view(out@);
            json::lemma_seq_view(old_out);
            assert(json::seq_view(out@) =~= ov.insert(j as int, rr));
            assert(keys@ =~= old_keys.insert(j as int, k));
        }
    }
    proof {
        lemma_state_keys(rv, rv.len() as int, json::seq_view(out@), keys@);
    }
    out
}

/// Sorting keeps the number of results.
pub proof fn lemma_sorted_len(s: Seq<JsonV>)
    ensures
        line_sorted(s).len() == s.len(),
    decreases s.len(),
{
    if s.len() > 0 {
        lemma_sorted_len(s.drop_last());
        let r = line_sorted(s.drop_last());
        lemma_insert_pos_range(r, s.last());
    }
}

proof fn lemma_insert_pos_range(s: Seq<JsonV>, x: JsonV)
    ensures
        0 <= insert_pos(s, x) <= s.len(),
{
    if exists|i: int| 0 <= i < s.len() && line_key(s[i]) > line_key(x) {
        let i0 = choose|i: int| 0 <= i < s.len() && line_key(s[i]) > line_key(x);
        lemma_least_greater(s, x, i0);
    }
}

proof fn lemma_least_greater(s: Seq<JsonV>, x: JsonV, i: int)
    requires
        0 <= i < s.len(),
        line_key(s[i]) > line_key(x),
    ensures
        exists|w: int|
            0 <= w < s.len() && line_key(s[w]) > line_key(x) && forall|j: int|
                0 <= j < w ==> line_key(s[j]) <= line_key(x),
    decreases i,
{
    if exists|j: int| 0 <= j < i && line_key(s[j]) > line_key(x) {
        let j = choose|j: int| 0 <= j < i && line_key(s[j]) > line_key(x);
        lemma_least_greater(s, x, j);
    } else {
        assert(forall|j: int| 0 <= j < i ==> line_key(s[j]) <= line_key(x));
    }
}

/// The root lines of a bulk result (those without a string `__parentId`),
/// stripped of their transport keys, in order.
pub open spec fn stripped_roots(lines: Seq<JsonV>) -> Seq<JsonV>
    decreases lines.len(),
{
    if lines.len() == 0 {
        Seq::empty()
    } else {
        let r = stripped_roots(lines.drop_last());
        if parent_id(lines.last()) is None {
            r.push(stripped(lines.last(), false))
        } else {
            r
        }
    }
}

/// Reassembly yields one record per root line: children never become records
/// of their own, whatever the child specs.
pub proof fn law_reassemble_root_count(lines: Seq<JsonV>, children: Seq<ChildSpec>)
    ensures
        reassemble_spec(lines, children).len() == stripped_roots(lines).len(),
    decreases lines.len(),
{
    lemma_fold_shape(lines, children);
}

/// The fold keeps one root per root line so far, and its index only points
/// at roots.
proof fn lemma_fold_shape(lines: Seq<JsonV>, children: Seq<ChildSpec>)
    ensures
        reassemble_fold(lines, children).0.len() == stripped_roots(lines).len(),
        forall|k: Seq<char>|
            #[trigger] reassemble_fold(lines, children).1.contains_key(k) ==> 0
                <= reassemble_fold(lines, children).1[k] < reassemble_fold(lines, children).0.len(),
    decreases lines.len(),
{
    if lines.len() > 0 {
        lemma_fold_shape(lines.drop_last(), children);
    }
}

/// With no child specs, reassembly is just the root lines, stripped, in order:
/// every child line is dropped.
pub proof fn law_reassemble_without_children(lines: Seq<JsonV>)
    ensures
        reassemble_spec(lines, Seq::empty()) == stripped_roots(lines),
    decreases lines.len(),
{
    if lines.len() > 0 {
        law_reassemble_without_children(lines.drop_last());
        let no_specs = Seq::<ChildSpec>::empty();
        assert(typenames(no_specs) =~= Seq::<Seq<char>>::empty());
        match lines.last().get("__typename"@) {
            Some(JsonV::Str(t)) => {
                json::lemma_first_pos_absent(typenames(no_specs), t);
            },
            _ => {},
        }
    }
}

/// The positions of the root lines (those without a string `__parentId`),
/// in order.
pub open spec fn root_positions(lines: Seq<JsonV>) -> Seq<int>
    decreases lines.len(),
{
    if lines.len() == 0 {
        Seq::empty()
    } else {
        let r = root_positions(lines.drop_last());
        if parent_id(lines.last()) is None {
            r.push(lines.len() - 1)
        } else {
            r
        }
    }
}

/// `line` is a child of the root with id `id` that is routed to a spec
/// whose field is `field`.
pub open spec fn child_under(line: JsonV, id: Seq<char>, field: Seq<char>, children: Seq<ChildSpec>) -> bool {
    &&& parent_id(line) == Some(id)
    &&& route(line, children) matches Some(j) && 0 <= j < children.len() && children[j].field@ == field
}

/// The children, stripped and in order, that lines after position `from`
/// route under `field` of the root with id `id`.
pub open spec fn routed_under(
    lines: Seq<JsonV>,
    from: int,
    id: Seq<char>,
    field: Seq<char>,
    children: Seq<ChildSpec>,
) -> Seq<JsonV>
    decreases lines.len(),
{
    if lines.len() == 0 {
        Seq::empty()
    } else {
        let rest = routed_under(lines.drop_last(), from, id, field, children);
        if lines.len() - 1 > from && child_under(lines.last(), id, field, children) {
            rest.push(stripped(lines.last(), true))
        } else {
            rest
        }
    }
}

/// What the reassembled record of the root at position `p` holds under `k`:
/// `{ "nodes": [children] }` when children are routed under `k`, else what
/// the stripped root line holds.
pub open spec fn reassembled_get(lines: Seq<JsonV>, children: Seq<ChildSpec>, p: int, k: Seq<char>) -> Option<
    JsonV,
> {
    let own = stripped(lines[p], false).get(k);
    match root_id(lines[p]) {
        Some(id) => {
            let cs = routed_under(lines, p, id, k, children);
            if cs.len() > 0 {
                Some(JsonV::Object(seq![("nodes"@, JsonV::Array(cs))]))
            } else {
                own
            }
        },
        None => own,
    }
}

/// The bulk lines that reassembly turns into records exactly: every line is
/// an object, no two roots share a string id, and no root already has a key
/// that a child spec fills.
pub open spec fn well_formed_lines(lines: Seq<JsonV>, children: Seq<ChildSpec>) -> bool {
    &&& forall|q: int| 0 <= q < lines.len() ==> (#[trigger] lines[q]) is Object
    &&& forall|a: int, b: int|
        0 <= a < b < lines.len() && parent_id(lines[a]) is None && parent_id(lines[b]) is None
            && root_id(#[trigger] lines[a]) is Some ==> root_id(lines[a]) != root_id(#[trigger] lines[b])
    &&& forall|q: int, j: int|
        0 <= q < lines.len() && parent_id(#[trigger] lines[q]) is None && 0 <= j < children.len()
            ==> stripped(lines[q], false).get(#[trigger] children[j].field@) is None
}

spec fn fold_ok(lines: Seq<JsonV>, children: Seq<ChildSpec>, st: (Seq<JsonV>, Map<Seq<char>, int>)) -> bool {
    let pos = root_positions(lines);
    &&& st.0.len() == pos.len()
    &&& forall|i: int| 0 <= i < pos.len() ==> 0 <= #[trigger] pos[i] < lines.len() && parent_id(
        lines[pos[i]],
    ) is None
    &&& forall|i: int| 0 <= i < pos.len() ==> (#[trigger] st.0[i]) is Object
    &&& forall|i: int, k: Seq<char>|
        0 <= i < pos.len() ==> #[trigger] st.0[i].get(k) == reassembled_get(lines, children, pos[i], k)
    &&& forall|id: Seq<char>|
        #[trigger] st.1.contains_key(id) ==> 0 <= st.1[id] < pos.len() && root_id(lines[pos[st.1[id]]])
            == Some(id)
    &&& forall|i: int|
        0 <= i < pos.len() && (#[trigger] root_id(lines[pos[i]])) is Some ==> st.1.contains_key(
            root_id(lines[pos[i]])->Some_0,
        ) && st.1[root_id(lines[pos[i]])->Some_0] == i
}

proof fn lemma_routed_empty(lines: Seq<JsonV>, from: int, id: Seq<char>, field: Seq<char>, children: Seq<ChildSpec>)
    requires
        from >= lines.len() - 1,
    ensures
        routed_under(lines, from, id, field, children) == Seq::<JsonV>::empty(),
    decreases lines.len(),
{
    if lines.len() > 0 {
        lemma_routed_empty(lines.drop_last(), from, id, field, children);
    }
}

proof fn lemma_nodes_get(cs: Seq<JsonV>)
    ensures
        JsonV::Object(seq![("nodes"@, JsonV::Array(cs))]).get("nodes"@) == Some(JsonV::Array(cs)),
        forall|c: JsonV| #[trigger] JsonV::Object(seq![("nodes"@, JsonV::Array(cs))]).set("nodes"@, c)
            == JsonV::Object(seq![("nodes"@, c)]),
{
    let es = seq![("nodes"@, JsonV::Array(cs))];
    assert(json::keys_of(es) =~= seq!["nodes"@]);
    json::lemma_first_pos_found(json::keys_of(es), "nodes"@, 0);
    assert forall|c: JsonV| #[trigger] JsonV::Object(es).set("nodes"@, c) == JsonV::Object(seq![("nodes"@, c)]) by {
        assert(es.update(0, ("nodes"@, c)) =~= seq![("nodes"@, c)]);
    }
}

/// Appending a child to the connection a root holds under a field.
proof fn lemma_with_child(cs: Seq<JsonV>, conn: JsonV, c: JsonV)
    requires
        (cs.len() == 0 && conn == JsonV::Null) || (cs.len() > 0 && conn == JsonV::Object(
            seq![("nodes"@, JsonV::Array(cs))],
        )),
    ensures
        with_child(conn, c) == JsonV::Object(seq![("nodes"@, JsonV::Array(cs.push(c)))]),
{
    lemma_nodes_get(cs);
    if cs.len() == 0 {
        assert(cs =~= Seq::<JsonV>::empty());
        assert(seq![c] =~= cs.push(c));
        assert(JsonV::Array(seq![]) == JsonV::Array(cs));
    }
}

proof fn lemma_fold_ok(lines: Seq<JsonV>, children: Seq<ChildSpec>)
    requires
        well_formed_lines(lines, children),
    ensures
        fold_ok(lines, children, reassemble_fold(lines, children)),
    decreases lines.len(),
{
    if lines.len() > 0 {
        let prev = lines.drop_last();
        let t = lines.len() - 1;
        let l = lines.last();
        assert(well_formed_lines(prev, children)) by {
            assert forall|q: int| 0 <= q < prev.len() implies (#[trigger] prev[q]) is Object by {
                assert(prev[q] == lines[q]);
            }
            assert forall|a: int, b: int|
                0 <= a < b < prev.len() && parent_id(prev[a]) is None && parent_id(prev[b]) is None
                    && root_id(#[trigger] prev[a]) is Some implies root_id(prev[a]) != root_id(#[trigger] prev[b]) by {
                assert(prev[a] == lines[a] && prev[b] == lines[b]);
            }
            assert forall|q: int, j: int|
                0 <= q < prev.len() && parent_id(#[trigger] prev[q]) is None && 0 <= j < children.len()
                    implies stripped(prev[q], false).get(#[trigger] children[j].field@) is None by {
                assert(prev[q] == lines[q]);
            }
        }
        lemma_fold_ok(prev, children);
        lemma_fold_step(lines, children);
    } else {
        assert(root_positions(lines) =~= Seq::<int>::empty());
    }
}

proof fn lemma_fold_step(lines: Seq<JsonV>, children: Seq<ChildSpec>)
    requires
        lines.len() > 0,
        well_formed_lines(lines, children),
        fold_ok(lines.drop_last(), children, reassemble_fold(lines.drop_last(), children)),
    ensures
        fold_ok(lines, children, reassemble_fold(lines, children)),
{
    let prev = lines.drop_last();
    let t = lines.len() - 1;
    let l = lines.last();
    let st = reassemble_fold(prev, children);
    let st2 = reassemble_fold(lines, children);
    let pos0 = root_positions(prev);
    let pos = root_positions(lines);
    assert(st2 == reassemble_step(st, l, children));
    assert forall|q: int| 0 <= q < prev.len() implies #[trigger] prev[q] == lines[q] by {}
    // the routed children of the earlier roots only change for the new line
    assert forall|i: int, id: Seq<char>, k: Seq<char>|
        0 <= i < pos0.len() implies #[trigger] routed_under(lines, pos0[i], id, k, children) == (if child_under(
        l,
        id,
        k,
        children,
    ) {
        routed_under(prev, pos0[i], id, k, children).push(stripped(l, true))
    } else {
        routed_under(prev, pos0[i], id, k, children)
    }) by {
        assert(pos0[i] < t);
    }
    match parent_id(l) {
        None => {
            assert(pos == pos0.push(t));
            let n = pos0.len() as int;
            assert forall|id: Seq<char>, k: Seq<char>| #[trigger] routed_under(lines, t, id, k, children) == Seq::<JsonV>::empty() by {
                lemma_routed_empty(lines, t, id, k, children);
            }
            assert forall|i: int, k: Seq<char>| 0 <= i < pos.len() implies #[trigger] st2.0[i].get(k)
                == reassembled_get(lines, children, pos[i], k) by {
                if i < n {
                    assert(st2.0[i] == st.0[i]);
                    assert(pos[i] == pos0[i]);
                    assert(st.0[i].get(k) == reassembled_get(prev, children, pos0[i], k));
                    match root_id(lines[pos[i]]) {
                        Some(id) => {
                            assert(routed_under(lines, pos0[i], id, k, children) == routed_under(prev, pos0[i], id, k, children));
                        },
                        None => {},
                    }
                } else {
                    assert(st2.0[i] == stripped(l, false));
                    match root_id(l) {
                        Some(id) => {
                            assert(routed_under(lines, t, id, k, children) == Seq::<JsonV>::empty());
                        },
                        None => {},
                    }
                }
            }
            assert forall|i: int| 0 <= i < pos.len() && (#[trigger] root_id(lines[pos[i]])) is Some implies st2.1.contains_key(
                root_id(lines[pos[i]])->Some_0,
            ) && st2.1[root_id(lines[pos[i]])->Some_0] == i by {
                if i < n {
                    assert(pos[i] == pos0[i]);
                    assert(root_id(lines[pos0[i]]) == root_id(prev[pos0[i]]));
                    if root_id(l) is Some {
                        assert(lines[t] == l);
                        assert(root_id(lines[pos0[i]]) != root_id(lines[t]));
                    }
                }
            }
            assert forall|id: Seq<char>| #[trigger] st2.1.contains_key(id) implies 0 <= st2.1[id] < pos.len()
                && root_id(lines[pos[st2.1[id]]]) == Some(id) by {
                if root_id(l) == Some(id) {
                } else {
                    assert(st.1.contains_key(id));
                    assert(pos[st.1[id]] == pos0[st.1[id]]);
                }
            }
            assert forall|i: int| 0 <= i < pos.len() implies (#[trigger] st2.0[i]) is Object by {
                if i < n {
                    assert(st2.0[i] == st.0[i]);
                } else {
                    assert(l is Object);
                }
            }
        },
        Some(p) => {
            assert(pos == pos0);
            match route(l, children) {
                Some(j) => if st.1.contains_key(p) {
                    let i0 = st.1[p];
                    let f = children[j].field@;
                    let c = stripped(l, true);
                    assert(0 <= j < children.len()) by {
                        if children.len() != 1 {
                            match l.get("__typename"@) {
                                Some(JsonV::Str(tn)) => {
                                    json::lemma_first_pos(typenames(children), tn);
                                },
                                _ => {},
                            }
                        }
                    }
                    assert(root_id(lines[pos0[i0]]) == Some(p));
                    let cs = routed_under(prev, pos0[i0], p, f, children);
                    let r0 = st.0[i0];
                    assert(r0.get(f) == reassembled_get(prev, children, pos0[i0], f));
                    assert(parent_id(lines[pos0[i0]]) is None);
                    assert(stripped(lines[pos0[i0]], false).get(children[j].field@) is None);
                    assert(prev[pos0[i0]] == lines[pos0[i0]]);
                    lemma_with_child(cs, r0.at(f), c);
                    json::law_set_then_get(r0, f, with_child(r0.at(f), c));
                    assert forall|i: int, k: Seq<char>| 0 <= i < pos.len() implies #[trigger] st2.0[i].get(k)
                        == reassembled_get(lines, children, pos[i], k) by {
                        assert(st.0[i].get(k) == reassembled_get(prev, children, pos0[i], k));
                        if i == i0 {
                            if k != f {
                                json::law_set_keeps_other_keys(r0, f, with_child(r0.at(f), c), k);
                                assert(!child_under(l, p, k, children));
                            } else {
                                assert(child_under(l, p, f, children));
                            }
                        } else {
                            match root_id(lines[pos0[i]]) {
                                Some(id) => {
                                    assert(id != p);
                                    assert(!child_under(l, id, k, children));
                                },
                                None => {},
                            }
                        }
                    }
                    assert forall|i: int| 0 <= i < pos.len() implies (#[trigger] st2.0[i]) is Object by {
                        assert(st.0[i] is Object);
                    }
                } else {
                    assert forall|i: int, k: Seq<char>| 0 <= i < pos.len() implies #[trigger] st2.0[i].get(k)
                        == reassembled_get(lines, children, pos[i], k) by {
                        assert(st.0[i].get(k) == reassembled_get(prev, children, pos0[i], k));
                        match root_id(lines[pos0[i]]) {
                            Some(id) => {
                                assert(st.1.contains_key(id));
                                assert(!child_under(l, id, k, children));
                            },
                            None => {},
                        }
                    }
                },
                None => {
                    assert forall|i: int, k: Seq<char>| 0 <= i < pos.len() implies #[trigger] st2.0[i].get(k)
                        == reassembled_get(lines, children, pos[i], k) by {
                        assert(st.0[i].get(k) == reassembled_get(prev, children, pos0[i], k));
                        match root_id(lines[pos0[i]]) {
                            Some(id) => {
                                assert(!child_under(l, id, k, children));
                            },
                            None => {},
                        }
                    }
                },
            }
        },
    }
}

/// Reassembly of well-formed bulk lines: one record per root line, in order,
/// each the root line without its transport keys, plus, under each field a
/// child spec fills, `{ "nodes": [...] }` holding the children routed there,
/// stripped and in the order they came; children of unknown roots and
/// unroutable children are dropped.
pub proof fn law_reassemble(lines: Seq<JsonV>, children: Seq<ChildSpec>)
    requires
        well_formed_lines(lines, children),
    ensures
        reassemble_spec(lines, children).len() == root_positions(lines).len(),
        forall|i: int, k: Seq<char>|
            0 <= i < root_positions(lines).len() ==> #[trigger] reassemble_spec(lines, children)[i].get(k)
                == reassembled_get(lines, children, root_positions(lines)[i], k),
        forall|i: int|
            0 <= i < root_positions(lines).len() ==> (#[trigger] reassemble_spec(lines, children)[i]) is Object,
{
    lemma_fold_ok(lines, children);
}

/// Sorting results by line number neither loses nor adds a result: the sorted
/// results are the same results, each as often.
pub proof fn law_sorted_results_are_a_permutation(results: Seq<JsonV>)
    ensures
        line_sorted(results).to_multiset() =~= results.to_multiset(),
    decreases results.len(),
{
    broadcast use vstd::multiset::group_multiset_axioms, vstd::seq_lib::group_to_multiset_ensures;

    if results.len() == 0 {
        assert(line_sorted(results) =~= results);
    } else {
        law_sorted_results_are_a_permutation(results.drop_last());
        let r = line_sorted(results.drop_last());
        lemma_insert_pos_range(r, results.last());
        vstd::seq_lib::to_multiset_insert(r, insert_pos(r, results.last()), results.last());
        vstd::seq_lib::to_multiset_build(results.drop_last(), results.last());
        assert(results.drop_last().push(results.last()) =~= results);
    }
}

} // verus!
