//! Discounts. A discount is read through a GraphQL union, and the shape read
//! on export is not the shape written on create: [`build_customer_gets`] and
//! the input builders turn one into the other, remapping
//! collection-scoped discounts from collection handles to the target store's
//! collection ids.
//!
//! Bulk export flattens the `codes` and `collections` connections into their
//! own lines; reassembly puts them on the discount node, and
//! [`reshape_discount_node`] moves them to where the paged export has them.

use vstd::prelude::*;

use crate::json::{
    entries_view, entry, law_remove_keeps_other_keys, law_remove_then_get, law_set_keeps_other_keys,
    law_set_then_get, lemma_entries_view, lemma_remove_unique, lemma_set_unique, opt_text_v, owned,
    path_settable, path_view, seq_view, set_path_v, str_eq, u64_to_decimal, unique_keys, Json, JsonV,
};
use crate::lookup::{listing_map, table_from_listing, IdTable};
use crate::resource::{
    batch_view, fails_with, kind_name, lemma_picked_step, picked, resolves_to, ResourceKind,
};

verus! {

pub struct Discount;

impl Discount {
    /// The name used on the command line.
    pub fn name(&self) -> (r: &'static str)
        ensures
            r@ == kind_name(ResourceKind::Discounts),
    {
        "discounts"
    }

    /// The resource kind this is.
    pub fn kind(&self) -> (r: ResourceKind)
        ensures
            r == ResourceKind::Discounts,
    {
        ResourceKind::Discounts
    }
}

/// One redeem code.
pub struct CodeNode {
    pub code: String,
}

/// The codes connection of a code discount.
pub struct CodeConnection {
    pub nodes: Vec<CodeNode>,
}

/// The fields read off a discount. Most are optional because the discount is
/// a union: a free-shipping discount has no `customerGets`, an automatic one
/// has no `codes`.
pub struct DiscountRecord {
    pub typename: String,
    pub title: Option<String>,
    pub status: Option<String>,
    pub starts_at: Option<String>,
    pub ends_at: Option<String>,
    pub codes: Option<CodeConnection>,
    /// Who a code discount is for; only its `__typename` is read.
    pub customer_selection: Option<Json>,
    /// The value and what it applies to, in the read shape.
    pub customer_gets: Option<Json>,
}

/// One node of `discountNodes`.
pub struct DiscountNodeRecord {
    pub id: String,
    pub discount: DiscountRecord,
}

/// Why a discount cannot be turned into a create input.
pub enum DiscountError<E> {
    /// Only percentage-value discounts are supported.
    NotPercentage,
    /// A collection-scoped discount lists no collections.
    NoCollections,
    /// A listed collection has no handle.
    MissingHandle,
    /// The items scope is neither all items nor collections (its
    /// `__typename`, when it has one).
    UnsupportedScope { typename: Option<String> },
    /// Only code discounts for all customers are supported.
    NotAllCustomers,
    /// A code discount has no code.
    MissingCode,
    /// A collection handle could not be resolved in the target store.
    Resolve(E),
}

// ---- export ----

/// The places [`reshape_discount_node`] moves child lists to.
pub open spec fn codes_path() -> Seq<Seq<char>> {
    seq!["discount"@, "codes"@]
}

pub open spec fn collections_path() -> Seq<Seq<char>> {
    seq!["discount"@, "customerGets"@, "items"@, "collections"@]
}

/// A reassembled discount node with its `codes` moved under `discount.codes`
/// and its `collections` under `discount.customerGets.items.collections`;
/// a node with neither is unchanged.
pub open spec fn reshaped_node(node: JsonV) -> JsonV {
    let a = match node.get("codes"@) {
        Some(codes) => set_path_v(node.remove("codes"@), codes_path(), codes),
        None => node,
    };
    match a.get("collections"@) {
        Some(cols) => set_path_v(a.remove("collections"@), collections_path(), cols),
        None => a,
    }
}

/// The nodes whose reshaping assigns only into objects (or `null`s, which
/// become objects) along the way.
pub open spec fn reshapable(node: JsonV) -> bool {
    let a = match node.get("codes"@) {
        Some(codes) => set_path_v(node.remove("codes"@), codes_path(), codes),
        None => node,
    };
    &&& node.get("codes"@) is Some ==> path_settable(node.remove("codes"@), codes_path())
    &&& a.get("collections"@) is Some ==> path_settable(a.remove("collections"@), collections_path())
}

/// Whether a node is [`reshapable`]: whether its child lists can be placed
/// where the paged export has them.
pub fn is_reshapable(node: &Json) -> (b: bool)
    ensures
        b == reshapable(node@),
{
    let codes_keys: [&str; 2] = ["discount", "codes"];
    let cols_keys: [&str; 4] = ["discount", "customerGets", "items", "collections"];
    proof {
        assert(path_view(codes_keys@).skip(0) =~= codes_path());
        assert(path_view(cols_keys@).skip(0) =~= collections_path());
    }
    let mut n = node.duplicate();
    if let Some(codes) = n.remove("codes") {
        if !n.path_settable_from(codes_keys.as_slice(), 0) {
            return false;
        }
        n.set_path(codes_keys.as_slice(), 0, codes);
    }
    if n.get("collections").is_some() {
        let _ = n.remove("collections");
        return n.path_settable_from(cols_keys.as_slice(), 0);
    }
    true
}

/// Moves a reassembled node's `codes` and `collections` to where the paged
/// export has them (see [`reshaped_node`]).
pub fn reshape_discount_node(node: Json) -> (r: Json)
    requires
        reshapable(node@),
    ensures
        r@ == reshaped_node(node@),
{
    let mut node = node;
    let codes_keys: [&str; 2] = ["discount", "codes"];
    let cols_keys: [&str; 4] = ["discount", "customerGets", "items", "collections"];
    proof {
        assert(path_view(codes_keys@).skip(0) =~= codes_path());
        assert(path_view(cols_keys@).skip(0) =~= collections_path());
    }
    if let Some(codes) = node.remove("codes") {
        node.set_path(codes_keys.as_slice(), 0, codes);
    }
    if let Some(cols) = node.remove("collections") {
        node.set_path(cols_keys.as_slice(), 0, cols);
    }
    node
}

/// Reshaping takes `codes` and `collections` off the top level of a node
/// (whose keys are distinct, as a parsed object's are) and puts each, as it
/// was, where the paged export has it: `discount.codes` and
/// `discount.customerGets.items.collections`.
pub proof fn law_reshape_moves_child_lists(node: JsonV)
    requires
        node is Object,
        unique_keys(node->Object_0),
        reshapable(node),
    ensures
        reshaped_node(node).get("codes"@) is None,
        reshaped_node(node).get("collections"@) is None,
        node.get("codes"@) matches Some(c) ==> reshaped_node(node).at("discount"@).get("codes"@)
            == Some(c),
        node.get("collections"@) matches Some(c) ==> reshaped_node(node).at("discount"@).at(
            "customerGets"@,
        ).at("items"@).get("collections"@) == Some(c),
{
    reveal_strlit("codes");
    reveal_strlit("collections");
    reveal_strlit("discount");
    reveal_strlit("customerGets");
    reveal_strlit("items");
    let codes = "codes"@;
    let cols = "collections"@;
    let disc = "discount"@;
    assert(codes.len() == 5 && cols.len() == 11 && disc.len() == 8);
    assert("customerGets"@.len() == 12);
    // the node after the first move
    let a = match node.get(codes) {
        Some(c) => set_path_v(node.remove(codes), codes_path(), c),
        None => node,
    };
    lemma_remove_unique(node, codes);
    match node.get(codes) {
        Some(c) => {
            let n1 = node.remove(codes);
            law_remove_then_get(node, codes);
            law_remove_keeps_other_keys(node, codes, cols);
            assert(codes_path().skip(1) =~= seq![codes]);
            assert(seq![codes].skip(1) =~= Seq::<Seq<char>>::empty());
            let inner = n1.at(disc).set(codes, c);
            assert(set_path_v(n1.at(disc).at(codes), seq![codes].skip(1), c) == c);
            assert(set_path_v(n1.at(disc), codes_path().skip(1), c) == inner);
            assert(a == n1.set(disc, inner));
            law_set_keeps_other_keys(n1, disc, inner, codes);
            law_set_keeps_other_keys(n1, disc, inner, cols);
            law_set_then_get(n1, disc, inner);
            lemma_set_unique(n1, disc, inner);
            assert(path_settable(n1, codes_path()));
            assert(path_settable(n1.at(disc), codes_path().skip(1)));
            law_set_then_get(n1.at(disc), codes, c);
        },
        None => {},
    }
    assert(a is Object && unique_keys(a->Object_0));
    assert(a.get(codes) is None);
    assert(a.get(cols) == node.get(cols));
    assert(node.get(codes) matches Some(c) ==> a.at(disc) is Object && a.at(disc).get(codes)
        == Some(c));
    match a.get(cols) {
        Some(c) => {
            let a1 = a.remove(cols);
            law_remove_then_get(a, cols);
            law_remove_keeps_other_keys(a, cols, codes);
            law_remove_keeps_other_keys(a, cols, disc);
            let p1 = collections_path().skip(1);
            let p2 = p1.skip(1);
            let p3 = p2.skip(1);
            assert(p1 =~= seq!["customerGets"@, "items"@, cols]);
            assert(p2 =~= seq!["items"@, cols]);
            assert(p3 =~= seq![cols]);
            assert(p3.skip(1) =~= Seq::<Seq<char>>::empty());
            let d0 = a1.at(disc);
            let g0 = d0.at("customerGets"@);
            let i0 = g0.at("items"@);
            let i1 = i0.set(cols, c);
            let g1 = g0.set("items"@, i1);
            let d1 = d0.set("customerGets"@, g1);
            assert(path_settable(a1, collections_path()));
            assert(path_settable(d0, p1));
            assert(path_settable(g0, p2));
            assert(path_settable(i0, p3));
            assert(set_path_v(i0.at(cols), p3.skip(1), c) == c);
            assert(set_path_v(i0, p3, c) == i1);
            assert(set_path_v(g0, p2, c) == g1);
            assert(set_path_v(d0, p1, c) == d1);
            let r = a1.set(disc, d1);
            assert(reshaped_node(node) == r);
            law_set_keeps_other_keys(a1, disc, d1, codes);
            law_set_keeps_other_keys(a1, disc, d1, cols);
            law_set_then_get(a1, disc, d1);
            law_set_then_get(d0, "customerGets"@, g1);
            law_set_then_get(g0, "items"@, i1);
            law_set_then_get(i0, cols, c);
            if node.get(codes) is Some {
                law_set_keeps_other_keys(d0, "customerGets"@, g1, codes);
            }
        },
        None => {
            assert(reshaped_node(node) == a);
        },
    }
}

// ---- import: reading a discount ----

/// The percentage (as the number's decimal text) of a percentage discount.
pub open spec fn percentage_spec(d: DiscountRecord) -> Option<Seq<char>> {
    match d.customer_gets {
        Some(cg) => match cg@.at("value"@).at("percentage"@) {
            JsonV::Number(t) => Some(t),
            _ => None,
        },
        None => None,
    }
}

/// The percentage of a percentage discount, as the number's decimal text;
/// `None` for fixed-amount and free-shipping discounts.
pub fn percentage_of(d: &DiscountRecord) -> (r: Option<String>)
    ensures
        match r {
            Some(p) => percentage_spec(*d) == Some(p@),
            None => percentage_spec(*d) is None,
        },
{
    match &d.customer_gets {
        Some(cg) => match cg.at("value").at("percentage") {
            Json::Number(t) => Some(t),
            _ => None,
        },
        None => None,
    }
}

/// The read-shape `items` of a discount's `customerGets` (`null` when absent).
pub open spec fn items_of(d: DiscountRecord) -> JsonV {
    match d.customer_gets {
        Some(cg) => cg@.at("items"@),
        None => JsonV::Null,
    }
}

/// What an items scope asks for.
pub enum ScopePlan {
    All,
    Collections(Seq<JsonV>),
    NoCollections,
    Unsupported(Option<Seq<char>>),
}

pub open spec fn scope_plan(items: JsonV) -> ScopePlan {
    match items.at("__typename"@) {
        JsonV::Str(t) => if t == "AllDiscountItems"@ {
            ScopePlan::All
        } else if t == "DiscountCollections"@ {
            match items.at("collections"@).at("nodes"@) {
                JsonV::Array(nodes) => ScopePlan::Collections(nodes),
                _ => ScopePlan::NoCollections,
            }
        } else {
            ScopePlan::Unsupported(Some(t))
        },
        _ => ScopePlan::Unsupported(None),
    }
}

/// `"on all items"`, `"on N collection(s)"`, or nothing: what a discount applies
/// to, for the dry-run report.
pub open spec fn scope_text(d: DiscountRecord) -> Seq<char> {
    if d.customer_gets is None {
        Seq::empty()
    } else {
        let items = items_of(d);
        match items.at("__typename"@) {
            JsonV::Str(t) => if t == "AllDiscountItems"@ {
                "on all items"@
            } else if t == "DiscountCollections"@ {
                let n: nat = match items.at("collections"@).at("nodes"@) {
                    JsonV::Array(a) => a.len(),
                    _ => 0,
                };
                "on "@ + crate::json::decimal(n) + " collection(s)"@
            } else {
                Seq::empty()
            },
            _ => Seq::empty(),
        }
    }
}

/// A short description of what a discount applies to (see [`scope_text`]).
pub fn scope_of(d: &DiscountRecord) -> (r: String)
    ensures
        r@ == scope_text(*d),
{
    let cg = match &d.customer_gets {
        Some(cg) => cg,
        None => {
            return String::new();
        },
    };
    let items = cg.at("items");
    let t = match items.str_at("__typename") {
        Some(t) => t,
        None => {
            return String::new();
        },
    };
    if str_eq(t.as_str(), "AllDiscountItems") {
        owned("on all items")
    } else if str_eq(t.as_str(), "DiscountCollections") {
        let n: usize = match items.at("collections").at("nodes").as_array() {
            Some(a) => {
                proof {
                    crate::json::lemma_seq_view(a@);
                }
                a.len()
            },
            None => 0,
        };
        let mut s = owned("on ");
        s.append(u64_to_decimal(n as u64).as_str());
        s.append(" collection(s)");
        s
    } else {
        String::new()
    }
}

/// The handle of a listed collection, when it has one.
pub open spec fn handle_of(n: JsonV) -> Option<Seq<char>> {
    match n.at("handle"@) {
        JsonV::Str(h) => Some(h),
        _ => None,
    }
}

/// Each node has a handle, and `resolve` may answer the i-th handle with the
/// i-th id.
pub open spec fn resolves_all<E, F: Fn(&str) -> Result<String, E>>(
    resolve: F,
    nodes: Seq<JsonV>,
    ids: Seq<Seq<char>>,
) -> bool {
    &&& ids.len() == nodes.len()
    &&& forall|i: int|
        0 <= i < nodes.len() ==> handle_of(#[trigger] nodes[i]) is Some && resolves_to(
            resolve,
            handle_of(nodes[i])->Some_0,
            ids[i],
        )
}

/// The first `ids.len()` nodes have handles, and `resolve` may answer the
/// i-th of them with the i-th id.
pub open spec fn resolves_prefix<E, F: Fn(&str) -> Result<String, E>>(
    resolve: F,
    nodes: Seq<JsonV>,
    ids: Seq<Seq<char>>,
) -> bool {
    &&& ids.len() <= nodes.len()
    &&& forall|i: int|
        0 <= i < ids.len() ==> handle_of(#[trigger] nodes[i]) is Some && resolves_to(
            resolve,
            handle_of(nodes[i])->Some_0,
            ids[i],
        )
}

/// Resolving the handles of `nodes` in order stops at a node without a
/// handle, every earlier handle having resolved.
pub open spec fn handle_missing_first<E, F: Fn(&str) -> Result<String, E>>(
    resolve: F,
    nodes: Seq<JsonV>,
) -> bool {
    exists|ids: Seq<Seq<char>>|
        #[trigger] resolves_prefix(resolve, nodes, ids) && ids.len() < nodes.len() && handle_of(
            nodes[ids.len() as int],
        ) is None
}

/// Resolving the handles of `nodes` in order stops at a handle that
/// `resolve` answers with `err`, every earlier handle having resolved.
pub open spec fn handle_fails_first<E, F: Fn(&str) -> Result<String, E>>(
    resolve: F,
    nodes: Seq<JsonV>,
    err: E,
) -> bool {
    exists|ids: Seq<Seq<char>>|
        #[trigger] resolves_prefix(resolve, nodes, ids) && ids.len() < nodes.len() && (handle_of(
            nodes[ids.len() as int],
        ) matches Some(h) && fails_with(resolve, h, err))
}

proof fn lemma_prefix<E, F: Fn(&str) -> Result<String, E>>(
    resolve: F,
    nv: Seq<JsonV>,
    ids: Seq<String>,
)
    requires
        ids.len() < nv.len(),
        forall|j: int|
            0 <= j < ids.len() ==> handle_of(#[trigger] nv[j]) is Some && resolves_to(
                resolve,
                handle_of(nv[j])->Some_0,
                ids[j]@,
            ),
    ensures
        resolves_prefix(resolve, nv, ids.map_values(|s: String| s@)),
        ids.map_values(|s: String| s@).len() == ids.len(),
{
    let iv = ids.map_values(|s: String| s@);
    assert forall|j: int| 0 <= j < iv.len() implies handle_of(#[trigger] nv[j]) is Some && resolves_to(
        resolve,
        handle_of(nv[j])->Some_0,
        iv[j],
    ) by {
        assert(iv[j] == ids[j]@);
    }
}

/// Resolves each listed collection's handle to a target-store id, in order,
/// stopping at the first node without a handle or the first failed resolution.
fn resolve_handles<E, F: Fn(&str) -> Result<String, E>>(resolve: &F, nodes: &Vec<Json>) -> (r:
    Result<Vec<String>, DiscountError<E>>)
    requires
        forall|h: &str| resolve.requires((h,)),
    ensures
        match r {
            Ok(ids) => resolves_all(*resolve, seq_view(nodes@), ids@.map_values(|s: String| s@)),
            Err(DiscountError::MissingHandle) => handle_missing_first(*resolve, seq_view(nodes@)),
            Err(DiscountError::Resolve(err)) => handle_fails_first(*resolve, seq_view(nodes@), err),
            Err(_) => false,
        },
{
    let ghost nv = seq_view(nodes@);
    proof {
        crate::json::lemma_seq_view(nodes@);
    }
    let mut ids: Vec<String> = Vec::new();
    let mut i: usize = 0;
    while i < nodes.len()
        invariant
            i <= nodes@.len(),
            nv == seq_view(nodes@),
            nv.len() == nodes@.len(),
            forall|j: int| 0 <= j < nodes@.len() ==> #[trigger] nv[j] == nodes@[j]@,
            forall|h: &str| resolve.requires((h,)),
            ids@.len() == i,
            forall|j: int|
                0 <= j < i ==> handle_of(#[trigger] nv[j]) is Some && resolves_to(
                    *resolve,
                    handle_of(nv[j])->Some_0,
                    ids@[j]@,
                ),
        decreases nodes@.len() - i,
    {
        let handle = match nodes[i].str_at("handle") {
            Some(h) => h,
            None => {
                proof {
                    assert(handle_of(nv[i as int]) is None);
                    lemma_prefix(*resolve, nv, ids@);
                }
                return Err(DiscountError::MissingHandle);
            },
        };
        match resolve(handle.as_str()) {
            Ok(id) => {
                proof {
                    assert(resolves_to(*resolve, handle@, id@));
                }
                ids.push(id);
            },
            Err(e) => {
                proof {
                    assert(fails_with(*resolve, handle@, e));
                    lemma_prefix(*resolve, nv, ids@);
                }
                return Err(DiscountError::Resolve(e));
            },
        }
        i = i + 1;
    }
    proof {
        let iv = ids@.map_values(|s: String| s@);
        assert forall|j: int| 0 <= j < nv.len() implies handle_of(#[trigger] nv[j]) is Some
            && resolves_to(*resolve, handle_of(nv[j])->Some_0, iv[j]) by {
            assert(iv[j] == ids@[j]@);
        }
    }
    Ok(ids)
}

/// The write-shape `customerGets`: `{ value: { percentage }, items }`.
pub open spec fn gets_input(percentage: Seq<char>, items: JsonV) -> JsonV {
    JsonV::Object(
        seq![
            ("value"@, JsonV::Object(seq![("percentage"@, JsonV::Number(percentage))])),
            ("items"@, items),
        ],
    )
}

/// The write-shape items for all items: `{ all: true }`.
pub open spec fn all_items_input() -> JsonV {
    JsonV::Object(seq![("all"@, JsonV::Bool(true))])
}

/// The write-shape items for collections: `{ collections: { add: [ids] } }`.
pub open spec fn collections_input(ids: Seq<Seq<char>>) -> JsonV {
    JsonV::Object(
        seq![
            (
                "collections"@,
                JsonV::Object(
                    seq![("add"@, JsonV::Array(ids.map_values(|id: Seq<char>| JsonV::Str(id))))],
                ),
            ),
        ],
    )
}

/// What [`build_customer_gets`] answers for a discount, with `resolve` as the
/// collection resolver: the write-shape `customerGets`, or why there is none.
pub open spec fn gets_outcome<E, F: Fn(&str) -> Result<String, E>>(
    resolve: F,
    d: DiscountRecord,
    r: Result<JsonV, DiscountError<E>>,
) -> bool {
    match percentage_spec(d) {
        None => r matches Err(DiscountError::NotPercentage),
        Some(p) => match scope_plan(items_of(d)) {
            ScopePlan::All => r == Ok::<JsonV, DiscountError<E>>(gets_input(p, all_items_input())),
            ScopePlan::NoCollections => r matches Err(DiscountError::NoCollections),
            ScopePlan::Unsupported(t) => match r {
                Err(DiscountError::UnsupportedScope { typename }) => match typename {
                    Some(s) => t == Some(s@),
                    None => t is None,
                },
                _ => false,
            },
            ScopePlan::Collections(nodes) => collections_outcome(resolve, p, nodes, r),
        },
    }
}

/// What [`build_customer_gets`] answers for a percentage `p` scoped to the
/// collections `nodes`: the remapped value when every handle resolves, else
/// the first failure in order.
pub open spec fn collections_outcome<E, F: Fn(&str) -> Result<String, E>>(
    resolve: F,
    p: Seq<char>,
    nodes: Seq<JsonV>,
    r: Result<JsonV, DiscountError<E>>,
) -> bool {
    match r {
        Ok(j) => exists|ids: Seq<Seq<char>>|
            #[trigger] resolves_all(resolve, nodes, ids) && j == gets_input(p, collections_input(ids)),
        Err(DiscountError::MissingHandle) => handle_missing_first(resolve, nodes),
        Err(DiscountError::Resolve(err)) => handle_fails_first(resolve, nodes, err),
        Err(_) => false,
    }
}

/// The view of a conversion result.
pub open spec fn result_view<E>(r: Result<Json, DiscountError<E>>) -> Result<JsonV, DiscountError<E>> {
    match r {
        Ok(j) => Ok(j@),
        Err(e) => Err(e),
    }
}

fn build_gets(percentage: String, items: Json) -> (r: Json)
    ensures
        r@ == gets_input(percentage@, items@),
{
    let value = vec![entry("percentage", Json::Number(percentage))];
    proof {
        lemma_entries_view(value@);
    }
    let ghost vv = entries_view(value@);
    let es = vec![entry("value", Json::Object(value)), entry("items", items)];
    proof {
        lemma_entries_view(es@);
        assert(vv =~= seq![("percentage"@, JsonV::Number(percentage@))]);
        assert(entries_view(es@) =~= gets_input(percentage@, items@)->Object_0);
    }
    Json::Object(es)
}

fn build_all_items() -> (r: Json)
    ensures
        r@ == all_items_input(),
{
    let es = vec![entry("all", Json::Bool(true))];
    proof {
        lemma_entries_view(es@);
        assert(entries_view(es@) =~= all_items_input()->Object_0);
    }
    Json::Object(es)
}

fn build_collections(ids: Vec<String>) -> (r: Json)
    ensures
        r@ == collections_input(ids@.map_values(|s: String| s@)),
{
    let ghost iv = ids@.map_values(|s: String| s@);
    let arr = Json::texts(&ids);
    proof {
        assert(ids@.map_values(|s: String| JsonV::Str(s@)) =~= iv.map_values(
            |id: Seq<char>| JsonV::Str(id),
        ));
    }
    let add = vec![entry("add", arr)];
    proof {
        lemma_entries_view(add@);
    }
    let ghost av = entries_view(add@);
    let es = vec![entry("collections", Json::Object(add))];
    proof {
        lemma_entries_view(es@);
        let want = collections_input(iv)->Object_0;
        assert(av =~= want[0].1->Object_0);
        assert(entries_view(es@) =~= want);
    }
    Json::Object(es)
}

proof fn lemma_gets_ok<E, F: Fn(&str) -> Result<String, E>>(
    resolve: F,
    d: DiscountRecord,
    nodes: Seq<JsonV>,
    ids: Seq<Seq<char>>,
    j: JsonV,
)
    requires
        percentage_spec(d) is Some,
        scope_plan(items_of(d)) == ScopePlan::Collections(nodes),
        resolves_all(resolve, nodes, ids),
        j == gets_input(percentage_spec(d)->Some_0, collections_input(ids)),
    ensures
        gets_outcome(resolve, d, Ok(j)),
{
    let p = percentage_spec(d)->Some_0;
    assert(collections_outcome(resolve, p, nodes, Ok(j)));
}

/// Turns a discount's read-shape `customerGets` into the write shape
/// (see [`gets_outcome`]): the percentage is kept, all-items scoping stays
/// all items, and a collection scope is remapped handle by handle through
/// `resolve` to target-store ids.
pub fn build_customer_gets<E, F: Fn(&str) -> Result<String, E>>(resolve: &F, d: &DiscountRecord) -> (r:
    Result<Json, DiscountError<E>>)
    requires
        forall|h: &str| resolve.requires((h,)),
    ensures
        gets_outcome(*resolve, *d, result_view(r)),
{
    let percentage = match percentage_of(d) {
        Some(p) => p,
        None => {
            return Err(DiscountError::NotPercentage);
        },
    };
    let cg = match &d.customer_gets {
        Some(cg) => cg,
        None => {
            return Err(DiscountError::NotPercentage);
        },
    };
    let items = cg.at("items");
    let typename = match items.str_at("__typename") {
        Some(t) => t,
        None => {
            return Err(DiscountError::UnsupportedScope { typename: None });
        },
    };
    if str_eq(typename.as_str(), "AllDiscountItems") {
        return Ok(build_gets(percentage, build_all_items()));
    }
    if !str_eq(typename.as_str(), "DiscountCollections") {
        return Err(DiscountError::UnsupportedScope { typename: Some(typename.clone()) });
    }
    let listed = items.at("collections").at("nodes");
    let nodes = match listed.as_array() {
        Some(a) => a,
        None => {
            return Err(DiscountError::NoCollections);
        },
    };
    proof {
        assert(scope_plan(items_of(*d)) == ScopePlan::Collections(seq_view(nodes@)));
    }
    match resolve_handles(resolve, nodes) {
        Ok(ids) => {
            let ghost iv = ids@.map_values(|s: String| s@);
            let j = build_gets(percentage, build_collections(ids));
            proof {
                assert(resolves_all(*resolve, seq_view(nodes@), iv));
                assert(j@ == gets_input(percentage_spec(*d)->Some_0, collections_input(iv)));
                assert(scope_plan(items_of(*d)) == ScopePlan::Collections(seq_view(nodes@)));
                assert(percentage_spec(*d) is Some);
                lemma_gets_ok(*resolve, *d, seq_view(nodes@), iv, j@);
            }
            Ok(j)
        },
        Err(e) => {
            proof {
                crate::json::lemma_seq_view(nodes@);
            }
            Err(e)
        },
    }
}

/// The write-shape `automaticBasicDiscount`.
pub open spec fn automatic_input(d: DiscountRecord, gets: JsonV) -> JsonV {
    JsonV::Object(
        seq![
            ("title"@, opt_text_v(d.title)),
            ("startsAt"@, opt_text_v(d.starts_at)),
            ("endsAt"@, opt_text_v(d.ends_at)),
            ("customerGets"@, gets),
        ],
    )
}

/// What [`automatic_basic_input`] answers: the input around the converted
/// `customerGets`, or the conversion's error.
pub open spec fn automatic_outcome<E, F: Fn(&str) -> Result<String, E>>(
    resolve: F,
    d: DiscountRecord,
    r: Result<JsonV, DiscountError<E>>,
) -> bool {
    match r {
        Ok(j) => exists|g: JsonV|
            gets_outcome(resolve, d, Ok(g)) && j == #[trigger] automatic_input(d, g),
        Err(e) => gets_outcome(resolve, d, Err(e)),
    }
}

/// Builds the `automaticBasicDiscount` input for a discount: its title and
/// dates, and `customerGets` as [`build_customer_gets`] turns it.
pub fn automatic_basic_input<E, F: Fn(&str) -> Result<String, E>>(
    resolve: &F,
    d: &DiscountRecord,
) -> (r: Result<Json, DiscountError<E>>)
    requires
        forall|h: &str| resolve.requires((h,)),
    ensures
        automatic_outcome(*resolve, *d, result_view(r)),
{
    let gets = match build_customer_gets(resolve, d) {
        Ok(g) => g,
        Err(e) => {
            return Err(e);
        },
    };
    let ghost gv = gets@;
    let es = vec![
        entry("title", Json::opt_text(&d.title)),
        entry("startsAt", Json::opt_text(&d.starts_at)),
        entry("endsAt", Json::opt_text(&d.ends_at)),
        entry("customerGets", gets),
    ];
    proof {
        lemma_entries_view(es@);
        assert(entries_view(es@) =~= automatic_input(*d, gv)->Object_0);
    }
    Ok(Json::Object(es))
}

/// The code of a code discount: its first code node's.
pub open spec fn code_spec(d: DiscountRecord) -> Option<Seq<char>> {
    match d.codes {
        Some(c) => if c.nodes@.len() > 0 {
            Some(c.nodes@[0].code@)
        } else {
            None
        },
        None => None,
    }
}

/// The redeem code of a code discount (its first code node).
pub fn code_of<E>(d: &DiscountRecord) -> (r: Result<String, DiscountError<E>>)
    ensures
        match r {
            Ok(c) => code_spec(*d) == Some(c@),
            Err(e) => code_spec(*d) is None && e is MissingCode,
        },
{
    match &d.codes {
        Some(c) => if c.nodes.len() > 0 {
            Ok(c.nodes[0].code.clone())
        } else {
            Err(DiscountError::MissingCode)
        },
        None => Err(DiscountError::MissingCode),
    }
}

/// A code discount targets all customers: its `customerSelection` has
/// `__typename` `"DiscountCustomerAll"`.
pub open spec fn for_all_customers(d: DiscountRecord) -> bool {
    match d.customer_selection {
        Some(s) => s@.at("__typename"@) == JsonV::Str("DiscountCustomerAll"@),
        None => false,
    }
}

/// The write-shape `basicCodeDiscount`.
pub open spec fn code_input(d: DiscountRecord, code: Seq<char>, gets: JsonV) -> JsonV {
    JsonV::Object(
        seq![
            ("title"@, opt_text_v(d.title)),
            ("code"@, JsonV::Str(code)),
            ("startsAt"@, opt_text_v(d.starts_at)),
            ("endsAt"@, opt_text_v(d.ends_at)),
            ("customerSelection"@, JsonV::Object(seq![("all"@, JsonV::Bool(true))])),
            ("customerGets"@, gets),
        ],
    )
}

/// What [`code_basic_input`] answers: refused unless the discount is for all
/// customers and has a code, else the input around the converted
/// `customerGets`, or the conversion's error.
pub open spec fn code_outcome<E, F: Fn(&str) -> Result<String, E>>(
    resolve: F,
    d: DiscountRecord,
    r: Result<JsonV, DiscountError<E>>,
) -> bool {
    match r {
        Ok(j) => for_all_customers(d) && code_spec(d) is Some && exists|g: JsonV|
            gets_outcome(resolve, d, Ok(g)) && j == #[trigger] code_input(d, code_spec(d)->Some_0, g),
        Err(DiscountError::NotAllCustomers) => !for_all_customers(d),
        Err(DiscountError::MissingCode) => for_all_customers(d) && code_spec(d) is None,
        Err(e) => for_all_customers(d) && code_spec(d) is Some && gets_outcome(resolve, d, Err(e)),
    }
}

/// Builds the `basicCodeDiscount` input for a code discount. Only discounts
/// for all customers are supported (others would need customers or segments
/// that exist in the target store); the code is the discount's first code.
pub fn code_basic_input<E, F: Fn(&str) -> Result<String, E>>(resolve: &F, d: &DiscountRecord) -> (r:
    Result<Json, DiscountError<E>>)
    requires
        forall|h: &str| resolve.requires((h,)),
    ensures
        code_outcome(*resolve, *d, result_view(r)),
{
    let all_customers = match &d.customer_selection {
        Some(s) => match s.str_at("__typename") {
            Some(t) => str_eq(t.as_str(), "DiscountCustomerAll"),
            None => false,
        },
        None => false,
    };
    if !all_customers {
        return Err(DiscountError::NotAllCustomers);
    }
    let code = match code_of(d) {
        Ok(c) => c,
        Err(e) => {
            return Err(e);
        },
    };
    let gets = match build_customer_gets(resolve, d) {
        Ok(g) => g,
        Err(e) => {
            return Err(e);
        },
    };
    let ghost gv = gets@;
    let sel = vec![entry("all", Json::Bool(true))];
    proof {
        lemma_entries_view(sel@);
    }
    let ghost sv = entries_view(sel@);
    let es = vec![
        entry("title", Json::opt_text(&d.title)),
        entry("code", Json::Str(code)),
        entry("startsAt", Json::opt_text(&d.starts_at)),
        entry("endsAt", Json::opt_text(&d.ends_at)),
        entry("customerSelection", Json::Object(sel)),
        entry("customerGets", gets),
    ];
    proof {
        lemma_entries_view(es@);
        let want = code_input(*d, code_spec(*d)->Some_0, gv)->Object_0;
        assert(sv =~= want[4].1->Object_0);
        assert(entries_view(es@) =~= want);
    }
    Ok(Json::Object(es))
}

/// The target store's collections by handle: each listed `{ handle, id }`
/// binds the handle to the id (a later duplicate wins).
pub fn build_collection_map(collections: &Vec<Json>) -> (r: IdTable)
    ensures
        r@ == listing_map(seq_view(collections@), "handle"@, false),
{
    table_from_listing(collections, "handle", false)
}

/// A create mutation reported user errors.
pub struct CreateRejected {
    /// The discount's title, or `"?"`.
    pub title: String,
    /// The `userErrors` value.
    pub errors: Json,
}

/// Fails with the discount's title and the payload's `userErrors` when that
/// list is non-empty.
pub fn check_user_errors(payload: &Json, d: &DiscountRecord) -> (r: Result<(), CreateRejected>)
    ensures
        match r {
            Ok(()) => !crate::bulk::has_user_errors(payload@),
            Err(e) => crate::bulk::has_user_errors(payload@) && e.errors@ == payload@.at(
                "userErrors"@,
            ) && e.title@ == (match d.title {
                Some(t) => t@,
                None => "?"@,
            }),
        },
{
    if crate::bulk::user_errors_present(payload) {
        let title = match &d.title {
            Some(t) => t.clone(),
            None => owned("?"),
        };
        return Err(CreateRejected { title, errors: payload.at("userErrors") });
    }
    Ok(())
}

// ---- import: planning the bulk mutations ----

/// A discount's title, or `"(untitled)"`.
pub open spec fn title_of(d: DiscountRecord) -> Seq<char> {
    match d.title {
        Some(t) => t@,
        None => "(untitled)"@,
    }
}

/// What the bulk import does with one discount node.
pub enum DiscountStep<E> {
    /// Submit `line` (`{ basicCodeDiscount }`) with the code mutations.
    Code { line: Json, title: String, suffix: String },
    /// Submit `line` (`{ automaticBasicDiscount }`) with the automatic ones.
    Automatic { line: Json, title: String },
    /// The discount cannot be converted.
    Skip { title: String, reason: DiscountError<E> },
    /// Cloning this type of discount is not supported.
    Unsupported { title: String, typename: String },
}

/// The bulk import's decision for one discount, with `resolve` remapping
/// collections: code discounts go to the code mutation and automatic ones to
/// the automatic mutation when their input can be built, are skipped with the
/// reason when it cannot, and any other type is not supported.
pub open spec fn step_outcome<E, F: Fn(&str) -> Result<String, E>>(
    resolve: F,
    d: DiscountRecord,
    s: DiscountStep<E>,
) -> bool {
    match s {
        DiscountStep::Code { line, title, suffix } => {
            &&& d.typename@ == "DiscountCodeBasic"@
            &&& title@ == title_of(d)
            &&& suffix@ == "code: "@ + code_spec(d)->Some_0
            &&& exists|j: JsonV|
                code_outcome(resolve, d, Ok(j)) && line@ == #[trigger] wrapped("basicCodeDiscount"@, j)
        },
        DiscountStep::Automatic { line, title } => {
            &&& d.typename@ == "DiscountAutomaticBasic"@
            &&& title@ == title_of(d)
            &&& exists|j: JsonV|
                automatic_outcome(resolve, d, Ok(j)) && line@ == #[trigger] wrapped(
                    "automaticBasicDiscount"@,
                    j,
                )
        },
        DiscountStep::Skip { title, reason } => {
            &&& title@ == title_of(d)
            &&& (d.typename@ == "DiscountCodeBasic"@ && code_outcome(resolve, d, Err(reason)))
                || (d.typename@ == "DiscountAutomaticBasic"@ && automatic_outcome(
                resolve,
                d,
                Err(reason),
            ))
        },
        DiscountStep::Unsupported { title, typename } => {
            &&& title@ == title_of(d)
            &&& typename@ == d.typename@
            &&& d.typename@ != "DiscountCodeBasic"@
            &&& d.typename@ != "DiscountAutomaticBasic"@
        },
    }
}

/// `{ key: j }`.
pub open spec fn wrapped(key: Seq<char>, j: JsonV) -> JsonV {
    JsonV::Object(seq![(key, j)])
}

fn wrap(key: &str, j: Json) -> (r: Json)
    ensures
        r@ == wrapped(key@, j@),
{
    let es = vec![entry(key, j)];
    proof {
        lemma_entries_view(es@);
        assert(entries_view(es@) =~= seq![(key@, j@)]);
    }
    Json::Object(es)
}

/// Decides what the bulk import does with one discount (see [`step_outcome`]).
pub fn plan_discount<E, F: Fn(&str) -> Result<String, E>>(resolve: &F, node: &DiscountNodeRecord) -> (r:
    DiscountStep<E>)
    requires
        forall|h: &str| resolve.requires((h,)),
    ensures
        step_outcome(*resolve, node.discount, r),
{
    let d = &node.discount;
    let title = match &d.title {
        Some(t) => t.clone(),
        None => owned("(untitled)"),
    };
    if str_eq(d.typename.as_str(), "DiscountCodeBasic") {
        match code_basic_input(resolve, d) {
            Ok(input) => {
                let ghost iv = input@;
                let code = match code_of::<E>(d) {
                    Ok(c) => c,
                    Err(_) => owned(""),
                };
                let mut suffix = owned("code: ");
                suffix.append(code.as_str());
                let line = wrap("basicCodeDiscount", input);
                proof {
                    reveal_strlit("code: ");
                    assert(code_outcome(*resolve, *d, Ok(iv)));
                }
                DiscountStep::Code { line, title, suffix }
            },
            Err(e) => DiscountStep::Skip { title, reason: e },
        }
    } else if str_eq(d.typename.as_str(), "DiscountAutomaticBasic") {
        match automatic_basic_input(resolve, d) {
            Ok(input) => {
                let ghost iv = input@;
                let line = wrap("automaticBasicDiscount", input);
                proof {
                    assert(automatic_outcome(*resolve, *d, Ok(iv)));
                }
                DiscountStep::Automatic { line, title }
            },
            Err(e) => DiscountStep::Skip { title, reason: e },
        }
    } else {
        DiscountStep::Unsupported { title, typename: d.typename.clone() }
    }
}

/// The decision for each discount, in order (see [`step_outcome`]).
pub fn plan_discounts<E, F: Fn(&str) -> Result<String, E>>(
    resolve: &F,
    nodes: &Vec<DiscountNodeRecord>,
) -> (r: Vec<DiscountStep<E>>)
    requires
        forall|h: &str| resolve.requires((h,)),
    ensures
        r@.len() == nodes@.len(),
        forall|i: int| 0 <= i < nodes@.len() ==> step_outcome(*resolve, nodes@[i].discount, #[trigger] r@[i]),
{
    let mut out: Vec<DiscountStep<E>> = Vec::new();
    let mut i: usize = 0;
    while i < nodes.len()
        invariant
            i <= nodes@.len(),
            out@.len() == i,
            forall|h: &str| resolve.requires((h,)),
            forall|j: int| 0 <= j < i ==> step_outcome(*resolve, nodes@[j].discount, #[trigger] out@[j]),
        decreases nodes@.len() - i,
    {
        let step = plan_discount(resolve, &nodes[i]);
        out.push(step);
        i = i + 1;
    }
    out
}

/// The code-discount line a decision submits, if it is one.
pub open spec fn code_line<E>(s: DiscountStep<E>) -> Option<JsonV> {
    match s {
        DiscountStep::Code { line, .. } => Some(line@),
        _ => None,
    }
}

/// The automatic-discount line a decision submits, if it is one.
pub open spec fn automatic_line<E>(s: DiscountStep<E>) -> Option<JsonV> {
    match s {
        DiscountStep::Automatic { line, .. } => Some(line@),
        _ => None,
    }
}

/// The lines the code-discount bulk mutation sends: the line of every
/// `Code` decision, in order, tagged with its position.
pub fn code_batch<E>(steps: &Vec<DiscountStep<E>>) -> (r: Vec<(usize, Json)>)
    ensures
        batch_view(r@) == picked(steps@, |s: DiscountStep<E>| code_line(s)),
{
    let ghost f = |s: DiscountStep<E>| code_line(s);
    let mut out: Vec<(usize, Json)> = Vec::new();
    let mut i: usize = 0;
    while i < steps.len()
        invariant
            i <= steps@.len(),
            batch_view(out@) == picked(steps@.take(i as int), f),
            f == (|s: DiscountStep<E>| code_line(s)),
        decreases steps@.len() - i,
    {
        proof {
            lemma_picked_step(steps@, i as int, f);
            assert(f(steps@[i as int]) == code_line(steps@[i as int]));
        }
        match &steps[i] {
            DiscountStep::Code { line, .. } => {
                let ghost before = out@;
                out.push((i, line.duplicate()));
                proof {
                    assert(batch_view(out@) =~= batch_view(before).push((i as int, line@)));
                }
            },
            _ => {},
        }
        i = i + 1;
    }
    proof {
        assert(steps@.take(steps@.len() as int) =~= steps@);
    }
    out
}

/// The lines the automatic-discount bulk mutation sends: the line of every
/// `Automatic` decision, in order, tagged with its position.
pub fn automatic_batch<E>(steps: &Vec<DiscountStep<E>>) -> (r: Vec<(usize, Json)>)
    ensures
        batch_view(r@) == picked(steps@, |s: DiscountStep<E>| automatic_line(s)),
{
    let ghost f = |s: DiscountStep<E>| automatic_line(s);
    let mut out: Vec<(usize, Json)> = Vec::new();
    let mut i: usize = 0;
    while i < steps.len()
        invariant
            i <= steps@.len(),
            batch_view(out@) == picked(steps@.take(i as int), f),
            f == (|s: DiscountStep<E>| automatic_line(s)),
        decreases steps@.len() - i,
    {
        proof {
            lemma_picked_step(steps@, i as int, f);
            assert(f(steps@[i as int]) == automatic_line(steps@[i as int]));
        }
        match &steps[i] {
            DiscountStep::Automatic { line, .. } => {
                let ghost before = out@;
                out.push((i, line.duplicate()));
                proof {
                    assert(batch_view(out@) =~= batch_view(before).push((i as int, line@)));
                }
            },
            _ => {},
        }
        i = i + 1;
    }
    proof {
        assert(steps@.take(steps@.len() as int) =~= steps@);
    }
    out
}

impl<E> DiscountError<E> {
    /// Why the discount cannot be created, in words; `None` for a failed
    /// resolution, whose own error says why. A scope's `__typename` is shown
    /// in quotes as it is.
    pub fn message(&self) -> (r: Option<String>)
        ensures
            match r {
                Some(m) => !(*self is Resolve) && m@ == error_text(*self),
                None => *self is Resolve,
            },
    {
        let m = match self {
            DiscountError::NotPercentage => owned("only percentage-value discounts are supported for now"),
            DiscountError::NoCollections => owned("collection-scoped discount has no collections"),
            DiscountError::MissingHandle => owned("collection is missing its handle"),
            DiscountError::UnsupportedScope { typename } => {
                let mut m = owned("unsupported discount item scope: ");
                match typename {
                    Some(t) => {
                        m.append("Some(\"");
                        m.append(t.as_str());
                        m.append("\")");
                    },
                    None => {
                        m.append("None");
                    },
                }
                m
            },
            DiscountError::NotAllCustomers => owned("only 'all customers' code discounts are supported for now"),
            DiscountError::MissingCode => owned("code discount is missing its code"),
            DiscountError::Resolve(_) => {
                return None;
            },
        };
        Some(m)
    }
}

/// The words for a discount error (see [`DiscountError::message`]).
pub open spec fn error_text<E>(e: DiscountError<E>) -> Seq<char> {
    match e {
        DiscountError::NotPercentage => "only percentage-value discounts are supported for now"@,
        DiscountError::NoCollections => "collection-scoped discount has no collections"@,
        DiscountError::MissingHandle => "collection is missing its handle"@,
        DiscountError::UnsupportedScope { typename } => "unsupported discount item scope: "@ + match typename {
            Some(t) => "Some(\""@ + t@ + "\")"@,
            None => "None"@,
        },
        DiscountError::NotAllCustomers => "only 'all customers' code discounts are supported for now"@,
        DiscountError::MissingCode => "code discount is missing its code"@,
        DiscountError::Resolve(_) => Seq::empty(),
    }
}

/// The dates of a discount carry over as they were: an automatic discount is
/// created with the title, `startsAt` and `endsAt` of the exported one (as
/// text, or `null` when absent), and with the `customerGets` that
/// [`build_customer_gets`] makes of it.
pub proof fn law_automatic_input_keeps_dates<E, F: Fn(&str) -> Result<String, E>>(
    resolve: F,
    d: DiscountRecord,
    j: JsonV,
)
    requires
        automatic_outcome(resolve, d, Ok(j)),
    ensures
        j.get("title"@) == Some(match d.title {
            Some(t) => JsonV::Str(t@),
            None => JsonV::Null,
        }),
        j.get("startsAt"@) == Some(match d.starts_at {
            Some(t) => JsonV::Str(t@),
            None => JsonV::Null,
        }),
        j.get("endsAt"@) == Some(match d.ends_at {
            Some(t) => JsonV::Str(t@),
            None => JsonV::Null,
        }),
        exists|g: JsonV| gets_outcome(resolve, d, Ok(g)) && j.get("customerGets"@) == Some(g),
{
    reveal_strlit("title");
    reveal_strlit("startsAt");
    reveal_strlit("endsAt");
    reveal_strlit("customerGets");
    assert("title"@.len() == 5 && "startsAt"@.len() == 8 && "endsAt"@.len() == 6 && "customerGets"@.len() == 12);
    let g = choose|g: JsonV| gets_outcome(resolve, d, Ok(g)) && j == #[trigger] automatic_input(d, g);
    let es = automatic_input(d, g)->Object_0;
    crate::json::lemma_get_entry(es, 0);
    assert forall|j: int| 0 <= j < 1 implies (#[trigger] es[j]).0 != es[1].0 by {
        if j == 0 {}
    }
    crate::json::lemma_get_entry(es, 1);
    assert forall|j: int| 0 <= j < 2 implies (#[trigger] es[j]).0 != es[2].0 by {
        if j == 0 {} else if j == 1 {}
    }
    crate::json::lemma_get_entry(es, 2);
    assert forall|j: int| 0 <= j < 3 implies (#[trigger] es[j]).0 != es[3].0 by {
        if j == 0 {} else if j == 1 {} else if j == 2 {}
    }
    crate::json::lemma_get_entry(es, 3);
}

/// A code discount is created with the title, `startsAt` and `endsAt` of the
/// exported one (as text, or `null` when absent), its first code, and the
/// `customerGets` that [`build_customer_gets`] makes of it.
pub proof fn law_code_input_keeps_dates<E, F: Fn(&str) -> Result<String, E>>(
    resolve: F,
    d: DiscountRecord,
    j: JsonV,
)
    requires
        code_outcome(resolve, d, Ok(j)),
    ensures
        j.get("title"@) == Some(match d.title {
            Some(t) => JsonV::Str(t@),
            None => JsonV::Null,
        }),
        j.get("code"@) == Some(JsonV::Str(d.codes->Some_0.nodes@[0].code@)),
        j.get("startsAt"@) == Some(match d.starts_at {
            Some(t) => JsonV::Str(t@),
            None => JsonV::Null,
        }),
        j.get("endsAt"@) == Some(match d.ends_at {
            Some(t) => JsonV::Str(t@),
            None => JsonV::Null,
        }),
        exists|g: JsonV| gets_outcome(resolve, d, Ok(g)) && j.get("customerGets"@) == Some(g),
{
    reveal_strlit("title");
    reveal_strlit("code");
    reveal_strlit("startsAt");
    reveal_strlit("endsAt");
    reveal_strlit("customerSelection");
    reveal_strlit("customerGets");
    assert("title"@.len() == 5 && "code"@.len() == 4 && "startsAt"@.len() == 8 && "endsAt"@.len() == 6);
    assert("customerSelection"@.len() == 17 && "customerGets"@.len() == 12);
    let g = choose|g: JsonV|
        gets_outcome(resolve, d, Ok(g)) && j == #[trigger] code_input(d, code_spec(d)->Some_0, g);
    let es = code_input(d, code_spec(d)->Some_0, g)->Object_0;
    crate::json::lemma_get_entry(es, 0);
    assert forall|j: int| 0 <= j < 1 implies (#[trigger] es[j]).0 != es[1].0 by {
        if j == 0 {}
    }
    crate::json::lemma_get_entry(es, 1);
    assert forall|j: int| 0 <= j < 2 implies (#[trigger] es[j]).0 != es[2].0 by {
        if j == 0 {} else if j == 1 {}
    }
    crate::json::lemma_get_entry(es, 2);
    assert forall|j: int| 0 <= j < 3 implies (#[trigger] es[j]).0 != es[3].0 by {
        if j == 0 {} else if j == 1 {} else if j == 2 {}
    }
    crate::json::lemma_get_entry(es, 3);
    assert forall|j: int| 0 <= j < 5 implies (#[trigger] es[j]).0 != es[5].0 by {
        if j == 0 {} else if j == 1 {} else if j == 2 {} else if j == 3 {} else if j == 4 {}
    }
    crate::json::lemma_get_entry(es, 5);
}

/// A converted `customerGets` keeps the exported percentage, and a
/// collection scope is written as one target-store id per listed collection,
/// in order, each what `resolve` answers for that collection's handle.
pub proof fn law_gets_keeps_percentage_and_collections<E, F: Fn(&str) -> Result<String, E>>(
    resolve: F,
    d: DiscountRecord,
    g: JsonV,
)
    requires
        gets_outcome(resolve, d, Ok(g)),
    ensures
        d.customer_gets is Some,
        g.at("value"@).get("percentage"@) == Some(d.customer_gets->Some_0@.at("value"@).at("percentage"@)),
        scope_plan(items_of(d)) matches ScopePlan::Collections(nodes) ==> (g.at("items"@).at("collections"@).at(
            "add"@,
        ) matches JsonV::Array(ids) && ids.len() == nodes.len() && forall|i: int|
            0 <= i < nodes.len() ==> ((#[trigger] ids[i]) matches JsonV::Str(id) && handle_of(nodes[i]) is Some
                && resolves_to(resolve, handle_of(nodes[i])->Some_0, id))),
{
    reveal_strlit("add");
    reveal_strlit("all");
    reveal_strlit("collections");
    reveal_strlit("items");
    reveal_strlit("percentage");
    reveal_strlit("value");
    assert("add"@.len() == 3);
    assert("all"@.len() == 3);
    assert("collections"@.len() == 11);
    assert("items"@.len() == 5);
    assert("percentage"@.len() == 10);
    assert("value"@.len() == 5);
    assert("add"@[1] != "all"@[1]);
    assert("items"@[0] != "value"@[0]);
    let p = percentage_spec(d)->Some_0;
    let ges_of = |items: JsonV| gets_input(p, items)->Object_0;
    match scope_plan(items_of(d)) {
        ScopePlan::All => {
            let es = ges_of(all_items_input());
            crate::json::lemma_get_entry(es, 0);
            assert forall|j: int| 0 <= j < 1 implies (#[trigger] es[j]).0 != es[1].0 by {
                if j == 0 {}
            }
            crate::json::lemma_get_entry(es, 1);
            let ves = es[0].1->Object_0;
            crate::json::lemma_get_entry(ves, 0);
        },
        ScopePlan::Collections(nodes) => {
            let ids = choose|ids: Seq<Seq<char>>|
                #[trigger] resolves_all(resolve, nodes, ids) && g == gets_input(p, collections_input(ids));
            let es = ges_of(collections_input(ids));
            crate::json::lemma_get_entry(es, 0);
            assert forall|j: int| 0 <= j < 1 implies (#[trigger] es[j]).0 != es[1].0 by {
                if j == 0 {}
            }
            crate::json::lemma_get_entry(es, 1);
            let ves = es[0].1->Object_0;
            crate::json::lemma_get_entry(ves, 0);
            let ces = collections_input(ids)->Object_0;
            crate::json::lemma_get_entry(ces, 0);
            let aes = ces[0].1->Object_0;
            crate::json::lemma_get_entry(aes, 0);
        },
        _ => {},
    }
}

} // verus!
