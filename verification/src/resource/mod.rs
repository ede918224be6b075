//! The resource types that can be exported, imported and cloned, and the
//! per-resource conversions between what the Admin API reads and writes.

use vstd::prelude::*;

use crate::bulk::{line_sorted, order_results, user_errors_present};
use crate::json::{seq_view, str_eq, Json, JsonV};

pub mod customer;
pub mod delivery_profile;
pub mod discount;
pub mod giftcard;
pub mod metaobject;
pub mod product;
pub mod store_credit;

pub use customer::Customer;
pub use delivery_profile::DeliveryProfile;
pub use discount::Discount;
pub use giftcard::GiftCard;
pub use metaobject::Metaobject;
pub use product::Product;
pub use store_credit::StoreCredit;

verus! {

/// One cloneable Shopify resource type.
#[derive(PartialEq, Eq, Structural, Clone, Copy)]
pub enum ResourceKind {
    Metaobjects,
    Customers,
    Products,
    DeliveryProfiles,
    Discounts,
    GiftCards,
    StoreCredit,
}

/// The name used on the command line and for export files.
pub open spec fn kind_name(k: ResourceKind) -> Seq<char> {
    match k {
        ResourceKind::Metaobjects => "metaobjects"@,
        ResourceKind::Customers => "customers"@,
        ResourceKind::Products => "products"@,
        ResourceKind::DeliveryProfiles => "delivery_profiles"@,
        ResourceKind::Discounts => "discounts"@,
        ResourceKind::GiftCards => "giftcards"@,
        ResourceKind::StoreCredit => "store_credit"@,
    }
}

/// The resource a command-line name selects.
pub open spec fn kind_named(name: Seq<char>) -> Option<ResourceKind> {
    if name == "products"@ {
        Some(ResourceKind::Products)
    } else if name == "discounts"@ {
        Some(ResourceKind::Discounts)
    } else if name == "metaobjects"@ {
        Some(ResourceKind::Metaobjects)
    } else if name == "customers"@ {
        Some(ResourceKind::Customers)
    } else if name == "delivery_profiles"@ {
        Some(ResourceKind::DeliveryProfiles)
    } else if name == "giftcards"@ {
        Some(ResourceKind::GiftCards)
    } else if name == "store_credit"@ {
        Some(ResourceKind::StoreCredit)
    } else {
        None
    }
}

/// Every resource in a safe order for cloning, dependencies first:
/// metaobject definitions before anything that references them, customers
/// before gift cards and store credit (which reference a customer), products
/// before delivery profiles.
pub open spec fn clone_order() -> Seq<ResourceKind> {
    seq![
        ResourceKind::Metaobjects,
        ResourceKind::Customers,
        ResourceKind::Products,
        ResourceKind::DeliveryProfiles,
        ResourceKind::Discounts,
        ResourceKind::GiftCards,
        ResourceKind::StoreCredit,
    ]
}

impl ResourceKind {
    /// The name used on the command line, e.g. "products".
    pub fn name(&self) -> (r: &'static str)
        ensures
            r@ == kind_name(*self),
    {
        match self {
            ResourceKind::Metaobjects => "metaobjects",
            ResourceKind::Customers => "customers",
            ResourceKind::Products => "products",
            ResourceKind::DeliveryProfiles => "delivery_profiles",
            ResourceKind::Discounts => "discounts",
            ResourceKind::GiftCards => "giftcards",
            ResourceKind::StoreCredit => "store_credit",
        }
    }
}

/// A command-line name that names no resource.
pub struct UnknownResource {
    pub name: String,
}

/// Looks up a resource by its command-line name.
pub fn by_name(name: &str) -> (r: Result<ResourceKind, UnknownResource>)
    ensures
        match r {
            Ok(k) => kind_named(name@) == Some(k),
            Err(e) => kind_named(name@) is None && e.name@ == name@,
        },
{
    if str_eq(name, "products") {
        Ok(ResourceKind::Products)
    } else if str_eq(name, "discounts") {
        Ok(ResourceKind::Discounts)
    } else if str_eq(name, "metaobjects") {
        Ok(ResourceKind::Metaobjects)
    } else if str_eq(name, "customers") {
        Ok(ResourceKind::Customers)
    } else if str_eq(name, "delivery_profiles") {
        Ok(ResourceKind::DeliveryProfiles)
    } else if str_eq(name, "giftcards") {
        Ok(ResourceKind::GiftCards)
    } else if str_eq(name, "store_credit") {
        Ok(ResourceKind::StoreCredit)
    } else {
        Err(UnknownResource { name: crate::json::owned(name) })
    }
}

/// Every known resource, in a safe order for cloning (see [`clone_order`]).
pub fn all() -> (r: Vec<ResourceKind>)
    ensures
        r@ == clone_order(),
{
    let r = vec![
        ResourceKind::Metaobjects,
        ResourceKind::Customers,
        ResourceKind::Products,
        ResourceKind::DeliveryProfiles,
        ResourceKind::Discounts,
        ResourceKind::GiftCards,
        ResourceKind::StoreCredit,
    ];
    assert(r@ =~= clone_order());
    r
}


/// Each resource's own name selects it again.
pub proof fn law_name_round_trip(k: ResourceKind)
    ensures
        kind_named(kind_name(k)) == Some(k),
{
    reveal_strlit("metaobjects");
    reveal_strlit("customers");
    reveal_strlit("products");
    reveal_strlit("delivery_profiles");
    reveal_strlit("discounts");
    reveal_strlit("giftcards");
    reveal_strlit("store_credit");
    let n = kind_name(k);
    assert(n.len() != "products"@.len() || n[0] != "products"@[0] || n == "products"@);
    assert(n.len() != "discounts"@.len() || n[0] != "discounts"@[0] || n == "discounts"@);
    assert(n.len() != "metaobjects"@.len() || n[0] != "metaobjects"@[0] || n == "metaobjects"@);
    assert(n.len() != "customers"@.len() || n[0] != "customers"@[0] || n == "customers"@);
    assert(n.len() != "delivery_profiles"@.len() || n[0] != "delivery_profiles"@[0]
        || n == "delivery_profiles"@);
    assert(n.len() != "giftcards"@.len() || n[0] != "giftcards"@[0] || n == "giftcards"@);
}

/// The clone order lists every resource exactly once, and puts each resource
/// after the ones it depends on.
pub proof fn law_clone_order()
    ensures
        clone_order().len() == 7,
        forall|k: ResourceKind| #[trigger] clone_order().contains(k),
        forall|i: int, j: int|
            0 <= i < j < clone_order().len() ==> clone_order()[i] != clone_order()[j],
        clone_order()[0] == ResourceKind::Metaobjects,
        clone_order()[1] == ResourceKind::Customers,
        clone_order()[2] == ResourceKind::Products,
        clone_order()[3] == ResourceKind::DeliveryProfiles,
        clone_order()[5] == ResourceKind::GiftCards,
        clone_order()[6] == ResourceKind::StoreCredit,
{
    assert forall|k: ResourceKind| #[trigger] clone_order().contains(k) by {
        match k {
            ResourceKind::Metaobjects => assert(clone_order()[0] == k),
            ResourceKind::Customers => assert(clone_order()[1] == k),
            ResourceKind::Products => assert(clone_order()[2] == k),
            ResourceKind::DeliveryProfiles => assert(clone_order()[3] == k),
            ResourceKind::Discounts => assert(clone_order()[4] == k),
            ResourceKind::GiftCards => assert(clone_order()[5] == k),
            ResourceKind::StoreCredit => assert(clone_order()[6] == k),
        }
    }
}

/// Where a mutation's payload sits in one bulk-mutation result line: under
/// `data` when the line carries that wrapper, else at the top level.
pub open spec fn payload_of(result: JsonV, field: Seq<char>) -> JsonV {
    if result.get("data"@) is Some {
        result.at("data"@).at(field)
    } else {
        result.at(field)
    }
}

/// Locates the `field` mutation payload inside one bulk-mutation result line.
pub fn mutation_payload(result: &Json, field: &str) -> (r: Json)
    ensures
        r@ == payload_of(result@, field@),
{
    match result.get("data") {
        Some(data) => data.at(field),
        None => result.at(field),
    }
}

/// What became of one line of a bulk mutation.
pub enum LineOutcome {
    /// The mutation ran; its payload.
    Accepted { payload: Json },
    /// The mutation reported user errors; the `userErrors` value.
    Rejected { errors: Json },
}

/// `(accepted, value)` of an outcome.
pub open spec fn outcome_view(o: LineOutcome) -> (bool, JsonV) {
    match o {
        LineOutcome::Accepted { payload } => (true, payload@),
        LineOutcome::Rejected { errors } => (false, errors@),
    }
}

/// The outcome a result line reports for the `field` mutation: rejected with its
/// `userErrors` when that list is non-empty, else accepted with the payload.
pub open spec fn outcome_spec(result: JsonV, field: Seq<char>) -> (bool, JsonV) {
    let p = payload_of(result, field);
    if crate::bulk::has_user_errors(p) {
        (false, p.at("userErrors"@))
    } else {
        (true, p)
    }
}

/// The outcome of one result line.
pub fn line_outcome(result: &Json, field: &str) -> (r: LineOutcome)
    ensures
        outcome_view(r) == outcome_spec(result@, field@),
{
    let payload = mutation_payload(result, field);
    if user_errors_present(&payload) {
        LineOutcome::Rejected { errors: payload.at("userErrors") }
    } else {
        LineOutcome::Accepted { payload }
    }
}

/// The outcomes of a bulk mutation's result lines, in input-line order: the
/// results are sorted by `__lineNumber` (see [`crate::bulk::order_results`])
/// and each is read as [`line_outcome`] does, so the i-th outcome answers the
/// i-th submitted line.
pub fn line_outcomes(results: Vec<Json>, field: &str) -> (out: Vec<LineOutcome>)
    ensures
        out@.len() == results@.len(),
        forall|i: int|
            0 <= i < out@.len() ==> #[trigger] outcome_view(out@[i]) == outcome_spec(
                line_sorted(seq_view(results@))[i],
                field@,
            ),
{
    let ghost n = results@.len();
    let sorted = order_results(results);
    proof {
        crate::json::lemma_seq_view(sorted@);
        crate::bulk::lemma_sorted_len(seq_view(results@));
        crate::json::lemma_seq_view(results@);
    }
    let mut out: Vec<LineOutcome> = Vec::new();
    let mut i: usize = 0;
    while i < sorted.len()
        invariant
            i <= sorted@.len(),
            out@.len() == i,
            seq_view(sorted@).len() == sorted@.len(),
            forall|k: int| 0 <= k < sorted@.len() ==> #[trigger] seq_view(sorted@)[k] == sorted@[k]@,
            forall|k: int|
                0 <= k < i ==> #[trigger] outcome_view(out@[k]) == outcome_spec(
                    seq_view(sorted@)[k],
                    field@,
                ),
        decreases sorted@.len() - i,
    {
        out.push(line_outcome(&sorted[i], field));
        i = i + 1;
    }
    out
}

/// Pairs what was recorded for each submitted line with that line's outcome:
/// the results are put in input-line order (see [`line_outcomes`]) and
/// matched with `meta` position by position, stopping at the shorter of the
/// two.
pub fn pair_outcomes<M>(meta: Vec<M>, results: Vec<Json>, field: &str) -> (out: Vec<(M, LineOutcome)>)
    ensures
        out@.len() == (if meta@.len() <= results@.len() {
            meta@.len()
        } else {
            results@.len()
        }),
        forall|i: int|
            0 <= i < out@.len() ==> (#[trigger] out@[i]).0 == meta@[i] && outcome_view(out@[i].1)
                == outcome_spec(line_sorted(seq_view(results@))[i], field@),
{
    let ghost rv = seq_view(results@);
    proof {
        crate::json::lemma_seq_view(results@);
    }
    let outcomes = line_outcomes(results, field);
    let ghost ov = outcomes@;
    let n = if meta.len() <= outcomes.len() {
        meta.len()
    } else {
        outcomes.len()
    };
    let mut out: Vec<(M, LineOutcome)> = Vec::new();
    let mut ms = meta;
    let mut os = outcomes;
    let ghost m0 = ms@;
    let mut i: usize = 0;
    while i < n
        invariant
            n <= m0.len(),
            n <= ov.len(),
            i <= n,
            ms@ == m0.skip(i as int),
            os@ == ov.skip(i as int),
            out@.len() == i,
            ov.len() == rv.len(),
            forall|k: int|
                0 <= k < ov.len() ==> #[trigger] outcome_view(ov[k]) == outcome_spec(
                    line_sorted(rv)[k],
                    field@,
                ),
            forall|k: int|
                0 <= k < i ==> (#[trigger] out@[k]).0 == m0[k] && outcome_view(out@[k].1)
                    == outcome_spec(line_sorted(rv)[k], field@),
        decreases n - i,
    {
        let m = ms.remove(0);
        let o = os.remove(0);
        proof {
            assert(m == m0[i as int]);
            assert(o == ov[i as int]);
            assert(ms@ =~= m0.skip(i + 1));
            assert(os@ =~= ov.skip(i + 1));
        }
        out.push((m, o));
        i = i + 1;
    }
    out
}

/// `resolve` may answer `key` with `id`: the target store's id for a record
/// that a source store named by `key` (a handle, a location's name).
pub open spec fn resolves_to<E, F: Fn(&str) -> Result<String, E>>(
    resolve: F,
    key: Seq<char>,
    id: Seq<char>,
) -> bool {
    exists|k: &str, s: String|
        #![trigger resolve.ensures((k,), Ok::<String, E>(s))]
        k@ == key && s@ == id && resolve.ensures((k,), Ok::<String, E>(s))
}

/// The lines a bulk import sends for `items`, in order, each with the
/// position of the item it comes from: `line(item)` for every item that has
/// one; the others are skipped.
pub open spec fn picked<T>(items: Seq<T>, line: spec_fn(T) -> Option<JsonV>) -> Seq<(int, JsonV)>
    decreases items.len(),
{
    if items.len() == 0 {
        Seq::empty()
    } else {
        let rest = picked(items.drop_last(), line);
        match line(items.last()) {
            Some(l) => rest.push(((items.len() - 1) as int, l)),
            None => rest,
        }
    }
}

/// The view of a batch of tagged lines.
pub open spec fn batch_view(b: Seq<(usize, Json)>) -> Seq<(int, JsonV)> {
    b.map_values(|p: (usize, Json)| (p.0 as int, p.1@))
}

/// Extending the items by one extends what is picked by that item's line.
pub proof fn lemma_picked_step<T>(items: Seq<T>, i: int, line: spec_fn(T) -> Option<JsonV>)
    requires
        0 <= i < items.len(),
    ensures
        picked(items.take(i + 1), line) == (match line(items[i]) {
            Some(l) => picked(items.take(i), line).push((i, l)),
            None => picked(items.take(i), line),
        }),
{
    assert(items.take(i + 1).drop_last() =~= items.take(i));
    assert(items.take(i + 1).last() == items[i]);
}

/// `resolve` may answer `key` with the error `e`.
pub open spec fn fails_with<E, F: Fn(&str) -> Result<String, E>>(resolve: F, key: Seq<char>, e: E) -> bool {
    exists|k: &str|
        #![trigger resolve.ensures((k,), Err::<String, E>(e))]
        k@ == key && resolve.ensures((k,), Err::<String, E>(e))
}

} // verus!
