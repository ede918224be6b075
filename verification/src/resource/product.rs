//! Products with their options, variants and prices.
//!
//! The read shape (`options { name optionValues { name } }`, variants with
//! `selectedOptions { name value }`) differs from the write shape of
//! `productSet` (`productOptions [{ name, values: [{ name }] }]`, variants with
//! `optionValues [{ optionName, name }]`); [`build_product_set_input`]
//! turns one into the other.

use vstd::prelude::*;

use crate::json::{
    entries_view, entry, lemma_entries_view, opt_bool_v, opt_text_v, opt_texts_v,
    seq_view, Json, JsonV,
};
use crate::resource::{kind_name, mutation_payload, payload_of, ResourceKind};

verus! {

pub struct Product;

impl Product {
    /// The name used on the command line.
    pub fn name(&self) -> (r: &'static str)
        ensures
            r@ == kind_name(ResourceKind::Products),
    {
        "products"
    }

    /// The resource kind this is.
    pub fn kind(&self) -> (r: ResourceKind)
        ensures
            r == ResourceKind::Products,
    {
        ResourceKind::Products
    }
}

/// One value a product option can take.
pub struct OptionValueRecord {
    pub name: String,
}

/// A product option (e.g. "Color") and its values.
pub struct OptionRecord {
    pub name: String,
    pub option_values: Vec<OptionValueRecord>,
}

/// One `{ name, value }` of a variant's selected options.
pub struct SelectedOption {
    pub name: String,
    pub value: String,
}

/// One exported variant.
pub struct VariantRecord {
    pub sku: Option<String>,
    pub price: Option<String>,
    pub compare_at_price: Option<String>,
    pub barcode: Option<String>,
    pub taxable: Option<bool>,
    pub inventory_policy: Option<String>,
    pub selected_options: Vec<SelectedOption>,
}

/// The variants connection; only its `nodes` matter.
pub struct VariantConnection {
    pub nodes: Vec<VariantRecord>,
}

/// One exported product. Products are matched across stores by `handle`.
pub struct ProductRecord {
    pub handle: String,
    pub title: Option<String>,
    pub status: Option<String>,
    pub description_html: Option<String>,
    pub product_type: Option<String>,
    pub vendor: Option<String>,
    pub tags: Option<Vec<String>>,
    pub options: Option<Vec<OptionRecord>>,
    pub variants: VariantConnection,
}

pub open spec fn option_value_input(v: OptionValueRecord) -> JsonV {
    JsonV::Object(seq![("name"@, JsonV::Str(v.name@))])
}

/// `{ name, values: [{ name }] }` for one option.
pub open spec fn option_input(o: OptionRecord) -> JsonV {
    JsonV::Object(
        seq![
            ("name"@, JsonV::Str(o.name@)),
            ("values"@, JsonV::Array(o.option_values@.map_values(|v| option_value_input(v)))),
        ],
    )
}

/// A selected option `{ name, value }` written as `{ optionName, name }`.
pub open spec fn option_value_ref(s: SelectedOption) -> JsonV {
    JsonV::Object(seq![("optionName"@, JsonV::Str(s.name@)), ("name"@, JsonV::Str(s.value@))])
}

/// The `ProductVariantSetInput` for one variant.
pub open spec fn variant_input(v: VariantRecord) -> JsonV {
    JsonV::Object(
        seq![
            ("price"@, opt_text_v(v.price)),
            ("compareAtPrice"@, opt_text_v(v.compare_at_price)),
            ("sku"@, opt_text_v(v.sku)),
            ("barcode"@, opt_text_v(v.barcode)),
            ("taxable"@, opt_bool_v(v.taxable)),
            ("inventoryPolicy"@, opt_text_v(v.inventory_policy)),
            ("optionValues"@, JsonV::Array(v.selected_options@.map_values(|s| option_value_ref(s)))),
        ],
    )
}

/// The options of a product (none when absent).
pub open spec fn options_of(p: ProductRecord) -> Seq<OptionRecord> {
    match p.options {
        Some(v) => v@,
        None => Seq::empty(),
    }
}

/// The `ProductSetInput` for an exported product.
pub open spec fn product_input(p: ProductRecord) -> JsonV {
    JsonV::Object(
        seq![
            ("handle"@, JsonV::Str(p.handle@)),
            ("title"@, opt_text_v(p.title)),
            ("status"@, opt_text_v(p.status)),
            ("descriptionHtml"@, opt_text_v(p.description_html)),
            ("productType"@, opt_text_v(p.product_type)),
            ("vendor"@, opt_text_v(p.vendor)),
            ("tags"@, opt_texts_v(p.tags)),
            ("productOptions"@, JsonV::Array(options_of(p).map_values(|o| option_input(o)))),
            ("variants"@, JsonV::Array(p.variants.nodes@.map_values(|v| variant_input(v)))),
        ],
    )
}

fn build_option_value(v: &OptionValueRecord) -> (r: Json)
    ensures
        r@ == option_value_input(*v),
{
    let es = vec![entry("name", Json::Str(v.name.clone()))];
    proof {
        lemma_entries_view(es@);
        assert(entries_view(es@) =~= option_value_input(*v)->Object_0);
    }
    Json::Object(es)
}

fn build_option(o: &OptionRecord) -> (r: Json)
    ensures
        r@ == option_input(*o),
{
    let mut vals: Vec<Json> = Vec::new();
    let mut i: usize = 0;
    while i < o.option_values.len()
        invariant
            i <= o.option_values@.len(),
            seq_view(vals@) == o.option_values@.take(i as int).map_values(|v| option_value_input(v)),
        decreases o.option_values@.len() - i,
    {
        let item = build_option_value(&o.option_values[i]);
        proof {
            crate::json::lemma_seq_view_push(vals@, item);
            assert(o.option_values@.take(i + 1).map_values(|v| option_value_input(v))
                =~= o.option_values@.take(i as int).map_values(|v| option_value_input(v)).push(
                option_value_input(o.option_values@[i as int]),
            ));
        }
        vals.push(item);
        i = i + 1;
    }
    assert(o.option_values@.take(o.option_values@.len() as int) =~= o.option_values@);
    let values = Json::Array(vals);
    let es = vec![entry("name", Json::Str(o.name.clone())), entry("values", values)];
    proof {
        lemma_entries_view(es@);
        assert(entries_view(es@) =~= option_input(*o)->Object_0);
    }
    Json::Object(es)
}

fn build_option_value_ref(s: &SelectedOption) -> (r: Json)
    ensures
        r@ == option_value_ref(*s),
{
    let es = vec![
        entry("optionName", Json::Str(s.name.clone())),
        entry("name", Json::Str(s.value.clone())),
    ];
    proof {
        lemma_entries_view(es@);
        assert(entries_view(es@) =~= option_value_ref(*s)->Object_0);
    }
    Json::Object(es)
}

fn build_variant(v: &VariantRecord) -> (r: Json)
    ensures
        r@ == variant_input(*v),
{
    let mut rs: Vec<Json> = Vec::new();
    let mut i: usize = 0;
    while i < v.selected_options.len()
        invariant
            i <= v.selected_options@.len(),
            seq_view(rs@) == v.selected_options@.take(i as int).map_values(|s| option_value_ref(s)),
        decreases v.selected_options@.len() - i,
    {
        let item = build_option_value_ref(&v.selected_options[i]);
        proof {
            crate::json::lemma_seq_view_push(rs@, item);
            assert(v.selected_options@.take(i + 1).map_values(|s| option_value_ref(s))
                =~= v.selected_options@.take(i as int).map_values(|s| option_value_ref(s)).push(
                option_value_ref(v.selected_options@[i as int]),
            ));
        }
        rs.push(item);
        i = i + 1;
    }
    assert(v.selected_options@.take(v.selected_options@.len() as int) =~= v.selected_options@);
    let refs = Json::Array(rs);
    let es = vec![
        entry("price", Json::opt_text(&v.price)),
        entry("compareAtPrice", Json::opt_text(&v.compare_at_price)),
        entry("sku", Json::opt_text(&v.sku)),
        entry("barcode", Json::opt_text(&v.barcode)),
        entry("taxable", Json::opt_bool(v.taxable)),
        entry("inventoryPolicy", Json::opt_text(&v.inventory_policy)),
        entry("optionValues", refs),
    ];
    proof {
        lemma_entries_view(es@);
        assert(entries_view(es@) =~= variant_input(*v)->Object_0);
    }
    Json::Object(es)
}

/// Turns an exported product (read shape) into `ProductSetInput`.
pub fn build_product_set_input(p: &ProductRecord) -> (r: Json)
    ensures
        r@ == product_input(*p),
{
    let mut opts: Vec<Json> = Vec::new();
    if let Some(v) = &p.options {
        let mut i: usize = 0;
        while i < v.len()
            invariant
                p.options == Some(*v),
                i <= v@.len(),
                seq_view(opts@) == v@.take(i as int).map_values(|o| option_input(o)),
            decreases v@.len() - i,
        {
            let item = build_option(&v[i]);
            proof {
                crate::json::lemma_seq_view_push(opts@, item);
                assert(v@.take(i + 1).map_values(|o| option_input(o)) =~= v@.take(
                    i as int,
                ).map_values(|o| option_input(o)).push(option_input(v@[i as int])));
            }
            opts.push(item);
            i = i + 1;
        }
        assert(v@.take(v@.len() as int) =~= v@);
    }
    assert(seq_view(opts@) =~= options_of(*p).map_values(|o| option_input(o)));
    let options = Json::Array(opts);
    let nodes = &p.variants.nodes;
    let mut vars: Vec<Json> = Vec::new();
    let mut i: usize = 0;
    while i < nodes.len()
        invariant
            i <= nodes@.len(),
            seq_view(vars@) == nodes@.take(i as int).map_values(|v| variant_input(v)),
        decreases nodes@.len() - i,
    {
        let item = build_variant(&nodes[i]);
        proof {
            crate::json::lemma_seq_view_push(vars@, item);
            assert(nodes@.take(i + 1).map_values(|v| variant_input(v)) =~= nodes@.take(
                i as int,
            ).map_values(|v| variant_input(v)).push(variant_input(nodes@[i as int])));
        }
        vars.push(item);
        i = i + 1;
    }
    assert(nodes@.take(nodes@.len() as int) =~= nodes@);
    let variants = Json::Array(vars);
    let es = vec![
        entry("handle", Json::Str(p.handle.clone())),
        entry("title", Json::opt_text(&p.title)),
        entry("status", Json::opt_text(&p.status)),
        entry("descriptionHtml", Json::opt_text(&p.description_html)),
        entry("productType", Json::opt_text(&p.product_type)),
        entry("vendor", Json::opt_text(&p.vendor)),
        entry("tags", Json::opt_texts(&p.tags)),
        entry("productOptions", options),
        entry("variants", variants),
    ];
    proof {
        lemma_entries_view(es@);
        assert(entries_view(es@) =~= product_input(*p)->Object_0);
    }
    Json::Object(es)
}

/// The `productSet` payload inside one bulk-mutation result line.
pub fn product_set_payload(result: &Json) -> (r: Json)
    ensures
        r@ == payload_of(result@, "productSet"@),
{
    mutation_payload(result, "productSet")
}

/// The bulk-mutation line for a product: `{ "input": ProductSetInput }`.
pub fn import_line(p: &ProductRecord) -> (r: Json)
    ensures
        r@ == JsonV::Object(seq![("input"@, product_input(*p))]),
{
    let es = vec![entry("input", build_product_set_input(p))];
    proof {
        lemma_entries_view(es@);
        assert(entries_view(es@) =~= seq![("input"@, product_input(*p))]);
    }
    Json::Object(es)
}

/// The `{ input }` line of a product.
pub open spec fn import_line_spec(p: ProductRecord) -> JsonV {
    JsonV::Object(seq![("input"@, product_input(p))])
}

/// The lines the bulk import sends for `products`: one for each, in order.
pub fn import_batch(products: &Vec<ProductRecord>) -> (r: Vec<Json>)
    ensures
        seq_view(r@) == products@.map_values(|p: ProductRecord| import_line_spec(p)),
{
    let mut out: Vec<Json> = Vec::new();
    let mut i: usize = 0;
    while i < products.len()
        invariant
            i <= products@.len(),
            seq_view(out@) == products@.take(i as int).map_values(|p: ProductRecord| import_line_spec(p)),
        decreases products@.len() - i,
    {
        let line = import_line(&products[i]);
        proof {
            crate::json::lemma_seq_view_push(out@, line);
            assert(products@.take(i + 1).map_values(|p: ProductRecord| import_line_spec(p))
                =~= products@.take(i as int).map_values(|p: ProductRecord| import_line_spec(p)).push(
                import_line_spec(products@[i as int])));
        }
        out.push(line);
        i = i + 1;
    }
    proof {
        assert(products@.take(products@.len() as int) =~= products@);
    }
    out
}

/// An exported product as written to disk: one without a `variants` object
/// gets `variants: { nodes: [] }`, so it reads back as a product.
pub open spec fn with_variants(p: JsonV) -> JsonV {
    if p.at("variants"@) is Object {
        p
    } else {
        p.set("variants"@, JsonV::Object(seq![("nodes"@, JsonV::Array(Seq::empty()))]))
    }
}

/// Gives every exported product a `variants` object (see [`with_variants`]).
/// Only objects can be given one; anything else in the list is left as it is.
pub fn ensure_variants(products: &mut Vec<Json>)
    ensures
        final(products)@.len() == old(products)@.len(),
        forall|i: int|
            0 <= i < old(products)@.len() ==> #[trigger] final(products)@[i]@ == (if old(
                products,
            )@[i]@ is Object || old(products)@[i]@ is Null {
                with_variants(old(products)@[i]@)
            } else {
                old(products)@[i]@
            }),
{
    let ghost orig = products@;
    let mut i: usize = 0;
    while i < products.len()
        invariant
            i <= products@.len(),
            products@.len() == orig.len(),
            forall|k: int|
                i <= k < orig.len() ==> #[trigger] products@[k] == orig[k],
            forall|k: int|
                0 <= k < i ==> #[trigger] products@[k]@ == (if orig[k]@ is Object || orig[k]@ is Null {
                    with_variants(orig[k]@)
                } else {
                    orig[k]@
                }),
        decreases orig.len() - i,
    {
        let p = products.remove(i);
        let present = match p.get("variants") {
            Some(v) => v.is_object(),
            None => false,
        };
        let mut q = p;
        if !present && (q.is_object() || q.is_null()) {
            let none: Vec<Json> = Vec::new();
            assert(seq_view(none@) =~= Seq::<JsonV>::empty());
            let nodes = vec![entry("nodes", Json::Array(none))];
            proof {
                lemma_entries_view(nodes@);
                assert(entries_view(nodes@) =~= seq![("nodes"@, JsonV::Array(Seq::empty()))]);
            }
            q.set(crate::json::owned("variants"), Json::Object(nodes));
        }
        products.insert(i, q);
        i = i + 1;
    }
}

/// Every product written to disk has a `variants` object, so it reads back
/// as a product.
pub proof fn law_written_products_have_variants(p: JsonV)
    requires
        crate::json::settable(p),
    ensures
        with_variants(p).at("variants"@) is Object,
{
    if !(p.at("variants"@) is Object) {
        crate::json::law_set_then_get(
            p,
            "variants"@,
            JsonV::Object(seq![("nodes"@, JsonV::Array(Seq::empty()))]),
        );
    }
}

/// Every variant of a built product input carries its own prices: the
/// variant's `price` and its `compareAtPrice` (the price it is marked down
/// from), each as text or `null` when absent, and its SKU.
pub proof fn law_variants_keep_their_prices(p: ProductRecord, i: int)
    requires
        0 <= i < p.variants.nodes@.len(),
    ensures
        product_input(p).at("variants"@) matches JsonV::Array(vs) && vs.len() == p.variants.nodes@.len()
            && {
            let v = p.variants.nodes@[i];
            &&& vs[i].get("price"@) == Some(
                match v.price {
                    Some(t) => JsonV::Str(t@),
                    None => JsonV::Null,
                },
            )
            &&& vs[i].get("compareAtPrice"@) == Some(
                match v.compare_at_price {
                    Some(t) => JsonV::Str(t@),
                    None => JsonV::Null,
                },
            )
            &&& vs[i].get("sku"@) == Some(
                match v.sku {
                    Some(t) => JsonV::Str(t@),
                    None => JsonV::Null,
                },
            )
        },
{
    reveal_strlit("handle");
    reveal_strlit("title");
    reveal_strlit("status");
    reveal_strlit("descriptionHtml");
    reveal_strlit("productType");
    reveal_strlit("vendor");
    reveal_strlit("tags");
    reveal_strlit("productOptions");
    reveal_strlit("variants");
    reveal_strlit("price");
    reveal_strlit("compareAtPrice");
    reveal_strlit("sku");
    assert("price"@.len() == 5 && "compareAtPrice"@.len() == 14 && "sku"@.len() == 3);
    assert("handle"@.len() == 6 && "title"@.len() == 5 && "status"@.len() == 6);
    assert("descriptionHtml"@.len() == 15 && "productType"@.len() == 11 && "vendor"@.len() == 6);
    assert("tags"@.len() == 4 && "productOptions"@.len() == 14 && "variants"@.len() == 8);
    let pes = product_input(p)->Object_0;
    assert forall|j: int| 0 <= j < 8 implies (#[trigger] pes[j]).0 != pes[8].0 by {
        if j == 0 {} else if j == 1 {} else if j == 2 {} else if j == 3 {} else if j == 4 {} else if j == 5 {} else if j == 6 {} else if j == 7 {}
    }
    crate::json::lemma_get_entry(pes, 8);
    let v = p.variants.nodes@[i];
    let es = variant_input(v)->Object_0;
    crate::json::lemma_get_entry(es, 0);
    assert forall|j: int| 0 <= j < 1 implies (#[trigger] es[j]).0 != es[1].0 by {
        if j == 0 {}
    }
    crate::json::lemma_get_entry(es, 1);
    assert forall|j: int| 0 <= j < 2 implies (#[trigger] es[j]).0 != es[2].0 by {
        if j == 0 {} else if j == 1 {}
    }
    crate::json::lemma_get_entry(es, 2);
}

/// A product is written with each of its own fields: its handle, and its
/// title, status, description, product type and vendor as text (or `null`
/// when absent).
pub proof fn law_product_fields_carry_over(p: ProductRecord)
    ensures
        product_input(p).get("handle"@) == Some(JsonV::Str(p.handle@)),
        product_input(p).get("title"@) == Some(match p.title {
                Some(t) => JsonV::Str(t@),
                None => JsonV::Null,
            }),
        product_input(p).get("status"@) == Some(match p.status {
                Some(t) => JsonV::Str(t@),
                None => JsonV::Null,
            }),
        product_input(p).get("descriptionHtml"@) == Some(match p.description_html {
                Some(t) => JsonV::Str(t@),
                None => JsonV::Null,
            }),
        product_input(p).get("productType"@) == Some(match p.product_type {
                Some(t) => JsonV::Str(t@),
                None => JsonV::Null,
            }),
        product_input(p).get("vendor"@) == Some(match p.vendor {
                Some(t) => JsonV::Str(t@),
                None => JsonV::Null,
            }),
{
    reveal_strlit("descriptionHtml");
    reveal_strlit("handle");
    reveal_strlit("productOptions");
    reveal_strlit("productType");
    reveal_strlit("status");
    reveal_strlit("tags");
    reveal_strlit("title");
    reveal_strlit("variants");
    reveal_strlit("vendor");
    assert("descriptionHtml"@.len() == 15);
    assert("handle"@.len() == 6);
    assert("productOptions"@.len() == 14);
    assert("productType"@.len() == 11);
    assert("status"@.len() == 6);
    assert("tags"@.len() == 4);
    assert("title"@.len() == 5);
    assert("variants"@.len() == 8);
    assert("vendor"@.len() == 6);
    assert("handle"@[0] != "status"@[0]);
    assert("handle"@[0] != "vendor"@[0]);
    assert("status"@[0] != "vendor"@[0]);
    let es = product_input(p)->Object_0;
    crate::json::lemma_get_entry(es, 0);
    assert forall|j: int| 0 <= j < 1 implies (#[trigger] es[j]).0 != es[1].0 by {
        if j == 0 {}
    }
    crate::json::lemma_get_entry(es, 1);
    assert forall|j: int| 0 <= j < 2 implies (#[trigger] es[j]).0 != es[2].0 by {
        if j == 0 {} else if j == 1 {}
    }
    crate::json::lemma_get_entry(es, 2);
    assert forall|j: int| 0 <= j < 3 implies (#[trigger] es[j]).0 != es[3].0 by {
        if j == 0 {} else if j == 1 {} else if j == 2 {}
    }
    crate::json::lemma_get_entry(es, 3);
    assert forall|j: int| 0 <= j < 4 implies (#[trigger] es[j]).0 != es[4].0 by {
        if j == 0 {} else if j == 1 {} else if j == 2 {} else if j == 3 {}
    }
    crate::json::lemma_get_entry(es, 4);
    assert forall|j: int| 0 <= j < 5 implies (#[trigger] es[j]).0 != es[5].0 by {
        if j == 0 {} else if j == 1 {} else if j == 2 {} else if j == 3 {} else if j == 4 {}
    }
    crate::json::lemma_get_entry(es, 5);
}

/// Every variant is written with its own fields: prices, SKU, barcode and
/// inventory policy as text (or `null`), taxability as a boolean (or `null`),
/// and one option value per selected option, in order, naming the option and
/// the value chosen.
pub proof fn law_variant_fields_carry_over(p: ProductRecord, i: int)
    requires
        0 <= i < p.variants.nodes@.len(),
    ensures
        product_input(p).at("variants"@) matches JsonV::Array(vs) && vs.len() == p.variants.nodes@.len()
            && {
            let v = p.variants.nodes@[i];
            &&& vs[i].get("price"@) == Some(match v.price {
                Some(t) => JsonV::Str(t@),
                None => JsonV::Null,
            })
            &&& vs[i].get("compareAtPrice"@) == Some(match v.compare_at_price {
                Some(t) => JsonV::Str(t@),
                None => JsonV::Null,
            })
            &&& vs[i].get("sku"@) == Some(match v.sku {
                Some(t) => JsonV::Str(t@),
                None => JsonV::Null,
            })
            &&& vs[i].get("barcode"@) == Some(match v.barcode {
                Some(t) => JsonV::Str(t@),
                None => JsonV::Null,
            })
            &&& vs[i].get("taxable"@) == Some(match v.taxable {
                Some(b) => JsonV::Bool(b),
                None => JsonV::Null,
            })
            &&& vs[i].get("inventoryPolicy"@) == Some(match v.inventory_policy {
                Some(t) => JsonV::Str(t@),
                None => JsonV::Null,
            })
            &&& vs[i].at("optionValues"@) matches JsonV::Array(ovs) && ovs.len() == v.selected_options@.len()
                && forall|k: int|
                0 <= k < ovs.len() ==> (#[trigger] ovs[k]).get("optionName"@) == Some(
                    JsonV::Str(v.selected_options@[k].name@),
                ) && ovs[k].get("name"@) == Some(JsonV::Str(v.selected_options@[k].value@))
        },
{
    reveal_strlit("barcode");
    reveal_strlit("compareAtPrice");
    reveal_strlit("descriptionHtml");
    reveal_strlit("handle");
    reveal_strlit("inventoryPolicy");
    reveal_strlit("name");
    reveal_strlit("optionName");
    reveal_strlit("optionValues");
    reveal_strlit("price");
    reveal_strlit("productOptions");
    reveal_strlit("productType");
    reveal_strlit("sku");
    reveal_strlit("status");
    reveal_strlit("tags");
    reveal_strlit("taxable");
    reveal_strlit("title");
    reveal_strlit("variants");
    reveal_strlit("vendor");
    assert("barcode"@.len() == 7);
    assert("compareAtPrice"@.len() == 14);
    assert("descriptionHtml"@.len() == 15);
    assert("handle"@.len() == 6);
    assert("inventoryPolicy"@.len() == 15);
    assert("name"@.len() == 4);
    assert("optionName"@.len() == 10);
    assert("optionValues"@.len() == 12);
    assert("price"@.len() == 5);
    assert("productOptions"@.len() == 14);
    assert("productType"@.len() == 11);
    assert("sku"@.len() == 3);
    assert("status"@.len() == 6);
    assert("tags"@.len() == 4);
    assert("taxable"@.len() == 7);
    assert("title"@.len() == 5);
    assert("variants"@.len() == 8);
    assert("vendor"@.len() == 6);
    assert("barcode"@[0] != "taxable"@[0]);
    assert("compareAtPrice"@[0] != "productOptions"@[0]);
    assert("descriptionHtml"@[0] != "inventoryPolicy"@[0]);
    assert("handle"@[0] != "status"@[0]);
    assert("handle"@[0] != "vendor"@[0]);
    assert("name"@[0] != "tags"@[0]);
    assert("price"@[0] != "title"@[0]);
    assert("status"@[0] != "vendor"@[0]);
    let pes = product_input(p)->Object_0;
    assert forall|j: int| 0 <= j < 8 implies (#[trigger] pes[j]).0 != pes[8].0 by {
        if j == 0 {} else if j == 1 {} else if j == 2 {} else if j == 3 {} else if j == 4 {} else if j == 5 {} else if j == 6 {} else if j == 7 {}
    }
    crate::json::lemma_get_entry(pes, 8);
    let v = p.variants.nodes@[i];
    let es = variant_input(v)->Object_0;
    crate::json::lemma_get_entry(es, 0);
    assert forall|j: int| 0 <= j < 1 implies (#[trigger] es[j]).0 != es[1].0 by {
        if j == 0 {}
    }
    crate::json::lemma_get_entry(es, 1);
    assert forall|j: int| 0 <= j < 2 implies (#[trigger] es[j]).0 != es[2].0 by {
        if j == 0 {} else if j == 1 {}
    }
    crate::json::lemma_get_entry(es, 2);
    assert forall|j: int| 0 <= j < 3 implies (#[trigger] es[j]).0 != es[3].0 by {
        if j == 0 {} else if j == 1 {} else if j == 2 {}
    }
    crate::json::lemma_get_entry(es, 3);
    assert forall|j: int| 0 <= j < 4 implies (#[trigger] es[j]).0 != es[4].0 by {
        if j == 0 {} else if j == 1 {} else if j == 2 {} else if j == 3 {}
    }
    crate::json::lemma_get_entry(es, 4);
    assert forall|j: int| 0 <= j < 5 implies (#[trigger] es[j]).0 != es[5].0 by {
        if j == 0 {} else if j == 1 {} else if j == 2 {} else if j == 3 {} else if j == 4 {}
    }
    crate::json::lemma_get_entry(es, 5);
    assert forall|j: int| 0 <= j < 6 implies (#[trigger] es[j]).0 != es[6].0 by {
        if j == 0 {} else if j == 1 {} else if j == 2 {} else if j == 3 {} else if j == 4 {} else if j == 5 {}
    }
    crate::json::lemma_get_entry(es, 6);
    let ovs = v.selected_options@.map_values(|s| option_value_ref(s));
    assert forall|k: int| 0 <= k < ovs.len() implies (#[trigger] ovs[k]).get("optionName"@) == Some(
        JsonV::Str(v.selected_options@[k].name@),
    ) && ovs[k].get("name"@) == Some(JsonV::Str(v.selected_options@[k].value@)) by {
        let oes = option_value_ref(v.selected_options@[k])->Object_0;
        crate::json::lemma_get_entry(oes, 0);
        assert forall|j: int| 0 <= j < 1 implies (#[trigger] oes[j]).0 != oes[1].0 by {
            if j == 0 {}
        }
        crate::json::lemma_get_entry(oes, 1);
    }
}

/// Every option is written with its name and one value per exported value,
/// in order, each with its name.
pub proof fn law_options_carry_over(p: ProductRecord, o: int)
    requires
        0 <= o < options_of(p).len(),
    ensures
        product_input(p).at("productOptions"@) matches JsonV::Array(os) && os.len() == options_of(p).len()
            && os[o].get("name"@) == Some(JsonV::Str(options_of(p)[o].name@)) && (os[o].at("values"@) matches JsonV::Array(
            vals,
        ) && vals.len() == options_of(p)[o].option_values@.len() && forall|k: int|
            0 <= k < vals.len() ==> (#[trigger] vals[k]).get("name"@) == Some(
                JsonV::Str(options_of(p)[o].option_values@[k].name@),
            )),
{
    reveal_strlit("descriptionHtml");
    reveal_strlit("handle");
    reveal_strlit("name");
    reveal_strlit("productOptions");
    reveal_strlit("productType");
    reveal_strlit("status");
    reveal_strlit("tags");
    reveal_strlit("title");
    reveal_strlit("values");
    reveal_strlit("variants");
    reveal_strlit("vendor");
    assert("descriptionHtml"@.len() == 15);
    assert("handle"@.len() == 6);
    assert("name"@.len() == 4);
    assert("productOptions"@.len() == 14);
    assert("productType"@.len() == 11);
    assert("status"@.len() == 6);
    assert("tags"@.len() == 4);
    assert("title"@.len() == 5);
    assert("values"@.len() == 6);
    assert("variants"@.len() == 8);
    assert("vendor"@.len() == 6);
    assert("handle"@[0] != "status"@[0]);
    assert("handle"@[0] != "values"@[0]);
    assert("handle"@[0] != "vendor"@[0]);
    assert("name"@[0] != "tags"@[0]);
    assert("status"@[0] != "values"@[0]);
    assert("status"@[0] != "vendor"@[0]);
    assert("values"@[1] != "vendor"@[1]);
    let pes = product_input(p)->Object_0;
    assert forall|j: int| 0 <= j < 7 implies (#[trigger] pes[j]).0 != pes[7].0 by {
        if j == 0 {} else if j == 1 {} else if j == 2 {} else if j == 3 {} else if j == 4 {} else if j == 5 {} else if j == 6 {}
    }
    crate::json::lemma_get_entry(pes, 7);
    let es = option_input(options_of(p)[o])->Object_0;
    crate::json::lemma_get_entry(es, 0);
    assert forall|j: int| 0 <= j < 1 implies (#[trigger] es[j]).0 != es[1].0 by {
        if j == 0 {}
    }
    crate::json::lemma_get_entry(es, 1);
    let vals = options_of(p)[o].option_values@.map_values(|v| option_value_input(v));
    assert forall|k: int| 0 <= k < vals.len() implies (#[trigger] vals[k]).get("name"@)
        == Some(JsonV::Str(options_of(p)[o].option_values@[k].name@)) by {
        let ves = option_value_input(options_of(p)[o].option_values@[k])->Object_0;
        crate::json::lemma_get_entry(ves, 0);
    }
}

} // verus!
