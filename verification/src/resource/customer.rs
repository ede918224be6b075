//! Customers: the foundation resource. Gift cards and store credit reference a
//! customer, resolved across stores by email, so customers are imported first.
//!
//! Two read-vs-write differences: an address reads `countryCodeV2` but the
//! create input writes `countryCode`, and marketing consent is exported but
//! never replayed on create.

use vstd::prelude::*;

use crate::json::{
    entries_view, entry, lemma_entries_view, opt_bool_v, opt_text_v, opt_texts_v, owned,
    seq_view, Json, JsonV,
};
use crate::lookup::{listing_map, table_from_listing, IdTable};
use crate::resource::{batch_view, kind_name, lemma_picked_step, mutation_payload, payload_of, picked, ResourceKind};

verus! {

pub struct Customer;

impl Customer {
    /// The name used on the command line.
    pub fn name(&self) -> (r: &'static str)
        ensures
            r@ == kind_name(ResourceKind::Customers),
    {
        "customers"
    }

    /// The resource kind this is.
    pub fn kind(&self) -> (r: ResourceKind)
        ensures
            r == ResourceKind::Customers,
    {
        ResourceKind::Customers
    }
}

/// One mailing address as exported (`countryCode` holds the read field
/// `countryCodeV2`).
pub struct AddressRecord {
    pub first_name: Option<String>,
    pub last_name: Option<String>,
    pub company: Option<String>,
    pub address1: Option<String>,
    pub address2: Option<String>,
    pub city: Option<String>,
    pub province_code: Option<String>,
    pub country_code: Option<String>,
    pub zip: Option<String>,
    pub phone: Option<String>,
}

/// One exported customer. Almost everything is optional: a customer may have,
/// say, only a phone and no email.
pub struct CustomerRecord {
    pub first_name: Option<String>,
    pub last_name: Option<String>,
    pub email: Option<String>,
    pub phone: Option<String>,
    pub note: Option<String>,
    pub tags: Option<Vec<String>>,
    pub tax_exempt: Option<bool>,
    /// Exported for fidelity, never replayed on create.
    pub email_marketing_consent: Option<Json>,
    /// Exported for fidelity, never replayed on create.
    pub sms_marketing_consent: Option<Json>,
    pub addresses: Option<Vec<AddressRecord>>,
}

/// The `MailingAddressInput` for an exported address.
pub open spec fn address_input(a: AddressRecord) -> JsonV {
    JsonV::Object(
        seq![
            ("firstName"@, opt_text_v(a.first_name)),
            ("lastName"@, opt_text_v(a.last_name)),
            ("company"@, opt_text_v(a.company)),
            ("address1"@, opt_text_v(a.address1)),
            ("address2"@, opt_text_v(a.address2)),
            ("city"@, opt_text_v(a.city)),
            ("provinceCode"@, opt_text_v(a.province_code)),
            ("countryCode"@, opt_text_v(a.country_code)),
            ("zip"@, opt_text_v(a.zip)),
            ("phone"@, opt_text_v(a.phone)),
        ],
    )
}

/// The addresses of a record (none when absent).
pub open spec fn addresses_of(c: CustomerRecord) -> Seq<AddressRecord> {
    match c.addresses {
        Some(v) => v@,
        None => Seq::empty(),
    }
}

/// The `CustomerInput` for an exported customer: every scalar field carried
/// over (`null` when absent), addresses converted, consent left out.
pub open spec fn customer_input(c: CustomerRecord) -> JsonV {
    JsonV::Object(
        seq![
            ("firstName"@, opt_text_v(c.first_name)),
            ("lastName"@, opt_text_v(c.last_name)),
            ("email"@, opt_text_v(c.email)),
            ("phone"@, opt_text_v(c.phone)),
            ("note"@, opt_text_v(c.note)),
            ("tags"@, opt_texts_v(c.tags)),
            ("taxExempt"@, opt_bool_v(c.tax_exempt)),
            ("addresses"@, JsonV::Array(addresses_of(c).map_values(|a| address_input(a)))),
        ],
    )
}

/// The identifier used in log lines: email, else phone, else a placeholder.
pub open spec fn label_of(c: CustomerRecord) -> Seq<char> {
    match c.email {
        Some(e) => e@,
        None => match c.phone {
            Some(p) => p@,
            None => "(no identifier)"@,
        },
    }
}

/// `customerCreate` needs at least a name, phone or email.
pub open spec fn importable(c: CustomerRecord) -> bool {
    c.email is Some || c.phone is Some || c.first_name is Some || c.last_name is Some
}

/// The identifier used in log lines: email, else phone, else a placeholder.
pub fn customer_label(c: &CustomerRecord) -> (r: String)
    ensures
        r@ == label_of(*c),
{
    match &c.email {
        Some(e) => e.clone(),
        None => match &c.phone {
            Some(p) => p.clone(),
            None => owned("(no identifier)"),
        },
    }
}

/// Whether a record can be created at all.
pub fn is_importable(c: &CustomerRecord) -> (r: bool)
    ensures
        r == importable(*c),
{
    c.email.is_some() || c.phone.is_some() || c.first_name.is_some() || c.last_name.is_some()
}

/// The `customerCreate` payload inside one bulk-mutation result line.
pub fn customer_create_payload(result: &Json) -> (r: Json)
    ensures
        r@ == payload_of(result@, "customerCreate"@),
{
    mutation_payload(result, "customerCreate")
}

fn build_address_input(a: &AddressRecord) -> (r: Json)
    ensures
        r@ == address_input(*a),
{
    let es = vec![
        entry("firstName", Json::opt_text(&a.first_name)),
        entry("lastName", Json::opt_text(&a.last_name)),
        entry("company", Json::opt_text(&a.company)),
        entry("address1", Json::opt_text(&a.address1)),
        entry("address2", Json::opt_text(&a.address2)),
        entry("city", Json::opt_text(&a.city)),
        entry("provinceCode", Json::opt_text(&a.province_code)),
        entry("countryCode", Json::opt_text(&a.country_code)),
        entry("zip", Json::opt_text(&a.zip)),
        entry("phone", Json::opt_text(&a.phone)),
    ];
    proof {
        lemma_entries_view(es@);
        assert(entries_view(es@) =~= address_input(*a)->Object_0);
    }
    Json::Object(es)
}

/// Turns an exported customer into `CustomerInput`.
pub fn build_customer_input(c: &CustomerRecord) -> (r: Json)
    ensures
        r@ == customer_input(*c),
{
    let mut addresses: Vec<Json> = Vec::new();
    if let Some(v) = &c.addresses {
        let mut i: usize = 0;
        while i < v.len()
            invariant
                c.addresses == Some(*v),
                i <= v@.len(),
                seq_view(addresses@) == v@.take(i as int).map_values(|a| address_input(a)),
            decreases v@.len() - i,
        {
            let item = build_address_input(&v[i]);
            proof {
                crate::json::lemma_seq_view_push(addresses@, item);
                assert(v@.take(i + 1).map_values(|a| address_input(a)) =~= v@.take(
                    i as int,
                ).map_values(|a| address_input(a)).push(address_input(v@[i as int])));
            }
            addresses.push(item);
            i = i + 1;
        }
        assert(v@.take(v@.len() as int) =~= v@);
    } else {
        assert(seq_view(addresses@) =~= Seq::<JsonV>::empty());
    }
    assert(seq_view(addresses@) =~= addresses_of(*c).map_values(|a| address_input(a)));
    let es = vec![
        entry("firstName", Json::opt_text(&c.first_name)),
        entry("lastName", Json::opt_text(&c.last_name)),
        entry("email", Json::opt_text(&c.email)),
        entry("phone", Json::opt_text(&c.phone)),
        entry("note", Json::opt_text(&c.note)),
        entry("tags", Json::opt_texts(&c.tags)),
        entry("taxExempt", Json::opt_bool(c.tax_exempt)),
        entry("addresses", Json::Array(addresses)),
    ];
    proof {
        lemma_entries_view(es@);
        assert(entries_view(es@) =~= customer_input(*c)->Object_0);
    }
    Json::Object(es)
}

/// The bulk-mutation line for a customer, `{ "input": CustomerInput }`, or
/// `None` for one that cannot be created (it is skipped).
pub open spec fn import_line_spec(c: CustomerRecord) -> Option<JsonV> {
    if importable(c) {
        Some(JsonV::Object(seq![("input"@, customer_input(c))]))
    } else {
        None
    }
}

/// The lines the bulk import sends for `customers`: one `{ input }` for each
/// importable customer, in order, tagged with its position.
pub fn import_batch(customers: &Vec<CustomerRecord>) -> (r: Vec<(usize, Json)>)
    ensures
        batch_view(r@) == picked(customers@, |c: CustomerRecord| import_line_spec(c)),
{
    let ghost f = |c: CustomerRecord| import_line_spec(c);
    let mut out: Vec<(usize, Json)> = Vec::new();
    let mut i: usize = 0;
    while i < customers.len()
        invariant
            i <= customers@.len(),
            batch_view(out@) == picked(customers@.take(i as int), f),
            f == (|c: CustomerRecord| import_line_spec(c)),
        decreases customers@.len() - i,
    {
        proof {
            lemma_picked_step(customers@, i as int, f);
            assert(f(customers@[i as int]) == import_line_spec(customers@[i as int]));
        }
        match import_line(&customers[i]) {
            Some(line) => {
                let ghost before = out@;
                out.push((i, line));
                proof {
                    assert(batch_view(out@) =~= batch_view(before).push((i as int, line@)));
                }
            },
            None => {},
        }
        i = i + 1;
    }
    proof {
        assert(customers@.take(customers@.len() as int) =~= customers@);
    }
    out
}

/// The bulk-mutation line for a customer, or `None` when it is skipped.
pub fn import_line(c: &CustomerRecord) -> (r: Option<Json>)
    ensures
        match r {
            Some(j) => import_line_spec(*c) == Some(j@),
            None => import_line_spec(*c) is None,
        },
{
    if !is_importable(c) {
        return None;
    }
    let es = vec![entry("input", build_customer_input(c))];
    proof {
        lemma_entries_view(es@);
        assert(entries_view(es@) =~= seq![("input"@, customer_input(*c))]);
    }
    Some(Json::Object(es))
}

/// The target store's customers by email: each listed `{ id, email }` binds
/// the lower-cased email to the id (a later duplicate wins).
pub fn build_customer_email_map(customers: &Vec<Json>) -> (r: IdTable)
    ensures
        r@ == listing_map(seq_view(customers@), "email"@, true),
{
    table_from_listing(customers, "email", true)
}

/// Marketing consent is exported but never replayed on create, and an
/// address is written with `countryCode`, never the read field
/// `countryCodeV2`.
pub proof fn law_consent_is_never_replayed(c: CustomerRecord)
    ensures
        customer_input(c).get("emailMarketingConsent"@) is None,
        customer_input(c).get("smsMarketingConsent"@) is None,
        forall|i: int|
            0 <= i < addresses_of(c).len() ==> (#[trigger] address_input(addresses_of(c)[i])).get(
                "countryCodeV2"@,
            ) is None,
{
    reveal_strlit("firstName");
    reveal_strlit("lastName");
    reveal_strlit("email");
    reveal_strlit("phone");
    reveal_strlit("note");
    reveal_strlit("tags");
    reveal_strlit("taxExempt");
    reveal_strlit("addresses");
    reveal_strlit("company");
    reveal_strlit("address1");
    reveal_strlit("address2");
    reveal_strlit("city");
    reveal_strlit("provinceCode");
    reveal_strlit("countryCode");
    reveal_strlit("zip");
    reveal_strlit("emailMarketingConsent");
    reveal_strlit("smsMarketingConsent");
    reveal_strlit("countryCodeV2");
    let es = customer_input(c)->Object_0;
    assert forall|j: int| 0 <= j < es.len() implies (#[trigger] es[j]).0 != "emailMarketingConsent"@ by {
        assert(es[j].0.len() != "emailMarketingConsent"@.len());
    }
    assert forall|j: int| 0 <= j < es.len() implies (#[trigger] es[j]).0 != "smsMarketingConsent"@ by {
        assert(es[j].0.len() != "smsMarketingConsent"@.len());
    }
    crate::json::law_absent_key(es, "emailMarketingConsent"@);
    crate::json::law_absent_key(es, "smsMarketingConsent"@);
    assert forall|i: int| 0 <= i < addresses_of(c).len() implies (#[trigger] address_input(
        addresses_of(c)[i],
    )).get("countryCodeV2"@) is None by {
        let aes = address_input(addresses_of(c)[i])->Object_0;
        assert forall|j: int| 0 <= j < aes.len() implies (#[trigger] aes[j]).0 != "countryCodeV2"@ by {
            assert(aes[j].0.len() != "countryCodeV2"@.len());
        }
        crate::json::law_absent_key(aes, "countryCodeV2"@);
    }
}

/// A customer is written with each of its own fields under the key of the
/// same name: first and last name, email, phone and note as text (or `null`
/// when absent), tax exemption as a boolean (or `null`).
pub proof fn law_customer_fields_carry_over(c: CustomerRecord)
    ensures
        customer_input(c).get("firstName"@) == Some(match c.first_name {
                Some(t) => JsonV::Str(t@),
                None => JsonV::Null,
            }),
        customer_input(c).get("lastName"@) == Some(match c.last_name {
                Some(t) => JsonV::Str(t@),
                None => JsonV::Null,
            }),
        customer_input(c).get("email"@) == Some(match c.email {
                Some(t) => JsonV::Str(t@),
                None => JsonV::Null,
            }),
        customer_input(c).get("phone"@) == Some(match c.phone {
                Some(t) => JsonV::Str(t@),
                None => JsonV::Null,
            }),
        customer_input(c).get("note"@) == Some(match c.note {
                Some(t) => JsonV::Str(t@),
                None => JsonV::Null,
            }),
        customer_input(c).get("taxExempt"@) == Some(
            match c.tax_exempt {
                Some(b) => JsonV::Bool(b),
                None => JsonV::Null,
            },
        ),
{
    reveal_strlit("firstName");
    reveal_strlit("lastName");
    reveal_strlit("email");
    reveal_strlit("phone");
    reveal_strlit("note");
    reveal_strlit("tags");
    reveal_strlit("taxExempt");
    assert("firstName"@.len() == 9 && "lastName"@.len() == 8 && "email"@.len() == 5);
    assert("phone"@.len() == 5 && "note"@.len() == 4 && "tags"@.len() == 4 && "taxExempt"@.len() == 9);
    assert("email"@[0] != "phone"@[0] && "firstName"@[0] != "taxExempt"@[0]);
    let es = customer_input(c)->Object_0;
    crate::json::lemma_get_entry(es, 0);
    assert forall|j: int| 0 <= j < 1 implies (#[trigger] es[j]).0 != es[1].0 by {
        if j == 0 {}
    }
    crate::json::lemma_get_entry(es, 1);
    assert forall|j: int| 0 <= j < 2 implies (#[trigger] es[j]).0 != es[2].0 by {
        if j == 0 {} else if j == 1 {}
    }
    crate::json::lemma_get_entry(es, 2);
    assert forall|j: int| 0 <= j < 3 implies (#[trigger] es[j]).0 != es[3].0 by {
        if j == 0 {} else if j == 1 {} else if j == 2 {}
    }
    crate::json::lemma_get_entry(es, 3);
    assert forall|j: int| 0 <= j < 4 implies (#[trigger] es[j]).0 != es[4].0 by {
        if j == 0 {} else if j == 1 {} else if j == 2 {} else if j == 3 {}
    }
    crate::json::lemma_get_entry(es, 4);
    assert forall|j: int| 0 <= j < 6 implies (#[trigger] es[j]).0 != es[6].0 by {
        if j == 0 {} else if j == 1 {} else if j == 2 {} else if j == 3 {} else if j == 4 {} else if j == 5 {}
    }
    crate::json::lemma_get_entry(es, 6);
}

/// Every address of a customer is written, in order, with its own fields;
/// the country goes under `countryCode` (the exported `countryCodeV2`).
pub proof fn law_addresses_carry_over(c: CustomerRecord, i: int)
    requires
        0 <= i < addresses_of(c).len(),
    ensures
        customer_input(c).at("addresses"@) matches JsonV::Array(as_) && as_.len() == addresses_of(c).len()
            && {
            let a = addresses_of(c)[i];
            &&& as_[i].get("firstName"@) == Some(match a.first_name {
                Some(t) => JsonV::Str(t@),
                None => JsonV::Null,
            })
            &&& as_[i].get("lastName"@) == Some(match a.last_name {
                Some(t) => JsonV::Str(t@),
                None => JsonV::Null,
            })
            &&& as_[i].get("company"@) == Some(match a.company {
                Some(t) => JsonV::Str(t@),
                None => JsonV::Null,
            })
            &&& as_[i].get("address1"@) == Some(match a.address1 {
                Some(t) => JsonV::Str(t@),
                None => JsonV::Null,
            })
            &&& as_[i].get("address2"@) == Some(match a.address2 {
                Some(t) => JsonV::Str(t@),
                None => JsonV::Null,
            })
            &&& as_[i].get("city"@) == Some(match a.city {
                Some(t) => JsonV::Str(t@),
                None => JsonV::Null,
            })
            &&& as_[i].get("provinceCode"@) == Some(match a.province_code {
                Some(t) => JsonV::Str(t@),
                None => JsonV::Null,
            })
            &&& as_[i].get("countryCode"@) == Some(match a.country_code {
                Some(t) => JsonV::Str(t@),
                None => JsonV::Null,
            })
            &&& as_[i].get("zip"@) == Some(match a.zip {
                Some(t) => JsonV::Str(t@),
                None => JsonV::Null,
            })
            &&& as_[i].get("phone"@) == Some(match a.phone {
                Some(t) => JsonV::Str(t@),
                None => JsonV::Null,
            })
        },
{
    reveal_strlit("address1");
    reveal_strlit("address2");
    reveal_strlit("addresses");
    reveal_strlit("city");
    reveal_strlit("company");
    reveal_strlit("countryCode");
    reveal_strlit("email");
    reveal_strlit("firstName");
    reveal_strlit("lastName");
    reveal_strlit("note");
    reveal_strlit("phone");
    reveal_strlit("provinceCode");
    reveal_strlit("tags");
    reveal_strlit("taxExempt");
    reveal_strlit("zip");
    assert("address1"@.len() == 8);
    assert("address2"@.len() == 8);
    assert("addresses"@.len() == 9);
    assert("city"@.len() == 4);
    assert("company"@.len() == 7);
    assert("countryCode"@.len() == 11);
    assert("email"@.len() == 5);
    assert("firstName"@.len() == 9);
    assert("lastName"@.len() == 8);
    assert("note"@.len() == 4);
    assert("phone"@.len() == 5);
    assert("provinceCode"@.len() == 12);
    assert("tags"@.len() == 4);
    assert("taxExempt"@.len() == 9);
    assert("zip"@.len() == 3);
    assert("address1"@[7] != "address2"@[7]);
    assert("address1"@[0] != "lastName"@[0]);
    assert("address2"@[0] != "lastName"@[0]);
    assert("addresses"@[0] != "firstName"@[0]);
    assert("addresses"@[0] != "taxExempt"@[0]);
    assert("city"@[0] != "note"@[0]);
    assert("city"@[0] != "tags"@[0]);
    assert("email"@[0] != "phone"@[0]);
    assert("firstName"@[0] != "taxExempt"@[0]);
    assert("note"@[0] != "tags"@[0]);
    let ces = customer_input(c)->Object_0;
    assert forall|j: int| 0 <= j < 7 implies (#[trigger] ces[j]).0 != ces[7].0 by {
        if j == 0 {} else if j == 1 {} else if j == 2 {} else if j == 3 {} else if j == 4 {} else if j == 5 {} else if j == 6 {}
    }
    crate::json::lemma_get_entry(ces, 7);
    let es = address_input(addresses_of(c)[i])->Object_0;
    crate::json::lemma_get_entry(es, 0);
    assert forall|j: int| 0 <= j < 1 implies (#[trigger] es[j]).0 != es[1].0 by {
        if j == 0 {}
    }
    crate::json::lemma_get_entry(es, 1);
    assert forall|j: int| 0 <= j < 2 implies (#[trigger] es[j]).0 != es[2].0 by {
        if j == 0 {} else if j == 1 {}
    }
    crate::json::lemma_get_entry(es, 2);
    assert forall|j: int| 0 <= j < 3 implies (#[trigger] es[j]).0 != es[3].0 by {
        if j == 0 {} else if j == 1 {} else if j == 2 {}
    }
    crate::json::lemma_get_entry(es, 3);
    assert forall|j: int| 0 <= j < 4 implies (#[trigger] es[j]).0 != es[4].0 by {
        if j == 0 {} else if j == 1 {} else if j == 2 {} else if j == 3 {}
    }
    crate::json::lemma_get_entry(es, 4);
    assert forall|j: int| 0 <= j < 5 implies (#[trigger] es[j]).0 != es[5].0 by {
        if j == 0 {} else if j == 1 {} else if j == 2 {} else if j == 3 {} else if j == 4 {}
    }
    crate::json::lemma_get_entry(es, 5);
    assert forall|j: int| 0 <= j < 6 implies (#[trigger] es[j]).0 != es[6].0 by {
        if j == 0 {} else if j == 1 {} else if j == 2 {} else if j == 3 {} else if j == 4 {} else if j == 5 {}
    }
    crate::json::lemma_get_entry(es, 6);
    assert forall|j: int| 0 <= j < 7 implies (#[trigger] es[j]).0 != es[7].0 by {
        if j == 0 {} else if j == 1 {} else if j == 2 {} else if j == 3 {} else if j == 4 {} else if j == 5 {} else if j == 6 {}
    }
    crate::json::lemma_get_entry(es, 7);
    assert forall|j: int| 0 <= j < 8 implies (#[trigger] es[j]).0 != es[8].0 by {
        if j == 0 {} else if j == 1 {} else if j == 2 {} else if j == 3 {} else if j == 4 {} else if j == 5 {} else if j == 6 {} else if j == 7 {}
    }
    crate::json::lemma_get_entry(es, 8);
    assert forall|j: int| 0 <= j < 9 implies (#[trigger] es[j]).0 != es[9].0 by {
        if j == 0 {} else if j == 1 {} else if j == 2 {} else if j == 3 {} else if j == 4 {} else if j == 5 {} else if j == 6 {} else if j == 7 {} else if j == 8 {}
    }
    crate::json::lemma_get_entry(es, 9);
}

/// A customer's tags are written as the list of its tags (or `null`).
pub proof fn law_customer_tags_carry_over(c: CustomerRecord)
    ensures
        customer_input(c).get("tags"@) == Some(
            match c.tags {
                Some(ts) => JsonV::Array(ts@.map_values(|t: String| JsonV::Str(t@))),
                None => JsonV::Null,
            },
        ),
{
    reveal_strlit("addresses");
    reveal_strlit("email");
    reveal_strlit("firstName");
    reveal_strlit("lastName");
    reveal_strlit("note");
    reveal_strlit("phone");
    reveal_strlit("tags");
    reveal_strlit("taxExempt");
    assert("addresses"@.len() == 9);
    assert("email"@.len() == 5);
    assert("firstName"@.len() == 9);
    assert("lastName"@.len() == 8);
    assert("note"@.len() == 4);
    assert("phone"@.len() == 5);
    assert("tags"@.len() == 4);
    assert("taxExempt"@.len() == 9);
    assert("addresses"@[0] != "firstName"@[0]);
    assert("addresses"@[0] != "taxExempt"@[0]);
    assert("email"@[0] != "phone"@[0]);
    assert("firstName"@[0] != "taxExempt"@[0]);
    assert("note"@[0] != "tags"@[0]);
    let es = customer_input(c)->Object_0;
    assert forall|j: int| 0 <= j < 5 implies (#[trigger] es[j]).0 != es[5].0 by {
        if j == 0 {} else if j == 1 {} else if j == 2 {} else if j == 3 {} else if j == 4 {}
    }
    crate::json::lemma_get_entry(es, 5);
}

} // verus!
