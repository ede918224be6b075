use serde_json::Value;
use shopli::bulk::{reassemble, ChildSpec};
use shopli::json::Json;
use shopli::resource::customer::{
    build_customer_input, customer_create_payload, customer_label, is_importable, AddressRecord,
    CustomerRecord,
};
use shopli::resource::discount::{
    build_customer_gets, code_basic_input, is_reshapable, reshape_discount_node, DiscountError, DiscountRecord,
};
use shopli::resource::giftcard::{
    build_gift_card_input, gift_card_create_payload, CustomerRef, GiftCardRecord, Money,
};
use shopli::resource::mutation_payload;
use shopli::resource::product::{
    build_product_set_input, OptionRecord, OptionValueRecord, ProductRecord, SelectedOption,
    VariantConnection, VariantRecord,
};
use shopli::resource::store_credit::{reshape_store_credit, store_credit_payload};

fn conv(v: &Value) -> Json {
    match v {
        Value::Null => Json::Null,
        Value::Bool(b) => Json::Bool(*b),
        Value::Number(n) => Json::Number(n.to_string()),
        Value::String(s) => Json::Str(s.clone()),
        Value::Array(a) => Json::Array(a.iter().map(conv).collect()),
        Value::Object(m) => Json::Object(m.iter().map(|(k, v)| (k.clone(), conv(v))).collect()),
    }
}

fn back(j: &Json) -> Value {
    match j {
        Json::Null => Value::Null,
        Json::Bool(b) => Value::Bool(*b),
        Json::Number(t) => serde_json::from_str(t).unwrap(),
        Json::Str(s) => Value::String(s.clone()),
        Json::Array(a) => Value::Array(a.iter().map(back).collect()),
        Json::Object(es) => Value::Object(es.iter().map(|(k, v)| (k.clone(), back(v))).collect()),
    }
}

fn j(text: &str) -> Json {
    conv(&serde_json::from_str::<Value>(text).unwrap())
}

fn v(text: &str) -> Value {
    serde_json::from_str(text).unwrap()
}

fn s(x: &str) -> Option<String> {
    Some(x.to_string())
}

fn empty_customer() -> CustomerRecord {
    CustomerRecord {
        first_name: None,
        last_name: None,
        email: None,
        phone: None,
        note: None,
        tags: None,
        tax_exempt: None,
        email_marketing_consent: None,
        sms_marketing_consent: None,
        addresses: None,
    }
}

fn discount(typename: &str, title: &str, selection: Option<&str>, gets: &str, codes: &[&str]) -> DiscountRecord {
    DiscountRecord {
        typename: typename.to_string(),
        title: s(title),
        status: None,
        starts_at: None,
        ends_at: None,
        codes: if codes.is_empty() {
            None
        } else {
            Some(shopli::resource::discount::CodeConnection {
                nodes: codes
                    .iter()
                    .map(|c| shopli::resource::discount::CodeNode { code: c.to_string() })
                    .collect(),
            })
        },
        customer_selection: selection.map(j),
        customer_gets: Some(j(gets)),
    }
}

// ---- customers ----

#[test]
fn maps_address_country_code_and_omits_consent() {
    let mut record = empty_customer();
    record.first_name = s("Ada");
    record.last_name = s("Lovelace");
    record.email = s("ada@example.com");
    record.tags = Some(vec!["vip".to_string()]);
    record.tax_exempt = Some(true);
    record.email_marketing_consent = Some(j(r#"{ "marketingState": "SUBSCRIBED" }"#));
    record.addresses = Some(vec![AddressRecord {
        first_name: None,
        last_name: None,
        company: None,
        address1: s("1 Analytical Way"),
        address2: None,
        city: s("London"),
        province_code: s("ENG"),
        country_code: s("GB"),
        zip: s("EC1A"),
        phone: None,
    }]);

    let input = back(&build_customer_input(&record));

    assert_eq!(input["firstName"], "Ada");
    assert_eq!(input["email"], "ada@example.com");
    assert_eq!(input["tags"][0], "vip");
    assert_eq!(input["taxExempt"], true);
    assert_eq!(input["addresses"][0]["countryCode"], "GB");
    assert!(input["addresses"][0].get("countryCodeV2").is_none());
    assert_eq!(input["addresses"][0]["provinceCode"], "ENG");
    assert!(input.get("emailMarketingConsent").is_none());
}

#[test]
fn importable_requires_name_phone_or_email() {
    let empty = empty_customer();
    assert!(!is_importable(&empty));

    let mut named = empty_customer();
    named.first_name = s("Grace");
    assert!(is_importable(&named));

    let mut emailed = empty_customer();
    emailed.email = s("g@example.com");
    assert!(is_importable(&emailed));
}

#[test]
fn customer_labels_prefer_email_then_phone() {
    let mut c = empty_customer();
    assert_eq!(customer_label(&c), "(no identifier)");
    c.phone = s("+1 555");
    assert_eq!(customer_label(&c), "+1 555");
    c.email = s("a@b.com");
    assert_eq!(customer_label(&c), "a@b.com");
}

#[test]
fn customer_create_payload_unwraps_bulk_data_envelope() {
    let bulk = j(r#"{ "data": { "customerCreate": { "userErrors": [{ "message": "boom" }] } }, "__lineNumber": 3 }"#);
    assert_eq!(back(&customer_create_payload(&bulk))["userErrors"][0]["message"], "boom");

    let bare = j(r#"{ "customerCreate": { "userErrors": [] } }"#);
    assert!(back(&customer_create_payload(&bare))["userErrors"].as_array().unwrap().is_empty());
}

// ---- products ----

#[test]
fn maps_options_and_variant_selected_options() {
    let record = ProductRecord {
        handle: "tee".to_string(),
        title: s("Tee"),
        status: s("ACTIVE"),
        description_html: None,
        product_type: None,
        vendor: None,
        tags: None,
        options: Some(vec![OptionRecord {
            name: "Size".to_string(),
            option_values: vec![
                OptionValueRecord { name: "S".to_string() },
                OptionValueRecord { name: "M".to_string() },
            ],
        }]),
        variants: VariantConnection {
            nodes: vec![VariantRecord {
                sku: s("TEE-S"),
                price: s("19.99"),
                compare_at_price: None,
                barcode: None,
                taxable: None,
                inventory_policy: None,
                selected_options: vec![SelectedOption { name: "Size".to_string(), value: "S".to_string() }],
            }],
        },
    };

    let input = back(&build_product_set_input(&record));

    assert_eq!(input["handle"], "tee");
    assert_eq!(input["productOptions"][0]["name"], "Size");
    assert_eq!(input["productOptions"][0]["values"][1]["name"], "M");
    assert_eq!(input["variants"][0]["price"], "19.99");
    assert_eq!(input["variants"][0]["sku"], "TEE-S");
    assert_eq!(input["variants"][0]["optionValues"][0]["optionName"], "Size");
    assert_eq!(input["variants"][0]["optionValues"][0]["name"], "S");
}

// ---- gift cards ----

fn card(email: Option<&str>) -> GiftCardRecord {
    GiftCardRecord {
        initial_value: Money { amount: "50.00".to_string(), currency_code: "USD".to_string() },
        expires_on: s("2030-01-01"),
        note: s("welcome"),
        customer: email.map(|e| CustomerRef { email: s(e) }),
    }
}

#[test]
fn builds_input_with_customer() {
    let gc = card(Some("a@b.com"));
    let input = back(&build_gift_card_input(&gc, Some("gid://shopify/Customer/1")));
    assert_eq!(input["initialAmount"]["amount"], "50.00");
    assert_eq!(input["initialAmount"]["currencyCode"], "USD");
    assert_eq!(input["expiresOn"], "2030-01-01");
    assert_eq!(input["note"], "welcome");
    assert_eq!(input["customerId"], "gid://shopify/Customer/1");
}

#[test]
fn builds_input_unassigned_omits_customer_id() {
    let gc = card(None);
    let input = back(&build_gift_card_input(&gc, None));
    assert!(input.get("customerId").is_none());
}

#[test]
fn giftcard_payload_unwraps_bulk_data_envelope() {
    let wrapped = j(r#"{ "data": { "giftCardCreate": { "userErrors": [] } } }"#);
    assert!(back(&gift_card_create_payload(&wrapped))["userErrors"].as_array().unwrap().is_empty());
    let bare = j(r#"{ "giftCardCreate": { "userErrors": [{ "message": "x" }] } }"#);
    assert_eq!(back(&gift_card_create_payload(&bare))["userErrors"].as_array().unwrap().len(), 1);
}

// ---- store credit ----

#[test]
fn reshapes_bulk_customers_dropping_zero_and_empty() {
    let customers = vec![
        j(r#"{ "id": "gid://shopify/Customer/1", "email": "has@credit.com",
               "storeCreditAccounts": { "nodes": [
                   { "balance": { "amount": "50.00", "currencyCode": "USD" } },
                   { "balance": { "amount": "0.0", "currencyCode": "CAD" } } ] } }"#),
        j(r#"{ "id": "gid://shopify/Customer/2", "email": "zero@credit.com",
               "storeCreditAccounts": { "nodes": [
                   { "balance": { "amount": "0.00", "currencyCode": "USD" } } ] } }"#),
        j(r#"{ "id": "gid://shopify/Customer/3", "email": "no@credit.com" }"#),
    ];
    let out: Vec<Value> = reshape_store_credit(customers).iter().map(back).collect();
    assert_eq!(out.len(), 1);
    assert_eq!(out[0]["email"], "has@credit.com");
    assert!(out[0].get("id").is_none());
    let balances = out[0]["balances"].as_array().unwrap();
    assert_eq!(balances.len(), 1);
    assert_eq!(balances[0]["amount"], "50.00");
    assert_eq!(balances[0]["currencyCode"], "USD");
}

#[test]
fn store_credit_payload_unwraps_bulk_data_envelope() {
    let wrapped = j(r#"{ "data": { "storeCreditAccountCredit": { "userErrors": [] } } }"#);
    assert!(back(&store_credit_payload(&wrapped))["userErrors"].as_array().unwrap().is_empty());
    let bare = j(r#"{ "storeCreditAccountCredit": { "userErrors": [{ "message": "x" }] } }"#);
    assert_eq!(back(&store_credit_payload(&bare))["userErrors"].as_array().unwrap().len(), 1);
}

// ---- discounts ----

#[test]
fn reshape_splices_codes_under_discount() {
    let node = j(r#"{
        "id": "gid://shopify/DiscountNode/1",
        "discount": {
            "__typename": "DiscountCodeBasic",
            "title": "Sale",
            "customerGets": { "value": { "percentage": 0.1 }, "items": { "__typename": "AllDiscountItems", "allItems": true } }
        },
        "codes": { "nodes": [{ "code": "SAVE10" }] }
    }"#);

    let out = back(&reshape_discount_node(node));

    assert!(out.get("codes").is_none());
    assert_eq!(out["discount"]["codes"]["nodes"][0]["code"], "SAVE10");
    assert_eq!(out["discount"]["title"], "Sale");
}

#[test]
fn reshape_splices_collections_into_customer_gets_items() {
    let node = j(r#"{
        "id": "gid://shopify/DiscountNode/2",
        "discount": {
            "__typename": "DiscountAutomaticBasic",
            "title": "Coll Sale",
            "customerGets": { "value": { "percentage": 0.2 }, "items": { "__typename": "DiscountCollections" } }
        },
        "collections": { "nodes": [{ "handle": "shoes" }, { "handle": "hats" }] }
    }"#);

    let out = back(&reshape_discount_node(node));

    assert!(out.get("collections").is_none());
    let cols = out["discount"]["customerGets"]["items"]["collections"]["nodes"].as_array().unwrap();
    assert_eq!(cols.len(), 2);
    assert_eq!(cols[0]["handle"], "shoes");
    assert_eq!(cols[1]["handle"], "hats");
}

#[test]
fn reshape_no_children_is_noop() {
    let text = r#"{
        "id": "gid://shopify/DiscountNode/3",
        "discount": { "__typename": "DiscountCodeFreeShipping", "title": "Ship", "status": "ACTIVE" }
    }"#;
    let out = back(&reshape_discount_node(j(text)));
    assert_eq!(out, v(text));
}

#[test]
fn reshape_moves_both_child_lists_unchanged() {
    let node = j(r#"{
        "id": "gid://shopify/DiscountNode/4",
        "discount": { "__typename": "DiscountCodeBasic", "title": "Both" },
        "codes": { "nodes": [{ "code": "A" }, { "code": "B" }] },
        "collections": { "nodes": [{ "handle": "shoes" }] }
    }"#);
    let out = back(&reshape_discount_node(node));
    assert!(out.get("codes").is_none());
    assert!(out.get("collections").is_none());
    assert_eq!(out["discount"]["codes"], v(r#"{ "nodes": [{ "code": "A" }, { "code": "B" }] }"#));
    assert_eq!(
        out["discount"]["customerGets"]["items"]["collections"],
        v(r#"{ "nodes": [{ "handle": "shoes" }] }"#)
    );
    assert_eq!(out["discount"]["title"], "Both");
}

#[test]
fn reassemble_then_reshape_matches_legacy_shape() {
    let lines = vec![
        j(r#"{
            "id": "gid://shopify/DiscountNode/1",
            "discount": {
                "__typename": "DiscountCodeBasic",
                "title": "Sale",
                "customerSelection": { "__typename": "DiscountCustomerAll", "allCustomers": true },
                "customerGets": {
                    "value": { "__typename": "DiscountPercentage", "percentage": 0.15 },
                    "items": { "__typename": "DiscountCollections" }
                }
            }
        }"#),
        j(r#"{ "__typename": "DiscountRedeemCode", "__parentId": "gid://shopify/DiscountNode/1", "code": "SAVE15" }"#),
        j(r#"{ "__typename": "Collection", "__parentId": "gid://shopify/DiscountNode/1", "handle": "shoes" }"#),
    ];
    let specs = [
        ChildSpec { typename: "DiscountRedeemCode", field: "codes" },
        ChildSpec { typename: "Collection", field: "collections" },
    ];

    let nodes = reassemble(lines, &specs);
    let reshaped: Vec<Value> = nodes.into_iter().map(|n| back(&reshape_discount_node(n))).collect();

    assert_eq!(reshaped.len(), 1);
    let d = &reshaped[0]["discount"];
    assert_eq!(d["__typename"], "DiscountCodeBasic");
    assert_eq!(d["codes"]["nodes"][0]["code"], "SAVE15");
    assert_eq!(reshaped[0]["discount"]["customerGets"]["items"]["collections"]["nodes"][0]["handle"], "shoes");
}

#[test]
fn build_customer_gets_all_items() {
    let d = discount(
        "DiscountAutomaticBasic",
        "All",
        None,
        r#"{ "value": { "__typename": "DiscountPercentage", "percentage": 0.25 },
             "items": { "__typename": "AllDiscountItems", "allItems": true } }"#,
        &[],
    );
    let resolve = |_h: &str| -> anyhow::Result<String> { panic!("should not resolve for all-items") };
    let cg = back(&build_customer_gets(&resolve, &d).ok().unwrap());
    assert_eq!(cg["value"]["percentage"], 0.25);
    assert_eq!(cg["items"]["all"], true);
}

#[test]
fn build_customer_gets_remaps_collection_handles() {
    let d = discount(
        "DiscountAutomaticBasic",
        "Coll",
        None,
        r#"{ "value": { "__typename": "DiscountPercentage", "percentage": 0.1 },
             "items": { "__typename": "DiscountCollections",
                        "collections": { "nodes": [{ "handle": "shoes" }, { "handle": "hats" }] } } }"#,
        &[],
    );
    let resolve = |h: &str| -> anyhow::Result<String> { Ok(format!("gid://shopify/Collection/{h}")) };
    let cg = back(&build_customer_gets(&resolve, &d).ok().unwrap());
    let add = cg["items"]["collections"]["add"].as_array().unwrap();
    assert_eq!(add[0], "gid://shopify/Collection/shoes");
    assert_eq!(add[1], "gid://shopify/Collection/hats");
}

#[test]
fn build_customer_gets_reports_unresolvable_handle() {
    let d = discount(
        "DiscountAutomaticBasic",
        "Coll",
        None,
        r#"{ "value": { "__typename": "DiscountPercentage", "percentage": 0.1 },
             "items": { "__typename": "DiscountCollections",
                        "collections": { "nodes": [{ "handle": "ghost" }] } } }"#,
        &[],
    );
    let resolve = |h: &str| -> anyhow::Result<String> {
        Err(anyhow::Error::msg(format!("target store has no collection with handle '{h}'")))
    };
    match build_customer_gets(&resolve, &d) {
        Err(DiscountError::Resolve(e)) => assert!(e.to_string().contains("ghost")),
        _ => panic!("expected the resolver's error"),
    }
}

#[test]
fn build_customer_gets_stops_at_the_first_failing_handle() {
    let gets = |nodes: &str| {
        format!(
            r#"{{ "value": {{ "__typename": "DiscountPercentage", "percentage": 0.1 }},
                 "items": {{ "__typename": "DiscountCollections", "collections": {{ "nodes": {nodes} }} }} }}"#
        )
    };
    let calls = std::cell::RefCell::new(Vec::new());
    let resolve = |h: &str| -> Result<String, String> {
        calls.borrow_mut().push(h.to_string());
        if h.starts_with("bad") { Err(format!("no {h}")) } else { Ok(format!("id/{h}")) }
    };
    let d = discount("DiscountAutomaticBasic", "C", None, &gets(r#"[{ "handle": "a" }, { "handle": "bad1" }, { "handle": "bad2" }]"#), &[]);
    match build_customer_gets(&resolve, &d) {
        Err(DiscountError::Resolve(e)) => assert_eq!(e, "no bad1"),
        _ => panic!("expected the first failing handle's error"),
    }
    assert_eq!(*calls.borrow(), vec!["a".to_string(), "bad1".to_string()]);
    calls.borrow_mut().clear();
    let d = discount("DiscountAutomaticBasic", "C", None, &gets(r#"[{ "handle": "a" }, { "id": 1 }, { "handle": "bad" }]"#), &[]);
    assert!(matches!(build_customer_gets(&resolve, &d), Err(DiscountError::MissingHandle)));
    assert_eq!(*calls.borrow(), vec!["a".to_string()]);
}

#[test]
fn reshapability_is_decided_before_reshaping() {
    assert!(is_reshapable(&j(r#"{ "discount": { "title": "T" }, "codes": { "nodes": [] }, "collections": { "nodes": [] } }"#)));
    assert!(is_reshapable(&j(r#"{ "discount": { "title": "T" } }"#)));
    assert!(is_reshapable(&j(r#"{ "codes": { "nodes": [] } }"#)));
    assert!(!is_reshapable(&j(r#"{ "discount": 3, "codes": { "nodes": [] } }"#)));
    assert!(!is_reshapable(&j(r#"{ "discount": { "customerGets": [] }, "collections": { "nodes": [] } }"#)));
    assert!(is_reshapable(&j(r#"{ "discount": 3 }"#)));
}

#[test]
fn code_basic_input_rejects_non_all_customers() {
    let d = discount(
        "DiscountCodeBasic",
        "Targeted",
        Some(r#"{ "__typename": "DiscountCustomerSegments" }"#),
        r#"{ "value": { "__typename": "DiscountPercentage", "percentage": 0.1 },
             "items": { "__typename": "AllDiscountItems", "allItems": true } }"#,
        &["X"],
    );
    let resolve = |_h: &str| -> anyhow::Result<String> { unreachable!() };
    match code_basic_input(&resolve, &d) {
        Err(e) => assert!(e.message().unwrap().contains("all customers")),
        Ok(_) => panic!("a targeted code discount is not supported"),
    }
}

#[test]
fn code_basic_input_builds_write_shape() {
    let mut d = discount(
        "DiscountCodeBasic",
        "Sale",
        Some(r#"{ "__typename": "DiscountCustomerAll", "allCustomers": true }"#),
        r#"{ "value": { "__typename": "DiscountPercentage", "percentage": 0.1 },
             "items": { "__typename": "AllDiscountItems", "allItems": true } }"#,
        &["SAVE10"],
    );
    d.starts_at = s("2024-01-01T00:00:00Z");
    let resolve = |_h: &str| -> anyhow::Result<String> { unreachable!() };
    let input = back(&code_basic_input(&resolve, &d).ok().unwrap());
    assert_eq!(input["code"], "SAVE10");
    assert_eq!(input["customerSelection"]["all"], true);
    assert_eq!(input["customerGets"]["value"]["percentage"], 0.1);
    assert_eq!(input["customerGets"]["items"]["all"], true);
}

#[test]
fn mutation_payload_unwraps_bulk_data_wrapper() {
    let wrapped = j(r#"{ "data": { "discountCodeBasicCreate": { "userErrors": [] } }, "__lineNumber": 0 }"#);
    assert!(back(&mutation_payload(&wrapped, "discountCodeBasicCreate"))["userErrors"].as_array().unwrap().is_empty());
    let bare = j(r#"{ "discountCodeBasicCreate": { "userErrors": [{ "message": "dup" }] } }"#);
    assert_eq!(back(&mutation_payload(&bare, "discountCodeBasicCreate"))["userErrors"][0]["message"], "dup");
}
