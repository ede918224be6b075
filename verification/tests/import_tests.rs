use serde_json::Value;
use shopli::json::Json;
use shopli::lookup::{table_from_listing, IdTable};
use shopli::resource::customer::{build_customer_email_map, import_line as customer_line, CustomerRecord};
use shopli::resource::delivery_profile::{build_zone, profile_input, without_default, ProfileError};
use shopli::resource::discount::{
    build_collection_map, check_user_errors, code_of, percentage_of, plan_discount, scope_of, CodeConnection,
    CodeNode, DiscountError, DiscountNodeRecord, DiscountRecord, DiscountStep,
};
use shopli::resource::giftcard::{last_characters, plan_card, CardStep, CustomerRef, GiftCardRecord, Money};
use shopli::resource::metaobject::{
    definition_input, object_input, reference_target, replace_references, resolve_field_value,
    truncated_reference_fields, DefinitionRecord, FieldDefinitionRecord, FieldError, FieldType, FieldValue,
    ObjectRecord, Reference,
};
use shopli::resource::product::ensure_variants;
use shopli::resource::store_credit::{amount_is_zero, balance_summary, plan_credit, StoreCreditRecord};
use shopli::resource::customer::import_batch as customer_batch;
use shopli::resource::discount::{automatic_batch, code_batch, plan_discounts};
use shopli::resource::giftcard::import_batch as card_batch;
use shopli::resource::store_credit::{credit_batch, Money as CreditMoney};
use shopli::resource::{line_outcomes, pair_outcomes, LineOutcome};

fn conv(v: &Value) -> Json {
    match v {
        Value::Null => Json::Null,
        Value::Bool(b) => Json::Bool(*b),
        Value::Number(n) => Json::Number(n.to_string()),
        Value::String(s) => Json::Str(s.clone()),
        Value::Array(a) => Json::Array(a.iter().map(conv).collect()),
        Value::Object(m) => Json::Object(m.iter().map(|(k, v)| (k.clone(), conv(v))).collect()),
    }
}

fn back(j: &Json) -> Value {
    match j {
        Json::Null => Value::Null,
        Json::Bool(b) => Value::Bool(*b),
        Json::Number(t) => serde_json::from_str(t).unwrap(),
        Json::Str(s) => Value::String(s.clone()),
        Json::Array(a) => Value::Array(a.iter().map(back).collect()),
        Json::Object(es) => Value::Object(es.iter().map(|(k, v)| (k.clone(), back(v))).collect()),
    }
}

fn j(text: &str) -> Json {
    conv(&serde_json::from_str::<Value>(text).unwrap())
}

fn v(text: &str) -> Value {
    serde_json::from_str(text).unwrap()
}

fn emails() -> IdTable {
    build_customer_email_map(&vec![
        j(r#"{ "id": "gid://C/1", "email": "Ada@Example.com" }"#),
        j(r#"{ "id": "gid://C/2", "email": null }"#),
        j(r#"{ "id": "gid://C/3", "email": "grace@example.com" }"#),
        j(r#"{ "id": "gid://C/4", "email": "ada@example.com" }"#),
    ])
}

#[test]
fn email_table_lowercases_and_keeps_the_last_listing() {
    let t = emails();
    assert_eq!(t.get("ada@example.com").map(String::as_str), Some("gid://C/4"));
    assert_eq!(t.get("grace@example.com").map(String::as_str), Some("gid://C/3"));
    assert!(t.get("Ada@Example.com").is_none());
    let handles = table_from_listing(&vec![j(r#"{ "handle": "Shoes", "id": "gid://Col/1" }"#)], "handle", false);
    assert_eq!(handles.get("Shoes").map(String::as_str), Some("gid://Col/1"));
    assert!(handles.get("shoes").is_none());
    let mut t = IdTable::new();
    t.insert("k".to_string(), "1".to_string());
    t.insert("k".to_string(), "2".to_string());
    assert_eq!(t.get("k").map(String::as_str), Some("2"));
}

fn card(email: Option<&str>) -> GiftCardRecord {
    GiftCardRecord {
        initial_value: Money { amount: "25.00".to_string(), currency_code: "EUR".to_string() },
        expires_on: None,
        note: None,
        customer: Some(CustomerRef { email: email.map(str::to_string) }),
    }
}

#[test]
fn cards_go_to_the_customer_their_email_finds() {
    let t = emails();
    match plan_card(&card(Some("ADA@example.com")), &t) {
        CardStep::Create { line } => {
            let line = back(&line);
            assert_eq!(line["input"]["customerId"], "gid://C/4");
            assert_eq!(line["input"]["initialAmount"]["amount"], "25.00");
        }
        CardStep::MissingCustomer => panic!("ada is a customer"),
    }
    assert!(matches!(plan_card(&card(Some("nobody@example.com")), &t), CardStep::MissingCustomer));
    match plan_card(&card(None), &t) {
        CardStep::Create { line } => assert!(back(&line)["input"].get("customerId").is_none()),
        CardStep::MissingCustomer => panic!("an unassigned card is created"),
    }
    assert_eq!(last_characters(&j(r#"{ "giftCard": { "lastCharacters": "abcd" } }"#)), "abcd");
    assert_eq!(last_characters(&j(r#"{ "giftCard": null }"#)), "????");
}

#[test]
fn store_credit_amounts_count_as_zero_as_a_float_parse_reads_them() {
    for zero in ["0", "0.0", "0.00", "-0", "+0.", ".0", "0e5", "00.000E-3", "", "abc", "1.2.3", "5e", "."] {
        assert!(amount_is_zero(zero), "{zero:?} counts as zero");
    }
    for nonzero in ["50.00", "0.01", "-3", "1e2", "7.", ".5", "inf", "-Infinity", "NaN", "2E+1"] {
        assert!(!amount_is_zero(nonzero), "{nonzero:?} is not zero");
    }
    // Amounts below half the smallest positive f64 read as 0.0.
    let c = {
        let mut d = vec![1u32];
        for _ in 0..1075 {
            let mut carry = 0;
            for x in d.iter_mut() {
                let t = *x * 5 + carry;
                *x = t % 10;
                carry = t / 10;
            }
            while carry > 0 {
                d.push(carry % 10);
                carry /= 10;
            }
        }
        d.iter().rev().map(|x| char::from(b'0' + *x as u8)).collect::<String>()
    };
    let half = format!("{}.{}e-324", &c[..1], &c[1..]);
    let above = format!("{}.{}1e-324", &c[..1], &c[1..]);
    for zero in ["1e-400", "-1e-330", "2.4703282292062327e-324", "0.00001e-320", "1e-99999999999999999999999"] {
        assert!(amount_is_zero(zero), "{zero:?} reads as 0.0");
    }
    assert!(amount_is_zero(&half));
    for nonzero in ["2.4703282292062328e-324", "1e-323", "5e-324", "1e99999999999999999999999"] {
        assert!(!amount_is_zero(nonzero), "{nonzero:?} does not read as 0.0");
    }
    assert!(!amount_is_zero(&above));
    for text in ["1e-400", "2.4703282292062328e-324", &half, &above, "0.00001e-320"] {
        assert_eq!(amount_is_zero(text), text.parse::<f64>().unwrap() == 0.0, "{text}");
    }
}

#[test]
fn credit_lines_and_summaries() {
    let r = StoreCreditRecord {
        email: "Grace@Example.com".to_string(),
        balances: vec![
            shopli::resource::store_credit::Money { amount: "50.00".to_string(), currency_code: "USD".to_string() },
            shopli::resource::store_credit::Money { amount: "10.00".to_string(), currency_code: "CAD".to_string() },
        ],
    };
    assert_eq!(balance_summary(&r), "50.00 USD, 10.00 CAD");
    let lines: Vec<Value> = plan_credit(&r, &emails()).unwrap().iter().map(back).collect();
    assert_eq!(lines.len(), 2);
    assert_eq!(
        lines[1],
        v(r#"{ "id": "gid://C/3", "creditInput": { "creditAmount": { "amount": "10.00", "currencyCode": "CAD" } } }"#)
    );
    let stranger = StoreCreditRecord { email: "x@y.z".to_string(), balances: vec![] };
    assert!(plan_credit(&stranger, &emails()).is_none());
    assert_eq!(balance_summary(&stranger), "");
}

#[test]
fn outcomes_pair_with_lines_in_line_order() {
    let results = vec![
        j(r#"{ "data": { "customerCreate": { "userErrors": [{ "message": "taken" }] } }, "__lineNumber": 1 }"#),
        j(r#"{ "data": { "customerCreate": { "customer": { "id": "gid://C/9" }, "userErrors": [] } }, "__lineNumber": 0 }"#),
    ];
    let outcomes = line_outcomes(results, "customerCreate");
    assert!(matches!(&outcomes[0], LineOutcome::Accepted { .. }));
    assert!(matches!(&outcomes[1], LineOutcome::Rejected { .. }));
    let results = vec![
        j(r#"{ "data": { "productSet": { "userErrors": [] } }, "__lineNumber": 1 }"#),
        j(r#"{ "data": { "productSet": { "userErrors": [{ "message": "dup" }] } }, "__lineNumber": 0 }"#),
        j(r#"{ "data": { "productSet": { "userErrors": [] } }, "__lineNumber": 2 }"#),
    ];
    let paired = pair_outcomes(vec!["tee", "hat"], results, "productSet");
    assert_eq!(paired.len(), 2);
    assert_eq!(paired[0].0, "tee");
    match &paired[0].1 {
        LineOutcome::Rejected { errors } => assert_eq!(back(errors)[0]["message"], "dup"),
        LineOutcome::Accepted { .. } => panic!("line 0 was rejected"),
    }
    assert!(matches!(&paired[1].1, LineOutcome::Accepted { .. }));
}

#[test]
fn customers_without_name_phone_or_email_get_no_line() {
    let mut c = CustomerRecord {
        first_name: None,
        last_name: None,
        email: None,
        phone: None,
        note: None,
        tags: None,
        tax_exempt: None,
        email_marketing_consent: None,
        sms_marketing_consent: None,
        addresses: None,
    };
    assert!(customer_line(&c).is_none());
    c.phone = Some("+44".to_string());
    let line = back(&customer_line(&c).unwrap());
    assert_eq!(line["input"]["phone"], "+44");
    assert_eq!(line["input"]["email"], Value::Null);
    assert_eq!(line["input"]["addresses"], v("[]"));
}

#[test]
fn exported_products_always_have_variants() {
    let mut products = vec![j(r#"{ "handle": "a" }"#), j(r#"{ "handle": "b", "variants": { "nodes": [1] } }"#), j("3")];
    ensure_variants(&mut products);
    assert_eq!(back(&products[0])["variants"], v(r#"{ "nodes": [] }"#));
    assert_eq!(back(&products[1])["variants"]["nodes"][0], 1);
    assert_eq!(back(&products[2]), v("3"));
}

fn record(typename: &str, title: Option<&str>, selection: Option<&str>, gets: Option<&str>, code: Option<&str>) -> DiscountNodeRecord {
    DiscountNodeRecord {
        id: "gid://D/1".to_string(),
        discount: DiscountRecord {
            typename: typename.to_string(),
            title: title.map(str::to_string),
            status: None,
            starts_at: None,
            ends_at: None,
            codes: code.map(|c| CodeConnection { nodes: vec![CodeNode { code: c.to_string() }] }),
            customer_selection: selection.map(j),
            customer_gets: gets.map(j),
        },
    }
}

const ALL_ITEMS: &str = r#"{ "value": { "percentage": 0.3 }, "items": { "__typename": "AllDiscountItems" } }"#;

#[test]
fn discounts_are_planned_by_type() {
    let table = build_collection_map(&vec![j(r#"{ "handle": "shoes", "id": "gid://Col/1" }"#)]);
    let resolve = |h: &str| -> Result<String, String> { table.get(h).cloned().ok_or_else(|| h.to_string()) };

    let code = record("DiscountCodeBasic", Some("Sale"), Some(r#"{ "__typename": "DiscountCustomerAll" }"#), Some(ALL_ITEMS), Some("SAVE"));
    match plan_discount(&resolve, &code) {
        DiscountStep::Code { line, title, suffix } => {
            assert_eq!(title, "Sale");
            assert_eq!(suffix, "code: SAVE");
            assert_eq!(back(&line)["basicCodeDiscount"]["code"], "SAVE");
        }
        _ => panic!("expected a code discount"),
    }
    let auto = record(
        "DiscountAutomaticBasic",
        None,
        None,
        Some(r#"{ "value": { "percentage": 0.5 }, "items": { "__typename": "DiscountCollections",
                  "collections": { "nodes": [{ "handle": "shoes" }] } } }"#),
        None,
    );
    match plan_discount(&resolve, &auto) {
        DiscountStep::Automatic { line, title } => {
            assert_eq!(title, "(untitled)");
            assert_eq!(back(&line)["automaticBasicDiscount"]["customerGets"]["items"]["collections"]["add"][0], "gid://Col/1");
        }
        _ => panic!("expected an automatic discount"),
    }
    let missing = record(
        "DiscountAutomaticBasic",
        Some("Hats"),
        None,
        Some(r#"{ "value": { "percentage": 0.5 }, "items": { "__typename": "DiscountCollections",
                  "collections": { "nodes": [{ "handle": "hats" }] } } }"#),
        None,
    );
    match plan_discount(&resolve, &missing) {
        DiscountStep::Skip { title, reason: DiscountError::Resolve(h) } => {
            assert_eq!(title, "Hats");
            assert_eq!(h, "hats");
        }
        _ => panic!("hats is not in the target store"),
    }
    let ship = record("DiscountCodeFreeShipping", Some("Ship"), None, None, None);
    match plan_discount(&resolve, &ship) {
        DiscountStep::Unsupported { title, typename } => {
            assert_eq!(title, "Ship");
            assert_eq!(typename, "DiscountCodeFreeShipping");
        }
        _ => panic!("free shipping is not cloned"),
    }
}

#[test]
fn discount_errors_name_their_cause() {
    let resolve = |_h: &str| -> Result<String, String> { Err("unused".to_string()) };
    let fixed = record("DiscountAutomaticBasic", Some("Fixed"), None, Some(r#"{ "value": { "amount": "5" } }"#), None);
    match plan_discount(&resolve, &fixed) {
        DiscountStep::Skip { reason, .. } => {
            assert_eq!(reason.message().unwrap(), "only percentage-value discounts are supported for now")
        }
        _ => panic!("a fixed-amount discount is not supported"),
    }
    let no_code = record("DiscountCodeBasic", Some("X"), Some(r#"{ "__typename": "DiscountCustomerAll" }"#), Some(ALL_ITEMS), None);
    match plan_discount(&resolve, &no_code) {
        DiscountStep::Skip { reason: DiscountError::MissingCode, .. } => {}
        _ => panic!("a code discount needs a code"),
    }
    assert!(matches!(code_of::<String>(&no_code.discount), Err(DiscountError::MissingCode)));
    let odd = record(
        "DiscountAutomaticBasic",
        Some("Odd"),
        None,
        Some(r#"{ "value": { "percentage": 0.1 }, "items": { "__typename": "DiscountProducts" } }"#),
        None,
    );
    match plan_discount(&resolve, &odd) {
        DiscountStep::Skip { reason, .. } => assert_eq!(
            reason.message().unwrap(),
            "unsupported discount item scope: Some(\"DiscountProducts\")"
        ),
        _ => panic!("product scopes are not supported"),
    }
    let none = record(
        "DiscountAutomaticBasic",
        Some("None"),
        None,
        Some(r#"{ "value": { "percentage": 0.1 }, "items": { "__typename": "DiscountCollections" } }"#),
        None,
    );
    assert!(matches!(plan_discount(&resolve, &none), DiscountStep::Skip { reason: DiscountError::NoCollections, .. }));
    let unnamed = record(
        "DiscountAutomaticBasic",
        Some("Unnamed"),
        None,
        Some(r#"{ "value": { "percentage": 0.1 }, "items": { "__typename": "DiscountCollections",
                  "collections": { "nodes": [{ "id": "gid://Col/9" }] } } }"#),
        None,
    );
    assert!(matches!(plan_discount(&resolve, &unnamed), DiscountStep::Skip { reason: DiscountError::MissingHandle, .. }));
}

#[test]
fn discount_descriptions_and_user_errors() {
    let d = record(
        "DiscountAutomaticBasic",
        Some("Coll"),
        None,
        Some(r#"{ "value": { "percentage": 0.15 }, "items": { "__typename": "DiscountCollections",
                  "collections": { "nodes": [{ "handle": "a" }, { "handle": "b" }, { "handle": "c" }] } } }"#),
        None,
    )
    .discount;
    assert_eq!(percentage_of(&d).as_deref(), Some("0.15"));
    assert_eq!(scope_of(&d), "on 3 collection(s)");
    let all = record("DiscountAutomaticBasic", None, None, Some(ALL_ITEMS), None).discount;
    assert_eq!(scope_of(&all), "on all items");
    let ship = record("DiscountCodeFreeShipping", None, None, None, None).discount;
    assert!(percentage_of(&ship).is_none());
    assert_eq!(scope_of(&ship), "");
    assert!(check_user_errors(&j(r#"{ "userErrors": [] }"#), &d).is_ok());
    match check_user_errors(&j(r#"{ "userErrors": [{ "message": "dup" }] }"#), &ship) {
        Err(e) => {
            assert_eq!(e.title, "?");
            assert_eq!(back(&e.errors)[0]["message"], "dup");
        }
        Ok(()) => panic!("user errors are reported"),
    }
}

const PROFILE: &str = r#"{
    "name": "Heavy",
    "default": false,
    "profileLocationGroups": [{
        "locationGroup": { "locations": { "nodes": [{ "name": "Main" }, { "name": "Depot" }] } },
        "locationGroupZones": { "nodes": [{
            "zone": {
                "name": "Domestic",
                "countries": [
                    { "code": { "countryCode": "US", "restOfWorld": false }, "provinces": [{ "code": "CA" }, { "name": "x" }] },
                    { "code": { "countryCode": null, "restOfWorld": true }, "provinces": [] }
                ]
            },
            "methodDefinitions": { "nodes": [
                { "name": "Standard", "active": true, "rateProvider": { "__typename": "DeliveryRateDefinition", "price": { "amount": "5.00", "currencyCode": "USD" } } },
                { "name": "Carrier", "active": true, "rateProvider": { "__typename": "DeliveryParticipant" } }
            ] }
        }] }
    }]
}"#;

#[test]
fn delivery_profiles_convert_zones_and_resolve_locations() {
    let p = j(PROFILE);
    let resolve = |name: &str| -> Result<String, String> { Ok(format!("gid://Loc/{name}")) };
    let input = back(&profile_input(&resolve, &p).ok().unwrap());
    assert_eq!(input["name"], "Heavy");
    let group = &input["locationGroupsToCreate"][0];
    assert_eq!(group["locationsToAdd"], v(r#"["gid://Loc/Main", "gid://Loc/Depot"]"#));
    let zone = &group["zonesToCreate"][0];
    assert_eq!(zone["name"], "Domestic");
    assert_eq!(zone["countries"][0], v(r#"{ "code": "US", "provinces": [{ "code": "CA" }] }"#));
    assert_eq!(zone["countries"][1], v(r#"{ "restOfWorld": true }"#));
    assert_eq!(
        zone["methodDefinitionsToCreate"],
        v(r#"[{ "name": "Standard", "rateDefinition": { "price": { "amount": "5.00", "currencyCode": "USD" } } }]"#)
    );
    let failing = |name: &str| -> Result<String, String> { Err(name.to_string()) };
    assert!(matches!(profile_input(&failing, &p), Err(ProfileError::Resolve(n)) if n == "Main"));
    let unnamed = j(r#"{ "name": "U", "profileLocationGroups": [{ "locationGroup": { "locations": { "nodes": [{}] } } }] }"#);
    assert!(matches!(profile_input(&resolve, &unnamed), Err(ProfileError::MissingLocationName)));
    let zone = back(&build_zone(&j(r#"{ "name": "Empty" }"#), &j("null")));
    assert_eq!(zone, v(r#"{ "name": "Empty", "countries": [], "methodDefinitionsToCreate": [] }"#));
}

#[test]
fn the_default_profile_is_not_exported() {
    let kept = without_default(vec![j(r#"{ "name": "General", "default": true }"#), j(PROFILE), j(r#"{ "name": "N" }"#)]);
    let names: Vec<Value> = kept.iter().map(|p| back(p)["name"].clone()).collect();
    assert_eq!(names, vec![Value::from("Heavy"), Value::from("N")]);
}

#[test]
fn metaobject_definitions_convert_fields() {
    let def = DefinitionRecord {
        name: Some("Author".to_string()),
        metaobject_type: "author".to_string(),
        field_definitions: vec![FieldDefinitionRecord {
            key: "bio".to_string(),
            name: None,
            field_type: FieldType { name: "multi_line_text_field".to_string() },
        }],
    };
    assert_eq!(
        back(&definition_input(&def)),
        v(r#"{ "name": "Author", "type": "author", "fieldDefinitions": [{ "key": "bio", "name": null, "type": "multi_line_text_field" }] }"#)
    );
}

fn resolve_ref(r: &Reference) -> Result<String, String> {
    match r {
        Reference::Product { handle } => Ok(format!("gid://P/{handle}")),
        Reference::Collection { handle } => Ok(format!("gid://C/{handle}")),
        Reference::Metaobject { metaobject_type, handle } => Ok(format!("gid://M/{metaobject_type}/{handle}")),
    }
}

#[test]
fn metaobject_references_are_resolved_by_handle() {
    let fields = vec![
        FieldValue { key: "title".to_string(), value: Some("Hi".to_string()), reference: None, references: None },
        FieldValue { key: "empty".to_string(), value: None, reference: None, references: None },
        FieldValue {
            key: "product".to_string(),
            value: Some("gid://old/1".to_string()),
            reference: Some(j(r#"{ "__typename": "Product", "handle": "tee" }"#)),
            references: None,
        },
        FieldValue {
            key: "related".to_string(),
            value: None,
            reference: None,
            references: Some(j(r#"{ "nodes": [{ "__typename": "Collection", "handle": "shoes" },
                                              { "__typename": "Metaobject", "type": "author", "handle": "ada" }] }"#)),
        },
    ];
    let obj = ObjectRecord { metaobject_type: "post".to_string(), handle: Some("hello".to_string()), fields };
    let input = back(&object_input(&|r: &Reference| resolve_ref(r), &obj).ok().unwrap());
    assert_eq!(input["type"], "post");
    assert_eq!(input["handle"], "hello");
    let written = input["fields"].as_array().unwrap();
    assert_eq!(written.len(), 3);
    assert_eq!(written[0], v(r#"{ "key": "title", "value": "Hi" }"#));
    assert_eq!(written[1], v(r#"{ "key": "product", "value": "gid://P/tee" }"#));
    assert_eq!(written[2]["key"], "related");
    let ids: Vec<String> = serde_json::from_str(written[2]["value"].as_str().unwrap()).unwrap();
    assert_eq!(ids, vec!["gid://C/shoes".to_string(), "gid://M/author/ada".to_string()]);
}

#[test]
fn unsupported_references_are_refused() {
    let f = FieldValue {
        key: "page".to_string(),
        value: None,
        reference: Some(j(r#"{ "__typename": "Page" }"#)),
        references: None,
    };
    match resolve_field_value(&|r: &Reference| resolve_ref(r), &f) {
        Err(e) => assert_eq!(
            e.message().unwrap(),
            "reference to 'Page' can't be remapped across stores yet (only Product / Collection / Metaobject references are supported)"
        ),
        Ok(_) => panic!("pages are not remapped"),
    }
    assert!(matches!(reference_target::<String>(&j(r#"{ "handle": "x" }"#)), Err(FieldError::MissingTypename)));
    assert!(matches!(reference_target::<String>(&j(r#"{ "__typename": "Metaobject", "handle": "x" }"#)), Err(FieldError::MetaobjectMissingType)));
    assert!(matches!(reference_target::<String>(&j(r#"{ "__typename": "Collection" }"#)), Err(FieldError::CollectionMissingHandle)));
}

#[test]
fn truncated_reference_lists_are_found_and_replaced() {
    let mut obj = j(r#"{
        "id": "gid://M/1",
        "fields": [
            { "key": "a", "references": { "nodes": [1], "pageInfo": { "hasNextPage": false } } },
            { "key": "b", "references": { "nodes": [1], "pageInfo": { "hasNextPage": true } } }
        ]
    }"#);
    let cut = truncated_reference_fields(&obj);
    assert_eq!(cut, vec![(1, "b".to_string())]);
    replace_references(&mut obj, 1, vec![j("1"), j("2")]);
    assert_eq!(back(&obj)["fields"][1]["references"], v(r#"{ "nodes": [1, 2] }"#));
    assert_eq!(back(&obj)["fields"][0]["references"]["nodes"], v("[1]"));
    let no_id = j(r#"{ "fields": [{ "key": "b", "references": { "pageInfo": { "hasNextPage": true } } }] }"#);
    assert!(truncated_reference_fields(&no_id).is_empty());
}

#[test]
fn reference_lists_are_written_as_compact_escaped_json() {
    let list = |nodes: &str| FieldValue {
        key: "related".to_string(),
        value: None,
        reference: None,
        references: Some(j(nodes)),
    };
    let resolve = |r: &Reference| -> Result<String, String> {
        match r {
            Reference::Collection { handle } => Ok(format!("a\"b\\{handle}\n\u{1}")),
            _ => Ok("x".to_string()),
        }
    };
    let f = list(r#"{ "nodes": [{ "__typename": "Collection", "handle": "s" }, { "__typename": "Product", "handle": "p" }] }"#);
    assert_eq!(
        resolve_field_value(&resolve, &f).ok().unwrap().unwrap(),
        "[\"a\\\"b\\\\s\\n\\u0001\",\"x\"]"
    );
    let empty = list(r#"{ "nodes": [] }"#);
    assert_eq!(resolve_field_value(&resolve, &empty).ok().unwrap().unwrap(), "[]");
}

#[test]
fn the_first_failing_reference_gives_the_error() {
    let f = FieldValue {
        key: "related".to_string(),
        value: None,
        reference: None,
        references: Some(j(r#"{ "nodes": [{ "__typename": "Collection", "handle": "ok" },
                                           { "__typename": "Collection", "handle": "bad1" },
                                           { "__typename": "Collection", "handle": "bad2" }] }"#)),
    };
    let resolve = |r: &Reference| -> Result<String, String> {
        match r {
            Reference::Collection { handle } if handle.starts_with("bad") => Err(format!("no {handle}")),
            _ => Ok("id".to_string()),
        }
    };
    match resolve_field_value(&resolve, &f) {
        Err(FieldError::Resolve(e)) => assert_eq!(e, "no bad1"),
        _ => panic!("expected the first failing handle's error"),
    }
}

fn blank_customer() -> CustomerRecord {
    CustomerRecord {
        first_name: None,
        last_name: None,
        email: None,
        phone: None,
        note: None,
        tags: None,
        tax_exempt: None,
        email_marketing_consent: None,
        sms_marketing_consent: None,
        addresses: None,
    }
}

#[test]
fn import_batches_send_the_lines_of_the_records_that_have_one() {
    let mut named = blank_customer();
    named.email = Some("a@b.c".to_string());
    let customers = vec![blank_customer(), named, blank_customer()];
    let batch = customer_batch(&customers);
    assert_eq!(batch.len(), 1);
    assert_eq!(batch[0].0, 1);
    assert_eq!(back(&batch[0].1)["input"]["email"], "a@b.c");

    let cards = vec![card(Some("nobody@example.com")), card(None), card(Some("grace@example.com"))];
    let batch = card_batch(&cards, &emails());
    assert_eq!(batch.iter().map(|(i, _)| *i).collect::<Vec<_>>(), vec![1, 2]);
    assert_eq!(back(&batch[1].1)["input"]["customerId"], "gid://C/3");

    let credit = |email: &str, n: usize| StoreCreditRecord {
        email: email.to_string(),
        balances: (0..n)
            .map(|k| CreditMoney { amount: format!("{k}.50"), currency_code: "USD".to_string() })
            .collect(),
    };
    let records = vec![credit("grace@example.com", 2), credit("x@y.z", 1), credit("ADA@example.com", 1)];
    let batch = credit_batch(&records, &emails());
    assert_eq!(batch.iter().map(|(i, k, _)| (*i, *k)).collect::<Vec<_>>(), vec![(0, 0), (0, 1), (2, 0)]);
    assert_eq!(back(&batch[2].2)["id"], "gid://C/4");
    assert_eq!(back(&batch[1].2)["creditInput"]["creditAmount"]["amount"], "1.50");

    let table = build_collection_map(&vec![j(r#"{ "handle": "shoes", "id": "gid://Col/1" }"#)]);
    let resolve = |h: &str| -> Result<String, String> { table.get(h).cloned().ok_or_else(|| h.to_string()) };
    let nodes = vec![
        record("DiscountAutomaticBasic", Some("A"), None, Some(ALL_ITEMS), None),
        record("DiscountCodeBasic", Some("C"), Some(r#"{ "__typename": "DiscountCustomerAll" }"#), Some(ALL_ITEMS), Some("X")),
        record("DiscountCodeFreeShipping", Some("F"), None, None, None),
        record("DiscountAutomaticBasic", Some("B"), None, None, None),
    ];
    let steps = plan_discounts(&resolve, &nodes);
    assert_eq!(steps.len(), 4);
    assert_eq!(code_batch(&steps).iter().map(|(i, _)| *i).collect::<Vec<_>>(), vec![1]);
    let auto = automatic_batch(&steps);
    assert_eq!(auto.iter().map(|(i, _)| *i).collect::<Vec<_>>(), vec![0]);
    assert_eq!(back(&auto[0].1)["automaticBasicDiscount"]["title"], "A");
    assert!(matches!(steps[2], DiscountStep::Unsupported { .. }));
    assert!(matches!(steps[3], DiscountStep::Skip { reason: DiscountError::NotPercentage, .. }));
}
