use serde_json::Value;
use shopli::client::{endpoint, find_location, found_id, graphql_step, is_throttled, page_step, GraphqlStep};
use shopli::json::Json;

fn conv(v: &Value) -> Json {
    match v {
        Value::Null => Json::Null,
        Value::Bool(b) => Json::Bool(*b),
        Value::Number(n) => Json::Number(n.to_string()),
        Value::String(s) => Json::Str(s.clone()),
        Value::Array(a) => Json::Array(a.iter().map(conv).collect()),
        Value::Object(m) => Json::Object(m.iter().map(|(k, v)| (k.clone(), conv(v))).collect()),
    }
}

fn j(text: &str) -> Json {
    conv(&serde_json::from_str::<Value>(text).unwrap())
}

#[test]
fn detects_throttled_error() {
    let errors = j(r#"[{ "message": "Throttled", "extensions": { "code": "THROTTLED" } }]"#);
    assert!(is_throttled(&errors));
}

#[test]
fn ignores_non_throttle_errors() {
    let errors = j(r#"[{ "message": "Field 'foo' doesn't exist", "extensions": { "code": "undefinedField" } }]"#);
    assert!(!is_throttled(&errors));
}

#[test]
fn handles_missing_extensions_and_non_arrays() {
    assert!(!is_throttled(&j(r#"[{ "message": "boom" }]"#)));
    assert!(!is_throttled(&j("null")));
    assert!(!is_throttled(&j(r#""not an array""#)));
}

#[test]
fn endpoint_names_the_shop_and_version() {
    assert_eq!(endpoint("acme.myshopify.com"), "https://acme.myshopify.com/admin/api/2026-07/graphql.json");
}

#[test]
fn throttled_requests_back_off_then_fail() {
    let throttled = j(r#"{ "errors": [{ "extensions": { "code": "THROTTLED" } }] }"#);
    let mut waits = Vec::new();
    let mut attempt = 0;
    loop {
        match graphql_step(&throttled, attempt) {
            GraphqlStep::Retry { wait_secs, attempt: next } => {
                waits.push(wait_secs);
                attempt = next;
            }
            GraphqlStep::Fail { .. } => break,
            GraphqlStep::Done { .. } => panic!("a throttled response has no data"),
        }
    }
    assert_eq!(waits, vec![1, 2, 4, 8, 16]);
    assert!(matches!(graphql_step(&j(r#"{ "errors": [{ "message": "bad" }] }"#), 0), GraphqlStep::Fail { .. }));
    match graphql_step(&j(r#"{ "data": { "shop": { "name": "Acme" } } }"#), 0) {
        GraphqlStep::Done { data } => assert_eq!(data.at("shop").str_at("name").unwrap(), "Acme"),
        _ => panic!("expected data"),
    }
}

#[test]
fn pages_accumulate_nodes_until_the_last() {
    let mut all = Vec::new();
    let next = page_step(&j(r#"{ "nodes": [1, 2], "pageInfo": { "hasNextPage": true, "endCursor": "c1" } }"#), &mut all);
    assert_eq!(next.as_deref(), Some("c1"));
    let next = page_step(&j(r#"{ "nodes": [3], "pageInfo": { "hasNextPage": false, "endCursor": "c2" } }"#), &mut all);
    assert!(next.is_none());
    let next = page_step(&j(r#"{ "nodes": [], "pageInfo": { "hasNextPage": true } }"#), &mut all);
    assert!(next.is_none());
    assert_eq!(all.len(), 3);
}

#[test]
fn lookups_read_ids_and_find_locations_by_name() {
    assert_eq!(found_id(&j(r#"{ "productByIdentifier": { "id": "gid://P/1" } }"#), "productByIdentifier").as_deref(), Some("gid://P/1"));
    assert!(found_id(&j(r#"{ "productByIdentifier": null }"#), "productByIdentifier").is_none());
    let locations = vec![j(r#"{ "id": "L1", "name": "Main" }"#), j(r#"{ "id": "L2", "name": "Depot" }"#)];
    assert_eq!(find_location(&locations, "Depot").as_deref(), Some("L2"));
    assert!(find_location(&locations, "Nowhere").is_none());
}
