use serde_json::Value;
use shopli::bulk::{
    parse_jsonl, poll_step, PollStep, POLL_TIMEOUT_NANOS,
    check_payload_size, count_str, line_number, order_results, reassemble, staged_upload_path,
    to_jsonl, BulkError, ChildSpec, MAX_JSONL_BYTES,
};
use shopli::json::Json;
use shopli::json_text::parse_json;
use shopli::text::nonblank_lines;

fn conv(v: &Value) -> Json {
    match v {
        Value::Null => Json::Null,
        Value::Bool(b) => Json::Bool(*b),
        Value::Number(n) => Json::Number(n.to_string()),
        Value::String(s) => Json::Str(s.clone()),
        Value::Array(a) => Json::Array(a.iter().map(conv).collect()),
        Value::Object(m) => Json::Object(m.iter().map(|(k, v)| (k.clone(), conv(v))).collect()),
    }
}

fn back(j: &Json) -> Value {
    match j {
        Json::Null => Value::Null,
        Json::Bool(b) => Value::Bool(*b),
        Json::Number(t) => serde_json::from_str(t).unwrap(),
        Json::Str(s) => Value::String(s.clone()),
        Json::Array(a) => Value::Array(a.iter().map(back).collect()),
        Json::Object(es) => Value::Object(es.iter().map(|(k, v)| (k.clone(), back(v))).collect()),
    }
}

fn v(text: &str) -> Value {
    serde_json::from_str(text).unwrap()
}

fn j(text: &str) -> Json {
    conv(&serde_json::from_str::<Value>(text).unwrap())
}

#[test]
fn reassemble_single_child_type() {
    let lines = vec![
        j(r#"{ "id": "gid://Product/1", "handle": "tee", "title": "Tee" }"#),
        j(r#"{ "id": "gid://Variant/11", "__typename": "ProductVariant",
               "__parentId": "gid://Product/1", "sku": "TEE-S", "price": "19.99" }"#),
        j(r#"{ "id": "gid://Variant/12", "__typename": "ProductVariant",
               "__parentId": "gid://Product/1", "sku": "TEE-M", "price": "19.99" }"#),
    ];
    let specs = [ChildSpec { typename: "ProductVariant", field: "variants" }];

    let out: Vec<Value> = reassemble(lines, &specs).iter().map(back).collect();

    assert_eq!(out.len(), 1);
    let product = &out[0];
    assert_eq!(product["id"], "gid://Product/1");
    assert_eq!(product["handle"], "tee");
    let variants = product["variants"]["nodes"].as_array().unwrap();
    assert_eq!(variants.len(), 2);
    assert_eq!(variants[0]["sku"], "TEE-S");
    assert_eq!(variants[1]["sku"], "TEE-M");
    for v in variants {
        assert!(v.get("id").is_none());
        assert!(v.get("__typename").is_none());
        assert!(v.get("__parentId").is_none());
    }
}

#[test]
fn reassemble_multi_child_type() {
    let lines = vec![
        j(r#"{ "id": "gid://Discount/1", "title": "Sale" }"#),
        j(r#"{ "__typename": "DiscountRedeemCode", "__parentId": "gid://Discount/1", "code": "SAVE10" }"#),
        j(r#"{ "__typename": "Collection", "__parentId": "gid://Discount/1", "handle": "shoes" }"#),
        j(r#"{ "__typename": "Collection", "__parentId": "gid://Discount/1", "handle": "hats" }"#),
    ];
    let specs = [
        ChildSpec { typename: "DiscountRedeemCode", field: "codes" },
        ChildSpec { typename: "Collection", field: "collections" },
    ];

    let out: Vec<Value> = reassemble(lines, &specs).iter().map(back).collect();

    assert_eq!(out.len(), 1);
    let d = &out[0];
    let codes = d["codes"]["nodes"].as_array().unwrap();
    assert_eq!(codes.len(), 1);
    assert_eq!(codes[0]["code"], "SAVE10");
    let collections = d["collections"]["nodes"].as_array().unwrap();
    assert_eq!(collections.len(), 2);
    assert_eq!(collections[0]["handle"], "shoes");
    assert_eq!(collections[1]["handle"], "hats");
}

#[test]
fn reassemble_without_specs_keeps_roots_in_order() {
    let lines = vec![
        j(r#"{ "email": "a@x.com", "__typename": "Customer" }"#),
        j(r#"{ "__parentId": "gid://Customer/1", "code": "X" }"#),
        j(r#"{ "email": "b@x.com" }"#),
    ];
    let out: Vec<Value> = reassemble(lines, &[]).iter().map(back).collect();
    assert_eq!(out.len(), 2);
    assert_eq!(out[0], serde_json::from_str::<Value>(r#"{ "email": "a@x.com" }"#).unwrap());
    assert_eq!(out[1]["email"], "b@x.com");
}

#[test]
fn children_of_unknown_parents_are_dropped() {
    let lines = vec![
        j(r#"{ "__typename": "ProductVariant", "__parentId": "gid://Product/9", "sku": "A" }"#),
        j(r#"{ "id": "gid://Product/1", "handle": "tee" }"#),
    ];
    let specs = [ChildSpec { typename: "ProductVariant", field: "variants" }];
    let out: Vec<Value> = reassemble(lines, &specs).iter().map(back).collect();
    assert_eq!(out.len(), 1);
    assert!(out[0].get("variants").is_none());
}

#[test]
fn parse_jsonl_skips_blank_lines() {
    let text = "{\"a\":1}\n\n{\"b\":2}\n";
    let parsed: Vec<Value> = parse_jsonl(text).ok().unwrap().iter().map(back).collect();
    assert_eq!(parsed.len(), 2);
    assert_eq!(parsed[0]["a"], 1);
    assert_eq!(parsed[1]["b"], 2);
}

#[test]
fn parse_jsonl_reports_bad_line() {
    let err = match parse_jsonl("{\"ok\":1}\nnot json\n") {
        Err(e) => e,
        Ok(_) => panic!("line 2 is not JSON"),
    };
    assert!(err.message().contains("line 2"));
    assert_eq!(err.line, 2);
}

#[test]
fn nonblank_lines_strip_carriage_returns() {
    let lines = nonblank_lines("a\r\n  \r\nb");
    assert_eq!(lines, vec![(1, "a".to_string()), (3, "b".to_string())]);
}

#[test]
fn to_jsonl_is_newline_delimited() {
    let lines = vec![j(r#"{ "input": { "handle": "a" } }"#), j(r#"{ "x": 1 }"#)];
    let buf = to_jsonl(&lines).ok().unwrap();
    assert_eq!(buf, "{\"input\":{\"handle\":\"a\"}}\n{\"x\":1}\n");
}

#[test]
fn to_jsonl_reports_a_line_it_cannot_encode() {
    let lines = vec![j(r#"{ "x": 1 }"#), Json::Number("not a number".to_string()), Json::Number("x".to_string())];
    match to_jsonl(&lines) {
        Err(e) => {
            assert_eq!(e.line, 1);
            assert_eq!(e.message(), "serializing JSONL line 1");
        }
        Ok(_) => panic!("the second line has no JSON text"),
    }
}

#[test]
fn extracts_staged_upload_key() {
    let params = vec![
        j(r#"{ "name": "Content-Type", "value": "text/jsonl" }"#),
        j(r#"{ "name": "key", "value": "tmp/12345/bulk_op_vars.jsonl" }"#),
        j(r#"{ "name": "policy", "value": "abc" }"#),
    ];
    assert_eq!(staged_upload_path(&params).as_deref(), Some("tmp/12345/bulk_op_vars.jsonl"));
}

#[test]
fn missing_staged_upload_key_is_none() {
    let params = vec![j(r#"{ "name": "policy", "value": "abc" }"#)];
    assert!(staged_upload_path(&params).is_none());
}

#[test]
fn results_are_ordered_by_line_number() {
    let results = vec![
        j(r#"{ "data": 2, "__lineNumber": 2 }"#),
        j(r#"{ "data": "none" }"#),
        j(r#"{ "data": 0, "__lineNumber": 0 }"#),
        j(r#"{ "data": 1, "__lineNumber": 1 }"#),
        j(r#"{ "data": "dup", "__lineNumber": 1 }"#),
    ];
    let out: Vec<Value> = order_results(results).iter().map(back).collect();
    let data: Vec<Value> = out.iter().map(|r| r["data"].clone()).collect();
    assert_eq!(
        data,
        vec![Value::from(0), Value::from(1), Value::from("dup"), Value::from(2), Value::from("none")]
    );
    assert_eq!(line_number(&j(r#"{ "__lineNumber": 7 }"#)), 7);
    assert_eq!(line_number(&j(r#"{ "__lineNumber": "7" }"#)), u64::MAX);
}

#[test]
fn payload_size_is_capped() {
    assert!(check_payload_size("{}\n").is_ok());
    let big = "x".repeat(MAX_JSONL_BYTES + 1);
    match check_payload_size(&big) {
        Err(BulkError::PayloadTooLarge { bytes }) => assert_eq!(bytes, MAX_JSONL_BYTES + 1),
        _ => panic!("expected the payload to be refused"),
    }
}

#[test]
fn object_counts_read_as_text() {
    assert_eq!(count_str(&j(r#""12""#)), "12");
    assert_eq!(count_str(&j("42")), "42");
    assert_eq!(count_str(&j("null")), "0");
    assert_eq!(count_str(&j("-3")), "0");
}

#[test]
fn jsonl_reads_back_line_for_line() {
    let lines = vec![j(r#"{ "a": "x\ny" }"#), j("[1, 2]"), j(r#""s""#), j("null")];
    let text = to_jsonl(&lines).ok().unwrap();
    assert_eq!(nonblank_lines(&text).len(), 4);
    let back_again: Vec<Value> = parse_jsonl(&text).ok().unwrap().iter().map(back).collect();
    assert_eq!(back_again, lines.iter().map(back).collect::<Vec<_>>());
    assert!(parse_json("{ \"a\": ").is_none());
    assert_eq!(back(&parse_json(" [true] ").unwrap()), v("[true]"));
}

#[test]
fn polling_waits_then_gives_up_after_the_timeout() {
    let running = Json::Object(vec![("status".to_string(), Json::Str("RUNNING".to_string()))]);
    let done = Json::Object(vec![("status".to_string(), Json::Str("COMPLETED".to_string()))]);
    assert!(matches!(poll_step(&done, POLL_TIMEOUT_NANOS + 1, 1), PollStep::Done));
    let mut backoff = 1;
    let mut waits = Vec::new();
    for _ in 0..5 {
        match poll_step(&running, 0, backoff) {
            PollStep::Wait { secs, next } => {
                waits.push(secs);
                backoff = next;
            }
            _ => panic!("still running within the timeout"),
        }
    }
    assert_eq!(waits, vec![1, 2, 4, 10, 10]);
    assert!(matches!(poll_step(&running, POLL_TIMEOUT_NANOS, 10), PollStep::Wait { .. }));
    match poll_step(&running, POLL_TIMEOUT_NANOS + 1, 10) {
        PollStep::TimedOut { status } => assert_eq!(status, "RUNNING"),
        _ => panic!("past the timeout"),
    }
}
