use serde_json::Value;
use shopli::cli::{Cli, Command, StoreCommand};
use shopli::commands::clone::{run as clone_run, CloneError};
use shopli::commands::export::{run as export_run, run_all as export_all};
use shopli::commands::import::{import_each, run as import_run, run_all as import_all};
use shopli::config::{config_path, resolve, Config, ConfigError, Role, StoreCredential};
use shopli::json::Json;
use shopli::resource::{all, by_name, ResourceKind};
use shopli::text::join;
use shopli::Dispatch;

fn conv(v: &Value) -> Json {
    match v {
        Value::Null => Json::Null,
        Value::Bool(b) => Json::Bool(*b),
        Value::Number(n) => Json::Number(n.to_string()),
        Value::String(s) => Json::Str(s.clone()),
        Value::Array(a) => Json::Array(a.iter().map(conv).collect()),
        Value::Object(m) => Json::Object(m.iter().map(|(k, v)| (k.clone(), conv(v))).collect()),
    }
}

fn back(j: &Json) -> Value {
    match j {
        Json::Null => Value::Null,
        Json::Bool(b) => Value::Bool(*b),
        Json::Number(t) => serde_json::from_str(t).unwrap(),
        Json::Str(s) => Value::String(s.clone()),
        Json::Array(a) => Value::Array(a.iter().map(back).collect()),
        Json::Object(es) => Value::Object(es.iter().map(|(k, v)| (k.clone(), back(v))).collect()),
    }
}

fn two_stores() -> Config {
    let mut c = Config::default();
    c.insert_store("a".to_string(), StoreCredential { shop: "a.myshopify.com".to_string(), token: "ta".to_string() });
    c.insert_store("b".to_string(), StoreCredential { shop: "b.myshopify.com".to_string(), token: "tb".to_string() });
    c
}

#[test]
fn resource_names_round_trip_and_clone_order() {
    let kinds = all();
    let names: Vec<&str> = kinds.iter().map(|k| k.name()).collect();
    assert_eq!(
        names,
        vec!["metaobjects", "customers", "products", "delivery_profiles", "discounts", "giftcards", "store_credit"]
    );
    for k in kinds {
        assert!(by_name(k.name()).ok().unwrap() == k);
    }
    match by_name("orders") {
        Err(e) => assert_eq!(e.name, "orders"),
        Ok(_) => panic!("orders is not a resource"),
    }
}

#[test]
fn export_defaults_to_the_resource_file() {
    let p = export_run("products", None, None, false).ok().unwrap();
    assert!(p.resource == ResourceKind::Products);
    assert_eq!(p.path, "products.json");
    let p = export_run("giftcards", Some("dev".to_string()), Some("cards.json".to_string()), true).ok().unwrap();
    assert_eq!(p.path, "cards.json");
    assert_eq!(p.store.as_deref(), Some("dev"));
    assert!(p.no_bulk);
    assert!(export_run("orders", None, None, false).is_err());
}

#[test]
fn export_all_writes_every_resource_into_the_directory() {
    let plan = export_all(None, None, false);
    assert_eq!(plan.dir, "shoptools_exports");
    let files: Vec<&str> = plan.files.iter().map(|(_, f)| f.as_str()).collect();
    assert_eq!(files[0], "shoptools_exports/metaobjects.json");
    assert_eq!(files[6], "shoptools_exports/store_credit.json");
    let plan = import_all(None, Some("out/".to_string()), true, false);
    assert_eq!(plan.files[2].1, "out/products.json");
    assert!(plan.dry_run);
    assert_eq!(join("", "a.json"), "a.json");
}

#[test]
fn import_names_a_resource_and_a_file() {
    let p = import_run("customers", "c.json".to_string(), None, true, false).ok().unwrap();
    assert!(p.resource == ResourceKind::Customers);
    assert_eq!(p.file, "c.json");
    assert!(p.dry_run);
    assert!(import_run("nope", "x.json".to_string(), None, false, false).is_err());
}

#[test]
fn clone_reads_both_stores_and_the_resources() {
    let c = two_stores();
    let plan = clone_run(&c, "a", "b", &vec![], false).ok().unwrap();
    assert_eq!(plan.from.shop, "a.myshopify.com");
    assert_eq!(plan.to.token, "tb");
    assert_eq!(plan.resources.len(), 7);
    let plan = clone_run(&c, "a", "b", &vec!["giftcards".to_string(), "customers".to_string()], true).ok().unwrap();
    assert!(plan.resources == vec![ResourceKind::GiftCards, ResourceKind::Customers]);
    match clone_run(&c, "a", "c", &vec![], false) {
        Err(CloneError::Config(ConfigError::UnknownStore { name })) => assert_eq!(name, "c"),
        _ => panic!("c is not configured"),
    }
    match clone_run(&c, "a", "b", &vec!["orders".to_string()], false) {
        Err(CloneError::Resource(e)) => assert_eq!(e.name, "orders"),
        _ => panic!("orders is not a resource"),
    }
    let only = vec!["products".to_string(), "orders".to_string(), "refunds".to_string()];
    match clone_run(&c, "a", "b", &only, false) {
        Err(CloneError::Resource(e)) => assert_eq!(e.name, "orders"),
        _ => panic!("the first unknown name is reported"),
    }
}

#[test]
fn the_command_line_dispatches_to_its_plan() {
    let cli = Cli {
        command: Command::Export {
            resource: Some("discounts".to_string()),
            all: false,
            store: None,
            out: None,
            dir: None,
            no_bulk: false,
        },
    };
    match shopli::run(cli) {
        Ok(Dispatch::Export(p)) => assert_eq!(p.path, "discounts.json"),
        _ => panic!("expected an export"),
    }
    let cli = Cli { command: Command::Store { command: StoreCommand::List } };
    assert!(matches!(shopli::run(cli), Ok(Dispatch::Store { command: StoreCommand::List })));
    let cli = Cli {
        command: Command::Import {
            resource: None,
            all: true,
            file: None,
            dir: None,
            store: None,
            dry_run: false,
            no_bulk: false,
        },
    };
    assert!(matches!(shopli::run(cli), Ok(Dispatch::ImportAll(_))));
    let cli = Cli { command: Command::Query { query: "{ shop { name } }".to_string(), store: None, json: true } };
    match shopli::run(cli) {
        Ok(Dispatch::Query(q)) => {
            assert_eq!(q.query, "{ shop { name } }");
            assert_eq!(back(&q.variables), serde_json::from_str::<Value>("{}").unwrap());
        }
        _ => panic!("expected a query"),
    }
}

#[test]
fn environment_credentials_need_both_variables() {
    assert!(resolve(Some("s.myshopify.com".to_string()), None).is_none());
    assert!(resolve(None, Some("tok".to_string())).is_none());
    let c = resolve(Some("s.myshopify.com".to_string()), Some("tok".to_string())).unwrap();
    assert_eq!(c.shop, "s.myshopify.com");
    assert_eq!(c.token, "tok");
    assert_eq!(Role::Source.env_vars(), ("SHOPIFY_SOURCE_SHOP", "SHOPIFY_SOURCE_TOKEN"));
    assert_eq!(Role::Target.env_vars(), ("SHOPIFY_TARGET_SHOP", "SHOPIFY_TARGET_TOKEN"));
}

#[test]
fn config_path_prefers_the_environment() {
    assert_eq!(config_path(Some("/tmp/x.toml".to_string()), Some("/home/u/.config".to_string())).as_deref(), Some("/tmp/x.toml"));
    assert_eq!(
        config_path(None, Some("/home/u/.config".to_string())).as_deref(),
        Some("/home/u/.config/shoptools/config.toml")
    );
    assert!(config_path(None, None).is_none());
}

#[test]
fn saving_lists_stores_in_name_order() {
    let mut c = two_stores();
    c.default = Some("b".to_string());
    let file = c.save();
    assert_eq!(file.default.as_deref(), Some("b"));
    let names: Vec<&str> = file.stores.iter().map(|(n, _)| n.as_str()).collect();
    assert_eq!(names, vec!["a", "b"]);
    let loaded = Config::load(None);
    assert!(loaded.stores.is_empty());
    assert!(loaded.default.is_none());
}

#[test]
fn import_all_runs_in_order_and_stops_at_the_first_error() {
    let plan = import_all(None, Some("d".to_string()), false, false);
    let seen = std::cell::RefCell::new(Vec::new());
    let ok = import_each(&plan, &|kind: ResourceKind, path: &str| -> Result<(), String> {
        seen.borrow_mut().push((kind, path.to_string()));
        Ok(())
    });
    assert!(ok.is_ok());
    assert_eq!(seen.borrow().len(), all().len());
    assert!(seen.borrow()[0].0 == all()[0]);
    seen.borrow_mut().clear();
    let stopped = import_each(&plan, &|kind: ResourceKind, path: &str| -> Result<(), String> {
        seen.borrow_mut().push((kind, path.to_string()));
        if seen.borrow().len() == 2 { Err(format!("bad {path}")) } else { Ok(()) }
    });
    assert_eq!(seen.borrow().len(), 2);
    assert_eq!(stopped, Err(format!("bad {}", plan.files[1].1)));
}
