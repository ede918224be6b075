use shopli::config::{Config, ConfigError, ConfigFile, StoreCredential};

fn sample() -> Config {
    let mut c = Config::default();
    c.insert_store(
        "dev".to_string(),
        StoreCredential { shop: "dev.myshopify.com".to_string(), token: "shpat_dev".to_string() },
    );
    c.insert_store(
        "prod".to_string(),
        StoreCredential { shop: "prod.myshopify.com".to_string(), token: "shpat_prod".to_string() },
    );
    c.default = Some("dev".to_string());
    c
}

#[test]
fn get_named_store() {
    assert_eq!(sample().get(Some("prod")).ok().unwrap().shop, "prod.myshopify.com");
}

#[test]
fn get_falls_back_to_default() {
    assert_eq!(sample().get(None).ok().unwrap().token, "shpat_dev");
}

#[test]
fn get_unknown_store_is_error() {
    assert!(sample().get(Some("staging")).is_err());
    match sample().get(Some("staging")) {
        Err(ConfigError::UnknownStore { name }) => assert_eq!(name, "staging"),
        _ => panic!("expected an unknown-store error"),
    }
}

#[test]
fn get_with_no_default_is_error() {
    assert!(Config::default().get(None).is_err());
    assert!(matches!(Config::default().get(None), Err(ConfigError::NoDefault)));
}

#[test]
fn stores_stay_sorted_by_name() {
    let mut c = Config::default();
    for name in ["prod", "dev", "staging", "dev"] {
        c.insert_store(
            name.to_string(),
            StoreCredential { shop: format!("{name}.myshopify.com"), token: format!("t_{name}") },
        );
    }
    let names: Vec<&str> = c.stores.iter().map(|(n, _)| n.as_str()).collect();
    assert_eq!(names, vec!["dev", "prod", "staging"]);
}

#[test]
fn removing_a_store_forgets_it() {
    let mut c = sample();
    assert!(c.remove_store("prod").is_some());
    assert!(c.get(Some("prod")).is_err());
    assert_eq!(c.get(Some("dev")).ok().unwrap().shop, "dev.myshopify.com");
    assert!(c.remove_store("prod").is_none());
}

#[test]
fn saved_config_loads_back() {
    let c = sample();
    let back = Config::from_file(c.save());
    assert_eq!(back.default.as_deref(), Some("dev"));
    let names: Vec<&str> = back.stores.iter().map(|(n, _)| n.as_str()).collect();
    assert_eq!(names, vec!["dev", "prod"]);
    assert_eq!(back.get(Some("prod")).ok().unwrap().token, "shpat_prod");
    assert_eq!(back.get(None).ok().unwrap().shop, "dev.myshopify.com");
}

#[test]
fn file_listing_a_name_twice_keeps_the_last() {
    let cred = |s: &str| StoreCredential { shop: format!("{s}.myshopify.com"), token: format!("t_{s}") };
    let file = ConfigFile {
        default: None,
        stores: vec![
            ("prod".to_string(), cred("p1")),
            ("dev".to_string(), cred("d")),
            ("prod".to_string(), cred("p2")),
        ],
    };
    let c = Config::from_file(file);
    let names: Vec<&str> = c.stores.iter().map(|(n, _)| n.as_str()).collect();
    assert_eq!(names, vec!["dev", "prod"]);
    assert_eq!(c.get(Some("prod")).ok().unwrap().token, "t_p2");
    assert!(matches!(c.get(None), Err(ConfigError::NoDefault)));
}

/// The config file as TOML: `default` and a `[stores.<name>]` table per store.
fn to_toml(file: ConfigFile) -> toml::Table {
    let mut stores = toml::Table::new();
    for (name, cred) in file.stores {
        let mut t = toml::Table::new();
        t.insert("shop".to_string(), toml::Value::String(cred.shop));
        t.insert("token".to_string(), toml::Value::String(cred.token));
        stores.insert(name, toml::Value::Table(t));
    }
    let mut table = toml::Table::new();
    if let Some(d) = file.default {
        table.insert("default".to_string(), toml::Value::String(d));
    }
    table.insert("stores".to_string(), toml::Value::Table(stores));
    table
}

fn from_toml(table: &toml::Table) -> ConfigFile {
    let text = |v: &toml::Value, k: &str| v[k].as_str().unwrap().to_string();
    ConfigFile {
        default: table.get("default").and_then(|d| d.as_str()).map(str::to_string),
        stores: table["stores"]
            .as_table()
            .unwrap()
            .iter()
            .map(|(name, v)| (name.clone(), StoreCredential { shop: text(v, "shop"), token: text(v, "token") }))
            .collect(),
    }
}

#[test]
fn round_trips_through_toml() {
    let text = toml::to_string_pretty(&to_toml(sample().save())).unwrap();
    let parsed = Config::from_file(from_toml(&toml::from_str::<toml::Table>(&text).unwrap()));
    assert_eq!(parsed.default.as_deref(), Some("dev"));
    assert_eq!(parsed.stores.len(), 2);
    assert_eq!(parsed.get(Some("prod")).ok().unwrap().shop, "prod.myshopify.com");
}
