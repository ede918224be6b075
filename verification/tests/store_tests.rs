use shopli::cli::StoreCommand;
use shopli::commands::store::{run, StoreError, StoreReport};
use shopli::config::Config;

fn add(c: &mut Config, name: &str, token: Option<&str>, env: Option<&str>) -> Result<StoreReport, StoreError> {
    run(
        StoreCommand::Add {
            name: name.to_string(),
            shop: format!("{name}.myshopify.com"),
            token: token.map(str::to_string),
        },
        c,
        env.map(str::to_string),
    )
}

#[test]
fn first_added_store_becomes_default() {
    let mut c = Config::default();
    match add(&mut c, "dev", Some("shpat_dev"), None) {
        Ok(StoreReport::Saved { name, first }) => {
            assert_eq!(name, "dev");
            assert!(first);
        }
        _ => panic!("expected a saved store"),
    }
    assert_eq!(c.default.as_deref(), Some("dev"));
    match add(&mut c, "prod", Some("shpat_prod"), None) {
        Ok(StoreReport::Saved { first, .. }) => assert!(!first),
        _ => panic!("expected a saved store"),
    }
    assert_eq!(c.default.as_deref(), Some("dev"));
    assert_eq!(c.get(Some("prod")).ok().unwrap().token, "shpat_prod");
}

#[test]
fn add_takes_the_token_from_the_environment_or_fails() {
    let mut c = Config::default();
    assert!(matches!(add(&mut c, "dev", None, None), Err(StoreError::NoToken)));
    assert!(c.stores.is_empty());
    assert!(add(&mut c, "dev", None, Some("shpat_env")).is_ok());
    assert_eq!(c.get(Some("dev")).ok().unwrap().token, "shpat_env");
    assert!(add(&mut c, "dev", Some("shpat_flag"), Some("shpat_env")).is_ok());
    assert_eq!(c.get(Some("dev")).ok().unwrap().token, "shpat_flag");
}

#[test]
fn use_sets_the_default_and_refuses_unknown_stores() {
    let mut c = Config::default();
    add(&mut c, "dev", Some("a"), None).ok().unwrap();
    add(&mut c, "prod", Some("b"), None).ok().unwrap();
    assert!(matches!(
        run(StoreCommand::Use { name: "prod".to_string() }, &mut c, None),
        Ok(StoreReport::DefaultSet { .. })
    ));
    assert_eq!(c.get(None).ok().unwrap().token, "b");
    match run(StoreCommand::Use { name: "staging".to_string() }, &mut c, None) {
        Err(StoreError::UnknownStore { name }) => assert_eq!(name, "staging"),
        _ => panic!("expected an unknown store"),
    }
    assert_eq!(c.default.as_deref(), Some("prod"));
}

#[test]
fn removing_the_default_store_clears_the_default() {
    let mut c = Config::default();
    add(&mut c, "dev", Some("a"), None).ok().unwrap();
    add(&mut c, "prod", Some("b"), None).ok().unwrap();
    assert!(run(StoreCommand::Remove { name: "dev".to_string() }, &mut c, None).is_ok());
    assert!(c.default.is_none());
    assert!(c.get(Some("dev")).is_err());
    match run(StoreCommand::Remove { name: "dev".to_string() }, &mut c, None) {
        Err(StoreError::NoSuchStore { name }) => assert_eq!(name, "dev"),
        _ => panic!("expected a missing store"),
    }
}

#[test]
fn list_is_sorted_and_marks_the_default() {
    let mut c = Config::default();
    assert!(matches!(run(StoreCommand::List, &mut c, None), Ok(StoreReport::Empty)));
    add(&mut c, "prod", Some("b"), None).ok().unwrap();
    add(&mut c, "dev", Some("a"), None).ok().unwrap();
    match run(StoreCommand::List, &mut c, None) {
        Ok(StoreReport::Listed { stores }) => {
            assert_eq!(stores.len(), 2);
            assert_eq!(stores[0].name, "dev");
            assert!(!stores[0].is_default);
            assert_eq!(stores[1].name, "prod");
            assert!(stores[1].is_default);
            assert_eq!(stores[1].shop, "prod.myshopify.com");
        }
        _ => panic!("expected a listing"),
    }
}
