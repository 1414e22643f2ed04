use envswitch::config::{deep_keys, Key, Table, Value};

fn k(s: &str) -> Key {
    match Key::parse(s.to_string()) {
        Ok(key) => key,
        Err(_) => panic!("key should be valid"),
    }
}

fn sample_config() -> Table {
    let mut root = Table::new();
    root.insert(
        k("GLOBAL"),
        Value::Str("some global variable".to_string()),
    );

    let mut staging = Table::new();
    staging.insert(k("URL"), Value::Str("staging.com".to_string()));
    let mut staging_abc = Table::new();
    staging_abc.insert(k("KEY"), Value::Str("secret_ABC".to_string()));
    staging.insert(k("abc"), Value::Table(staging_abc));
    let mut staging_def = Table::new();
    staging_def.insert(k("KEY"), Value::Str("secret_DEF".to_string()));
    staging_def.insert(k("URL"), Value::Str("def.staging.com".to_string()));
    staging.insert(k("def"), Value::Table(staging_def));
    root.insert(k("staging"), Value::Table(staging));

    let mut prod = Table::new();
    prod.insert(
        k("GLOBAL"),
        Value::Str("override for production".to_string()),
    );
    prod.insert(k("URL"), Value::Str("prod.com".to_string()));
    let mut prod_abc = Table::new();
    prod_abc.insert(k("KEY"), Value::Str("prod_secret_ABC".to_string()));
    prod.insert(k("abc"), Value::Table(prod_abc));
    root.insert(k("prod"), Value::Table(prod));

    root
}

#[test]
fn key_validation() {
    assert!(Key::parse("a.b".to_string()).is_err());
    assert!(Key::parse("a,b".to_string()).is_err());
    assert!(Key::parse("a:b".to_string()).is_err());
    assert!(Key::parse("ab".to_string()).is_ok());
}

#[test]
fn key_validation_space_and_empty() {
    assert!(Key::parse("a b".to_string()).is_err());
    assert!(Key::parse(String::new()).is_ok());
}

#[test]
fn key_error_reports_offending_character() {
    let e = Key::parse("a.b".to_string()).unwrap_err();
    assert_eq!(e.ch, '.');
    assert_eq!(e.message(), "Config keys cannot contain '.'".to_string());
    let e = Key::parse("a,b".to_string()).unwrap_err();
    assert_eq!(e.ch, ',');
    assert_eq!(e.message(), "Config keys cannot contain ','".to_string());
    let e = Key::parse("a:b".to_string()).unwrap_err();
    assert_eq!(e.ch, ':');
    assert_eq!(e.message(), "Config keys cannot contain ':'".to_string());
    let e = Key::parse("a b".to_string()).unwrap_err();
    assert_eq!(e.ch, ' ');
    assert_eq!(e.message(), "Config keys cannot contain ' '".to_string());
}

#[test]
fn key_error_reports_first_reserved_character() {
    let e = Key::parse("a:b.c".to_string()).unwrap_err();
    assert_eq!(e.ch, '.');
}

#[test]
fn value_accessors() {
    let v = Value::Str("x".to_string());
    assert_eq!(v.as_string(), Some("x"));
    assert!(v.as_table().is_none());

    let t = Value::Table(Table::new());
    assert!(t.as_string().is_none());
    assert!(t.as_table().is_some());
}

#[test]
fn deep_keys_lists_every_table_parent_first() {
    let config = sample_config();
    let keys = deep_keys(&config);
    let expected: Vec<String> = vec![
        "staging".to_string(),
        "staging.abc".to_string(),
        "staging.def".to_string(),
        "prod".to_string(),
        "prod.abc".to_string(),
    ];
    assert_eq!(keys, expected);
    for (i, key) in keys.iter().enumerate() {
        for (j, other) in keys.iter().enumerate() {
            if other.starts_with(&format!("{key}.")) {
                assert!(i < j, "parent {key} must come before descendant {other}");
            }
        }
    }
}

#[test]
fn insert_overwrites_in_place_and_appends_new() {
    let mut t = Table::new();
    t.insert(k("A"), Value::Str("1".to_string()));
    t.insert(k("B"), Value::Str("2".to_string()));
    t.insert(k("A"), Value::Str("3".to_string()));
    t.insert(k("C"), Value::Str("4".to_string()));
    let entries: Vec<(String, String)> = t
        .entries
        .iter()
        .map(|(key, value)| (key.0.clone(), value.as_string().unwrap().to_string()))
        .collect();
    assert_eq!(
        entries,
        vec![
            ("A".to_string(), "3".to_string()),
            ("B".to_string(), "2".to_string()),
            ("C".to_string(), "4".to_string()),
        ]
    );
}

#[test]
fn get_finds_entries_by_key() {
    let config = sample_config();
    assert_eq!(
        config.get("GLOBAL").unwrap().as_string(),
        Some("some global variable")
    );
    assert!(config.get("staging").unwrap().as_table().is_some());
    assert!(config.get("nope").is_none());
}
