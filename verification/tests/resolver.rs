use envswitch::config::{Key, Table, Value};
use envswitch::config_walker::{ConfigWalker, ResolveError};
use envswitch::shell::Shell;

fn k(s: &str) -> Key {
    match Key::parse(s.to_string()) {
        Ok(key) => key,
        Err(_) => panic!("key should be valid"),
    }
}

fn sample_config() -> Table {
    let mut root = Table::new();
    root.insert(
        k("GLOBAL"),
        Value::Str("some global variable".to_string()),
    );

    let mut staging = Table::new();
    staging.insert(k("URL"), Value::Str("staging.com".to_string()));
    let mut staging_abc = Table::new();
    staging_abc.insert(k("KEY"), Value::Str("secret_ABC".to_string()));
    staging.insert(k("abc"), Value::Table(staging_abc));
    let mut staging_def = Table::new();
    staging_def.insert(k("KEY"), Value::Str("secret_DEF".to_string()));
    staging_def.insert(k("URL"), Value::Str("def.staging.com".to_string()));
    staging.insert(k("def"), Value::Table(staging_def));
    root.insert(k("staging"), Value::Table(staging));

    let mut prod = Table::new();
    prod.insert(
        k("GLOBAL"),
        Value::Str("override for production".to_string()),
    );
    prod.insert(k("URL"), Value::Str("prod.com".to_string()));
    let mut prod_abc = Table::new();
    prod_abc.insert(k("KEY"), Value::Str("prod_secret_ABC".to_string()));
    prod.insert(k("abc"), Value::Table(prod_abc));
    root.insert(k("prod"), Value::Table(prod));

    root
}

fn resolve(config: &Table, path: &[&str]) -> Result<ConfigWalker, ResolveError> {
    let keys: Vec<Key> = path.iter().map(|s| k(s)).collect();
    ConfigWalker::new(config, &keys)
}

fn pairs(config: &Table, path: &[&str]) -> Vec<(String, String)> {
    let walker = resolve(config, path).unwrap();
    let names = walker.variable_names();
    let cmds = walker.set_commands(&Shell::Bash);
    names
        .into_iter()
        .zip(cmds.into_iter())
        .map(|(name, cmd)| {
            let rest = cmd.strip_prefix("export ").unwrap();
            let (n, v) = rest.split_once('=').unwrap();
            assert_eq!(n, name);
            let v = v.strip_prefix('"').unwrap().strip_suffix('"').unwrap();
            (n.to_string(), v.to_string())
        })
        .collect()
}

#[test]
fn empty_path_yields_top_level_strings_only() {
    let config = sample_config();
    assert_eq!(
        pairs(&config, &[]),
        vec![(
            "GLOBAL".to_string(),
            "some global variable".to_string()
        )]
    );
}

#[test]
fn empty_segment_stops_at_the_root() {
    let config = sample_config();
    assert_eq!(pairs(&config, &[""]), pairs(&config, &[]));
}

#[test]
fn deeper_levels_override_shallower_ones() {
    let config = sample_config();
    assert_eq!(
        pairs(&config, &["staging", "abc"]),
        vec![
            (
                "GLOBAL".to_string(),
                "some global variable".to_string()
            ),
            ("URL".to_string(), "staging.com".to_string()),
            ("KEY".to_string(), "secret_ABC".to_string()),
        ]
    );
    assert_eq!(
        pairs(&config, &["staging", "def"]),
        vec![
            (
                "GLOBAL".to_string(),
                "some global variable".to_string()
            ),
            ("URL".to_string(), "def.staging.com".to_string()),
            ("KEY".to_string(), "secret_DEF".to_string()),
        ]
    );
    assert_eq!(
        pairs(&config, &["prod"]),
        vec![
            (
                "GLOBAL".to_string(),
                "override for production".to_string()
            ),
            ("URL".to_string(), "prod.com".to_string()),
        ]
    );
}

#[test]
fn missing_segment_fails_with_missing_key() {
    let config = sample_config();
    let err = resolve(&config, &["nope"]).unwrap_err();
    match err {
        ResolveError::MissingKey { segment, options } => {
            assert_eq!(segment, "nope".to_string());
            assert_eq!(options, vec!["staging".to_string(), "prod".to_string()]);
        },
        ResolveError::NotATable { .. } => panic!("expected MissingKey"),
    }
    let err = resolve(&config, &["staging", "zzz"]).unwrap_err();
    match err {
        ResolveError::MissingKey { segment, options } => {
            assert_eq!(segment, "zzz".to_string());
            assert_eq!(options, vec!["abc".to_string(), "def".to_string()]);
        },
        ResolveError::NotATable { .. } => panic!("expected MissingKey"),
    }
}

#[test]
fn string_segment_fails_with_not_a_table() {
    let config = sample_config();
    let err = resolve(&config, &["GLOBAL"]).unwrap_err();
    match err {
        ResolveError::NotATable { segment } => {
            assert_eq!(segment, "GLOBAL".to_string());
        },
        ResolveError::MissingKey { .. } => panic!("expected NotATable"),
    }
    let err = resolve(&config, &["staging", "URL"]).unwrap_err();
    match err {
        ResolveError::NotATable { segment } => {
            assert_eq!(segment, "URL".to_string());
        },
        ResolveError::MissingKey { .. } => panic!("expected NotATable"),
    }
}

#[test]
fn resolve_error_messages() {
    let config = sample_config();
    let err = resolve(&config, &["nope"]).unwrap_err();
    assert_eq!(
        err.message(),
        "missing key 'nope'. Available options: staging, prod".to_string()
    );
    let err = resolve(&config, &["GLOBAL"]).unwrap_err();
    assert_eq!(
        err.message(),
        "key 'GLOBAL' does not correspond to a table".to_string()
    );
}

#[test]
fn variables_joins_names_with_spaces() {
    let config = sample_config();
    let walker = resolve(&config, &["staging", "abc"]).unwrap();
    assert_eq!(walker.variables(), "GLOBAL URL KEY".to_string());
    let empty = resolve(&Table::new(), &[]).unwrap();
    assert_eq!(empty.variables(), String::new());
}

#[test]
fn set_commands_for_fish() {
    let config = sample_config();
    let walker = resolve(&config, &["prod"]).unwrap();
    assert_eq!(
        walker.set_commands(&Shell::Fish),
        vec![
            "set -gx GLOBAL \"override for production\"".to_string(),
            "set -gx URL \"prod.com\"".to_string(),
        ]
    );
}
