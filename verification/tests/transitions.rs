use envswitch::commands::{set_env, SetError, SetOutcome};
use envswitch::config::{Key, Table, Value};
use envswitch::shell::Shell;

fn k(s: &str) -> Key {
    match Key::parse(s.to_string()) {
        Ok(key) => key,
        Err(_) => panic!("key should be valid"),
    }
}

fn sample_config() -> Table {
    let mut root = Table::new();
    root.insert(
        k("GLOBAL"),
        Value::Str("some global variable".to_string()),
    );

    let mut staging = Table::new();
    staging.insert(k("URL"), Value::Str("staging.com".to_string()));
    let mut staging_abc = Table::new();
    staging_abc.insert(k("KEY"), Value::Str("secret_ABC".to_string()));
    staging.insert(k("abc"), Value::Table(staging_abc));
    let mut staging_def = Table::new();
    staging_def.insert(k("KEY"), Value::Str("secret_DEF".to_string()));
    staging_def.insert(k("URL"), Value::Str("def.staging.com".to_string()));
    staging.insert(k("def"), Value::Table(staging_def));
    root.insert(k("staging"), Value::Table(staging));

    let mut prod = Table::new();
    prod.insert(
        k("GLOBAL"),
        Value::Str("override for production".to_string()),
    );
    prod.insert(k("URL"), Value::Str("prod.com".to_string()));
    let mut prod_abc = Table::new();
    prod_abc.insert(k("KEY"), Value::Str("prod_secret_ABC".to_string()));
    prod.insert(k("abc"), Value::Table(prod_abc));
    root.insert(k("prod"), Value::Table(prod));

    root
}

/// A simulated shell environment: evaluating the emitted bash
/// statements mutates it the way the calling shell would.
struct Env {
    vars: Vec<(String, String)>,
}

impl Env {
    fn new() -> Env {
        Env { vars: Vec::new() }
    }

    fn get(&self, name: &str) -> Option<&str> {
        self.vars
            .iter()
            .find(|(n, _)| n == name)
            .map(|(_, v)| v.as_str())
    }

    fn eval_bash(&mut self, commands: &[String]) {
        for command in commands {
            if let Some(rest) = command.strip_prefix("export ") {
                let (name, quoted) = rest.split_once('=').unwrap();
                let value = quoted
                    .strip_prefix('"')
                    .unwrap()
                    .strip_suffix('"')
                    .unwrap();
                self.vars.retain(|(n, _)| n != name);
                self.vars.push((name.to_string(), value.to_string()));
            } else if let Some(name) = command.strip_prefix("unset ") {
                self.vars.retain(|(n, _)| n != name);
            } else {
                panic!("unexpected bash statement: {command}");
            }
        }
    }

    fn diff(&self) -> Vec<(String, String)> {
        let mut sorted = self.vars.clone();
        sorted.sort();
        sorted
    }
}

fn run(env: &mut Env, config: &Table, name: &str) -> SetOutcome {
    let sentinel = env.get("ENVSWITCH_ENV").map(|s| s.to_string());
    let outcome = set_env(config, name, &Shell::Bash, sentinel.as_deref()).unwrap();
    env.eval_bash(&outcome.commands);
    outcome
}

fn expected(pairs: &[(&str, &str)]) -> Vec<(String, String)> {
    let mut sorted: Vec<(String, String)> = pairs
        .iter()
        .map(|(n, v)| (n.to_string(), v.to_string()))
        .collect();
    sorted.sort();
    sorted
}

#[test]
fn staging() {
    let config = sample_config();
    let mut env = Env::new();
    run(&mut env, &config, "staging");

    assert_eq!(
        env.diff(),
        expected(&[
            ("ENVSWITCH_ENV", "staging:GLOBAL,URL"),
            ("GLOBAL", "some global variable"),
            ("URL", "staging.com"),
        ])
    );
}

#[test]
fn staging_abc() {
    let config = sample_config();
    let mut env = Env::new();
    run(&mut env, &config, "staging.abc");

    assert_eq!(
        env.diff(),
        expected(&[
            ("ENVSWITCH_ENV", "staging.abc:GLOBAL,URL,KEY"),
            ("GLOBAL", "some global variable"),
            ("URL", "staging.com"),
            ("KEY", "secret_ABC"),
        ])
    );
}

#[test]
fn staging_def() {
    let config = sample_config();
    let mut env = Env::new();
    run(&mut env, &config, "staging.def");

    assert_eq!(
        env.diff(),
        expected(&[
            ("ENVSWITCH_ENV", "staging.def:GLOBAL,URL,KEY"),
            ("GLOBAL", "some global variable"),
            ("URL", "def.staging.com"),
            ("KEY", "secret_DEF"),
        ])
    );
}

#[test]
fn prod_abc() {
    let config = sample_config();
    let mut env = Env::new();
    run(&mut env, &config, "prod.abc");

    assert_eq!(
        env.diff(),
        expected(&[
            ("ENVSWITCH_ENV", "prod.abc:GLOBAL,URL,KEY"),
            ("GLOBAL", "override for production"),
            ("URL", "prod.com"),
            ("KEY", "prod_secret_ABC"),
        ])
    );
}

#[test]
fn prod() {
    let config = sample_config();
    let mut env = Env::new();
    let first = run(&mut env, &config, "prod.abc");
    let second = run(&mut env, &config, "prod");

    assert!(first.message.contains("Environment set: prod.abc "));
    assert!(second.message.contains("Environment set: prod "));

    assert_eq!(
        env.diff(),
        expected(&[
            ("ENVSWITCH_ENV", "prod:GLOBAL,URL"),
            ("GLOBAL", "override for production"),
            ("URL", "prod.com"),
        ])
    );
}

#[test]
fn base() {
    let config = sample_config();
    let mut env = Env::new();
    let first = run(&mut env, &config, "prod");
    run(&mut env, &config, "");

    assert!(first.message.contains("Environment set: prod "));

    assert_eq!(
        env.diff(),
        expected(&[
            ("ENVSWITCH_ENV", ":GLOBAL"),
            ("GLOBAL", "some global variable"),
        ])
    );
}

#[test]
fn missing_file() {
    // A failed invocation must leave the calling shell untouched: on
    // any error nothing is printed to standard output, so there is
    // nothing for the shell to evaluate.
    let config = sample_config();
    let result = set_env(&config, "nope", &Shell::Bash, None);
    assert!(result.is_err());

    let env = Env::new();
    assert!(env.diff().is_empty());
}

#[test]
fn end_to_end_scenario_orders_and_encodes() {
    let mut config = Table::new();
    config.insert(k("GLOBAL"), Value::Str("g".to_string()));
    let mut staging = Table::new();
    staging.insert(k("URL"), Value::Str("staging.com".to_string()));
    let mut abc = Table::new();
    abc.insert(k("KEY"), Value::Str("k".to_string()));
    staging.insert(k("abc"), Value::Table(abc));
    config.insert(k("staging"), Value::Table(staging));

    let outcome = set_env(&config, "staging.abc", &Shell::Bash, None).unwrap();
    assert_eq!(
        outcome.commands,
        vec![
            "export ENVSWITCH_ENV=\"staging.abc:GLOBAL,URL,KEY\"".to_string(),
            "export GLOBAL=\"g\"".to_string(),
            "export URL=\"staging.com\"".to_string(),
            "export KEY=\"k\"".to_string(),
        ]
    );
    assert_eq!(
        outcome.message,
        "Environment set: staging.abc GLOBAL URL KEY".to_string()
    );
}

#[test]
fn switching_to_the_empty_path_retracts_overrides() {
    let config = sample_config();
    let outcome = set_env(
        &config,
        "",
        &Shell::Bash,
        Some("staging.abc:GLOBAL,URL,KEY"),
    )
    .unwrap();
    assert_eq!(
        outcome.commands,
        vec![
            "unset GLOBAL".to_string(),
            "unset URL".to_string(),
            "unset KEY".to_string(),
            "export ENVSWITCH_ENV=\":GLOBAL\"".to_string(),
            "export GLOBAL=\"some global variable\"".to_string(),
        ]
    );
}

#[test]
fn malformed_sentinel_stops_the_transition() {
    let config = sample_config();
    let err = set_env(&config, "staging", &Shell::Bash, Some("corrupt")).unwrap_err();
    assert!(matches!(err, SetError::State(_)));
    assert_eq!(
        err.message(),
        "Invalid ENVSWITCH_ENV variable; please inspect and clear it".to_string()
    );
}

#[test]
fn reserved_characters_in_the_path_stop_the_transition() {
    let config = sample_config();
    let err = set_env(&config, "a,b", &Shell::Bash, None).unwrap_err();
    assert!(matches!(err, SetError::Key(_)));
    assert_eq!(
        err.message(),
        "Config keys cannot contain ','".to_string()
    );

    let err = set_env(&config, "nope", &Shell::Bash, None).unwrap_err();
    assert!(matches!(err, SetError::Resolve(_)));
    assert_eq!(
        err.message(),
        "missing key 'nope'. Available options: staging, prod".to_string()
    );
}

#[test]
fn clearing_everything_reports_environment_cleared() {
    let config = Table::new();
    let outcome = set_env(&config, "", &Shell::Bash, None).unwrap();
    assert_eq!(
        outcome.commands,
        vec!["export ENVSWITCH_ENV=\":\"".to_string()]
    );
    assert_eq!(outcome.message, "Environment cleared".to_string());
}
