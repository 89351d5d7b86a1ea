use cdviz_collector::config::{resolve, ExplicitConfig};
use cdviz_collector::errors::Error;

fn env(pairs: &[(&str, &str)]) -> Vec<(String, String)> {
    pairs.iter().map(|(k, v)| (k.to_string(), v.to_string())).collect()
}

#[test]
fn read_base_config_only() {
    let config = resolve(None, &env(&[])).unwrap();
    assert!(!config.sink("debug").unwrap().is_enabled());
    assert!(!config.sink("db").unwrap().is_enabled());
    assert!(!config.source("cdevents_webhook").unwrap().is_enabled());
    assert!(!config.source("cdevents_local_json").unwrap().is_enabled());
}

#[test]
fn read_base_config_with_env_override() {
    let vars = env(&[("CDVIZ_COLLECTOR__SINKS__DEBUG__ENABLED", "true")]);
    let config = resolve(None, &vars).unwrap();
    assert!(config.sink("debug").unwrap().is_enabled());
    assert!(!config.sink("db").unwrap().is_enabled());
}

#[test]
fn explicit_file_overrides_baseline() {
    let explicit = ExplicitConfig {
        path: "cdviz-collector.toml".to_string(),
        contents: Some("[sinks.debug]\nenabled = true\n".to_string()),
    };
    let config = resolve(Some(explicit), &env(&[])).unwrap();
    assert!(config.sink("debug").unwrap().is_enabled());
    assert!(!config.sink("db").unwrap().is_enabled());
}

#[test]
fn env_overrides_explicit_file() {
    let explicit = ExplicitConfig {
        path: "cdviz-collector.toml".to_string(),
        contents: Some("[sinks.debug]\nenabled = true\n".to_string()),
    };
    let vars = env(&[("CDVIZ_COLLECTOR__SINKS__DEBUG__ENABLED", "false")]);
    let config = resolve(Some(explicit), &vars).unwrap();
    assert!(!config.sink("debug").unwrap().is_enabled());
}

#[test]
fn env_can_introduce_a_new_entry() {
    let vars = env(&[("CDVIZ_COLLECTOR__SOURCES__EXTRA__ENABLED", "true")]);
    let config = resolve(None, &vars).unwrap();
    assert!(config.source("extra").unwrap().is_enabled());
    // The namespaces are independent: no sink of that name appeared.
    assert!(config.sink("extra").is_none());
}

#[test]
fn unrelated_environment_is_ignored() {
    let vars = env(&[
        ("PATH", "/usr/bin"),
        ("CDVIZ_COLLECTOR__OTHER__X__ENABLED", "true"),
        ("CDVIZ_COLLECTOR__SINKS__DEBUG__TIMEOUT", "5"),
    ]);
    let config = resolve(None, &vars).unwrap();
    assert!(!config.sink("debug").unwrap().is_enabled());
    assert!(config.sink("x").is_none());
    assert!(config.source("x").is_none());
}

#[test]
fn later_env_pair_wins_on_the_same_key() {
    let vars = env(&[
        ("CDVIZ_COLLECTOR__SINKS__DEBUG__ENABLED", "true"),
        ("CDVIZ_COLLECTOR__SINKS__DEBUG__ENABLED", "false"),
    ]);
    let config = resolve(None, &vars).unwrap();
    assert!(!config.sink("debug").unwrap().is_enabled());
}

#[test]
fn explicit_file_can_add_new_entries() {
    let explicit = ExplicitConfig {
        path: "cdviz-collector.toml".to_string(),
        contents: Some("[sources.poller]\nenabled = true\n".to_string()),
    };
    let config = resolve(Some(explicit), &env(&[])).unwrap();
    assert!(config.source("poller").unwrap().is_enabled());
    // Entries the file does not mention keep their baseline values.
    assert!(!config.source("cdevents_webhook").unwrap().is_enabled());
    assert!(!config.sink("debug").unwrap().is_enabled());
}

#[test]
fn missing_explicit_path_is_config_not_found() {
    let explicit = ExplicitConfig {
        path: "/does/not/exist.toml".to_string(),
        contents: None,
    };
    match resolve(Some(explicit), &env(&[("CDVIZ_COLLECTOR__SINKS__DEBUG__ENABLED", "true")])) {
        Err(Error::ConfigNotFound { path }) => assert_eq!(path, "/does/not/exist.toml"),
        _ => panic!("expected the configuration-not-found error"),
    }
}

#[test]
fn unparsable_document_is_config_parse() {
    let explicit = ExplicitConfig {
        path: "broken.toml".to_string(),
        contents: Some("not = [valid\n".to_string()),
    };
    assert!(matches!(resolve(Some(explicit), &env(&[])), Err(Error::ConfigParse)));
}

#[test]
fn adapter_settings_of_other_shapes_are_tolerated() {
    let explicit = ExplicitConfig {
        path: "cdviz-collector.toml".to_string(),
        contents: Some(
            "title = \"demo\"\n\n[sinks.db]\nenabled = true\nurl = \"postgresql://localhost/cdviz\"\npool_size = 10\n\n[sinks.debug]\nformat = \"json\"\n"
                .to_string(),
        ),
    };
    let config = resolve(Some(explicit), &env(&[])).unwrap();
    // The db sink's flag was read; its other settings belong to the adapter.
    assert!(config.sink("db").unwrap().is_enabled());
    // A row that is not an enabled flag changes nothing: baseline kept.
    assert!(!config.sink("debug").unwrap().is_enabled());
}

#[test]
fn ill_typed_flag_outside_the_two_roles_is_ignored() {
    let explicit = ExplicitConfig {
        path: "cdviz-collector.toml".to_string(),
        contents: Some("[other.x]\nenabled = 3\n".to_string()),
    };
    let config = resolve(Some(explicit), &env(&[])).unwrap();
    assert!(config.sink("x").is_none());
    assert!(config.source("x").is_none());
}

#[test]
fn ill_typed_flag_is_config_parse() {
    let explicit = ExplicitConfig {
        path: "broken.toml".to_string(),
        contents: Some("[sinks.debug]\nenabled = 3\n".to_string()),
    };
    assert!(matches!(resolve(Some(explicit), &env(&[])), Err(Error::ConfigParse)));
}

#[test]
fn non_boolean_env_value_is_config_parse() {
    let vars = env(&[("CDVIZ_COLLECTOR__SINKS__DEBUG__ENABLED", "maybe")]);
    assert!(matches!(resolve(None, &vars), Err(Error::ConfigParse)));
}
