use cdviz_collector::config::{AdapterConfig, Config};
use cdviz_collector::errors::Error;
use cdviz_collector::supervisor::{aggregate_outcomes, plan, BUS_CAPACITY};

fn entry(name: &str, enabled: bool) -> (String, AdapterConfig) {
    (name.to_string(), AdapterConfig { enabled })
}

#[test]
fn all_sinks_disabled_is_no_sink_regardless_of_sources() {
    let config = Config {
        sources: vec![entry("webhook", true)],
        sinks: vec![entry("debug", false), entry("db", false)],
    };
    assert!(matches!(plan(&config), Err(Error::NoSink)));
}

#[test]
fn no_enabled_source_is_no_source() {
    let config = Config {
        sources: vec![entry("webhook", false)],
        sinks: vec![entry("debug", true)],
    };
    assert!(matches!(plan(&config), Err(Error::NoSource)));
}

#[test]
fn sink_check_comes_before_source_check() {
    let config = Config { sources: vec![], sinks: vec![] };
    assert!(matches!(plan(&config), Err(Error::NoSink)));
}

#[test]
fn plan_keeps_exactly_the_enabled_entries() {
    let config = Config {
        sources: vec![entry("webhook", true), entry("poller", false)],
        sinks: vec![entry("debug", false), entry("db", true)],
    };
    let p = plan(&config).unwrap();
    assert_eq!(p.capacity, BUS_CAPACITY);
    assert_eq!(p.sources.len(), 1);
    assert_eq!(p.sources[0].0, "webhook");
    assert_eq!(p.sinks.len(), 1);
    assert_eq!(p.sinks[0].0, "db");
}

#[test]
fn aggregate_success_only_when_every_task_succeeded() {
    let outcomes: Vec<Result<(), String>> = vec![Ok(()), Ok(())];
    assert!(aggregate_outcomes(&outcomes).is_ok());
    let empty: Vec<Result<(), String>> = vec![];
    assert!(aggregate_outcomes(&empty).is_ok());
}

#[test]
fn aggregate_reports_the_first_failure() {
    let outcomes: Vec<Result<(), String>> =
        vec![Ok(()), Err("db unreachable".to_string()), Err("late".to_string())];
    match aggregate_outcomes(&outcomes) {
        Err(Error::TaskFailure { detail }) => assert_eq!(detail, "db unreachable"),
        _ => panic!("expected a task failure"),
    }
}
