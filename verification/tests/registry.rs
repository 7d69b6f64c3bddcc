use langm::errors::ConfigError;
use langm::registry::{select_candidates, validate_capability, Config, Runtime};

fn rt(name: &str, path: &str, caps: &[&str]) -> Runtime {
    Runtime {
        name: name.to_string(),
        path: path.to_string(),
        capabilities: caps.iter().map(|c| c.to_string()).collect(),
    }
}

#[test]
fn add_then_duplicate_keeps_first_entry_only() {
    let mut cfg = Config::default();
    assert_eq!(cfg.add_runtime(rt("node18", "/opt/node18", &["node"])), Ok(()));
    let second = cfg.add_runtime(rt("node18", "/elsewhere", &["java"]));
    assert_eq!(second, Err(ConfigError::DuplicateName));
    assert_eq!(cfg.get_runtimes().len(), 1);
    assert_eq!(cfg.get_runtimes()[0].path, "/opt/node18");
    assert_eq!(cfg.get_runtimes()[0].capabilities, vec!["node".to_string()]);
}

#[test]
fn capability_filter_keeps_registration_order() {
    let mut cfg = Config::default();
    cfg.add_runtime(rt("node18", "/opt/node18", &["node"])).unwrap();
    cfg.add_runtime(rt("java17", "/opt/java17", &["java"])).unwrap();
    cfg.add_runtime(rt("node20", "/opt/node20", &["node"])).unwrap();
    let nodes = cfg.get_runtimes_by_capability("node");
    assert_eq!(nodes.len(), 2);
    assert_eq!(nodes[0].name, "node18");
    assert_eq!(nodes[1].name, "node20");
    for entry in nodes {
        assert!(entry.capabilities.iter().any(|c| c == "node"));
    }
}

#[test]
fn capability_filter_excludes_entries_without_tag() {
    let mut cfg = Config::default();
    cfg.add_runtime(rt("java17", "/opt/java17", &["java"])).unwrap();
    let nodes = cfg.get_runtimes_by_capability("node");
    assert!(nodes.is_empty());
    let javas = cfg.get_runtimes_by_capability("java");
    assert_eq!(javas.len(), 1);
    assert_eq!(javas[0].name, "java17");
}

#[test]
fn validate_capability_accepts_known_tags_only() {
    assert_eq!(validate_capability("node"), Ok(()));
    assert_eq!(validate_capability("java"), Ok(()));
    assert_eq!(validate_capability("python"), Err(ConfigError::UnknownCapability));
    assert_eq!(validate_capability(""), Err(ConfigError::UnknownCapability));
}

#[test]
fn select_candidates_without_filter_lists_everything() {
    let mut cfg = Config::default();
    cfg.add_runtime(rt("node18", "/opt/node18", &["node"])).unwrap();
    cfg.add_runtime(rt("java17", "/opt/java17", &["java"])).unwrap();
    let all = select_candidates(&cfg, None).unwrap();
    assert_eq!(all.len(), 2);
    assert_eq!(all[0].name, "node18");
    assert_eq!(all[1].name, "java17");
}

#[test]
fn select_candidates_rejects_unknown_filter() {
    let cfg = Config::default();
    let r = select_candidates(&cfg, Some("ruby"));
    assert_eq!(r.unwrap_err(), ConfigError::UnknownCapability);
}

#[test]
fn listing_an_empty_registry_is_not_an_error() {
    let cfg = Config::default();
    let all = select_candidates(&cfg, None).unwrap();
    assert!(all.is_empty());
    let nodes = select_candidates(&cfg, Some("node")).unwrap();
    assert!(nodes.is_empty());
}

#[test]
fn set_current_overwrites_selection() {
    let mut cfg = Config::default();
    cfg.add_runtime(rt("node18", "/opt/node18", &["node"])).unwrap();
    cfg.set_current(Some("node18".to_string()));
    assert_eq!(cfg.current.as_deref(), Some("node18"));
    cfg.set_current(None);
    assert_eq!(cfg.current, None);
    assert_eq!(cfg.get_runtimes().len(), 1);
}

#[test]
fn config_path_lives_under_the_state_directory() {
    assert_eq!(Config::get_config_path("/home/u/.langm"), "/home/u/.langm/config.json");
}
