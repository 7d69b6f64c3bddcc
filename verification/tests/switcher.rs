use langm::registry::{Config, Runtime};
use langm::switcher::{clear_link, get_current, get_current_link_path, switch_to, LinkState};

#[test]
fn switch_then_read_back_yields_target() {
    let mut link = LinkState::Absent;
    switch_to(&mut link, "/opt/node18".to_string());
    assert_eq!(get_current(&link).map(|s| s.as_str()), Some("/opt/node18"));
}

#[test]
fn second_switch_leaves_only_the_new_target() {
    let mut link = LinkState::Absent;
    switch_to(&mut link, "/opt/node18".to_string());
    switch_to(&mut link, "/opt/node20".to_string());
    assert_eq!(get_current(&link).map(|s| s.as_str()), Some("/opt/node20"));
}

#[test]
fn cleared_link_reads_as_absent() {
    let mut link = LinkState::Present { target: "/opt/java17".to_string() };
    clear_link(&mut link);
    assert!(get_current(&link).is_none());
}

#[test]
fn link_path_lives_under_the_state_directory() {
    assert_eq!(get_current_link_path("/home/u/.langm"), "/home/u/.langm/current");
}

#[test]
fn selecting_the_second_node_runtime_switches_to_it() {
    // Register two node runtimes, filter by capability, pick the second
    // candidate, switch the link and record the selection.
    let mut cfg = Config::default();
    cfg.add_runtime(Runtime {
        name: "node18".to_string(),
        path: "/opt/node18".to_string(),
        capabilities: vec!["node".to_string()],
    })
    .unwrap();
    cfg.add_runtime(Runtime {
        name: "node20".to_string(),
        path: "/opt/node20".to_string(),
        capabilities: vec!["node".to_string()],
    })
    .unwrap();

    let candidates: Vec<Runtime> =
        cfg.get_runtimes_by_capability("node").into_iter().cloned().collect();
    assert_eq!(candidates.len(), 2);
    assert_eq!(candidates[0].name, "node18");
    assert_eq!(candidates[1].name, "node20");

    let chosen = &candidates[1];
    let mut link = LinkState::Absent;
    switch_to(&mut link, chosen.path.clone());
    cfg.set_current(Some(chosen.name.clone()));

    assert_eq!(get_current(&link).map(|s| s.as_str()), Some("/opt/node20"));
    assert_eq!(cfg.current.as_deref(), Some("node20"));
}
