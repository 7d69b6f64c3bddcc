use langm::detector::{capabilities_for_add, detect, exe_name, name_from_path};
use langm::errors::ConfigError;

#[test]
fn exe_name_appends_suffix_on_windows_only() {
    assert_eq!(exe_name("node", true), "node.exe");
    assert_eq!(exe_name("node", false), "node");
    assert_eq!(exe_name("java", true), "java.exe");
}

#[test]
fn detect_reports_each_found_probe() {
    assert_eq!(detect(false, false), Vec::<String>::new());
    assert_eq!(detect(true, false), vec!["node".to_string()]);
    assert_eq!(detect(false, true), vec!["java".to_string()]);
    assert_eq!(detect(true, true), vec!["node".to_string(), "java".to_string()]);
}

#[test]
fn explicit_flags_override_detection() {
    let caps = capabilities_for_add(true, false, vec!["java".to_string()]).unwrap();
    assert_eq!(caps, vec!["node".to_string()]);
    let caps = capabilities_for_add(true, true, Vec::new()).unwrap();
    assert_eq!(caps, vec!["node".to_string(), "java".to_string()]);
}

#[test]
fn nothing_detected_and_no_flags_registers_nothing() {
    // A directory with neither probe found, and no explicit flag: the
    // addition fails before any entry is created.
    let r = capabilities_for_add(false, false, Vec::new());
    assert_eq!(r, Err(ConfigError::NoMatch));
}

#[test]
fn detection_alone_is_kept_when_no_flags_are_given() {
    let caps = capabilities_for_add(false, false, vec!["node".to_string()]).unwrap();
    assert_eq!(caps, vec!["node".to_string()]);
}

#[test]
fn entry_name_is_the_last_path_segment() {
    assert_eq!(name_from_path("/opt/node18"), "node18");
    assert_eq!(name_from_path("node18"), "node18");
    assert_eq!(name_from_path("/deep/ly/nested/java17"), "java17");
    assert_eq!(name_from_path(""), "unknown");
    assert_eq!(name_from_path("/opt/node18/"), "unknown");
}
