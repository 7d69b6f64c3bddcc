use langm::codec::{encode_config, parse_config};
use langm::errors::ConfigError;
use langm::registry::{Config, Runtime};

fn rt(name: &str, path: &str, caps: &[&str]) -> Runtime {
    Runtime {
        name: name.to_string(),
        path: path.to_string(),
        capabilities: caps.iter().map(|c| c.to_string()).collect(),
    }
}

#[test]
fn empty_registry_has_canonical_form() {
    let cfg = Config::default();
    let text = encode_config(&cfg);
    assert_eq!(text, "{\"current\":null,\"runtimes\":[]}");
}

#[test]
fn one_entry_has_canonical_form() {
    let cfg = Config {
        current: Some("node18".to_string()),
        runtimes: vec![rt("node18", "/opt/node18", &["node"])],
    };
    let text = encode_config(&cfg);
    assert_eq!(
        text,
        "{\"current\":\"node18\",\"runtimes\":[{\"name\":\"node18\",\"path\":\"/opt/node18\",\"capabilities\":[\"node\"]}]}"
    );
}

#[test]
fn round_trip_preserves_everything() {
    let cfg = Config {
        current: Some("java17".to_string()),
        runtimes: vec![
            rt("node18", "/opt/node18", &["node"]),
            rt("java17", "/opt/java17", &["java"]),
            rt("both", "/opt/both", &["node", "java"]),
        ],
    };
    let text = encode_config(&cfg);
    let back = parse_config(&text).unwrap();
    assert_eq!(back, cfg);
}

#[test]
fn round_trip_preserves_empty_registry() {
    let cfg = Config::default();
    let back = parse_config(&encode_config(&cfg)).unwrap();
    assert_eq!(back, cfg);
}

#[test]
fn round_trip_escapes_quotes_and_backslashes() {
    let cfg = Config {
        current: None,
        runtimes: vec![
            rt("we\"ird", "C:\\runtimes\\node", &["node"]),
            rt("plain", "/opt/plain", &["java"]),
        ],
    };
    let text = encode_config(&cfg);
    let back = parse_config(&text).unwrap();
    assert_eq!(back, cfg);
}

#[test]
fn round_trip_preserves_unicode_paths() {
    let cfg = Config {
        current: Some("nodo".to_string()),
        runtimes: vec![rt("nodo", "/opt/vers\u{00e9}es/\u{8fd0}\u{884c}\u{65f6}", &["node"])],
    };
    let back = parse_config(&encode_config(&cfg)).unwrap();
    assert_eq!(back, cfg);
}

#[test]
fn parse_accepts_handwritten_canonical_text() {
    let text = "{\"current\":null,\"runtimes\":[{\"name\":\"a\",\"path\":\"/p\",\"capabilities\":[]}]}";
    let cfg = parse_config(text).unwrap();
    assert_eq!(cfg.current, None);
    assert_eq!(cfg.runtimes.len(), 1);
    assert_eq!(cfg.runtimes[0].name, "a");
    assert_eq!(cfg.runtimes[0].path, "/p");
    assert!(cfg.runtimes[0].capabilities.is_empty());
}

#[test]
fn parse_rejects_malformed_text_as_corrupt() {
    for bad in [
        "",
        "garbage",
        "{\"current\":null}",
        "{\"current\":null,\"runtimes\":[}",
        "{\"current\":null,\"runtimes\":[]} trailing",
        "{\"current\":\"unterminated,\"runtimes\":[]}",
        "{\"current\":null,\"runtimes\":[{\"name\":\"a\"}]}",
    ] {
        assert_eq!(parse_config(bad), Err(ConfigError::CorruptState), "input: {bad}");
    }
}
