use std::collections::HashMap;

use dyncomp::alias_map::AliasMap;
use dyncomp::config::{global_config_paths, load_aliases, parse_config, pull_config, ConfigError};

fn as_hash_map(m: &AliasMap) -> HashMap<String, String> {
    m.entries().iter().cloned().collect()
}

fn expected(pairs: &[(&str, &str)]) -> HashMap<String, String> {
    pairs.iter().map(|(k, v)| (k.to_string(), v.to_string())).collect()
}

#[test]
fn local_config_file() {
    let local_config = pull_config(Some(r#"{"commands": {"run": "test"}}"#)).unwrap();
    assert_eq!(
        as_hash_map(&local_config),
        HashMap::from([("run".to_owned(), "test".to_owned())])
    );
}

#[test]
fn no_local_config_file() {
    let local_config = pull_config(None).unwrap();
    assert!(local_config.is_empty());
    assert_eq!(as_hash_map(&local_config), HashMap::from([]));
}

#[test]
fn single_alias_config() {
    let m = parse_config(r#"{"commands": {"a": "b"}}"#).unwrap();
    assert_eq!(as_hash_map(&m), expected(&[("a", "b")]));
}

#[test]
fn empty_commands_object() {
    let m = parse_config(r#"{"commands": {}}"#).unwrap();
    assert!(m.is_empty());
}

#[test]
fn other_members_are_ignored() {
    let m = parse_config(r#"{"version": 3, "commands": {"t": "cargo test"}, "x": [1, 2]}"#).unwrap();
    assert_eq!(as_hash_map(&m), expected(&[("t", "cargo test")]));
}

#[test]
fn escaped_strings_survive() {
    let m = parse_config(r#"{"commands": {"say": "echo \"a b\" \\ é"}}"#).unwrap();
    assert_eq!(m.get(&"say".to_string()).unwrap(), "echo \"a b\" \\ \u{e9}");
}

#[test]
fn invalid_json_is_refused() {
    assert_eq!(parse_config("{\"commands\": ").unwrap_err(), ConfigError::NotAnObject);
    assert_eq!(parse_config("not json").unwrap_err(), ConfigError::NotAnObject);
    assert_eq!(parse_config("[1, 2]").unwrap_err(), ConfigError::NotAnObject);
}

#[test]
fn missing_commands_is_refused() {
    assert_eq!(parse_config(r#"{"aliases": {"a": "b"}}"#).unwrap_err(), ConfigError::MissingCommands);
    assert_eq!(pull_config(Some("{}")).unwrap_err(), ConfigError::MissingCommands);
}

#[test]
fn non_string_commands_are_refused() {
    assert_eq!(parse_config(r#"{"commands": {"a": 1}}"#).unwrap_err(), ConfigError::BadCommands);
    assert_eq!(parse_config(r#"{"commands": ["a"]}"#).unwrap_err(), ConfigError::BadCommands);
    assert_eq!(parse_config(r#"{"commands": "a"}"#).unwrap_err(), ConfigError::BadCommands);
}

#[test]
fn local_overrides_global() {
    let globals = vec![Some(r#"{"commands": {"x": "global-cmd"}}"#.to_string())];
    let m = load_aliases(&globals, Some(r#"{"commands": {"x": "local-cmd"}}"#)).unwrap();
    assert_eq!(m.get(&"x".to_string()).unwrap(), "local-cmd");
    assert_eq!(as_hash_map(&m), expected(&[("x", "local-cmd")]));
}

#[test]
fn global_and_local_add_up() {
    let globals = vec![Some(r#"{"commands": {"a": "1"}}"#.to_string())];
    let m = load_aliases(&globals, Some(r#"{"commands": {"b": "2"}}"#)).unwrap();
    assert_eq!(as_hash_map(&m), expected(&[("a", "1"), ("b", "2")]));
}

#[test]
fn later_global_overrides_earlier() {
    let globals = vec![
        Some(r#"{"commands": {"a": "first", "b": "kept"}}"#.to_string()),
        None,
        Some(r#"{"commands": {"a": "second"}}"#.to_string()),
    ];
    let m = load_aliases(&globals, None).unwrap();
    assert_eq!(as_hash_map(&m), expected(&[("a", "second"), ("b", "kept")]));
}

#[test]
fn no_source_at_all() {
    let m = load_aliases(&vec![None, None], None).unwrap();
    assert!(m.is_empty());
}

#[test]
fn local_error_comes_first() {
    let globals = vec![Some("{}".to_string())];
    assert_eq!(load_aliases(&globals, Some("oops")).unwrap_err(), ConfigError::NotAnObject);
    assert_eq!(
        load_aliases(&globals, Some(r#"{"commands": {}}"#)).unwrap_err(),
        ConfigError::MissingCommands
    );
}

#[test]
fn load_twice_same() {
    let text = r#"{"commands": {"a": "1", "b": "2", "c": "echo 'x y'"}}"#;
    let first = parse_config(text).unwrap();
    let second = parse_config(text).unwrap();
    assert_eq!(as_hash_map(&first), as_hash_map(&second));
    assert_eq!(parse_config("nope").unwrap_err(), parse_config("nope").unwrap_err());
}

#[test]
fn alias_map_insert_and_extend() {
    let mut m = AliasMap::new();
    m.insert("a".to_string(), "1".to_string());
    m.insert("a".to_string(), "2".to_string());
    assert_eq!(as_hash_map(&m), expected(&[("a", "2")]));
    let other = AliasMap::from_pairs(vec![
        ("b".to_string(), "3".to_string()),
        ("a".to_string(), "4".to_string()),
        ("b".to_string(), "5".to_string()),
    ]);
    m.extend(&other);
    assert_eq!(as_hash_map(&m), expected(&[("a", "4"), ("b", "5")]));
    assert_eq!(m.entries().len(), 2);
    assert!(m.get(&"c".to_string()).is_none());
}

#[test]
fn global_paths() {
    assert_eq!(
        global_config_paths("/home/u/.config", "/home/u"),
        vec!["/home/u/.config/dyncomp/config.json".to_string()]
    );
    assert_eq!(
        global_config_paths("/Users/u/Library/Application Support", "/Users/u"),
        vec![
            "/Users/u/Library/Application Support/dyncomp/config.json".to_string(),
            "/Users/u/.config/dyncomp/config.json".to_string(),
        ]
    );
}
