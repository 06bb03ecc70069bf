//! The configuration: defaults, rules, sizes and what is refused.

use webhook::config::{
    path_matches, BodyMode, Config, ConfigError, PathRule, ResponderBody, ResponderRule,
};
use webhook::size::{parse_size, SizeError};
use webhook::table::OrderedTable;

const SECOND: u128 = 1_000_000_000;

fn rule(path: &str) -> PathRule {
    PathRule {
        path_match: path.to_string(),
        ttl: None,
        body_mode: None,
        preview_limit: None,
        max_body_size: None,
    }
}

fn answer(path: &str) -> ResponderRule {
    ResponderRule {
        path_match: path.to_string(),
        status: None,
        headers: OrderedTable::new(),
        body: None,
    }
}

#[test]
fn defaults_are_those_of_the_manual() {
    let config = Config::default();
    assert_eq!(config.server.bind, "127.0.0.1:8080");
    assert_eq!(config.server.admin_prefix, "/_wh_admin");
    assert_eq!(config.admin.username, "admin");
    assert_eq!(config.admin.password, None);
    assert_eq!(config.storage.backend, "local");
    assert_eq!(config.storage.root, "./data");
    assert_eq!(config.retention.default_ttl, 30 * 86_400 * SECOND);
    assert_eq!(config.retention.cleanup_interval, 3_600 * SECOND);
    assert_eq!(config.retention.prune_grace, 3_600 * SECOND);
    assert_eq!(config.body.mode, BodyMode::Compressed);
    assert_eq!(config.body.preview_limit, 5 * 1024 * 1024);
    assert_eq!(config.body.max_body_size, 100 * 1024 * 1024);
    assert_eq!(config.responder.status, 200);
    assert_eq!(
        config.responder.headers.get("content-type").map(|v| v.as_str()),
        Some("application/json; charset=utf-8")
    );
    assert!(config.validate().is_ok());
    assert_eq!(BodyMode::default(), BodyMode::Compressed);
}

#[test]
fn body_modes_name_their_files() {
    assert_eq!(BodyMode::Compressed.extension(), Some("body.bin.gz"));
    assert_eq!(BodyMode::Raw.extension(), Some("body.bin"));
    assert_eq!(BodyMode::MetadataOnly.extension(), None);
    assert_eq!(BodyMode::Compressed.encoding(), Some("gzip"));
    assert_eq!(BodyMode::Raw.encoding(), None);
    assert_eq!(BodyMode::MetadataOnly.encoding(), None);
    assert_eq!(BodyMode::Compressed.label(), "compressed");
    assert_eq!(BodyMode::Raw.label(), "raw");
    assert_eq!(BodyMode::MetadataOnly.label(), "metadata_only");
}

#[test]
fn rules_match_a_path_and_what_lies_below_it() {
    assert!(path_matches("/api1", "/api1"));
    assert!(path_matches("/api1/x", "/api1"));
    assert!(path_matches("/api1/x", "/api1///"));
    assert!(!path_matches("/api1x", "/api1"));
    assert!(!path_matches("/api1", "/api1/"));
    assert!(path_matches("/api1/", "/api1/"));
    assert!(path_matches("/anything", "/"));
}

#[test]
fn last_matching_capture_rule_wins_for_each_setting() {
    let mut config = Config::default();
    let mut first = rule("/a");
    first.ttl = Some(7 * SECOND);
    first.body_mode = Some(BodyMode::Raw);
    first.max_body_size = Some(10);
    let mut second = rule("/a/b");
    second.body_mode = Some(BodyMode::MetadataOnly);
    second.preview_limit = Some(3);
    config.paths = vec![first, second];
    let deep = config.rule_for_path("/a/b/c");
    assert_eq!(deep.ttl, 7 * SECOND);
    assert_eq!(deep.body_mode, BodyMode::MetadataOnly);
    assert_eq!(deep.preview_limit, 3);
    assert_eq!(deep.max_body_size, 10);
    let shallow = config.rule_for_path("/a");
    assert_eq!(shallow.body_mode, BodyMode::Raw);
    assert_eq!(shallow.preview_limit, 5 * 1024 * 1024);
    let outside = config.rule_for_path("/ab");
    assert_eq!(outside.ttl, 30 * 86_400 * SECOND);
    assert_eq!(outside.body_mode, BodyMode::Compressed);
}

#[test]
fn answers_merge_headers_and_keep_the_last_status_and_body() {
    let mut config = Config::default();
    let mut first = answer("/a");
    first.status = Some(201);
    first.headers.insert("x-one".to_string(), "1".to_string());
    first.headers.insert("x-two".to_string(), "1".to_string());
    let mut second = answer("/a");
    second.body = Some(ResponderBody::StaticText("ok".to_string()));
    second.headers.insert("x-two".to_string(), "2".to_string());
    config.responders = vec![first, second];
    let resolved = config.responder_for_path("/a/b");
    assert_eq!(resolved.status, 201);
    assert!(matches!(resolved.body, ResponderBody::StaticText(ref t) if t == "ok"));
    assert_eq!(resolved.headers.len(), 3);
    assert_eq!(resolved.headers.get("x-one").map(|v| v.as_str()), Some("1"));
    assert_eq!(resolved.headers.get("x-two").map(|v| v.as_str()), Some("2"));
    let plain = config.responder_for_path("/b");
    assert_eq!(plain.status, 200);
    assert!(config.validate().is_ok());
    for path in ["/", "/a", "/a/b", "/b"] {
        assert!((100..=599).contains(&config.responder_for_path(path).status));
    }
    assert!(matches!(plain.body, ResponderBody::MetadataJson));
}

#[test]
fn first_fault_of_a_configuration_is_reported() {
    let fault = |config: &Config| match config.validate() {
        Ok(()) => String::new(),
        Err(error) => error.message(),
    };

    let mut config = Config::default();
    config.storage.backend = "s3".to_string();
    config.server.admin_prefix = "admin".to_string();
    assert_eq!(
        fault(&config),
        "storage.backend=s3 is not implemented yet; use backend=\"local\""
    );
    config.storage.backend = "local".to_string();
    assert_eq!(fault(&config), "server.admin_prefix must start with /");
    assert!(matches!(config.validate(), Err(ConfigError::AdminPrefix)));

    let mut config = Config::default();
    config.body.preview_limit = config.body.max_body_size + 1;
    assert_eq!(
        fault(&config),
        "body.preview_limit cannot be greater than body.max_body_size"
    );
    config.body.preview_limit = config.body.max_body_size;
    assert_eq!(fault(&config), "");

    let mut config = Config::default();
    config.paths = vec![rule("/ok"), rule("bad"), rule("worse")];
    assert_eq!(fault(&config), "path rule match must start with /: bad");

    let mut config = Config::default();
    config.responder.status = 600;
    assert_eq!(fault(&config), "invalid responder status: 600");
    config.responder.status = 99;
    assert_eq!(fault(&config), "invalid responder status: 99");
    config.responder.status = 599;
    assert_eq!(fault(&config), "");

    let mut config = Config::default();
    config.responder.headers.insert("two words".to_string(), "x".to_string());
    assert_eq!(fault(&config), "invalid responder header name: two words");

    let mut config = Config::default();
    config.responders = vec![answer("here")];
    assert_eq!(fault(&config), "responder match must start with /: here");
    config.responders = vec![answer("/here")];
    config.responders[0].status = Some(1);
    assert_eq!(fault(&config), "invalid responder status: 1");
    config.responders[0].status = None;
    config.responders[0].headers.insert("".to_string(), "x".to_string());
    assert_eq!(fault(&config), "invalid responder header name: ");
}

#[test]
fn sizes_are_read_with_their_units() {
    assert_eq!(parse_size("512").unwrap(), 512);
    assert_eq!(parse_size(" 16 KiB ").unwrap(), 16 * 1024);
    assert_eq!(parse_size("5MB").unwrap(), 5 * 1024 * 1024);
    assert_eq!(parse_size("1g").unwrap(), 1024 * 1024 * 1024);
    assert_eq!(parse_size("100MiB").unwrap(), 100 * 1024 * 1024);
    assert_eq!(parse_size("7b").unwrap(), 7);
    assert_eq!(parse_size("18446744073709551615").unwrap(), u64::MAX);
    assert_eq!(parse_size("18446744073709551615k").unwrap(), u64::MAX);
    let number = parse_size("MiB").unwrap_err();
    assert!(matches!(number, SizeError::Number(_)));
    assert_eq!(number.message(), "invalid size number: MiB");
    let unit = parse_size("5 Tib").unwrap_err();
    assert!(matches!(unit, SizeError::Unit(_)));
    assert_eq!(unit.message(), "invalid size unit: tib");
    assert!(parse_size("18446744073709551616").is_err());
    assert!(parse_size("").is_err());
    assert!(parse_size("-5").is_err());
}

#[test]
fn tables_keep_their_keys_in_byte_order() {
    let mut table: OrderedTable<String> = OrderedTable::new();
    for key in ["b", "a", "é", "B", "aa", "b"] {
        table.insert(key.to_string(), format!("<{key}>"));
    }
    assert_eq!(table.len(), 5);
    let keys: Vec<&str> = (0..table.len()).map(|i| table.key(i).as_str()).collect();
    assert_eq!(keys, vec!["B", "a", "aa", "b", "é"]);
    assert_eq!(table.get("aa").map(|v| v.as_str()), Some("<aa>"));
    assert_eq!(table.value(0), "<B>");
    assert_eq!(table.get("c"), None);
    assert_eq!(table.duplicate().len(), 5);
}
