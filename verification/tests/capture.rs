//! Requests on their way in: bodies, records, summaries and answers.

use std::io::{Read, Write};

use webhook::body::{rejected_body, stated_over_limit, BodyAction, BodyEvent, BodyIntake};
use webhook::capture::{
    capture_status, close_capture, expires_at, host_token, mark_unsaved, open_capture,
    open_capture_with, request_id, request_id_with, sanitize_token, summarize, IncomingRequest,
    OpenCapture,
};
use webhook::config::{BodyMode, Config, ResponderBody, ResponderRule};
use webhook::headers::{
    approximate_header_length, content_type, header_text, headers_to_json, parse_content_length,
    Header, HeaderEntry,
};
use webhook::models::BodyMeta;
use webhook::response::{build_capture_response, capture_reply, metadata_json_response, HttpReply};
use webhook::storage::LocalStorage;
use webhook::table::OrderedTable;
use webhook::time::Moment;

fn header(name: &str, value: &str) -> Header {
    Header { name: name.to_string(), value: value.as_bytes().to_vec() }
}

fn moment() -> Moment {
    Moment::new(1_784_103_631, 922_460_000, 28_800).unwrap()
}

fn config_with_limit(max_body_size: u64) -> Config {
    let mut config = Config::default();
    config.storage.root = "data".to_string();
    config.body.max_body_size = max_body_size;
    config.body.preview_limit = max_body_size;
    config
}

fn storage() -> LocalStorage {
    LocalStorage::new("data".to_string())
}

fn incoming(method: &str, path: &str, query: Option<&str>, headers: Vec<Header>) -> IncomingRequest {
    let uri = match query {
        Some(q) => format!("{path}?{q}"),
        None => path.to_string(),
    };
    IncomingRequest {
        method: method.to_string(),
        uri,
        path: path.to_string(),
        query: query.map(|q| q.to_string()),
        headers,
    }
}

/// Takes a body in as a server does: whatever is asked for is done.
fn take_in(capture: &OpenCapture, request: &IncomingRequest, chunks: &[u64], stored: u64) -> BodyMeta {
    let mut intake = BodyIntake::new(&capture.rule);
    let mut next = 0;
    loop {
        let event = match intake.action() {
            BodyAction::Open => BodyEvent::Opened,
            BodyAction::Read => {
                if next < chunks.len() {
                    next += 1;
                    BodyEvent::Chunk(chunks[next - 1])
                } else {
                    BodyEvent::Ended
                }
            }
            BodyAction::Write => BodyEvent::Written,
            BodyAction::Close => BodyEvent::Closed,
            BodyAction::Measure => BodyEvent::Measured(Some(stored)),
            BodyAction::Finish => return intake.finish(capture.paths.body_file_name(), &request.headers),
        };
        intake.observe(event);
    }
}

fn sent(reply: &HttpReply, name: &str) -> Option<String> {
    reply.headers.get(name).cloned()
}

#[test]
fn complete_garbage_body_with_query_returns_success_json() {
    let body = [0_u8, 159, 146, 150, 255];
    let config = config_with_limit(1024);
    let request = incoming(
        "POST",
        "/garbage/path",
        Some("alpha=1&encoded=%7Bz%7D"),
        vec![
            header("host", "localhost"),
            header("content-type", "application/octet-stream"),
            header("content-length", &format!("{}", body.len())),
            header("connection", "close"),
        ],
    );
    let capture = open_capture(&config, &storage(), "test-host", moment(), &request);
    assert_eq!(capture.over_limit, None);

    let mut encoder = flate2::write::GzEncoder::new(Vec::new(), flate2::Compression::default());
    encoder.write_all(&body).unwrap();
    let compressed = encoder.finish().unwrap();
    let meta_body = take_in(&capture, &request, &[body.len() as u64], compressed.len() as u64);
    let (meta, summary) = close_capture(&capture, &request, meta_body);

    let reply = capture_reply(&config, &request.path, &summary, "{\"success\":true}");
    assert_eq!(reply.status, 200);
    assert_eq!(reply.body, "{\"success\":true}");
    assert!(summary.success);
    assert_eq!(summary.body_length, body.len() as u64);
    assert!(summary.metadata_saved);

    assert_eq!(meta.query.as_deref(), Some("alpha=1&encoded=%7Bz%7D"));
    assert!(meta.body.complete);
    assert!(meta.body.previewable);
    assert_eq!(meta.body.original_size, body.len() as u64);
    assert_eq!(meta.body.stored_size, compressed.len() as u64);
    assert_eq!(meta.body.encoding.as_deref(), Some("gzip"));
    assert_eq!(meta.body.object, capture.paths.body_file_name());

    let mut decoder = flate2::read::GzDecoder::new(compressed.as_slice());
    let mut decoded = Vec::new();
    decoder.read_to_end(&mut decoded).unwrap();
    assert_eq!(decoded, body);
}

#[test]
fn oversized_content_length_is_rejected_upfront_and_metadata_is_written() {
    let config = config_with_limit(8);
    let request = incoming(
        "POST",
        "/too-large",
        None,
        vec![
            header("host", "localhost"),
            header("content-length", "9"),
            header("connection", "close"),
        ],
    );
    let capture = open_capture(&config, &storage(), "test-host", moment(), &request);
    assert_eq!(capture.over_limit, Some(9));
    let body = rejected_body(9, &capture.rule, &request.headers);
    let (meta, summary) = close_capture(&capture, &request, body);
    assert_eq!(capture_status(&summary), 413);
    let reply = capture_reply(&config, &request.path, &summary, "{}");
    assert_eq!(reply.status, 413);
    assert!(!summary.success);
    assert!(summary.limit_exceeded);
    assert!(!summary.body_stored);
    assert!(summary.metadata_saved);
    assert_eq!(summary.total_bytes_in, capture.header_length);

    assert_eq!(meta.path, "/too-large");
    assert!(meta.body.limit_exceeded);
    assert!(!meta.body.stored);
    assert_eq!(meta.body.original_size, 0);
    assert_eq!(
        meta.body.error.as_deref(),
        Some("content-length 9 exceeds configured max_body_size 8")
    );
    assert_eq!(meta.body.mode, "compressed");
}

#[test]
fn funny_url_path_is_encoded_for_storage_and_query_is_preserved() {
    let config = config_with_limit(1024);
    let request = incoming(
        "GET",
        "/funny/a%20b/%E2%98%83/..%2Fescape",
        Some("x=1&y=%7Bz%7D"),
        vec![header("host", "localhost"), header("content-length", "0")],
    );
    let capture = open_capture(&config, &storage(), "test-host", moment(), &request);
    let body = take_in(&capture, &request, &[], 20);
    let (meta, summary) = close_capture(&capture, &request, body);
    assert_eq!(capture_reply(&config, &request.path, &summary, "{}").status, 200);
    assert_eq!(meta.path, "/funny/a%20b/%E2%98%83/..%2Fescape");
    assert_eq!(meta.query.as_deref(), Some("x=1&y=%7Bz%7D"));
    let meta_path = capture.paths.meta_path();
    assert!(meta_path.contains("/funny/a b/☃/..%2Fescape/"), "{meta_path}");
}

#[test]
fn half_broken_connection_marks_body_incomplete_when_handler_receives_it() {
    let config = config_with_limit(1024);
    let request = incoming("POST", "/broken", None, vec![header("content-length", "20")]);
    let capture = open_capture(&config, &storage(), "test-host", moment(), &request);
    let mut intake = BodyIntake::new(&capture.rule);
    assert_eq!(intake.action(), BodyAction::Open);
    assert_eq!(intake.observe(BodyEvent::Opened), BodyAction::Read);
    assert_eq!(intake.observe(BodyEvent::Chunk(5)), BodyAction::Write);
    assert_eq!(intake.observe(BodyEvent::Written), BodyAction::Read);
    assert_eq!(
        intake.observe(BodyEvent::StreamFailed("connection reset".to_string())),
        BodyAction::Close
    );
    assert_eq!(intake.observe(BodyEvent::Closed), BodyAction::Measure);
    assert_eq!(intake.observe(BodyEvent::Measured(Some(25))), BodyAction::Finish);
    let body = intake.finish(capture.paths.body_file_name(), &request.headers);
    let (meta, summary) = close_capture(&capture, &request, body);
    assert_eq!(meta.path, "/broken");
    assert!(!meta.body.complete);
    assert_eq!(meta.body.original_size, 5);
    assert!(meta.body.error.is_some());
    assert_eq!(
        meta.body.error.as_deref(),
        Some("request body stream failed: connection reset")
    );
    assert!(meta.body.stored);
    assert!(!meta.body.previewable);
    assert_eq!(capture_reply(&config, "/broken", &summary, "{}").status, 400);
}

#[test]
fn custom_responders_apply_by_path_prefix_in_order() {
    let mut config = config_with_limit(1024);
    config.responder.headers = OrderedTable::new();
    config
        .responder
        .headers
        .insert("content-type".to_string(), "application/json; charset=utf-8".to_string());
    let mut api1 = OrderedTable::new();
    api1.insert("x-webhook-debug".to_string(), "api1".to_string());
    let mut test2 = OrderedTable::new();
    test2.insert("content-type".to_string(), "text/plain; charset=utf-8".to_string());
    test2.insert("x-webhook-debug".to_string(), "api1-test2".to_string());
    config.responders = vec![
        ResponderRule {
            path_match: "/api1".to_string(),
            status: Some(200),
            headers: api1,
            body: Some(ResponderBody::StaticJson(
                "{\"source\":\"api1\",\"success\":true}".to_string(),
            )),
        },
        ResponderRule {
            path_match: "/api1/test2".to_string(),
            status: Some(202),
            headers: test2,
            body: Some(ResponderBody::StaticText("accepted".to_string())),
        },
    ];

    let answer = |path: &str| {
        let request = incoming("POST", path, None, vec![header("content-length", "0")]);
        let capture = open_capture(&config, &storage(), "test-host", moment(), &request);
        let body = take_in(&capture, &request, &[], 20);
        let (_, summary) = close_capture(&capture, &request, body);
        capture_reply(&config, path, &summary, "{}")
    };

    let first = answer("/api1/anything");
    assert_eq!(first.status, 200);
    assert_eq!(first.body, "{\"source\":\"api1\",\"success\":true}");
    assert_eq!(sent(&first, "x-webhook-debug").as_deref(), Some("api1"));
    assert_eq!(
        sent(&first, "content-type").as_deref(),
        Some("application/json; charset=utf-8")
    );

    let second = answer("/api1/test2/deeper");
    assert_eq!(second.status, 202);
    assert_eq!(second.body, "accepted");
    assert_eq!(
        sent(&second, "content-type").as_deref(),
        Some("text/plain; charset=utf-8")
    );
    assert_eq!(sent(&second, "x-webhook-debug").as_deref(), Some("api1-test2"));

    let other = answer("/api1lookalike");
    assert_eq!(other.status, 200);
    assert_eq!(other.body, "{}");
    assert_eq!(sent(&other, "x-webhook-debug"), None);
}

#[test]
fn body_over_the_limit_is_closed_and_answered_413() {
    let config = config_with_limit(8);
    let request = incoming("POST", "/stream", None, vec![]);
    let capture = open_capture(&config, &storage(), "host", moment(), &request);
    assert_eq!(capture.over_limit, None);
    let mut intake = BodyIntake::new(&capture.rule);
    intake.observe(BodyEvent::Opened);
    assert_eq!(intake.observe(BodyEvent::Chunk(8)), BodyAction::Write);
    assert_eq!(intake.observe(BodyEvent::Written), BodyAction::Read);
    assert_eq!(intake.observe(BodyEvent::Chunk(1)), BodyAction::Close);
    assert_eq!(
        intake.observe(BodyEvent::CloseFailed("disk full".to_string())),
        BodyAction::Measure
    );
    assert_eq!(intake.observe(BodyEvent::Measured(None)), BodyAction::Finish);
    let body = intake.finish(capture.paths.body_file_name(), &request.headers);
    assert_eq!(body.original_size, 9);
    assert_eq!(body.stored_size, 0);
    assert!(body.limit_exceeded);
    assert!(!body.complete);
    assert_eq!(
        body.error.as_deref(),
        Some("streamed body exceeded configured max_body_size 8")
    );
    let summary = summarize(&capture.id, 100, &body);
    assert_eq!(summary.total_bytes_in, 109);
    assert_eq!(capture_status(&summary), 413);
}

#[test]
fn body_within_the_limit_is_complete() {
    let config = config_with_limit(8);
    let request = incoming("POST", "/fits", None, vec![]);
    let capture = open_capture(&config, &storage(), "host", moment(), &request);
    let body = take_in(&capture, &request, &[3, 5], 31);
    assert!(body.complete);
    assert_eq!(body.original_size, 8);
    assert_eq!(body.stored_size, 31);
    assert_eq!(body.error, None);
    let over = take_in(&capture, &request, &[3, 5, 1], 31);
    assert!(!over.complete);
    assert!(over.limit_exceeded);
}

#[test]
fn write_and_close_failures_are_told() {
    let config = config_with_limit(1024);
    let request = incoming("POST", "/x", None, vec![header("content-type", "text/plain")]);
    let capture = open_capture(&config, &storage(), "host", moment(), &request);

    let mut intake = BodyIntake::new(&capture.rule);
    intake.observe(BodyEvent::Opened);
    intake.observe(BodyEvent::Chunk(5));
    assert_eq!(
        intake.observe(BodyEvent::WriteFailed("disk full".to_string())),
        BodyAction::Close
    );
    intake.observe(BodyEvent::Closed);
    intake.observe(BodyEvent::Measured(Some(3)));
    let body = intake.finish(capture.paths.body_file_name(), &request.headers);
    assert_eq!(body.error.as_deref(), Some("body write failed: disk full"));
    assert_eq!(body.content_type.as_deref(), Some("text/plain"));
    assert_eq!(body.original_size, 5);
    assert_eq!(body.stored_size, 3);

    let mut intake = BodyIntake::new(&capture.rule);
    intake.observe(BodyEvent::Opened);
    assert_eq!(intake.observe(BodyEvent::Ended), BodyAction::Close);
    intake.observe(BodyEvent::CloseFailed("gone".to_string()));
    intake.observe(BodyEvent::Measured(Some(0)));
    let body = intake.finish(None, &request.headers);
    assert_eq!(body.error.as_deref(), Some("body close failed: gone"));
    assert!(!body.complete);

    let mut intake = BodyIntake::new(&capture.rule);
    assert_eq!(
        intake.observe(BodyEvent::OpenFailed("exists".to_string())),
        BodyAction::Finish
    );
    let body = intake.finish(capture.paths.body_file_name(), &request.headers);
    assert_eq!(body.error.as_deref(), Some("failed to create body file: exists"));
    assert!(!body.stored);
    assert!(!body.complete);
    assert_eq!(body.object, capture.paths.body_file_name());
    assert_eq!(body.encoding.as_deref(), Some("gzip"));
    assert_eq!(capture_status(&summarize("id", 1, &body)), 400);
}

#[test]
fn body_is_counted_but_not_stored_in_metadata_only_mode() {
    let mut config = config_with_limit(1024);
    config.body.mode = BodyMode::MetadataOnly;
    let request = incoming("POST", "/large-events", None, vec![]);
    let capture = open_capture(&config, &storage(), "host", moment(), &request);
    let mut intake = BodyIntake::new(&capture.rule);
    assert_eq!(intake.action(), BodyAction::Read);
    assert_eq!(intake.observe(BodyEvent::Chunk(700)), BodyAction::Read);
    assert_eq!(intake.observe(BodyEvent::Ended), BodyAction::Finish);
    let body = intake.finish(capture.paths.body_file_name(), &request.headers);
    assert!(body.complete);
    assert!(!body.stored);
    assert!(!body.previewable);
    assert_eq!(body.original_size, 700);
    assert_eq!(body.object, None);
    assert_eq!(body.encoding, None);
    assert_eq!(body.mode, "metadata_only");

    let mut intake = BodyIntake::new(&capture.rule);
    assert_eq!(intake.observe(BodyEvent::Chunk(1025)), BodyAction::Finish);
    let body = intake.finish(None, &request.headers);
    assert!(body.limit_exceeded);
}

#[test]
fn preview_stops_at_the_preview_limit() {
    let mut config = config_with_limit(1024);
    config.body.preview_limit = 10;
    config.body.mode = BodyMode::Raw;
    let request = incoming("POST", "/x", None, vec![]);
    let capture = open_capture(&config, &storage(), "host", moment(), &request);
    assert!(take_in(&capture, &request, &[10], 10).previewable);
    let longer = take_in(&capture, &request, &[11], 11);
    assert!(!longer.previewable);
    assert!(longer.complete);
    assert_eq!(longer.encoding, None);
    assert_eq!(longer.mode, "raw");
}

#[test]
fn sizes_do_not_wrap_around() {
    let mut config = config_with_limit(u64::MAX - 1);
    config.body.mode = BodyMode::MetadataOnly;
    let request = incoming("POST", "/x", None, vec![]);
    let capture = open_capture(&config, &storage(), "host", moment(), &request);
    let body = take_in(&capture, &request, &[u64::MAX - 2, 7], 0);
    assert_eq!(body.original_size, u64::MAX);
    assert!(body.limit_exceeded);
    assert_eq!(summarize("id", 5, &body).total_bytes_in, u64::MAX);
}

#[test]
fn record_that_cannot_be_saved_is_answered_500_with_the_summary() {
    let config = config_with_limit(1024);
    let request = incoming("POST", "/x", None, vec![]);
    let capture = open_capture(&config, &storage(), "host", moment(), &request);
    let body = take_in(&capture, &request, &[4], 24);
    let (_, summary) = close_capture(&capture, &request, body);
    let unsaved = mark_unsaved(summary);
    assert!(!unsaved.success);
    assert!(!unsaved.metadata_saved);
    assert!(unsaved.complete);
    assert_eq!(unsaved.body_length, 4);
    assert_eq!(unsaved.error.as_deref(), Some("failed to persist request metadata"));
    let reply = capture_reply(&config, "/x", &unsaved, "{\"success\":false}");
    assert_eq!(reply.status, 500);
    assert_eq!(reply.body, "{\"success\":false}");
    assert_eq!(
        sent(&reply, "content-type").as_deref(),
        Some("application/json; charset=utf-8")
    );
}

#[test]
fn failed_capture_ignores_the_responder() {
    let mut config = config_with_limit(8);
    config.responder.status = 202;
    config.responder.body = ResponderBody::StaticText("fine".to_string());
    config.responder.headers.insert("x-mark".to_string(), "1".to_string());
    let request = incoming("POST", "/x", None, vec![]);
    let capture = open_capture(&config, &storage(), "host", moment(), &request);
    let (_, summary) = close_capture(&capture, &request, take_in(&capture, &request, &[9], 0));
    let reply = capture_reply(&config, "/x", &summary, "{\"limit_exceeded\":true}");
    assert_eq!(reply.status, 413);
    assert_eq!(reply.body, "{\"limit_exceeded\":true}");
    assert_eq!(sent(&reply, "x-mark"), None);
    let (_, summary) = close_capture(&capture, &request, take_in(&capture, &request, &[8], 8));
    let reply = capture_reply(&config, "/x", &summary, "{}");
    assert_eq!(reply.status, 202);
    assert_eq!(reply.body, "fine");
    assert_eq!(sent(&reply, "x-mark").as_deref(), Some("1"));
}

#[test]
fn answers_drop_headers_that_http_does_not_allow() {
    let mut config = Config::default();
    config.responder.status = 42;
    config.responder.body = ResponderBody::StaticText("hi".to_string());
    config.responder.headers = OrderedTable::new();
    config.responder.headers.insert("X-Both".to_string(), "capital".to_string());
    config.responder.headers.insert("x-both".to_string(), "small".to_string());
    config.responder.headers.insert("X-Loud".to_string(), "1".to_string());
    config.responder.headers.insert("bad name".to_string(), "1".to_string());
    config.responder.headers.insert("x-bad-value".to_string(), "a\nb".to_string());
    let reply = build_capture_response(config.responder_for_path("/"), "{}");
    assert_eq!(reply.status, 200);
    assert_eq!(reply.body, "hi");
    assert_eq!(reply.headers.len(), 3);
    assert_eq!(sent(&reply, "x-both").as_deref(), Some("small"));
    assert_eq!(sent(&reply, "x-loud").as_deref(), Some("1"));
    assert_eq!(
        sent(&reply, "content-type").as_deref(),
        Some("text/plain; charset=utf-8")
    );
    assert_eq!(metadata_json_response(999, "{}").status, 999);
    assert_eq!(metadata_json_response(1000, "{}").status, 200);
}

#[test]
fn head_length_counts_the_bytes_on_the_wire() {
    let headers = vec![header("host", "localhost"), header("x", "")];
    // POST /a?b HTTP/1.1, host: localhost, x: and an empty line
    let wire = "POST /a?b HTTP/1.1\r\nhost: localhost\r\nx: \r\n\r\n";
    assert_eq!(approximate_header_length("POST", "/a?b", &headers), wire.len() as u64);
    assert_eq!(approximate_header_length("", "", &vec![]), 14);
}

#[test]
fn content_length_is_read_as_a_number() {
    let read = |value: &str| parse_content_length(&vec![header("content-length", value)]);
    assert_eq!(read("0"), Some(0));
    assert_eq!(read("18446744073709551615"), Some(u64::MAX));
    assert_eq!(read("18446744073709551616"), None);
    assert_eq!(read("+12"), Some(12));
    assert_eq!(read("+"), None);
    assert_eq!(read("-1"), None);
    assert_eq!(read(""), None);
    assert_eq!(read("1 2"), None);
    assert_eq!(parse_content_length(&vec![header("content-type", "5")]), None);
    let twice = vec![header("content-length", "x"), header("content-length", "5")];
    assert_eq!(parse_content_length(&twice), None);
    let rule = config_with_limit(8).rule_for_path("/");
    assert_eq!(stated_over_limit(&vec![header("content-length", "8")], &rule), None);
    assert_eq!(stated_over_limit(&vec![header("content-length", "9")], &rule), Some(9));
}

#[test]
fn headers_are_recorded_under_their_names() {
    let headers = vec![
        header("accept", "a"),
        header("host", "h"),
        header("accept", "b"),
        Header { name: "x".to_string(), value: vec![200] },
        header("accept", "c"),
    ];
    let record = headers_to_json(&headers);
    assert_eq!(record.len(), 3);
    match record.get("accept") {
        Some(HeaderEntry::Several(values)) => assert_eq!(values, &vec!["a", "b", "c"]),
        other => panic!("{other:?}"),
    }
    match record.get("host") {
        Some(HeaderEntry::Single(value)) => assert_eq!(value, "h"),
        other => panic!("{other:?}"),
    }
    match record.get("x") {
        Some(HeaderEntry::Single(value)) => assert_eq!(value, "<non-utf8>"),
        other => panic!("{other:?}"),
    }
    assert_eq!(header_text(b"a\tb ~"), Some("a\tb ~".to_string()));
    assert_eq!(header_text(b"a\x7f"), None);
    assert_eq!(content_type(&vec![header("content-type", "text/html")]).as_deref(), Some("text/html"));
    assert_eq!(content_type(&headers), None);
}

#[test]
fn request_ids_name_the_time_the_host_and_a_random_part() {
    assert_eq!(
        request_id_with(&moment(), "myhost", "AbCdEf1234567890"),
        "31_922460000_myhost_AbCdEf1234567890"
    );
    let early = Moment::new(3, 7, 0).unwrap();
    assert_eq!(request_id_with(&early, "h", "r"), "03_000000007_h_r");
    let a = request_id(&moment(), "myhost");
    let b = request_id(&moment(), "myhost");
    assert!(a.starts_with("31_922460000_myhost_"));
    assert_eq!(a.len(), "31_922460000_myhost_".len() + 16);
    assert!(a.chars().all(|c| c.is_ascii_alphanumeric() || c == '_'));
    assert_ne!(a, b);
}

#[test]
fn capture_with_a_given_random_part_is_laid_out_by_path_and_time() {
    let config = Config::default();
    let request = incoming("POST", "/test1/test2/test3", Some("aaafe=afafw"), vec![]);
    let capture = open_capture_with(
        &config,
        &storage(),
        "myhost",
        moment(),
        &request,
        "AbCdEf1234567890",
    );
    assert_eq!(capture.id, "31_922460000_myhost_AbCdEf1234567890");
    assert_eq!(
        capture.paths.meta_path(),
        "data/test1/test2/test3/2026/07/15/16/20/31_922460000_myhost_AbCdEf1234567890.json"
    );
    assert_eq!(
        capture.paths.body_path(),
        Some("data/test1/test2/test3/2026/07/15/16/20/31_922460000_myhost_AbCdEf1234567890.body.bin.gz")
    );
    assert_eq!(capture.rule.max_body_size, 100 * 1024 * 1024);
}

#[test]
fn host_names_become_tokens() {
    assert_eq!(sanitize_token("my-host_1"), "my-host_1");
    assert_eq!(sanitize_token("a.b c/é"), "a_b_c__");
    assert_eq!(sanitize_token(""), "");
    assert_eq!(host_token(Some("web.example")), "web_example");
    assert_eq!(host_token(None), "unknown-host");
}

#[test]
fn expiry_is_the_time_received_and_the_time_to_live() {
    assert_eq!(expires_at(&moment(), 1_000_000_000), 1_784_103_632_922_460_000);
    let before = Moment::new(-10, 0, 0).unwrap();
    assert_eq!(expires_at(&before, 3_000_000_000), -7_000_000_000);
    assert_eq!(expires_at(&before, 12_000_000_000), 2_000_000_000);
}
