//! What the administration pages show.

use std::io::Write;

use webhook::admin::{is_admin_path, route, AdminRoute};
use webhook::config::Config;
use webhook::models::{BodyMeta, RequestMeta};
use webhook::pages::{
    body_preview, body_status, dashboard, error_response, escape, human_bytes, login_page,
    method_chip, not_found, page, path_filter, path_row_with, preview_decoded, preview_step,
    preview_text, request_detail, request_detail_with, request_not_found, request_row,
    request_row_with, requests, PreviewStep,
};
use webhook::records::{DashboardStats, RequestRecord};
use webhook::storage::LocalStorage;
use webhook::table::OrderedTable;
use webhook::time::Moment;

fn storage() -> LocalStorage {
    LocalStorage::new("da<ta".to_string())
}

fn record() -> RequestRecord {
    RequestRecord {
        meta: RequestMeta {
            id: "a/1".to_string(),
            received_at: Moment::new(1_784_103_631, 922_460_000, 28_800).unwrap(),
            method: "POST".to_string(),
            path: "/x<y>".to_string(),
            query: Some("q=\"1\"".to_string()),
            headers: OrderedTable::new(),
            body: BodyMeta {
                stored: true,
                complete: true,
                mode: "compressed".to_string(),
                object: Some("a.body.bin.gz".to_string()),
                encoding: Some("gzip".to_string()),
                original_size: 1536,
                stored_size: 40,
                content_type: None,
                previewable: true,
                limit_exceeded: false,
                error: None,
            },
        },
        meta_path: "data/a.json".to_string(),
        body_path: Some("data/a.body.bin.gz".to_string()),
    }
}

fn content_type(reply: &webhook::response::HttpReply) -> &str {
    reply.headers.get("content-type").unwrap()
}

/// The size as it is computed with floating-point numbers.
fn float_size(bytes: u64) -> String {
    let units = ["B", "KiB", "MiB", "GiB", "TiB"];
    let mut value = bytes as f64;
    let mut unit = 0;
    while value >= 1024.0 && unit < units.len() - 1 {
        value /= 1024.0;
        unit += 1;
    }
    if unit == 0 {
        format!("{} {}", bytes, units[unit])
    } else {
        format!("{value:.1} {}", units[unit])
    }
}

#[test]
fn markup_is_escaped() {
    assert_eq!(escape("plain é"), "plain é");
    assert_eq!(escape("<a href=\"x\">'&'</a>"), "&lt;a href=&quot;x&quot;&gt;&#39;&amp;&#39;&lt;/a&gt;");
    assert_eq!(escape("&amp;"), "&amp;amp;");
    assert_eq!(escape(""), "");
}

#[test]
fn sizes_are_shown_in_their_unit() {
    assert_eq!(human_bytes(0), "0 B");
    assert_eq!(human_bytes(1023), "1023 B");
    assert_eq!(human_bytes(1024), "1.0 KiB");
    assert_eq!(human_bytes(1280), "1.2 KiB");
    assert_eq!(human_bytes(1536), "1.5 KiB");
    assert_eq!(human_bytes(1792), "1.8 KiB");
    assert_eq!(human_bytes(1_048_575), "1024.0 KiB");
    assert_eq!(human_bytes(5 * 1024 * 1024), "5.0 MiB");
    assert_eq!(human_bytes(u64::MAX), "16777216.0 TiB");
}

#[test]
fn sizes_agree_with_floating_point() {
    let mut sample: u64 = 1;
    for i in 0..200_000_u64 {
        sample = sample.wrapping_mul(6_364_136_223_846_793_005).wrapping_add(1_442_695_040_888_963_407);
        let bytes = sample >> (i % 64);
        assert_eq!(human_bytes(bytes), float_size(bytes), "{bytes}");
    }
    // Halfway between two tenths, and one byte to either side.
    for unit in [1_u64 << 10, 1 << 20, 1 << 30, 1 << 40] {
        for quarters in 1..4_000_u64 {
            let middle = unit / 4 * quarters;
            for bytes in [middle.wrapping_sub(1), middle, middle + 1] {
                assert_eq!(human_bytes(bytes), float_size(bytes), "{bytes}");
            }
        }
    }
    for shift in 50..64 {
        let power = 1_u64 << shift;
        for bytes in [power - 1, power, power + 1, power + (power >> 2) + 1] {
            assert_eq!(human_bytes(bytes), float_size(bytes), "{bytes}");
        }
    }
}

#[test]
fn methods_and_states_are_marked() {
    assert_eq!(method_chip("GET"), "<span class=\"method get\">GET</span>");
    assert_eq!(method_chip("POST"), "<span class=\"method post\">POST</span>");
    assert_eq!(method_chip("PUT"), "<span class=\"method put\">PUT</span>");
    assert_eq!(method_chip("PATCH"), "<span class=\"method put\">PATCH</span>");
    assert_eq!(method_chip("DELETE"), "<span class=\"method delete\">DELETE</span>");
    assert_eq!(method_chip("<x>"), "<span class=\"method other\">&lt;x&gt;</span>");
    let mut meta = record().meta;
    assert_eq!(body_status(&meta), "<span class=\"pill ok\">&#10003; complete</span>");
    meta.body.complete = false;
    assert_eq!(body_status(&meta), "<span class=\"pill bad\">&#10007; incomplete</span>");
    meta.body.limit_exceeded = true;
    assert_eq!(body_status(&meta), "<span class=\"pill warn\">&#9888; limit exceeded</span>");
}

#[test]
fn requests_are_listed_with_a_link() {
    let row = request_row(&Config::default(), &record());
    assert_eq!(
        row,
        "<tr>\n<td class=\"mono\"><a href=\"/_wh_admin/requests/a%2F1\">2026-07-15 16:20:31</a></td>\n<td><span class=\"method post\">POST</span></td>\n<td class=\"path\">/x&lt;y&gt;<span class=\"query\">?q=&quot;1&quot;</span></td>\n<td class=\"num\">1.5 KiB</td>\n<td><span class=\"pill ok\">&#10003; complete</span></td>\n</tr>"
    );
    let mut plain = record();
    plain.meta.id = "31_922460000_my-host_AbCdEf1234567890".to_string();
    let row = request_row(&Config::default(), &plain);
    let link = "/_wh_admin/requests/31_922460000_my-host_AbCdEf1234567890";
    assert!(row.contains(&format!("<a href=\"{link}\">")));
    assert!(is_admin_path(&Config::default(), link));
    match route(&Config::default(), link, "GET", true) {
        AdminRoute::RequestDetail(id) => assert_eq!(id, plain.meta.id),
        other => panic!("{other:?}"),
    }
    let mut meta = record().meta;
    meta.query = None;
    let row = request_row_with("/p", "id", "now", &meta);
    assert!(row.contains("<a href=\"/p/requests/id\">now</a>"));
    assert!(row.contains("<td class=\"path\">/x&lt;y&gt;</td>"));
    assert_eq!(
        path_row_with("/p", "%2Fa", "/a", 12),
        "<tr><td><a href=\"/p/requests?path=%2Fa\">/a</a></td><td class=\"num\">12</td></tr>"
    );
}

#[test]
fn pages_carry_the_title_the_root_and_the_navigation() {
    let mut config = Config::default();
    let reply = page(&config, &storage(), "A & B", "requests", "<p>body</p>");
    assert_eq!(reply.status, 200);
    assert_eq!(content_type(&reply), "text/html; charset=utf-8");
    assert!(reply.body.starts_with("<!doctype html>\n<html lang=\"en\">\n<head>\n"));
    assert!(reply.body.contains("<title>A &amp; B &middot; Webhook Debug</title>"));
    assert!(reply.body.contains("<header><h1>A &amp; B</h1></header>\n    <p>body</p>\n  </main>"));
    assert!(reply.body.contains("<a href=\"/_wh_admin/\">Dashboard</a>"));
    assert!(reply.body.contains("<a href=\"/_wh_admin/requests\" class=\"active\">Requests</a>"));
    assert!(reply.body.contains("<small>da&lt;ta</small>"));
    assert!(!reply.body.contains("Sign out"));
    assert!(reply.body.ends_with("</body>\n</html>"));
    config.admin.password = Some("x".to_string());
    config.server.admin_prefix = "/adm/".to_string();
    let reply = page(&config, &storage(), "t", "dashboard", "");
    assert!(reply.body.contains("<a class=\"logout\" href=\"/adm/logout\">Sign out</a>"));
    assert!(reply.body.contains("<a href=\"/adm/\" class=\"active\">Dashboard</a>"));
}

#[test]
fn dashboard_shows_the_counts() {
    let stats = DashboardStats {
        total_requests: 12,
        complete_requests: 9,
        incomplete_requests: 3,
        stored_body_bytes: 2048,
        top_paths: vec![("/a b".to_string(), 7)],
        top_methods: vec![],
    };
    let reply = dashboard(&Config::default(), &storage(), &stats);
    assert!(reply.body.contains("<span>Requests since restart</span><b>12</b>"));
    assert!(reply.body.contains("<span>Complete</span><b>9</b>"));
    assert!(reply.body.contains("<span>Incomplete</span><b>3</b>"));
    assert!(reply.body.contains("<span>Stored body</span><b>2.0 KiB</b>"));
    assert!(reply.body.contains("<a href=\"/_wh_admin/requests?path=%2Fa%20b\">/a b</a></td><td class=\"num\">7</td>"));
    let stats = DashboardStats { top_paths: vec![("/-_.~é+".to_string(), 1)], ..stats };
    let reply = dashboard(&Config::default(), &storage(), &stats);
    assert!(reply.body.contains("requests?path=%2F-_.~%C3%A9%2B\">"));
    assert!(reply.body.contains("<td colspan=\"2\" class=\"empty\">No requests captured yet.</td>"));
}

#[test]
fn request_list_shows_its_filter() {
    let config = Config::default();
    let reply = requests(&config, &storage(), &vec![], Some("/a\"b"));
    assert!(reply.body.contains("<title>Requests for /a&quot;b &middot; Webhook Debug</title>"));
    assert!(reply.body.contains("value=\"/a&quot;b\"><button>Filter</button>"));
    assert!(reply.body.contains("<td colspan=\"5\" class=\"empty\">No requests matched.</td>"));
    let reply = requests(&config, &storage(), &vec![record(), record()], None);
    assert!(reply.body.contains("<title>Recent requests &middot; Webhook Debug</title>"));
    assert!(reply.body.contains("value=\"\"><button>Filter</button>"));
    assert_eq!(reply.body.matches("<tr>\n<td class=\"mono\">").count(), 2);
    assert_eq!(path_filter(Some("path=%2Fapi1&x=1")).as_deref(), Some("/api1"));
    assert_eq!(path_filter(Some("path=")), None);
    assert_eq!(path_filter(Some("x=1")), None);
    assert_eq!(path_filter(None), None);
}

#[test]
fn request_page_shows_the_record() {
    let config = Config::default();
    let reply = request_detail(&config, &storage(), &record(), "<pre>hi</pre>", "{\"a\":1}");
    assert_eq!(reply.status, 200);
    assert!(reply.body.contains("<h1>Request a/1</h1>"));
    assert!(reply.body.contains("<span>Path</span><b>/x&lt;y&gt;</b>"));
    assert!(reply.body.contains("<span>Received</span><b>2026-07-15T16:20:31.922460+08:00</b>"));
    assert!(reply.body.contains("<span>Metadata file</span><b>data/a.json</b>"));
    assert!(reply.body.contains("<h2>Body preview</h2>\n<pre>hi</pre>\n<h2>Metadata</h2>\n<pre>{&quot;a&quot;:1}</pre>"));
    let reply = request_detail_with(&config, &storage(), &record(), "then", "", "");
    assert!(reply.body.contains("<span>Received</span><b>then</b>"));
}

#[test]
fn previews_are_read_and_decompressed() {
    let mut one = record();
    assert!(matches!(preview_step(&one), PreviewStep::Read(ref p) if p == "data/a.body.bin.gz"));
    let mut encoder = flate2::write::GzEncoder::new(Vec::new(), flate2::Compression::default());
    encoder.write_all("<héllo>".as_bytes()).unwrap();
    let compressed = encoder.finish().unwrap();
    assert_eq!(body_preview(&one, Ok(compressed)), "<pre>&lt;héllo&gt;</pre>");
    let broken = body_preview(&one, Ok(b"not gzip".to_vec()));
    assert!(broken.starts_with("<p class=\"error\">Failed to decompress body: "), "{broken}");
    assert!(broken.ends_with("</p>"));
    assert_eq!(
        body_preview(&one, Err("a<b".to_string())),
        "<p class=\"error\">Failed to read body: a&lt;b</p>"
    );
    one.meta.body.encoding = None;
    assert_eq!(body_preview(&one, Ok(b"raw \xff".to_vec())), "<pre>raw \u{fffd}</pre>");
    one.body_path = None;
    match preview_step(&one) {
        PreviewStep::Show(html) => {
            assert_eq!(html, "<p class=\"muted\">No body object was stored.</p>")
        }
        other => panic!("{other:?}"),
    }
    one.meta.body.previewable = false;
    match preview_step(&one) {
        PreviewStep::Show(html) => assert_eq!(
            html,
            "<p class=\"muted\">Body preview is unavailable for this request.</p>"
        ),
        other => panic!("{other:?}"),
    }
    assert_eq!(preview_text("a&b"), "<pre>a&amp;b</pre>");
    assert_eq!(preview_decoded(Ok(b"x".to_vec())), "<pre>x</pre>");
    assert_eq!(
        preview_decoded(Err("bad".to_string())),
        "<p class=\"error\">Failed to decompress body: bad</p>"
    );
}

#[test]
fn login_page_shows_what_went_wrong() {
    let mut config = Config::default();
    config.server.admin_prefix = "/adm/".to_string();
    let reply = login_page(&config, Some("No <way>"), 401);
    assert_eq!(reply.status, 401);
    assert_eq!(content_type(&reply), "text/html; charset=utf-8");
    assert!(reply.body.contains("<p class=\"form-error\">No &lt;way&gt;</p>"));
    assert!(reply.body.contains("<form method=\"post\" action=\"/adm/login\">"));
    let reply = login_page(&config, None, 200);
    assert!(!reply.body.contains("form-error"));
    assert!(reply.body.contains("href=\"/adm/style.css\""));
}

#[test]
fn missing_pages_and_errors_are_plain_text() {
    let reply = not_found();
    assert_eq!((reply.status, reply.body.as_str()), (404, "not found"));
    assert_eq!(content_type(&reply), "text/plain; charset=utf-8");
    let reply = request_not_found();
    assert_eq!((reply.status, reply.body.as_str()), (404, "request not found"));
    let reply = error_response("disk gone");
    assert_eq!((reply.status, reply.body.as_str()), (500, "admin error: disk gone\n"));
}
