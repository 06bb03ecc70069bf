//! Where requests are kept, which are shown, and what a cleanup removes.

use webhook::capture::expires_at;
use webhook::config::{BodyMode, Config, PathRule};
use webhook::models::{BodyMeta, RequestMeta};
use webhook::records::{
    add_up, latest_records, sorted_counts, FoundRecord, RequestRecord, COUNTED_REQUESTS,
    LISTED_REQUESTS,
};
use webhook::retention::{
    folders_around, is_expired, is_older_than, plan_cleanup, sweep_check, sweep_order, sweeps,
    Entry, Pruning, SweepCheck,
};
use webhook::segments::{
    is_reserved_windows_name, request_path_segments, sanitize_path_segment, segment_name,
    MAX_NAME_BYTES, MAX_SEGMENTS, MAX_SEGMENT_LEN,
};
use webhook::storage::{is_metadata_file, join_path, names_record, LocalStorage};
use webhook::table::OrderedTable;
use webhook::time::{LocalTime, Moment, FIRST_SECOND, LAST_SECOND};

const SECOND: u128 = 1_000_000_000;

fn names(list: &[&str]) -> Vec<String> {
    list.iter().map(|name| name.to_string()).collect()
}

fn meta(id: &str, path: &str, secs: i64, object: Option<&str>) -> RequestMeta {
    RequestMeta {
        id: id.to_string(),
        received_at: Moment::new(secs, 0, 0).unwrap(),
        method: "POST".to_string(),
        path: path.to_string(),
        query: None,
        headers: OrderedTable::new(),
        body: BodyMeta {
            stored: object.is_some(),
            complete: true,
            mode: "raw".to_string(),
            object: object.map(|name| name.to_string()),
            encoding: None,
            original_size: 0,
            stored_size: 10,
            content_type: None,
            previewable: false,
            limit_exceeded: false,
            error: None,
        },
    }
}

fn found(id: &str, path: &str, secs: i64) -> FoundRecord {
    FoundRecord {
        place: names(&["svc", &format!("{id}.json")]),
        meta: meta(id, path, secs, None),
    }
}

fn ids(records: &[RequestRecord]) -> Vec<&str> {
    records.iter().map(|record| record.meta.id.as_str()).collect()
}

fn entry(list: &[&str]) -> Entry {
    Entry { place: names(list) }
}

fn storage() -> LocalStorage {
    LocalStorage::new("data".to_string())
}

fn ttl_config(ttl: u128) -> Config {
    let mut config = Config::default();
    config.retention.default_ttl = ttl;
    config.retention.prune_grace = 0;
    config
}

#[test]
fn segments_are_filesystem_safe() {
    assert_eq!(request_path_segments("/a/./b"), vec!["a", "_", "b"]);
    assert_eq!(request_path_segments("/.."), vec!["_"]);
    assert_eq!(request_path_segments("/.hidden"), vec!["_.hidden"]);
    assert_eq!(request_path_segments("/nul"), vec!["_nul"]);
    assert_eq!(request_path_segments("/COM1.txt"), vec!["_COM1.txt"]);
    assert_eq!(request_path_segments("/trailing."), vec!["trailing_"]);
    assert_eq!(request_path_segments("/"), vec!["_root"]);

    let long = "x".repeat(300);
    let segments = request_path_segments(&format!("/{long}"));
    assert_eq!(segments[0].len(), MAX_SEGMENT_LEN);

    let deep = "/a".repeat(30);
    let segments = request_path_segments(&deep);
    assert_eq!(segments.len(), MAX_SEGMENTS + 1);
    assert_eq!(segments.last().unwrap(), "_overflow");
}

#[test]
fn decoded_segments_stay_in_their_directory() {
    assert_eq!(request_path_segments("/%2e%2e/x"), vec!["_", "x"]);
    assert_eq!(request_path_segments("/a%20b"), vec!["a b"]);
    assert_eq!(request_path_segments("/%E2%98%83"), vec!["☃"]);
    assert_eq!(request_path_segments("/..%2Fescape"), vec!["..%2Fescape"]);
    assert_eq!(request_path_segments("//a//b/"), vec!["a", "b"]);
    for path in ["/%2e%2e%2f", "/a%2F..%2Fb", "/%00", "/a%5Cb", "/c:%2Fx", "/%FF"] {
        for name in request_path_segments(path) {
            assert!(!name.contains('/') && !name.contains('\\') && !name.contains(':'), "{name}");
            assert!(name.chars().all(|c| c >= ' '), "{name}");
            assert!(!name.is_empty() && name != "." && name != "..", "{name}");
        }
    }
    assert_eq!(segment_name("a%20b", "a b"), "a b");
    assert_eq!(sanitize_path_segment("ok-name_1=2"), "ok-name_1=2");
    assert_eq!(request_path_segments("/orders/created"), vec!["orders", "created"]);
}

#[test]
fn long_segments_are_cut_by_characters() {
    let snow = "%E2%98%83".repeat(100);
    let segments = request_path_segments(&format!("/{snow}"));
    assert_eq!(segments[0].chars().count(), MAX_SEGMENT_LEN);
    // Sixty-four of these would take one byte more than file systems allow.
    let faces = "%F0%9F%98%80".repeat(100);
    let segments = request_path_segments(&format!("/{faces}"));
    assert_eq!(segments[0].chars().count(), 63);
    assert!(segments[0].len() <= MAX_NAME_BYTES);
    let mixed = format!("/a{faces}");
    assert_eq!(request_path_segments(&mixed)[0].chars().count(), MAX_SEGMENT_LEN);
}

#[test]
fn no_segment_ends_in_a_dot() {
    let cut_at_dot = format!("{}.y", "x".repeat(63));
    assert_eq!(sanitize_path_segment(&cut_at_dot), format!("{}_", "x".repeat(63)));
    assert_eq!(request_path_segments(&format!("/{cut_at_dot}")), vec![format!("{}_", "x".repeat(63))]);
    assert_eq!(sanitize_path_segment("a.."), "a._");
    for length in 60..70 {
        let name = sanitize_path_segment(&format!("{}....z", "x".repeat(length)));
        assert!(!name.ends_with('.'), "{name}");
    }
}

#[test]
fn no_segment_ends_in_a_blank() {
    assert_eq!(request_path_segments("/a%20"), vec!["a_"]);
    assert_eq!(request_path_segments("/%20"), vec!["_"]);
    assert_eq!(request_path_segments("/a%20%20"), vec!["a _"]);
    assert_eq!(request_path_segments("/a.%20"), vec!["a._"]);
    let cut_at_blank = format!("{}%20y", "x".repeat(63));
    assert_eq!(request_path_segments(&format!("/{cut_at_blank}")), vec![format!("{}_", "x".repeat(63))]);
    let padded = format!("nul{}y", "%20".repeat(80));
    assert_eq!(request_path_segments(&format!("/{padded}")), vec![format!("nul{}_", " ".repeat(60))]);
}

#[test]
fn no_segment_holds_a_control_character() {
    assert_eq!(request_path_segments("/a%00%1F%7Fb"), vec!["a___b"]);
    assert_eq!(request_path_segments("/a%C2%80%C2%85%C2%9Fb"), vec!["a___b"]);
    assert_eq!(request_path_segments("/a%C2%A0b"), vec!["a\u{a0}b"]);
}

#[test]
fn segments_are_hidden_only_where_they_step_up() {
    assert_eq!(request_path_segments("/.a%2F.."), vec!["_"]);
    assert_eq!(request_path_segments("/%2Fabc"), vec!["_"]);
    assert_eq!(request_path_segments("/a%2F..%2Fb"), vec!["_"]);
    assert_eq!(request_path_segments("/%2Ehidden"), vec!["_.hidden"]);
    assert_eq!(request_path_segments("/..x"), vec!["_..x"]);
    assert_eq!(request_path_segments("/%2e%2e%2Fx"), vec!["%2e%2e%2Fx"]);
    assert_eq!(request_path_segments("/..%2F."), vec!["..%2F_"]);
    assert_eq!(segment_name("..", "../x"), "_");
    assert_eq!(segment_name("..x", "../x"), "_..x");
}

#[test]
fn windows_devices_are_known() {
    for name in ["con", "PRN", "Aux", "nul.txt", "com0", "LPT9.x", "nul .txt", "COM\u{b9}", "lpt\u{b3}.a"] {
        assert!(is_reserved_windows_name(name), "{name}");
    }
    for name in ["console", "com", "com10", "lptx", "_nul", "", " nul", "com\u{b9}1"] {
        assert!(!is_reserved_windows_name(name), "{name}");
    }
    assert_eq!(request_path_segments("/nul%20"), vec!["nul_"]);
    assert_eq!(request_path_segments("/nul%20.txt"), vec!["_nul .txt"]);
    assert_eq!(request_path_segments("/COM%C2%B9"), vec!["_COM\u{b9}"]);
    assert_eq!(request_path_segments("/LPT%C2%B2.log"), vec!["_LPT\u{b2}.log"]);
}

#[test]
fn folders_are_pruned_up_to_the_first_that_stays() {
    let mut pruning = Pruning::new(names(&["a/b/c", "a/b", "a"]));
    assert_eq!(pruning.next_folder(), Some("a/b/c"));
    pruning.tried(true);
    assert_eq!(pruning.next_folder(), Some("a/b"));
    pruning.tried(false);
    assert_eq!(pruning.next_folder(), None);
    let mut pruning = Pruning::new(names(&["a"]));
    pruning.tried(true);
    assert_eq!(pruning.next_folder(), None);
    pruning.tried(true);
    assert_eq!(pruning.next_folder(), None);
}

#[test]
fn lists_are_bounded() {
    assert_eq!(LISTED_REQUESTS, 200);
    assert_eq!(COUNTED_REQUESTS, 5000);
    let many: Vec<FoundRecord> =
        (0..5001).map(|i: i64| found(&format!("r{i}"), "/svc", i)).collect();
    assert_eq!(storage().dashboard(many).total_requests, COUNTED_REQUESTS);
}

#[test]
fn records_are_laid_out_by_path_and_time() {
    let shown = LocalTime { year: 2026, month: 7, day: 15, hour: 16, minute: 20, second: 31 };
    let paths = storage().paths_at("/test1/test2/test3", shown, "id", BodyMode::Raw);
    assert_eq!(paths.meta_path(), "data/test1/test2/test3/2026/07/15/16/20/id.json");
    assert_eq!(
        paths.temporary_path(),
        "data/test1/test2/test3/2026/07/15/16/20/id.json.tmp"
    );
    assert_eq!(
        paths.body_path(),
        Some("data/test1/test2/test3/2026/07/15/16/20/id.body.bin")
    );
    assert_eq!(paths.body_file_name().as_deref(), Some("id.body.bin"));

    let paths = storage().paths_at("/", shown, "id", BodyMode::MetadataOnly);
    assert_eq!(paths.meta_path(), "data/_root/2026/07/15/16/20/id.json");
    assert_eq!(paths.body_path(), None);
    assert_eq!(paths.body_file_name(), None);

    let paths = storage().paths_for(
        "/a",
        &Moment::new(1_784_103_631, 0, 28_800).unwrap(),
        "id",
        BodyMode::Compressed,
    );
    assert_eq!(paths.meta_path(), "data/a/2026/07/15/16/20/id.json");
    assert_eq!(paths.body_file_name().as_deref(), Some("id.body.bin.gz"));

    let early = LocalTime { year: -5, month: 1, day: 2, hour: 3, minute: 4, second: 5 };
    let paths = LocalStorage::new("/srv/".to_string()).paths_at("/a", early, "id", BodyMode::Raw);
    assert_eq!(paths.meta_path(), "/srv/a/-005/01/02/03/04/id.json");
    assert_eq!(storage().root(), "data");
}

#[test]
fn clocks_show_the_local_date_and_time() {
    let shown = Moment::new(1_784_103_631, 0, 28_800).unwrap().local_time();
    assert_eq!(
        shown,
        LocalTime { year: 2026, month: 7, day: 15, hour: 16, minute: 20, second: 31 }
    );
    let before = Moment::new(-1, 999_999_999, 0).unwrap();
    assert_eq!(
        before.local_time(),
        LocalTime { year: 1969, month: 12, day: 31, hour: 23, minute: 59, second: 59 }
    );
    assert_eq!(before.unix_nanos(), -1);
    assert_eq!(
        Moment::new(1_784_103_631, 922_460_000, 28_800).unwrap().to_rfc3339(),
        "2026-07-15T16:20:31.922460+08:00"
    );
    assert_eq!(
        Moment::new(1_784_103_631, 5, -3_600).unwrap().listing_text(),
        "2026-07-15 07:20:31"
    );
    assert!(Moment::new(0, 1_000_000_000, 0).is_none());
    assert!(Moment::new(0, 0, 86_400).is_none());
    assert!(Moment::new(i64::MAX, 0, 0).is_none());
    assert!(Moment::new(FIRST_SECOND - 1, 0, 0).is_none());
    assert!(Moment::new(LAST_SECOND + 1, 0, 0).is_none());
    let first = Moment::new(FIRST_SECOND, 0, -86_399).unwrap();
    assert_eq!(first.local_time().year, -262_144);
    let last = Moment::new(LAST_SECOND, 1_999_999_999, 86_399).unwrap();
    assert_eq!(last.local_time().year, 262_143);
    assert_eq!(last.listing_text(), "+262143-01-01 23:59:59");
    assert!(first.to_rfc3339().starts_with("-262144-12-31T00:00:01"));
}

#[test]
fn listed_years_have_four_digits_or_a_sign() {
    let at = |secs: i64| Moment::new(secs, 0, 0).unwrap().listing_text();
    assert_eq!(at(-62_009_276_277), "0005-01-02 01:02:03");
    assert_eq!(at(-62_324_899_200), "-0005-01-02 00:00:00");
    assert_eq!(at(253_402_300_800), "+10000-01-01 00:00:00");
    assert_eq!(at(253_402_300_799), "9999-12-31 23:59:59");
}

#[test]
fn leap_seconds_are_told_apart() {
    let leap = Moment::new(1_483_228_799, 1_500_000_000, 0).unwrap();
    assert_eq!(leap.to_rfc3339(), "2016-12-31T23:59:60.500+00:00");
    assert_eq!(leap.listing_text(), "2016-12-31 23:59:60");
    assert_eq!(leap.subsec_nanos(), 1_500_000_000);
    assert_eq!(leap.unix_nanos(), 1_483_228_800_500_000_000);
    let next = Moment::new(1_483_228_800, 300_000_000, 0).unwrap();
    assert!(leap.precedes(&next));
    assert!(!next.precedes(&leap));
    assert!(Moment::new(1_483_228_798, 1_000_000_000, 0).is_none());
    assert!(Moment::new(1_483_228_799, 2_000_000_000, 0).is_none());
    assert!(Moment::new(-1, 1_000_000_000, 0).is_some());
    let mut early = found("early", "/", 0);
    early.meta.received_at = leap;
    let mut late = found("late", "/", 0);
    late.meta.received_at = next;
    assert_eq!(ids(&storage().recent(vec![early, late], 2, None)), vec!["late", "early"]);
}

#[test]
fn paths_are_joined_by_single_slashes() {
    assert_eq!(join_path("data", "a"), "data/a");
    assert_eq!(join_path("data/", "a"), "data/a");
    assert_eq!(join_path("", "a"), "a");
    assert_eq!(join_path("data", "/abs"), "/abs");
    assert_eq!(storage().path_of(&names(&["a", "b", "c"])), "data/a/b/c");
    assert_eq!(storage().path_of(&vec![]), "data");
}

#[test]
fn metadata_files_are_told_by_their_names() {
    assert!(is_metadata_file("x.json"));
    assert!(is_metadata_file("..json"));
    assert!(!is_metadata_file(".json"));
    assert!(!is_metadata_file("x.json.tmp"));
    assert!(!is_metadata_file("x.body.bin"));
    assert!(names_record("id1.json", "id1"));
    assert!(!names_record("id1.json", "id"));
    assert!(!names_record(".json", ""));
    assert!(!names_record("id1.body.bin", "id1"));
}

#[test]
fn latest_records_come_first() {
    let listing = storage().recent(
        vec![
            found("a", "/svc", 10),
            found("c", "/svc/x", 30),
            found("b", "/svcx", 20),
            found("d", "/svc/y", 30),
            found("e", "/other", 40),
        ],
        10,
        None,
    );
    assert_eq!(ids(&listing), vec!["e", "d", "c", "b", "a"]);
    assert_eq!(listing[0].meta_path, "data/svc/e.json");
    assert_eq!(listing[0].body_path, None);

    let some = vec![found("a", "/svc", 10), found("b", "/svcx", 20), found("c", "/svc/x", 30)];
    let listing = storage().recent(some, 10, Some("/svc"));
    assert_eq!(ids(&listing), vec!["c", "a"]);

    let some = vec![found("a", "/", 10), found("b", "/", 20), found("c", "/", 30)];
    assert_eq!(ids(&storage().recent(some, 2, None)), vec!["c", "b"]);
    assert_eq!(latest_records(vec![], 5, Some("/")).len(), 0);
}

#[test]
fn record_is_found_by_the_name_of_its_file() {
    let mut with_body = found("b", "/svc", 20);
    with_body.meta.body.object = Some("b.body.bin".to_string());
    let record = storage()
        .find_by_id(vec![found("a", "/svc", 10), with_body], "b")
        .unwrap();
    assert_eq!(record.meta.id, "b");
    assert_eq!(record.meta_path, "data/svc/b.json");
    assert_eq!(record.body_path.as_deref(), Some("data/svc/b.body.bin"));
    assert!(storage().find_by_id(vec![found("a", "/svc", 10)], "b").is_none());
    assert!(storage().find_by_id(vec![], "b").is_none());
}

#[test]
fn stored_record_is_found_again_and_removed_where_it_was_put() {
    let shown = LocalTime { year: 2026, month: 7, day: 15, hour: 16, minute: 20, second: 31 };
    let paths = storage().paths_at("/svc/hook", shown, "id-1", BodyMode::Compressed);
    let place = names(&["svc", "hook", "2026", "07", "15", "16", "20", "id-1.json"]);
    let again = || FoundRecord {
        place: place.clone(),
        meta: meta("id-1", "/svc/hook", 1_000, paths.body_file_name().as_deref()),
    };
    let record = storage().find_by_id(vec![again()], "id-1").unwrap();
    assert_eq!(record.meta_path, paths.meta_path());
    assert_eq!(record.body_path.as_deref(), paths.body_path());
    let removal = storage().cleanup_expired(&ttl_config(0), again(), 1_000_000_000_000).unwrap();
    assert_eq!(removal.meta_path, paths.meta_path());
    assert_eq!(removal.body_path.as_deref(), paths.body_path());
    assert_eq!(removal.folders[0], "data/svc/hook/2026/07/15/16/20");
}

#[test]
fn dashboard_adds_up_what_was_captured() {
    let mut records = vec![];
    for i in 0..3 {
        records.push(found(&format!("a{i}"), "/b", 10 + i));
    }
    for i in 0..3 {
        records.push(found(&format!("b{i}"), "/a", 20 + i));
    }
    let mut broken = found("c", "/c", 40);
    broken.meta.body.complete = false;
    broken.meta.method = "GET".to_string();
    records.push(broken);
    let stats = storage().dashboard(records);
    assert_eq!(stats.total_requests, 7);
    assert_eq!(stats.complete_requests, 6);
    assert_eq!(stats.incomplete_requests, 1);
    assert_eq!(stats.stored_body_bytes, 70);
    assert_eq!(
        stats.top_paths,
        vec![("/a".to_string(), 3), ("/b".to_string(), 3), ("/c".to_string(), 1)]
    );
    assert_eq!(stats.top_methods, vec![("POST".to_string(), 6), ("GET".to_string(), 1)]);
    let nothing = add_up(&vec![]);
    assert_eq!(nothing.total_requests, 0);
    assert_eq!(nothing.top_paths.len(), 0);
}

#[test]
fn only_the_greatest_counts_are_listed() {
    let mut counts: OrderedTable<usize> = OrderedTable::new();
    for i in 0..12 {
        counts.insert(format!("/p{i:02}"), (i * 7) % 12);
    }
    let list = sorted_counts(&counts, 8);
    assert_eq!(list.len(), 8);
    let listed: Vec<usize> = list.iter().map(|(_, count)| *count).collect();
    assert_eq!(listed, vec![11, 10, 9, 8, 7, 6, 5, 4]);
    assert_eq!(list[0].0, "/p05");
}

#[test]
fn records_expire_when_their_time_is_over() {
    let mut config = ttl_config(10 * SECOND);
    config.paths = vec![PathRule {
        path_match: "/long".to_string(),
        ttl: Some(100 * SECOND),
        body_mode: None,
        preview_limit: None,
        max_body_size: None,
    }];
    let record = meta("id", "/svc", 1_000, None);
    assert!(!is_expired(&config, &record, 1_009_999_999_999));
    assert!(is_expired(&config, &record, 1_010_000_000_000));
    assert!(is_expired(&config, &record, i128::MAX));
    assert!(!is_expired(&config, &record, i128::MIN));
    let longer = meta("id", "/long/x", 1_000, None);
    assert!(!is_expired(&config, &longer, 1_099_999_999_999));
    assert!(is_expired(&config, &longer, 1_100_000_000_000));
    assert!(is_expired(&ttl_config(0), &record, 0));
    let expiry = expires_at(&record.received_at, 10 * SECOND);
    assert_eq!(expiry, 1_010_000_000_000);
    for now in [expiry - 1, expiry, expiry + 1] {
        assert_eq!(is_expired(&config, &record, now), now >= expiry);
    }
}

#[test]
fn files_rest_for_the_grace_period() {
    assert!(is_older_than(Some(5), 10, 5));
    assert!(!is_older_than(Some(6), 10, 5));
    assert!(!is_older_than(Some(11), 10, 0));
    assert!(!is_older_than(None, 10, 0));
    assert!(is_older_than(Some(i128::MIN), i128::MAX, u128::MAX));
}

#[test]
fn sweep_tells_leftovers_from_bodies() {
    let check = |name: &str| sweep_check(Some(name), Some(0), 100, 10);
    assert!(matches!(check("x.json.tmp"), SweepCheck::Remove));
    assert!(matches!(check("x.body.bin.gz"), SweepCheck::RemoveUnless(ref n) if n == "x.json"));
    assert!(matches!(check("x.body.bin"), SweepCheck::RemoveUnless(ref n) if n == "x.json"));
    assert!(matches!(check("notes.txt"), SweepCheck::Keep));
    assert!(matches!(check("x.json"), SweepCheck::Keep));
    assert!(matches!(sweep_check(Some("x.json.tmp"), Some(95), 100, 10), SweepCheck::Keep));
    assert!(matches!(sweep_check(None, Some(0), 100, 10), SweepCheck::Keep));
    assert!(sweeps(&check("x.json.tmp"), None));
    assert!(sweeps(&check("x.body.bin"), Some(false)));
    assert!(!sweeps(&check("x.body.bin"), Some(true)));
    assert!(!sweeps(&check("x.body.bin"), None));
    assert!(!sweeps(&check("notes.txt"), Some(false)));
}

#[test]
fn folders_are_pruned_from_the_inside_out() {
    let around = folders_around(&names(&["a", "b", "c", "x.json"]));
    assert_eq!(around, vec![names(&["a", "b", "c"]), names(&["a", "b"]), names(&["a"])]);
    assert!(folders_around(&names(&["x.json"])).is_empty());
    assert!(folders_around(&vec![]).is_empty());

    let ordered = sweep_order(vec![
        entry(&["a"]),
        entry(&["a", "b"]),
        entry(&["z"]),
        entry(&["a", "b", "c"]),
    ]);
    let depths: Vec<usize> = ordered.iter().map(|e| e.place.len()).collect();
    assert_eq!(depths, vec![3, 2, 1, 1]);
    assert_eq!(ordered[2].place, names(&["a"]));
}

#[test]
fn cleanup_deletes_expired_records_and_their_folders() {
    let removal = storage()
        .cleanup_expired(
            &ttl_config(0),
            FoundRecord {
                place: names(&["svc", "hook", "2026", "07", "15", "16", "20", "id1.json"]),
                meta: meta("id1", "/svc/hook", 1_000, Some("id1.body.bin")),
            },
            1_000_000_000_000,
        )
        .unwrap();
    let folder = "data/svc/hook/2026/07/15/16/20";
    assert_eq!(removal.meta_path, format!("{folder}/id1.json"));
    assert_eq!(removal.body_path, Some(format!("{folder}/id1.body.bin")));
    assert_eq!(removal.folders.len(), 7);
    assert_eq!(removal.folders[0], folder);
    assert_eq!(removal.folders[6], "data/svc");
}

#[test]
fn cleanup_deletes_orphans_and_empty_folders_but_keeps_live_records() {
    let config = ttl_config(3600 * SECOND);
    let plan = plan_cleanup(
        vec![
            entry(&["live", "live1.body.bin"]),
            entry(&["live", "live1.json"]),
            entry(&["gone", "2026", "01", "x.json.tmp"]),
            entry(&["gone", "2026", "01", "orphan.body.bin.gz"]),
        ],
        vec![entry(&["live"]), entry(&["gone"]), entry(&["gone", "2026"]), entry(&["empty", "nested"])],
    );
    assert_eq!(plan.records.len(), 1);
    assert_eq!(plan.records[0].place, names(&["live", "live1.json"]));
    assert_eq!(plan.others.len(), 3);
    let folders: Vec<Vec<String>> = plan.folders.iter().map(|folder| folder.place.clone()).collect();
    assert_eq!(
        folders,
        vec![names(&["gone", "2026"]), names(&["empty", "nested"]), names(&["live"]), names(&["gone"])]
    );

    let now: i128 = 1_000_000_000_000;
    for folder in &plan.folders {
        assert!(
            is_older_than(Some(now), now, config.retention.prune_grace),
            "{:?}",
            folder.place
        );
    }
    assert!(!is_older_than(Some(now), now, SECOND));
    let live = FoundRecord {
        place: names(&["live", "live1.json"]),
        meta: meta("live1", "/live", 1_000, Some("live1.body.bin")),
    };
    assert!(storage().cleanup_expired(&config, live, now).is_none());

    let there = |name: &str| Some(name == "live1.json");
    let swept: Vec<String> = plan
        .others
        .iter()
        .map(|file| file.place[file.place.len() - 1].clone())
        .filter(|name| {
            let check = sweep_check(Some(name.as_str()), Some(now), now, config.retention.prune_grace);
            let found = match &check {
                SweepCheck::RemoveUnless(other) => there(other),
                _ => None,
            };
            sweeps(&check, found)
        })
        .collect();
    assert_eq!(swept, vec!["x.json.tmp", "orphan.body.bin.gz"]);
}
