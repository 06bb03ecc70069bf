//! Signing in and out, and the pages that a request asks for.

use webhook::admin::{
    handle_admin, is_admin_path, login_submit, logout, route, sign_in_first, signed_in,
    to_dashboard, AdminRoute,
};
use webhook::auth::{
    check_form, check_login, constant_time_eq, credentials_match, decode_component,
    decoded_component, form_value, genpassword, is_authorized, parse_form, password_made,
    password_matches, password_notice, session_cookie, startup_warning, LoginOutcome,
    PasswordError, LOGIN_FORM_LIMIT, SESSION_COOKIE,
};
use webhook::body::{BodyAction, BodyEvent, BodyIntake};
use webhook::capture::{close_capture, open_capture, IncomingRequest};
use webhook::config::Config;
use webhook::headers::Header;
use webhook::pages::{dashboard, login_page};
use webhook::records::add_up;
use webhook::response::{capture_reply, redirect, redirect_with_cookie, HttpReply};
use webhook::sessions::{Sessions, SESSION_TTL};
use webhook::storage::LocalStorage;
use webhook::time::Moment;

fn header(name: &str, value: &str) -> Header {
    Header { name: name.to_string(), value: value.as_bytes().to_vec() }
}

fn sent(reply: &HttpReply, name: &str) -> Option<String> {
    reply.headers.get(name).cloned()
}

fn locked_config() -> Config {
    let mut config = Config::default();
    config.admin.password = Some("s3cret pass".to_string());
    config
}

#[test]
fn password_matches_supports_bcrypt_and_plaintext() {
    let hash = bcrypt::hash("hello", 4).expect("hash");
    assert!(password_matches(&hash, "hello"));
    assert!(!password_matches(&hash, "hellO"));
    assert!(password_matches("plain", "plain"));
    assert!(!password_matches("plain", "plain2"));
}

#[test]
fn stored_passwords_are_trimmed_and_broken_hashes_fit_nothing() {
    assert!(password_matches("  plain\n", "plain"));
    assert!(!password_matches("plain", " plain"));
    assert!(!password_matches("$2", "$2"));
    assert!(!password_matches("$2b$12$short", "$2b$12$short"));
    let hash = bcrypt::hash("hello", 4).expect("hash");
    assert!(password_matches(&format!(" {hash}\n"), "hello"));
    assert!(constant_time_eq(b"", b""));
    assert!(constant_time_eq(b"abc", b"abc"));
    assert!(!constant_time_eq(b"abc", b"abd"));
    assert!(!constant_time_eq(b"abc", b"ab"));
}

#[test]
fn new_passwords_are_entered_twice() {
    let mismatch = genpassword("a", "b").unwrap_err();
    assert!(matches!(mismatch, PasswordError::Mismatch));
    assert_eq!(mismatch.message(), "passwords do not match");
    let empty = genpassword("", "").unwrap_err();
    assert!(matches!(empty, PasswordError::Empty));
    assert_eq!(empty.message(), "password must not be empty");
    let failed = password_made(Err("no randomness".to_string())).unwrap_err();
    assert!(matches!(failed, PasswordError::Hash(_)));
    assert_eq!(failed.message(), "no randomness");
    assert_eq!(password_made(Ok("$2b$x".to_string())).unwrap(), "$2b$x");
    let hash = genpassword("correct horse", "correct horse").unwrap();
    assert!(hash.starts_with("$2b$12$"));
    assert!(password_matches(&hash, "correct horse"));
    assert!(!password_matches(&hash, "battery staple"));
    assert_eq!(
        password_notice("$2b$x"),
        "$2b$x\n\nPut this in config.toml:\n\n[admin]\nusername = \"admin\"\npassword = \"$2b$x\""
    );
}

#[test]
fn weak_passwords_are_warned_of_at_the_start() {
    let mut config = Config::default();
    assert_eq!(
        startup_warning(&config.admin),
        Some("admin.password is not configured; the admin UI requires no login")
    );
    config.admin.password = Some("plain".to_string());
    assert_eq!(
        startup_warning(&config.admin),
        Some("admin.password is plaintext; generate a bcrypt hash with the genpassword subcommand")
    );
    config.admin.password = Some("$2b$12$x".to_string());
    assert_eq!(startup_warning(&config.admin), None);
}

#[test]
fn admin_ui_requires_login_and_webform_auth_works() {
    let config = locked_config();
    let storage = LocalStorage::new("data".to_string());
    let mut sessions = Sessions::new();
    let now: i128 = 1_784_103_631_000_000_000;
    let host = vec![header("host", "localhost")];

    let asked = handle_admin(&config, &mut sessions, "/_wh_admin/", "GET", &host, now);
    assert!(matches!(asked, AdminRoute::SignInFirst));
    let first = sign_in_first(&config);
    assert_eq!(first.status, 303);
    assert_eq!(sent(&first, "location").as_deref(), Some("/_wh_admin/login"));

    let asked = handle_admin(&config, &mut sessions, "/_wh_admin/login", "GET", &host, now);
    assert!(matches!(asked, AdminRoute::LoginPage));
    let login = login_page(&config, None, 200);
    assert_eq!(login.status, 200);
    assert!(login.body.contains("Sign in"));

    let asked = handle_admin(&config, &mut sessions, "/_wh_admin/login", "POST", &host, now);
    assert!(matches!(asked, AdminRoute::LoginSubmit));
    let outcome = check_login(&config.admin, Some(b"username=admin&password=wrong"));
    assert_eq!(outcome, LoginOutcome::Denied);
    let bad = login_submit(&config, &mut sessions, outcome, now);
    assert_eq!(bad.status, 401);
    assert!(bad.body.contains("Invalid username or password."));

    // `+` must decode to a space in the form body.
    let outcome = check_login(&config.admin, Some(b"username=admin&password=s3cret+pass"));
    assert_eq!(outcome, LoginOutcome::Granted);
    let good = login_submit(&config, &mut sessions, outcome, now);
    assert_eq!(good.status, 303);
    assert_eq!(sent(&good, "location").as_deref(), Some("/_wh_admin/"));
    let set = sent(&good, "set-cookie").expect("session cookie");
    assert!(set.ends_with("; Path=/_wh_admin; HttpOnly; SameSite=Lax; Max-Age=86400"));
    let cookie = set.split(';').next().expect("cookie").to_string();
    assert!(cookie.starts_with("wh_admin_session="), "{cookie}");
    assert_eq!(cookie.len(), "wh_admin_session=".len() + 48);

    let signed = vec![header("host", "localhost"), header("cookie", &cookie)];
    let asked = handle_admin(&config, &mut sessions, "/_wh_admin/", "GET", &signed, now);
    assert!(matches!(asked, AdminRoute::Dashboard));
    let authed = dashboard(&config, &storage, &add_up(&vec![]));
    assert_eq!(authed.status, 200);
    assert!(authed.body.contains("Dashboard"));
    let asked = handle_admin(&config, &mut sessions, "/_wh_admin/login", "GET", &signed, now);
    assert!(matches!(asked, AdminRoute::AlreadySignedIn));

    // The admin prefix must not swallow lookalike capture paths.
    assert!(!is_admin_path(&config, "/_wh_adminfoo"));
    assert!(is_admin_path(&config, "/_wh_admin"));
    assert!(is_admin_path(&config, "/_wh_admin/requests"));
    let request = IncomingRequest {
        method: "POST".to_string(),
        uri: "/_wh_adminfoo".to_string(),
        path: "/_wh_adminfoo".to_string(),
        query: None,
        headers: vec![header("host", "localhost"), header("content-length", "2")],
    };
    let moment = Moment::new(1_784_103_631, 0, 0).unwrap();
    let capture = open_capture(&config, &storage, "test-host", moment, &request);
    assert_eq!(capture.over_limit, None);
    let mut intake = BodyIntake::new(&capture.rule);
    for event in [
        BodyEvent::Opened,
        BodyEvent::Chunk("hi".len() as u64),
        BodyEvent::Written,
        BodyEvent::Ended,
        BodyEvent::Closed,
        BodyEvent::Measured(Some(22)),
    ] {
        intake.observe(event);
    }
    assert_eq!(intake.action(), BodyAction::Finish);
    let body = intake.finish(capture.paths.body_file_name(), &request.headers);
    let (meta, summary) = close_capture(&capture, &request, body);
    assert_eq!(meta.path, "/_wh_adminfoo");
    assert!(summary.success);
    let lookalike = capture_reply(&config, &request.path, &summary, "{\"success\":true}");
    assert_eq!(lookalike.status, 200);
    assert_eq!(lookalike.body, "{\"success\":true}");

    // A session ends after a day, and when it is ended.
    let late = now + SESSION_TTL;
    let mut copy = Sessions::new();
    copy.begin(cookie["wh_admin_session=".len()..].to_string(), now);
    let asked = handle_admin(&config, &mut copy, "/_wh_admin/", "GET", &signed, late - 1);
    assert!(matches!(asked, AdminRoute::Dashboard));
    let asked = handle_admin(&config, &mut copy, "/_wh_admin/", "GET", &signed, late);
    assert!(matches!(asked, AdminRoute::SignInFirst));

    let out = logout(&config, &mut sessions, &signed);
    assert_eq!(out.status, 303);
    assert_eq!(sent(&out, "location").as_deref(), Some("/_wh_admin/login"));
    assert_eq!(
        sent(&out, "set-cookie").as_deref(),
        Some("wh_admin_session=; Path=/_wh_admin; HttpOnly; SameSite=Lax; Max-Age=0")
    );
    let asked = handle_admin(&config, &mut sessions, "/_wh_admin/", "GET", &signed, now);
    assert!(matches!(asked, AdminRoute::SignInFirst));
}

#[test]
fn admin_prefix_may_end_in_slashes() {
    let mut config = Config::default();
    config.server.admin_prefix = "/adm//".to_string();
    assert!(is_admin_path(&config, "/adm"));
    assert!(is_admin_path(&config, "/adm/x"));
    assert!(!is_admin_path(&config, "/admx"));
    assert_eq!(sent(&to_dashboard(&config), "location").as_deref(), Some("/adm/"));
    config.server.admin_prefix = "/".to_string();
    assert!(is_admin_path(&config, "/anything"));
    assert!(is_admin_path(&config, ""));
}

#[test]
fn routes_lead_to_their_pages() {
    let config = Config::default();
    let to = |path: &str, method: &str, authorized: bool| {
        format!("{:?}", route(&config, path, method, authorized))
    };
    assert_eq!(to("/_wh_admin/style.css", "GET", false), "StyleSheet");
    assert_eq!(to("/_wh_admin/login", "GET", true), "AlreadySignedIn");
    assert_eq!(to("/_wh_admin/login", "GET", false), "LoginPage");
    assert_eq!(to("/_wh_admin/login", "POST", true), "LoginSubmit");
    assert_eq!(to("/_wh_admin/login", "PUT", false), "SignInFirst");
    assert_eq!(to("/_wh_admin/login", "PUT", true), "NotFound");
    assert_eq!(to("/_wh_admin/logout", "GET", false), "Logout");
    assert_eq!(to("/_wh_admin/requests", "GET", false), "SignInFirst");
    assert_eq!(to("/_wh_admin", "GET", true), "Dashboard");
    assert_eq!(to("/_wh_admin/", "POST", true), "Dashboard");
    assert_eq!(to("/_wh_admin/requests", "GET", true), "Requests");
    assert_eq!(to("/_wh_admin/requests/abc", "GET", true), "RequestDetail(\"abc\")");
    assert_eq!(
        to("/_wh_admin/requests//requests/abc", "GET", true),
        "RequestDetail(\"abc\")"
    );
    assert_eq!(to("/_wh_admin/requests/", "GET", true), "RequestDetail(\"\")");
    assert_eq!(to("/_wh_admin/nothing", "GET", true), "NotFound");
}

#[test]
fn nobody_has_to_sign_in_without_a_password() {
    let config = Config::default();
    let mut sessions = Sessions::new();
    let asked = handle_admin(&config, &mut sessions, "/_wh_admin/requests", "GET", &vec![], 0);
    assert!(matches!(asked, AdminRoute::Requests));
    let outcome = check_login(&config.admin, None);
    assert_eq!(outcome, LoginOutcome::NotNeeded);
    let reply = login_submit(&config, &mut sessions, outcome, 0);
    assert_eq!(reply.status, 303);
    assert_eq!(sent(&reply, "location").as_deref(), Some("/_wh_admin/"));
    assert_eq!(sent(&reply, "set-cookie"), None);
    assert!(!credentials_match(&config.admin, "admin", ""));
}

#[test]
fn unreadable_login_form_is_refused() {
    let config = locked_config();
    let mut sessions = Sessions::default();
    let outcome = check_login(&config.admin, None);
    assert_eq!(outcome, LoginOutcome::Unreadable);
    let reply = login_submit(&config, &mut sessions, outcome, 0);
    assert_eq!(reply.status, 400);
    assert!(reply.body.contains("Could not read the login form."));
    assert_eq!(LOGIN_FORM_LIMIT, 16 * 1024);
}

#[test]
fn login_form_needs_the_right_name_and_password() {
    let config = locked_config();
    assert_eq!(
        check_form(&config.admin, "username=admin&password=s3cret%20pass"),
        LoginOutcome::Granted
    );
    assert_eq!(
        check_form(&config.admin, "username=root&password=s3cret+pass"),
        LoginOutcome::Denied
    );
    assert_eq!(check_form(&config.admin, "password=s3cret+pass"), LoginOutcome::Denied);
    assert_eq!(check_form(&config.admin, ""), LoginOutcome::Denied);
    assert!(credentials_match(&config.admin, "admin", "s3cret pass"));
    let odd = [b"username=admin&password=s3cret+pass".as_slice(), &[0xff]].concat();
    assert_eq!(check_login(&config.admin, Some(&odd)), LoginOutcome::Denied);
}

#[test]
fn forms_are_read_field_by_field() {
    let form = parse_form("a=1&b&c=x%3Dy&=v&a=2&d==");
    let fields: Vec<(&str, &str)> =
        form.iter().map(|(key, value)| (key.as_str(), value.as_str())).collect();
    assert_eq!(fields, vec![("a", "1"), ("c", "x=y"), ("", "v"), ("a", "2"), ("d", "=")]);
    assert_eq!(form_value(&form, "a").as_deref(), Some("1"));
    assert_eq!(form_value(&form, "b"), None);
    assert!(parse_form("").is_empty());
    assert_eq!(decode_component("a+b%2Bc"), "a b+c");
    assert_eq!(decode_component("%E2%98%83"), "☃");
    assert_eq!(decode_component("%ff+x"), "%ff x");
    assert_eq!(decoded_component("a+b", None), "a b");
    assert_eq!(decoded_component("a+b", Some("done".to_string())), "done");
}

#[test]
fn session_token_is_read_from_the_cookies() {
    let token = |values: &[&str]| {
        session_cookie(&values.iter().map(|v| header("cookie", v)).collect())
    };
    assert_eq!(token(&["wh_admin_session=abc"]).as_deref(), Some("abc"));
    assert_eq!(token(&["x=1;  wh_admin_session=abc ; y=2"]).as_deref(), Some("abc"));
    assert_eq!(token(&["x=1", "wh_admin_session="]).as_deref(), Some(""));
    assert_eq!(token(&["wh_admin_sessions=abc"]), None);
    assert_eq!(token(&[]), None);
    assert_eq!(session_cookie(&vec![header("x", "wh_admin_session=abc")]), None);
    let unreadable = vec![
        Header { name: "cookie".to_string(), value: vec![0xff] },
        header("cookie", "wh_admin_session=later"),
    ];
    assert_eq!(session_cookie(&unreadable).as_deref(), Some("later"));
    assert_eq!(SESSION_COOKIE, "wh_admin_session");
}

#[test]
fn sessions_last_a_day_and_do_not_disturb_each_other() {
    let mut sessions = Sessions::new();
    let first = sessions.create(1_000);
    let second = sessions.create(2_000);
    assert_ne!(first, second);
    assert_eq!(first.len(), 48);
    assert!(first.chars().all(|c| c.is_ascii_alphanumeric()));
    assert!(sessions.is_valid(&first, 1_000));
    assert!(sessions.is_valid(&first, 999 + SESSION_TTL));
    assert!(sessions.is_valid(&second, 999 + SESSION_TTL));
    assert!(!sessions.is_valid(&first, 1_000 + SESSION_TTL));
    assert!(sessions.is_valid(&second, 1_000 + SESSION_TTL));
    assert!(!sessions.is_valid("unknown", 0));
    let third = sessions.create(3_000);
    sessions.remove(&third);
    sessions.remove("unknown");
    assert!(!sessions.is_valid(&third, 3_000));
    assert!(sessions.is_valid(&second, 3_000));
    assert_eq!(SESSION_TTL, 24 * 60 * 60 * 1_000_000_000);
}

#[test]
fn expired_sessions_are_forgotten() {
    let config = locked_config();
    let mut sessions = Sessions::new();
    sessions.begin("old".to_string(), 0);
    let cookie = vec![header("cookie", "wh_admin_session=old")];
    assert!(is_authorized(&config.admin, &mut sessions, &cookie, SESSION_TTL - 1));
    assert!(!is_authorized(&config.admin, &mut sessions, &cookie, SESSION_TTL));
    // The clock went back, but the session is gone.
    assert!(!is_authorized(&config.admin, &mut sessions, &cookie, 0));

    // What does not depend on who is signed in does not look at the sessions.
    for (path, method) in [
        ("/_wh_admin/style.css", "GET"),
        ("/_wh_admin/login", "POST"),
        ("/_wh_admin/logout", "GET"),
    ] {
        let mut sessions = Sessions::new();
        sessions.begin("old".to_string(), 0);
        handle_admin(&config, &mut sessions, path, method, &cookie, SESSION_TTL);
        assert!(sessions.is_valid("old", 0), "{path}");
    }
    for (path, method) in [("/_wh_admin/login", "GET"), ("/_wh_admin/", "GET")] {
        let mut sessions = Sessions::new();
        sessions.begin("old".to_string(), 0);
        handle_admin(&config, &mut sessions, path, method, &cookie, SESSION_TTL);
        assert!(!sessions.is_valid("old", 0), "{path}");
    }
}

#[test]
fn redirects_leave_out_what_no_header_can_hold() {
    let plain = redirect("/x");
    assert_eq!(plain.status, 303);
    assert_eq!(plain.body, "");
    assert_eq!(sent(&plain, "location").as_deref(), Some("/x"));
    let broken = redirect("/x\n");
    assert_eq!(broken.status, 303);
    assert_eq!(broken.headers.len(), 0);
    let both = redirect_with_cookie("/x", "a=b");
    assert_eq!(both.headers.len(), 2);
    let no_cookie = redirect_with_cookie("/x", "a=\u{7f}");
    assert_eq!(no_cookie.headers.len(), 1);
    let reply = signed_in(&Config::default(), "tok");
    assert_eq!(
        sent(&reply, "set-cookie").as_deref(),
        Some("wh_admin_session=tok; Path=/_wh_admin; HttpOnly; SameSite=Lax; Max-Age=86400")
    );
}
