//! The administration: which requests are for it, which page each of them asks
//! for, and signing in and out.

use vstd::prelude::*;
use vstd::string::*;

use crate::auth;
use crate::auth::LoginOutcome;
use crate::config::{AdminConfig, Config};
use crate::headers;
use crate::headers::Header;
use crate::pages;
use crate::response;
use crate::response::HttpReply;
use crate::sessions;
use crate::sessions::Sessions;
use crate::text;

verus! {

/// A path is that of the administration or below it.
pub open spec fn is_administrative(config: Config, path: Seq<char>) -> bool {
    path == pages::base_of(config) || (pages::base_of(config) + "/"@).is_prefix_of(path)
}

/// Whether a request is for the administration. All others are captured.
pub fn is_admin_path(config: &Config, path: &str) -> (yes: bool)
    ensures
        yes == is_administrative(*config, path@),
{
    let base: String = pages::admin_base(config);
    if text::same_text(path, base.as_str()) {
        return true;
    }
    let whole: Vec<char> = text::to_chars(path);
    let mut front: Vec<char> = text::to_chars(base.as_str());
    front.push('/');
    proof {
        reveal_strlit("/");
        assert(front@ =~= base@ + "/"@);
    }
    text::starts_with(whole.as_slice(), front.as_slice())
}

/// A path that merely begins like that of the administration is captured.
pub proof fn law_lookalike_is_captured(config: Config, rest: Seq<char>)
    requires
        rest.len() > 0,
    ensures
        is_administrative(config, pages::base_of(config) + rest) <==> rest[0] == '/',
{
    reveal_strlit("/");
    let base = pages::base_of(config);
    let path = base + rest;
    let front = base + "/"@;
    assert(path.len() != base.len());
    if rest[0] == '/' {
        assert(front =~= path.subrange(0, front.len() as int));
    } else if front.is_prefix_of(path) {
        assert(path.subrange(0, front.len() as int)[base.len() as int] == rest[0]);
        assert(front[base.len() as int] == '/');
    }
}

/// What a request to the administration asks for.
#[derive(Debug)]
pub enum AdminRoute {
    /// The style sheet.
    StyleSheet,
    /// The login page.
    LoginPage,
    /// To sign in with the form that is sent.
    LoginSubmit,
    /// To sign out.
    Logout,
    /// Something that one has to sign in for.
    SignInFirst,
    /// The login page, though nobody has to sign in any more.
    AlreadySignedIn,
    /// The dashboard.
    Dashboard,
    /// The list of requests.
    Requests,
    /// The page of the request of this id.
    RequestDetail(String),
    /// Nothing that there is.
    NotFound,
}

/// What a request to the administration asks for.
pub enum Route {
    StyleSheet,
    LoginPage,
    LoginSubmit,
    Logout,
    SignInFirst,
    AlreadySignedIn,
    Dashboard,
    Requests,
    RequestDetail(Seq<char>),
    NotFound,
}

impl View for AdminRoute {
    type V = Route;

    open spec fn view(&self) -> Route {
        match self {
            AdminRoute::StyleSheet => Route::StyleSheet,
            AdminRoute::LoginPage => Route::LoginPage,
            AdminRoute::LoginSubmit => Route::LoginSubmit,
            AdminRoute::Logout => Route::Logout,
            AdminRoute::SignInFirst => Route::SignInFirst,
            AdminRoute::AlreadySignedIn => Route::AlreadySignedIn,
            AdminRoute::Dashboard => Route::Dashboard,
            AdminRoute::Requests => Route::Requests,
            AdminRoute::RequestDetail(id) => Route::RequestDetail(id@),
            AdminRoute::NotFound => Route::NotFound,
        }
    }
}

/// `s` without all the `front`s that it begins with.
pub open spec fn without_leading(s: Seq<char>, front: Seq<char>) -> Seq<char>
    decreases s.len(),
{
    if front.len() > 0 && front.is_prefix_of(s) {
        without_leading(s.skip(front.len() as int), front)
    } else {
        s
    }
}

/// What the path below the prefix of the administration asks for.
pub open spec fn route_for(subpath: Seq<char>, method: Seq<char>, authorized: bool) -> Route {
    if subpath == "/style.css"@ {
        Route::StyleSheet
    } else if subpath == "/login"@ && method == "GET"@ {
        if authorized {
            Route::AlreadySignedIn
        } else {
            Route::LoginPage
        }
    } else if subpath == "/login"@ && method == "POST"@ {
        Route::LoginSubmit
    } else if subpath == "/logout"@ {
        Route::Logout
    } else if !authorized {
        Route::SignInFirst
    } else if subpath == ""@ || subpath == "/"@ {
        Route::Dashboard
    } else if subpath == "/requests"@ {
        Route::Requests
    } else if "/requests/"@.is_prefix_of(subpath) {
        Route::RequestDetail(without_leading(subpath, "/requests/"@))
    } else {
        Route::NotFound
    }
}

/// What comes behind the prefix of the administration in a path.
pub open spec fn subpath_of(config: Config, path: Seq<char>) -> Seq<char> {
    if pages::base_of(config).is_prefix_of(path) {
        path.skip(pages::base_of(config).len() as int)
    } else {
        ""@
    }
}

/// What comes behind the prefix of the administration in a path.
fn subpath(config: &Config, path: &str) -> (rest: String)
    ensures
        rest@ == subpath_of(*config, path@),
{
    let base: String = pages::admin_base(config);
    let front: Vec<char> = text::to_chars(base.as_str());
    let whole: Vec<char> = text::to_chars(path);
    if text::starts_with(whole.as_slice(), front.as_slice()) {
        let rest: Vec<char> = text::slice(whole.as_slice(), front.len(), whole.len());
        assert(rest@ =~= path@.skip(front@.len() as int));
        text::from_chars(rest.as_slice())
    } else {
        "".to_string()
    }
}

/// `s` without all the `front`s that it begins with.
fn trim_front(s: &str, front: &str) -> (rest: String)
    requires
        front@.len() > 0,
    ensures
        rest@ == without_leading(s@, front@),
{
    let mut rest: Vec<char> = text::to_chars(s);
    let mark: Vec<char> = text::to_chars(front);
    while text::starts_with(rest.as_slice(), mark.as_slice())
        invariant
            mark@ == front@,
            front@.len() > 0,
            without_leading(rest@, front@) == without_leading(s@, front@),
        decreases rest@.len(),
    {
        let shorter: Vec<char> = text::slice(rest.as_slice(), mark.len(), rest.len());
        assert(shorter@ =~= rest@.skip(mark@.len() as int));
        rest = shorter;
    }
    text::from_chars(rest.as_slice())
}

/// What a request to the administration asks for. `authorized` says whether it may
/// see the pages.
pub fn route(config: &Config, path: &str, method: &str, authorized: bool) -> (route: AdminRoute)
    ensures
        route@ == route_for(subpath_of(*config, path@), method@, authorized),
{
    let rest: String = subpath(config, path);
    let rest: &str = rest.as_str();
    if text::same_text(rest, "/style.css") {
        return AdminRoute::StyleSheet;
    }
    if text::same_text(rest, "/login") && text::same_text(method, "GET") {
        if authorized {
            return AdminRoute::AlreadySignedIn;
        }
        return AdminRoute::LoginPage;
    }
    if text::same_text(rest, "/login") && text::same_text(method, "POST") {
        return AdminRoute::LoginSubmit;
    }
    if text::same_text(rest, "/logout") {
        return AdminRoute::Logout;
    }
    if !authorized {
        return AdminRoute::SignInFirst;
    }
    if text::same_text(rest, "") || text::same_text(rest, "/") {
        return AdminRoute::Dashboard;
    }
    if text::same_text(rest, "/requests") {
        return AdminRoute::Requests;
    }
    let chars: Vec<char> = text::to_chars(rest);
    let front: Vec<char> = text::to_chars("/requests/");
    if text::starts_with(chars.as_slice(), front.as_slice()) {
        proof {
            reveal_strlit("/requests/");
        }
        AdminRoute::RequestDetail(trim_front(rest, "/requests/"))
    } else {
        AdminRoute::NotFound
    }
}

/// What the path below the prefix asks for depends on who is signed in: all but the
/// style sheet, signing in with a form and signing out.
pub open spec fn depends_on_login(subpath: Seq<char>, method: Seq<char>) -> bool {
    &&& subpath != "/style.css"@
    &&& !(subpath == "/login"@ && method == "POST"@)
    &&& subpath != "/logout"@
}

/// What a request to the administration asks for. Where that depends on who is
/// signed in, the sessions are looked at, and those that have expired forgotten.
pub fn handle_admin(
    config: &Config,
    sessions: &mut Sessions,
    path: &str,
    method: &str,
    headers: &Vec<Header>,
    now: i128,
) -> (asked: AdminRoute)
    ensures
        asked@ == route_for(
            subpath_of(*config, path@),
            method@,
            auth::may_enter(config.admin, old(sessions)@, headers@, now),
        ),
        final(sessions)@ == if depends_on_login(subpath_of(*config, path@), method@)
            && config.admin.password is Some && auth::cookie_token(headers@) is Some {
            sessions::live(old(sessions)@, now)
        } else {
            old(sessions)@
        },
{
    let rest: String = subpath(config, path);
    let rest: &str = rest.as_str();
    let open: bool = text::same_text(rest, "/style.css") || (text::same_text(rest, "/login")
        && text::same_text(method, "POST")) || text::same_text(rest, "/logout");
    proof {
        reveal_strlit("/style.css");
        reveal_strlit("/login");
        reveal_strlit("/logout");
        reveal_strlit("GET");
        reveal_strlit("POST");
        assert("/login"@.len() != "/logout"@.len());
        assert("GET"@.len() != "POST"@.len());
        assert("/style.css"@.len() != "/login"@.len());
    }
    let authorized: bool = if open {
        false
    } else {
        auth::is_authorized(&config.admin, sessions, headers, now)
    };
    route(config, path, method, authorized)
}

/// A page that shows what was captured.
pub open spec fn shows_requests(route: Route) -> bool {
    route is Dashboard || route is Requests || route is RequestDetail
}

/// With a password set, nothing that was captured is shown to a request that does
/// not bring the token of a session, whatever it asks for.
pub proof fn law_login_is_required(
    config: Config,
    sessions: Map<Seq<char>, i128>,
    headers: Seq<Header>,
    now: i128,
    path: Seq<char>,
    method: Seq<char>,
)
    requires
        config.admin.password is Some,
        ({
            ||| auth::cookie_token(headers) is None
            ||| !sessions::live(sessions, now).contains_key(auth::cookie_token(headers)->0)
        }),
    ensures
        !shows_requests(
            route_for(
                subpath_of(config, path),
                method,
                auth::may_enter(config.admin, sessions, headers, now),
            ),
        ),
{
}

/// Without a password, nobody is sent to the login page.
pub proof fn law_without_password_all_is_open(
    config: Config,
    sessions: Map<Seq<char>, i128>,
    headers: Seq<Header>,
    now: i128,
    path: Seq<char>,
    method: Seq<char>,
)
    requires
        config.admin.password is None,
    ensures
        ({
            let asked = route_for(
                subpath_of(config, path),
                method,
                auth::may_enter(config.admin, sessions, headers, now),
            );
            !(asked is SignInFirst) && !(asked is LoginPage)
        }),
{
}

/// The answer to a request that one has to sign in for.
pub fn sign_in_first(config: &Config) -> (reply: HttpReply)
    ensures
        reply@ == response::redirect_reply(
            seq![pages::base_of(*config), "/login"@].flatten(),
        ),
{
    let base: String = pages::admin_base(config);
    let location: String = text::join_two(base.as_str(), "/login");
    response::redirect(location.as_str())
}

/// The answer that leads to the dashboard.
pub fn to_dashboard(config: &Config) -> (reply: HttpReply)
    ensures
        reply@ == response::redirect_reply(seq![pages::base_of(*config), "/"@].flatten()),
{
    let base: String = pages::admin_base(config);
    let location: String = text::join_two(base.as_str(), "/");
    response::redirect(location.as_str())
}

/// The cookie that holds a session token.
pub open spec fn session_cookie_text(base: Seq<char>, token: Seq<char>) -> Seq<char> {
    seq![
        auth::SESSION_COOKIE@,
        "="@,
        token,
        "; Path="@,
        base,
        "; HttpOnly; SameSite=Lax; Max-Age=86400"@,
    ].flatten()
}

/// The cookie that takes a session token away.
pub open spec fn ended_cookie_text(base: Seq<char>) -> Seq<char> {
    seq![
        auth::SESSION_COOKIE@,
        "=; Path="@,
        base,
        "; HttpOnly; SameSite=Lax; Max-Age=0"@,
    ].flatten()
}

/// The answer to one who has signed in: a cookie with the token, and on to the
/// dashboard.
pub fn signed_in(config: &Config, token: &str) -> (reply: HttpReply)
    ensures
        reply@ == response::cookie_reply(
            seq![pages::base_of(*config), "/"@].flatten(),
            session_cookie_text(pages::base_of(*config), token@),
        ),
{
    let base: String = pages::admin_base(config);
    let location: String = text::join_two(base.as_str(), "/");
    let parts: [&str; 6] = [
        auth::SESSION_COOKIE,
        "=",
        token,
        "; Path=",
        base.as_str(),
        "; HttpOnly; SameSite=Lax; Max-Age=86400",
    ];
    assert(text::borrowed_contents(parts@) =~= seq![
        auth::SESSION_COOKIE@,
        "="@,
        token@,
        "; Path="@,
        base@,
        "; HttpOnly; SameSite=Lax; Max-Age=86400"@,
    ]);
    let cookie: String = text::join_parts(&parts);
    response::redirect_with_cookie(location.as_str(), cookie.as_str())
}

/// Answers a request to sign in. Where it is granted, a session begins, under a
/// token that is drawn at random at each call.
pub fn login_submit(
    config: &Config,
    sessions: &mut Sessions,
    outcome: LoginOutcome,
    now: i128,
) -> (reply: HttpReply)
    requires
        now + sessions::SESSION_TTL <= i128::MAX,
    ensures
        match outcome {
            LoginOutcome::NotNeeded => reply@ == response::redirect_reply(
                seq![pages::base_of(*config), "/"@].flatten(),
            ) && final(sessions)@ == old(sessions)@,
            LoginOutcome::Unreadable => reply@ == pages::html_reply(
                400,
                pages::login_html(*config, Some("Could not read the login form."@)),
            ) && final(sessions)@ == old(sessions)@,
            LoginOutcome::Denied => reply@ == pages::html_reply(
                401,
                pages::login_html(*config, Some("Invalid username or password."@)),
            ) && final(sessions)@ == old(sessions)@,
            LoginOutcome::Granted => exists|token: Seq<char>| #[trigger]
                sessions::is_token(token) && final(sessions)@ == sessions::with_session(
                    old(sessions)@,
                    token,
                    now,
                ) && reply@ == response::cookie_reply(
                    seq![pages::base_of(*config), "/"@].flatten(),
                    session_cookie_text(pages::base_of(*config), token),
                ),
        },
{
    match outcome {
        LoginOutcome::NotNeeded => to_dashboard(config),
        LoginOutcome::Unreadable => pages::login_page(
            config,
            Some("Could not read the login form."),
            400,
        ),
        LoginOutcome::Denied => pages::login_page(
            config,
            Some("Invalid username or password."),
            401,
        ),
        LoginOutcome::Granted => {
            let token: String = sessions.create(now);
            signed_in(config, token.as_str())
        },
    }
}

/// Answers a request to sign out: its session ends, its cookie is taken away, and
/// it leads to the login page.
pub fn logout(config: &Config, sessions: &mut Sessions, headers: &Vec<Header>) -> (reply: HttpReply)
    ensures
        final(sessions)@ == match auth::cookie_token(headers@) {
            Some(token) => old(sessions)@.remove(token),
            None => old(sessions)@,
        },
        reply@ == response::cookie_reply(
            seq![pages::base_of(*config), "/login"@].flatten(),
            ended_cookie_text(pages::base_of(*config)),
        ),
{
    if let Some(token) = auth::session_cookie(headers) {
        sessions.remove(token.as_str());
    }
    let base: String = pages::admin_base(config);
    let location: String = text::join_two(base.as_str(), "/login");
    let parts: [&str; 4] = [
        auth::SESSION_COOKIE,
        "=; Path=",
        base.as_str(),
        "; HttpOnly; SameSite=Lax; Max-Age=0",
    ];
    assert(text::borrowed_contents(parts@) =~= seq![
        auth::SESSION_COOKIE@,
        "=; Path="@,
        base@,
        "; HttpOnly; SameSite=Lax; Max-Age=0"@,
    ]);
    let cookie: String = text::join_parts(&parts);
    response::redirect_with_cookie(location.as_str(), cookie.as_str())
}

/// The request that brings back the cookie of a session: its first cookie header
/// holds the name of the cookie, an equals sign and the token.
pub open spec fn brings_token(headers: Seq<Header>, token: Seq<char>) -> bool {
    exists|i: int|
        #![trigger headers[i]]
        0 <= i < headers.len() && headers[i].name@ == "cookie"@ && headers::is_readable(
            headers[i].value@,
        ) && headers::value_text(headers[i].value@) == auth::cookie_mark() + token && (forall|
            j: int,
        |
            0 <= j < i ==> (#[trigger] headers[j]).name@ != "cookie"@)
}

proof fn lemma_token_is_found(token: Seq<char>)
    requires
        sessions::is_token(token),
    ensures
        auth::token_in(text::split_on(auth::cookie_mark() + token, ';')) == Some(token),
{
    reveal_strlit("wh_admin_session");
    reveal_strlit("=");
    let mark = auth::cookie_mark();
    text::lemma_two(auth::SESSION_COOKIE@, "="@);
    assert(mark == "wh_admin_session"@ + "="@);
    let cookie = mark + token;
    assert forall|i: int| 0 <= i < cookie.len() implies #[trigger] cookie[i] != ';' by {
        if i >= mark.len() {
            assert(cookie[i] == token[i - mark.len()]);
            assert(text::is_alphanumeric(token[i - mark.len()]));
        } else {
            assert(cookie[i] == mark[i]);
        }
    }
    assert(!cookie.contains(';'));
    text::lemma_split_absent(cookie, ';');
    assert(cookie[0] == 'w');
    assert(cookie.last() == token.last());
    assert(text::is_alphanumeric(token[token.len() - 1]));
    assert(text::trimmed(cookie) == cookie);
    assert(mark =~= cookie.subrange(0, mark.len() as int));
    assert(cookie.skip(mark.len() as int) =~= token);
    assert(seq![cookie].first() == cookie);
}

proof fn lemma_token_is_read(headers: Seq<Header>, token: Seq<char>)
    requires
        sessions::is_token(token),
        brings_token(headers, token),
    ensures
        auth::cookie_token(headers) == Some(token),
    decreases headers.len(),
{
    let i = choose|i: int|
        #![trigger headers[i]]
        0 <= i < headers.len() && headers[i].name@ == "cookie"@ && headers::is_readable(
            headers[i].value@,
        ) && headers::value_text(headers[i].value@) == auth::cookie_mark() + token && (forall|
            j: int,
        |
            0 <= j < i ==> (#[trigger] headers[j]).name@ != "cookie"@);
    lemma_token_is_found(token);
    if i > 0 {
        let rest = headers.drop_first();
        assert(headers[0].name@ != "cookie"@);
        assert(rest[i - 1] == headers[i]);
        assert forall|j: int| 0 <= j < i - 1 implies (#[trigger] rest[j]).name@ != "cookie"@ by {
            assert(rest[j] == headers[j + 1]);
        }
        assert(brings_token(rest, token));
        lemma_token_is_read(rest, token);
    }
}

/// One who has signed in and brings the cookie back may see the pages for 24 hours,
/// and not longer.
pub proof fn law_cookie_opens_the_pages(
    admin: AdminConfig,
    sessions: Map<Seq<char>, i128>,
    token: Seq<char>,
    start: i128,
    headers: Seq<Header>,
    now: i128,
)
    requires
        admin.password is Some,
        sessions::is_token(token),
        brings_token(headers, token),
        start + sessions::SESSION_TTL <= i128::MAX,
    ensures
        auth::may_enter(admin, sessions::with_session(sessions, token, start), headers, now)
            <==> now < start + sessions::SESSION_TTL,
{
    lemma_token_is_read(headers, token);
    sessions::law_session_lasts_a_day(sessions, token, start, now);
}

/// One who has signed out may not see the pages any more with the same cookie.
pub proof fn law_signed_out_cookie_opens_nothing(
    admin: AdminConfig,
    sessions: Map<Seq<char>, i128>,
    token: Seq<char>,
    headers: Seq<Header>,
    now: i128,
)
    requires
        admin.password is Some,
        sessions::is_token(token),
        brings_token(headers, token),
    ensures
        auth::cookie_token(headers) == Some(token),
        !auth::may_enter(admin, sessions.remove(token), headers, now),
{
    lemma_token_is_read(headers, token);
    sessions::law_ended_session_is_not_valid(sessions, token, token, now);
}

/// The cookie that is set at login begins with what is looked for when it comes
/// back: the name of the cookie, an equals sign, the token and a semicolon.
pub proof fn law_set_cookie_holds_the_token(base: Seq<char>, token: Seq<char>)
    ensures
        (auth::cookie_mark() + token + ";"@).is_prefix_of(session_cookie_text(base, token)),
{
    reveal_strlit(";");
    reveal_strlit("; Path=");
    let end = "; HttpOnly; SameSite=Lax; Max-Age=86400"@;
    let all = seq![auth::SESSION_COOKIE@, "="@, token, "; Path="@, base, end];
    text::lemma_flatten_last(all);
    let most = all.drop_last();
    text::lemma_flatten_last(most);
    let four = most.drop_last();
    text::lemma_flatten_last(four);
    let three = four.drop_last();
    text::lemma_flatten_last(three);
    assert(three.drop_last() =~= seq![auth::SESSION_COOKIE@, "="@]);
    assert(most.last() == base);
    assert(four.last() == "; Path="@);
    assert(three.last() == token);
    let front = auth::cookie_mark() + token + ";"@;
    let whole = session_cookie_text(base, token);
    assert(whole == auth::cookie_mark() + token + "; Path="@ + base + end);
    assert(front =~= whole.subrange(0, front.len() as int));
}

/// The prefix of the administration counts without the slashes at its end.
pub proof fn law_slashes_behind_the_prefix_do_not_count(
    config: Config,
    base: Seq<char>,
    slashes: nat,
)
    requires
        base.len() > 0 ==> base.last() != '/',
        config.server.admin_prefix@ == base + Seq::new(slashes, |i: int| '/'),
    ensures
        pages::base_of(config) == base,
        is_administrative(config, base),
        forall|rest: Seq<char>| is_administrative(config, #[trigger] (base + seq!['/'] + rest)),
{
    reveal_strlit("/");
    crate::config::lemma_slashes_removed(base, slashes);
    assert forall|rest: Seq<char>|
        is_administrative(config, #[trigger] (base + seq!['/'] + rest)) by {
        let path = base + seq!['/'] + rest;
        assert(base + "/"@ =~= path.subrange(0, base.len() as int + 1));
    }
}

/// Only paths that begin with the prefix of the administration are for it; all others
/// are captured.
pub proof fn law_other_paths_are_captured(config: Config, path: Seq<char>)
    ensures
        is_administrative(config, path) ==> pages::base_of(config).is_prefix_of(path),
        !pages::base_of(config).is_prefix_of(path) ==> !is_administrative(config, path),
{
    reveal_strlit("/");
    let base = pages::base_of(config);
    if is_administrative(config, path) {
        if path == base {
            assert(base =~= path.subrange(0, base.len() as int));
        } else {
            let front = base + "/"@;
            assert(base =~= path.subrange(0, base.len() as int)) by {
                assert forall|i: int| 0 <= i < base.len() implies path[i] == base[i] by {
                    assert(path.subrange(0, front.len() as int)[i] == front[i]);
                }
            }
        }
    }
}

proof fn lemma_subpath(config: Config, sub: Seq<char>)
    ensures
        subpath_of(config, pages::base_of(config) + sub) == sub,
{
    let base = pages::base_of(config);
    let path = base + sub;
    assert(base =~= path.subrange(0, base.len() as int));
    assert(path.skip(base.len() as int) =~= sub);
}

/// Where the pages are, below the prefix: the dashboard at its root, the list under
/// `/requests`, each request under `/requests/` and its id, for those who may see
/// them. (Left out: ids that begin with `/requests/` themselves.)
pub proof fn law_pages_are_where_they_are_said_to_be(
    config: Config,
    id: Seq<char>,
    method: Seq<char>,
)
    requires
        !"/requests/"@.is_prefix_of(id),
    ensures
        ({
            let base = pages::base_of(config);
            &&& route_for(subpath_of(config, base), method, true) == Route::Dashboard
            &&& route_for(subpath_of(config, base + "/"@), method, true) == Route::Dashboard
            &&& route_for(subpath_of(config, base + "/requests"@), method, true)
                == Route::Requests
            &&& route_for(subpath_of(config, base + "/requests/"@ + id), method, true)
                == Route::RequestDetail(id)
        }),
{
    reveal_strlit("");
    reveal_strlit("/");
    reveal_strlit("/style.css");
    reveal_strlit("/login");
    reveal_strlit("/logout");
    reveal_strlit("/requests");
    reveal_strlit("/requests/");
    let base = pages::base_of(config);
    lemma_subpath(config, ""@);
    lemma_subpath(config, "/"@);
    lemma_subpath(config, "/requests"@);
    lemma_subpath(config, "/requests/"@ + id);
    assert(base + ""@ =~= base);
    assert(base + "/requests/"@ + id =~= base + ("/requests/"@ + id));
    assert("/requests"@[1] == 'r' && "/style.css"@[1] == 's' && "/login"@[1] == 'l'
        && "/logout"@[1] == 'l');
    let sub = "/requests/"@ + id;
    assert(sub[1] == 'r' && sub.len() >= 10);
    assert("/requests/"@ =~= sub.subrange(0, 10));
    assert(sub.skip(10) =~= id);
    assert(without_leading(id, "/requests/"@) == id);
    assert(without_leading(sub, "/requests/"@) == id);
}

/// What everybody may ask for: the style sheet, signing in with the form and signing
/// out, whoever is signed in. The login page is shown to those who are not.
pub proof fn law_signing_in_needs_no_session(config: Config, method: Seq<char>, authorized: bool)
    ensures
        ({
            let base = pages::base_of(config);
            &&& route_for(subpath_of(config, base + "/style.css"@), method, authorized)
                == Route::StyleSheet
            &&& route_for(subpath_of(config, base + "/logout"@), method, authorized)
                == Route::Logout
            &&& route_for(subpath_of(config, base + "/login"@), "POST"@, authorized)
                == Route::LoginSubmit
            &&& route_for(subpath_of(config, base + "/login"@), "GET"@, false)
                == Route::LoginPage
            &&& route_for(subpath_of(config, base + "/login"@), "GET"@, true)
                == Route::AlreadySignedIn
        }),
{
    reveal_strlit("/style.css");
    reveal_strlit("/login");
    reveal_strlit("/logout");
    reveal_strlit("GET");
    reveal_strlit("POST");
    lemma_subpath(config, "/style.css"@);
    lemma_subpath(config, "/login"@);
    lemma_subpath(config, "/logout"@);
    assert("/style.css"@.len() != "/login"@.len());
    assert("/style.css"@.len() != "/logout"@.len());
    assert("/login"@.len() != "/logout"@.len());
    assert("GET"@.len() != "POST"@.len());
}

/// Whatever else one asks for without being signed in, one is sent to sign in first.
pub proof fn law_all_else_needs_a_session(subpath: Seq<char>, method: Seq<char>)
    requires
        subpath != "/style.css"@,
        subpath != "/logout"@,
        subpath == "/login"@ ==> method != "GET"@ && method != "POST"@,
    ensures
        route_for(subpath, method, false) == Route::SignInFirst,
{
}

/// What there is not is not found, by those who may see the pages.
pub proof fn law_unknown_pages_are_not_found(subpath: Seq<char>, method: Seq<char>)
    requires
        subpath.len() > 0,
        subpath != "/"@,
        subpath != "/style.css"@,
        subpath != "/login"@,
        subpath != "/logout"@,
        subpath != "/requests"@,
        !"/requests/"@.is_prefix_of(subpath),
    ensures
        route_for(subpath, method, true) == Route::NotFound,
{
    reveal_strlit("");
}

/// The cookie that is set at login goes back below the prefix only, lasts as long as
/// the session, and is kept from scripts; the one that is set on signing out holds no
/// token and ends at once.
pub proof fn law_cookie_is_bounded(base: Seq<char>, token: Seq<char>)
    ensures
        session_cookie_text(base, token) == "wh_admin_session="@ + token + "; Path="@ + base
            + "; HttpOnly; SameSite=Lax; Max-Age=86400"@,
        ended_cookie_text(base) == "wh_admin_session="@ + "; Path="@ + base
            + "; HttpOnly; SameSite=Lax; Max-Age=0"@,
        sessions::SESSION_TTL == 86400 * 1_000_000_000,
{
    reveal_strlit("wh_admin_session");
    reveal_strlit("=");
    reveal_strlit("wh_admin_session=");
    reveal_strlit("=; Path=");
    reveal_strlit("; Path=");
    let name = auth::SESSION_COOKIE@;
    assert("wh_admin_session="@ =~= name + "="@);
    assert("=; Path="@ =~= "="@ + "; Path="@);
    let end = "; HttpOnly; SameSite=Lax; Max-Age=86400"@;
    text::lemma_five(name, "="@, token, "; Path="@, base);
    let five = seq![name, "="@, token, "; Path="@, base];
    assert(seq![name, "="@, token, "; Path="@, base, end] =~= five.push(end));
    five.lemma_flatten_push(end);
    assert(session_cookie_text(base, token) =~= "wh_admin_session="@ + token + "; Path="@ + base
        + end);
    let stop = "; HttpOnly; SameSite=Lax; Max-Age=0"@;
    let four = seq![name, "=; Path="@, base, stop];
    text::lemma_flatten_last(four);
    let three = four.drop_last();
    text::lemma_flatten_last(three);
    assert(three.drop_last() =~= seq![name, "=; Path="@]);
    text::lemma_two(name, "=; Path="@);
    assert(ended_cookie_text(base) =~= "wh_admin_session="@ + "; Path="@ + base + stop);
}

/// The sessions are looked at exactly where it matters who is signed in: where the
/// answer is another one for those who may see the pages than for others.
pub proof fn law_sessions_matter_where_the_answer_differs(subpath: Seq<char>, method: Seq<char>)
    ensures
        depends_on_login(subpath, method) <==> route_for(subpath, method, true) != route_for(
            subpath,
            method,
            false,
        ),
{
    reveal_strlit("/style.css");
    reveal_strlit("/login");
    reveal_strlit("/logout");
    reveal_strlit("GET");
    reveal_strlit("POST");
    assert("/style.css"@.len() != "/login"@.len());
    assert("/login"@.len() != "/logout"@.len());
    assert("GET"@.len() != "POST"@.len());
}

/// What leads to a request is taken off as often as it stands in front.
pub proof fn law_repeated_front_is_taken_off(front: Seq<char>, rest: Seq<char>)
    requires
        front.len() > 0,
    ensures
        without_leading(front + rest, front) == without_leading(rest, front),
        !front.is_prefix_of(rest) ==> without_leading(rest, front) == rest,
{
    let s = front + rest;
    assert(front =~= s.subrange(0, front.len() as int));
    assert(s.skip(front.len() as int) =~= rest);
}

/// What is asked for and what is told of it is the same.
pub proof fn law_route_says_what_is_asked_for(id: String)
    ensures
        AdminRoute::StyleSheet@ == Route::StyleSheet,
        AdminRoute::LoginPage@ == Route::LoginPage,
        AdminRoute::LoginSubmit@ == Route::LoginSubmit,
        AdminRoute::Logout@ == Route::Logout,
        AdminRoute::SignInFirst@ == Route::SignInFirst,
        AdminRoute::AlreadySignedIn@ == Route::AlreadySignedIn,
        AdminRoute::Dashboard@ == Route::Dashboard,
        AdminRoute::Requests@ == Route::Requests,
        AdminRoute::RequestDetail(id)@ == Route::RequestDetail(id@),
        AdminRoute::NotFound@ == Route::NotFound,
{
}

} // verus!
