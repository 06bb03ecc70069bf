//! The fixed parts of the administration pages. What differs from page to page
//! stands between them.

use vstd::prelude::*;

verus! {

/// A page, up to its title.
pub const PAGE_TITLE: &'static str = r#"<!doctype html>
<html lang="en">
<head>
  <meta charset="utf-8">
  <meta name="viewport" content="width=device-width, initial-scale=1">
  <title>"#;

/// A page, from its title up to the link to the style sheet.
pub const PAGE_STYLE: &'static str = r#" &middot; Webhook Debug</title>
  <link rel="stylesheet" href=""#;

/// A page, from the style sheet up to the link to the dashboard.
pub const PAGE_BRAND: &'static str = r#"/style.css">
</head>
<body>
  <aside>
    <div class="brand"><span class="brand-mark">&#9889;</span><span class="brand-name">Webhook Debug</span></div>
    <nav>
      <a href=""#;

/// The end of the link to the dashboard.
pub const PAGE_HOME: &'static str = r#"/""#;

/// A page, up to the link to the list of requests.
pub const PAGE_LIST: &'static str = r#">Dashboard</a>
      <a href=""#;

/// The end of the link to the list of requests.
pub const PAGE_LIST_END: &'static str = r#"/requests""#;

/// A page, up to the storage root.
pub const PAGE_ROOT: &'static str = r#">Requests</a>
    </nav>
    <div class="side-footer">
      <small>"#;

/// A page, up to the link to sign out.
pub const PAGE_LOGOUT: &'static str = r#"</small>
      "#;

/// A page, up to its heading.
pub const PAGE_HEADING: &'static str = r#"
    </div>
  </aside>
  <main>
    <header><h1>"#;

/// A page, from its heading up to its body.
pub const PAGE_BODY: &'static str = r#"</h1></header>
    "#;

/// A page, from its body on.
pub const PAGE_END: &'static str = r#"
  </main>
</body>
</html>"#;

/// The login page, up to the link to the style sheet.
pub const LOGIN_STYLE: &'static str = r#"<!doctype html>
<html lang="en">
<head>
  <meta charset="utf-8">
  <meta name="viewport" content="width=device-width, initial-scale=1">
  <title>Sign in &middot; Webhook Debug</title>
  <link rel="stylesheet" href=""#;

/// The login page, up to the error.
pub const LOGIN_CARD: &'static str = r#"/style.css">
</head>
<body class="login-body">
  <main class="login-card">
    <div class="brand"><span class="brand-mark">&#9889;</span><span class="brand-name">Webhook Debug</span></div>
    <h1>Sign in</h1>
    <p class="muted">Enter your admin credentials to view captured requests.</p>
    "#;

/// The login page, from the error up to the target of the form.
pub const LOGIN_FORM: &'static str = r#"
    <form method="post" action=""#;

/// The login page, from the target of the form on.
pub const LOGIN_END: &'static str = r#"/login">
      <label for="username">Username</label>
      <input id="username" name="username" autocomplete="username" autofocus required>
      <label for="password">Password</label>
      <input id="password" name="password" type="password" autocomplete="current-password" required>
      <button type="submit">Sign in</button>
    </form>
  </main>
</body>
</html>"#;

/// The dashboard, up to the number of requests.
pub const DASHBOARD_TOTAL: &'static str = r#"
<section class="metrics">
  <div class="tile"><span>Requests since restart</span><b>"#;

/// The dashboard, up to the number of complete ones.
pub const DASHBOARD_COMPLETE: &'static str = r#"</b></div>
  <div class="tile"><span>Complete</span><b>"#;

/// The dashboard, up to the number of incomplete ones.
pub const DASHBOARD_INCOMPLETE: &'static str = r#"</b></div>
  <div class="tile"><span>Incomplete</span><b>"#;

/// The dashboard, up to the size of the bodies.
pub const DASHBOARD_BYTES: &'static str = r#"</b></div>
  <div class="tile"><span>Stored body</span><b>"#;

/// The dashboard, up to the lines about paths.
pub const DASHBOARD_PATHS: &'static str = r#"</b></div>
</section>
<section class="grid">
  <div class="card">
    <h2>Top paths</h2>
    <table><thead><tr><th>Path</th><th class="num">Requests</th></tr></thead><tbody>"#;

/// The dashboard, up to the lines about methods.
pub const DASHBOARD_METHODS: &'static str = r#"</tbody></table>
  </div>
  <div class="card">
    <h2>Methods</h2>
    <table><thead><tr><th>Method</th><th class="num">Requests</th></tr></thead><tbody>"#;

/// The dashboard, from the lines about methods on.
pub const DASHBOARD_END: &'static str = r#"</tbody></table>
  </div>
</section>
"#;

/// The list of requests, up to the filter.
pub const LIST_FILTER: &'static str = r#"<div class="toolbar"><form method="get"><input name="path" placeholder="Filter by path, e.g. /api1" value=""#;

/// The list of requests, from the filter up to the lines.
pub const LIST_ROWS: &'static str = r#""><button>Filter</button></form></div>
<div class="card"><table><thead><tr><th>Time</th><th>Method</th><th>Path</th><th class="num">Body</th><th>Status</th></tr></thead><tbody>"#;

/// The list of requests, from the lines on.
pub const LIST_END: &'static str = r#"</tbody></table></div>"#;

/// The page of a request, up to the link back.
pub const DETAIL_BACK: &'static str = r#"<p class="backlink"><a href=""#;

/// The page of a request, up to the method.
pub const DETAIL_METHOD: &'static str = r#"/requests">&larr; All requests</a></p>
<section class="detail card">
<div class="summary">
  <div><span>Method</span><b>"#;

/// The page of a request, up to the path.
pub const DETAIL_PATH: &'static str = r#"</b></div>
  <div><span>Path</span><b>"#;

/// The page of a request, up to the time.
pub const DETAIL_RECEIVED: &'static str = r#"</b></div>
  <div><span>Received</span><b>"#;

/// The page of a request, up to the state of the body.
pub const DETAIL_STATUS: &'static str = r#"</b></div>
  <div><span>Body</span><b>"#;

/// The page of a request, up to the metadata file.
pub const DETAIL_FILE: &'static str = r#"</b></div>
  <div><span>Metadata file</span><b>"#;

/// The page of a request, up to the preview.
pub const DETAIL_PREVIEW: &'static str = r#"</b></div>
</div>
<h2>Body preview</h2>
"#;

/// The page of a request, up to the metadata.
pub const DETAIL_JSON: &'static str = r#"
<h2>Metadata</h2>
<pre>"#;

/// The page of a request, from the metadata on.
pub const DETAIL_END: &'static str = r#"</pre>
</section>"#;

/// Stands in for the lines about paths and methods where there are none.
pub const NOTHING_CAPTURED: &'static str =
    r#"<tr><td colspan="2" class="empty">No requests captured yet.</td></tr>"#;

/// Stands in for the lines about requests where there are none.
pub const NOTHING_MATCHED: &'static str =
    r#"<tr><td colspan="5" class="empty">No requests matched.</td></tr>"#;

} // verus!
