//! The administration pages.

use vstd::prelude::*;
use vstd::string::*;

use crate::admin;
use crate::auth;
use crate::config::Config;
use crate::models::RequestMeta;
use crate::outside;
use crate::records::{DashboardStats, RequestRecord};
use crate::response;
use crate::response::{HttpReply, Reply};
use crate::storage::LocalStorage;
use crate::templates;
use crate::text;
use crate::urls;

verus! {

/// How a character is written in HTML.
pub open spec fn escaped_char(c: char) -> Seq<char> {
    if c == '&' {
        "&amp;"@
    } else if c == '<' {
        "&lt;"@
    } else if c == '>' {
        "&gt;"@
    } else if c == '"' {
        "&quot;"@
    } else if c == '\'' {
        "&#39;"@
    } else {
        seq![c]
    }
}

/// How a text is written in HTML.
pub open spec fn escaped(s: Seq<char>) -> Seq<char>
    decreases s.len(),
{
    if s.len() == 0 {
        Seq::empty()
    } else {
        escaped(s.drop_last()) + escaped_char(s.last())
    }
}

/// Writes a text in HTML: the characters that mean something there as entities.
pub fn escape(input: &str) -> (html: String)
    ensures
        html@ == escaped(input@),
{
    let chars: Vec<char> = text::to_chars(input);
    let mut html: String = String::new();
    for i in 0..chars.len()
        invariant
            chars@ == input@,
            html@ == escaped(input@.take(i as int)),
    {
        let c: char = chars[i];
        assert(input@.take(i + 1).drop_last() == input@.take(i as int));
        if c == '&' {
            html.append("&amp;");
        } else if c == '<' {
            html.append("&lt;");
        } else if c == '>' {
            html.append("&gt;");
        } else if c == '"' {
            html.append("&quot;");
        } else if c == '\'' {
            html.append("&#39;");
        } else {
            html.push(c);
            assert(html@ =~= escaped(input@.take(i as int)) + seq![c]);
        }
    }
    assert(input@.take(input@.len() as int) == input@);
    html
}

/// A character that can begin or end markup or an attribute.
pub open spec fn is_markup(c: char) -> bool {
    c == '<' || c == '>' || c == '"' || c == '\''
}

/// Escaped text holds no markup.
pub proof fn law_escaped_text_has_no_markup(s: Seq<char>)
    ensures
        forall|i: int| 0 <= i < escaped(s).len() ==> !is_markup(#[trigger] escaped(s)[i]),
    decreases s.len(),
{
    if s.len() > 0 {
        let before = escaped(s.drop_last());
        law_escaped_text_has_no_markup(s.drop_last());
        lemma_entities(s.last());
        assert forall|i: int| 0 <= i < escaped(s).len() implies !is_markup(
            #[trigger] escaped(s)[i],
        ) by {
            if i < before.len() {
                assert(escaped(s)[i] == before[i]);
            } else {
                assert(escaped(s)[i] == escaped_char(s.last())[i - before.len()]);
            }
        }
    }
}

proof fn lemma_entities(c: char)
    ensures
        escaped_char(c).len() > 0,
        forall|i: int| 0 <= i < escaped_char(c).len() ==> !is_markup(#[trigger] escaped_char(c)[i]),
        is_markup(c) || c == '&' ==> {
            let e = escaped_char(c);
            &&& e.len() > 3
            &&& e[0] == '&'
            &&& c == '&' <==> e[1] == 'a'
            &&& c == '<' <==> e[1] == 'l'
            &&& c == '>' <==> e[1] == 'g'
            &&& c == '"' <==> e[1] == 'q'
            &&& c == '\'' <==> e[1] == '#'
        },
{
    reveal_strlit("&amp;");
    reveal_strlit("&lt;");
    reveal_strlit("&gt;");
    reveal_strlit("&quot;");
    reveal_strlit("&#39;");
}

proof fn lemma_escaped_first(s: Seq<char>)
    requires
        s.len() > 0,
    ensures
        escaped(s) == escaped_char(s.first()) + escaped(s.drop_first()),
    decreases s.len(),
{
    if s.len() == 1 {
        assert(s.drop_last() =~= Seq::<char>::empty());
        assert(s.drop_first() =~= Seq::<char>::empty());
        assert(escaped(s) =~= escaped_char(s.first()) + escaped(s.drop_first()));
    } else {
        lemma_escaped_first(s.drop_last());
        assert(s.drop_last().drop_first() =~= s.drop_first().drop_last());
        assert(escaped(s) =~= escaped_char(s.first()) + escaped(s.drop_first()));
    }
}

/// Escaping loses nothing: different texts are written differently.
pub proof fn law_escaping_loses_nothing(a: Seq<char>, b: Seq<char>)
    requires
        escaped(a) == escaped(b),
    ensures
        a == b,
    decreases a.len(),
{
    if a.len() == 0 {
        if b.len() > 0 {
            lemma_escaped_first(b);
            lemma_entities(b.first());
        }
    } else if b.len() == 0 {
        lemma_escaped_first(a);
        lemma_entities(a.first());
    } else {
        let x = a.first();
        let y = b.first();
        lemma_escaped_first(a);
        lemma_escaped_first(b);
        lemma_entities(x);
        lemma_entities(y);
        let p = escaped_char(x);
        let q = escaped_char(y);
        assert(escaped(a)[0] == p[0]);
        assert(escaped(b)[0] == q[0]);
        if p.len() > 1 && q.len() > 1 {
            assert(escaped(a)[1] == p[1]);
            assert(escaped(b)[1] == q[1]);
        }
        assert(x == y);
        assert(escaped(a.drop_first()) =~= escaped(a).skip(p.len() as int));
        assert(escaped(b.drop_first()) =~= escaped(b).skip(p.len() as int));
        law_escaping_loses_nothing(a.drop_first(), b.drop_first());
        assert(a =~= seq![x] + a.drop_first());
        assert(b =~= seq![y] + b.drop_first());
    }
}

/// The number of times that `d` goes into `n`, rounded to the nearest; halfway, to
/// the even one.
pub open spec fn rounded(n: nat, d: nat) -> nat {
    let rest = n % d;
    if 2 * rest > d || (2 * rest == d && (n / d) % 2 == 1) {
        n / d + 1
    } else {
        n / d
    }
}

/// The smallest power of two, from `step` on, of which less than 2^53 make up `n`.
pub open spec fn precision_step(n: nat, step: nat) -> nat
    decreases n / step,
    when step > 0
    via precision_step_ends
{
    if n / step < 9_007_199_254_740_992 {
        step
    } else {
        precision_step(n, 2 * step)
    }
}

#[via_fn]
proof fn precision_step_ends(n: nat, step: nat) {
    if step > 0 && n / step >= 9_007_199_254_740_992 {
        lemma_half(n, step);
    }
}

proof fn lemma_half(n: nat, step: nat)
    requires
        step > 0,
        n / step > 0,
    ensures
        n / (2 * step) < n / step,
        n / (2 * step) == n / step / 2,
{
    vstd::arithmetic::div_mod::lemma_div_denominator(n as int, step as int, 2);
    assert(step * 2 == 2 * step);
}

/// `n` to 53 significant binary digits, rounded to the nearest; halfway, to the
/// even one.
pub open spec fn to_53_bits(n: nat) -> nat {
    rounded(n, precision_step(n, 1)) * precision_step(n, 1)
}

/// The largest unit that a size reaches: its name and its bytes.
pub open spec fn unit_for(size: nat) -> (Seq<char>, nat) {
    if size < 1024 {
        ("B"@, 1)
    } else if size < 1_048_576 {
        ("KiB"@, 1024)
    } else if size < 1_073_741_824 {
        ("MiB"@, 1_048_576)
    } else if size < 1_099_511_627_776 {
        ("GiB"@, 1_073_741_824)
    } else {
        ("TiB"@, 1_099_511_627_776)
    }
}

/// How a size is shown: whole bytes below 1024, and otherwise the size to 53
/// significant binary digits, in the largest unit that it reaches, to one decimal.
pub open spec fn size_text(bytes: u64) -> Seq<char> {
    if bytes < 1024 {
        seq![text::decimal(bytes as nat), " B"@].flatten()
    } else {
        let size = to_53_bits(bytes as nat);
        let unit = unit_for(size);
        let tenths = rounded(10 * size, unit.1);
        seq![
            text::decimal(tenths / 10),
            "."@,
            text::decimal(tenths % 10),
            " "@,
            unit.0,
        ].flatten()
    }
}

/// The number of times that `d` goes into `n`, rounded to the nearest; halfway, to
/// the even one.
fn round_div(n: u128, d: u128) -> (q: u128)
    requires
        0 < d <= 1_099_511_627_776,
    ensures
        q == rounded(n as nat, d as nat),
{
    let whole: u128 = n / d;
    let rest: u128 = n % d;
    if 2 * rest > d || (2 * rest == d && whole % 2 == 1) {
        assert(whole < u128::MAX) by {
            vstd::arithmetic::div_mod::lemma_fundamental_div_mod(n as int, d as int);
            if whole == u128::MAX {
                assert(d * whole >= whole) by (nonlinear_arith)
                    requires
                        d >= 1,
                        whole >= 0,
                ;
            }
        }
        whole + 1
    } else {
        whole
    }
}

/// A size to 53 significant binary digits.
fn round_to_53_bits(bytes: u64) -> (size: u128)
    ensures
        size == to_53_bits(bytes as nat),
        size <= bytes + 4096,
{
    let mut step: u64 = 1;
    while bytes / step >= 9_007_199_254_740_992
        invariant
            0 < step <= 4096,
            precision_step(bytes as nat, 1) == precision_step(bytes as nat, step as nat),
        decreases bytes / step,
    {
        proof {
            lemma_half(bytes as nat, step as nat);
            vstd::arithmetic::div_mod::lemma_fundamental_div_mod(bytes as int, step as int);
            let q = (bytes / step) as int;
            assert(step < 2048) by (nonlinear_arith)
                requires
                    q >= 9_007_199_254_740_992,
                    step * q <= bytes,
                    bytes <= 18_446_744_073_709_551_615,
                    step > 0,
            ;
        }
        step = 2 * step;
    }
    let count: u128 = round_div(bytes as u128, step as u128);
    proof {
        vstd::arithmetic::div_mod::lemma_fundamental_div_mod(bytes as int, step as int);
        let q = (bytes / step) as int;
        assert(count * step <= bytes + step) by (nonlinear_arith)
            requires
                count <= q + 1,
                step * q <= bytes,
                step > 0,
        ;
    }
    count * step as u128
}

/// How a size is shown: whole bytes below 1024, and otherwise in the largest unit
/// that it reaches, to one decimal.
pub fn human_bytes(bytes: u64) -> (shown: String)
    ensures
        shown@ == size_text(bytes),
{
    if bytes < 1024 {
        let count: String = text::decimal_text(bytes);
        return text::join_two(count.as_str(), " B");
    }
    let size: u128 = round_to_53_bits(bytes);
    proof {
        lemma_size_kept(bytes);
    }
    let name: &str;
    let unit: u128;
    if size < 1_048_576 {
        name = "KiB";
        unit = 1024;
    } else if size < 1_073_741_824 {
        name = "MiB";
        unit = 1_048_576;
    } else if size < 1_099_511_627_776 {
        name = "GiB";
        unit = 1_073_741_824;
    } else {
        name = "TiB";
        unit = 1_099_511_627_776;
    }
    let tenths: u128 = round_div(10 * size, unit);
    proof {
        vstd::arithmetic::div_mod::lemma_div_is_ordered_by_denominator(
            10 * size as int,
            1024,
            unit as int,
        );
    }
    let whole: String = text::decimal_text((tenths / 10) as u64);
    let tenth: String = text::decimal_text((tenths % 10) as u64);
    let parts: [&str; 5] = [whole.as_str(), ".", tenth.as_str(), " ", name];
    assert(text::borrowed_contents(parts@) =~= seq![whole@, "."@, tenth@, " "@, name@]);
    text::join_parts(&parts)
}

/// A size of 1024 bytes or more stays so when it is rounded.
proof fn lemma_size_kept(bytes: u64)
    requires
        bytes >= 1024,
    ensures
        to_53_bits(bytes as nat) >= 1024,
{
    let n = bytes as nat;
    if n < 9_007_199_254_740_992 {
        assert(n / 1 == n);
        assert(precision_step(n, 1) == 1);
        assert(n % 1 == 0);
        assert(rounded(n, 1) == n);
        assert(n * 1 == n);
    } else {
        lemma_step_positive(n, 1);
        let step = precision_step(n, 1);
        vstd::arithmetic::div_mod::lemma_fundamental_div_mod(n as int, step as int);
        let q = (n / step) as int;
        let count = rounded(n, step) as int;
        let rest = (n % step) as int;
        if count == q {
            assert(step * q * 2 >= n) by (nonlinear_arith)
                requires
                    n == step * q + rest,
                    2 * rest <= step,
                    q >= 1 || rest == n,
                    step > 0,
                    n >= 2 * step || q >= 1,
            ;
        }
        assert(count * step >= 1024) by (nonlinear_arith)
            requires
                count == q + 1 || (count == q && step * q * 2 >= n),
                n == step * q + rest,
                rest < step,
                n >= 9_007_199_254_740_992,
        ;
    }
}

proof fn lemma_step_positive(n: nat, step: nat)
    requires
        step > 0,
        n / step >= 1,
    ensures
        precision_step(n, step) > 0,
        n / precision_step(n, step) >= 1,
    decreases n / step,
{
    if n / step >= 9_007_199_254_740_992 {
        lemma_half(n, step);
        lemma_step_positive(n, 2 * step);
    }
}

/// The class that a method is coloured by.
pub open spec fn method_class(method: Seq<char>) -> Seq<char> {
    if method == "GET"@ {
        "get"@
    } else if method == "POST"@ {
        "post"@
    } else if method == "PUT"@ || method == "PATCH"@ {
        "put"@
    } else if method == "DELETE"@ {
        "delete"@
    } else {
        "other"@
    }
}

/// How a method is shown.
pub open spec fn chip_html(method: Seq<char>) -> Seq<char> {
    seq![
        "<span class=\"method "@,
        method_class(method),
        "\">"@,
        escaped(method),
        "</span>"@,
    ].flatten()
}

/// How a method is shown.
pub fn method_chip(method: &str) -> (html: String)
    ensures
        html@ == chip_html(method@),
{
    let class: &str = if text::same_text(method, "GET") {
        "get"
    } else if text::same_text(method, "POST") {
        "post"
    } else if text::same_text(method, "PUT") || text::same_text(method, "PATCH") {
        "put"
    } else if text::same_text(method, "DELETE") {
        "delete"
    } else {
        "other"
    };
    let shown: String = escape(method);
    let parts: [&str; 5] = ["<span class=\"method ", class, "\">", shown.as_str(), "</span>"];
    assert(text::borrowed_contents(parts@) =~= seq![
        "<span class=\"method "@,
        class@,
        "\">"@,
        shown@,
        "</span>"@,
    ]);
    text::join_parts(&parts)
}

/// How the state of a body is shown.
pub open spec fn status_html(limit_exceeded: bool, complete: bool) -> Seq<char> {
    if limit_exceeded {
        "<span class=\"pill warn\">&#9888; limit exceeded</span>"@
    } else if complete {
        "<span class=\"pill ok\">&#10003; complete</span>"@
    } else {
        "<span class=\"pill bad\">&#10007; incomplete</span>"@
    }
}

/// How the state of a request's body is shown.
pub fn body_status(meta: &RequestMeta) -> (html: &'static str)
    ensures
        html@ == status_html(meta.body.limit_exceeded, meta.body.complete),
{
    if meta.body.limit_exceeded {
        "<span class=\"pill warn\">&#9888; limit exceeded</span>"
    } else if meta.body.complete {
        "<span class=\"pill ok\">&#10003; complete</span>"
    } else {
        "<span class=\"pill bad\">&#10007; incomplete</span>"
    }
}

/// How a query is shown behind its path.
pub open spec fn query_html(query: Option<Seq<char>>) -> Seq<char> {
    match query {
        Some(q) => seq!["<span class=\"query\">?"@, escaped(q), "</span>"@].flatten(),
        None => Seq::empty(),
    }
}

/// How a query is shown behind its path.
fn show_query(query: &Option<String>) -> (html: String)
    ensures
        html@ == query_html(text::optional_text(*query)),
{
    match query {
        Some(q) => {
            let shown: String = escape(q.as_str());
            let parts: [&str; 3] = ["<span class=\"query\">?", shown.as_str(), "</span>"];
            assert(text::borrowed_contents(parts@) =~= seq![
                "<span class=\"query\">?"@,
                shown@,
                "</span>"@,
            ]);
            text::join_parts(&parts)
        },
        None => {
            let html: String = String::new();
            assert(html@ =~= Seq::<char>::empty());
            html
        },
    }
}

/// The parts of the line about a request: `encoded_id` is its id as it stands in a
/// link, `time` how its time is written.
pub open spec fn row_parts(
    prefix: Seq<char>,
    encoded_id: Seq<char>,
    time: Seq<char>,
    meta: RequestMeta,
) -> Seq<Seq<char>> {
    seq![
        "<tr>\n<td class=\"mono\"><a href=\""@,
        prefix,
        "/requests/"@,
        encoded_id,
        "\">"@,
        escaped(time),
        "</a></td>\n<td>"@,
        chip_html(meta.method@),
        "</td>\n<td class=\"path\">"@,
        escaped(meta.path@),
        query_html(text::optional_text(meta.query)),
        "</td>\n<td class=\"num\">"@,
        size_text(meta.body.original_size),
        "</td>\n<td>"@,
        status_html(meta.body.limit_exceeded, meta.body.complete),
        "</td>\n</tr>"@,
    ]
}

/// How a request is listed: `encoded_id` is its id as it stands in a link, `time`
/// how its time is written.
pub open spec fn row_html(
    prefix: Seq<char>,
    encoded_id: Seq<char>,
    time: Seq<char>,
    meta: RequestMeta,
) -> Seq<char> {
    row_parts(prefix, encoded_id, time, meta).flatten()
}

/// How a request is listed, once its id and its time are written.
pub fn request_row_with(
    prefix: &str,
    encoded_id: &str,
    time: &str,
    meta: &RequestMeta,
) -> (html: String)
    ensures
        html@ == row_html(prefix@, encoded_id@, time@, *meta),
{
    let shown_time: String = escape(time);
    let method: String = method_chip(meta.method.as_str());
    let path: String = escape(meta.path.as_str());
    let query: String = show_query(&meta.query);
    let size: String = human_bytes(meta.body.original_size);
    let status: &str = body_status(meta);
    let parts: [&str; 16] = [
        "<tr>\n<td class=\"mono\"><a href=\"",
        prefix,
        "/requests/",
        encoded_id,
        "\">",
        shown_time.as_str(),
        "</a></td>\n<td>",
        method.as_str(),
        "</td>\n<td class=\"path\">",
        path.as_str(),
        query.as_str(),
        "</td>\n<td class=\"num\">",
        size.as_str(),
        "</td>\n<td>",
        status,
        "</td>\n</tr>",
    ];
    assert(text::borrowed_contents(parts@) =~= seq![
        "<tr>\n<td class=\"mono\"><a href=\""@,
        prefix@,
        "/requests/"@,
        encoded_id@,
        "\">"@,
        shown_time@,
        "</a></td>\n<td>"@,
        method@,
        "</td>\n<td class=\"path\">"@,
        path@,
        query@,
        "</td>\n<td class=\"num\">"@,
        size@,
        "</td>\n<td>"@,
        status@,
        "</td>\n</tr>"@,
    ]);
    text::join_parts(&parts)
}

/// How a request is listed below an administration prefix.
pub open spec fn record_html(prefix: Seq<char>, record: RequestRecord) -> Seq<char> {
    row_html(
        prefix,
        urls::encoded(record.meta.id@),
        record.meta.received_at.listing(),
        record.meta,
    )
}

/// How a request is listed.
pub fn request_row(config: &Config, record: &RequestRecord) -> (html: String)
    ensures
        html@ == record_html(config.server.admin_prefix@, *record),
{
    let id: String = outside::url_encode(record.meta.id.as_str());
    let time: String = record.meta.received_at.listing_text();
    request_row_with(config.server.admin_prefix.as_str(), id.as_str(), time.as_str(), &record.meta)
}

/// The target of the link in the line about a request.
pub open spec fn row_link(prefix: Seq<char>, encoded_id: Seq<char>) -> Seq<char> {
    seq![prefix, "/requests/"@, encoded_id].flatten()
}

/// The link in the line about a request leads to the page of that request: the line
/// holds the target in quotes, and one who may see the pages is shown the request of
/// that id there. It is stated for ids that are tokens, as the ids of this library
/// are, which need no encoding. (Left out: a prefix that ends in a slash, behind
/// which the link has one slash too many.)
pub proof fn law_row_link_leads_to_the_request(
    config: Config,
    record: RequestRecord,
    method: Seq<char>,
)
    requires
        config.server.admin_prefix@.len() == 0 || config.server.admin_prefix@.last() != '/',
        forall|i: int|
            0 <= i < record.meta.id@.len() ==> crate::capture::is_token_char(
                #[trigger] record.meta.id@[i],
            ),
    ensures
        ({
            let prefix = config.server.admin_prefix@;
            let id = record.meta.id@;
            let link = row_link(prefix, urls::encoded(id));
            let front = "<tr>\n<td class=\"mono\"><a href=\""@;
            &&& (front + link + "\">"@).is_prefix_of(record_html(prefix, record))
            &&& admin::is_administrative(config, link)
            &&& admin::route_for(admin::subpath_of(config, link), method, true)
                == admin::Route::RequestDetail(id)
        }),
{
    let prefix = config.server.admin_prefix@;
    let meta = record.meta;
    let time = meta.received_at.listing();
    let id = meta.id@;
    assert forall|i: int| 0 <= i < id.len() implies urls::is_unreserved(#[trigger] id[i]) by {
        assert(crate::capture::is_token_char(id[i]));
    }
    urls::law_unreserved_text_is_its_encoding(id);
    let link = row_link(prefix, id);
    let step = "/requests/"@;
    reveal_strlit("/");
    reveal_strlit("/requests/");
    reveal_strlit("/requests");
    reveal_strlit("/style.css");
    reveal_strlit("/login");
    reveal_strlit("/logout");
    reveal_strlit("");
    assert(base_of(config) == prefix);
    text::lemma_flatten_last(seq![prefix, step, id]);
    assert(seq![prefix, step, id].drop_last() =~= seq![prefix, step]);
    text::lemma_two(prefix, step);
    assert(link == prefix + step + id);
    assert((prefix + "/"@) =~= link.subrange(0, prefix.len() as int + 1));
    assert(prefix =~= link.subrange(0, prefix.len() as int));
    let sub = step + id;
    assert(link.skip(prefix.len() as int) =~= sub);
    assert(step =~= sub.subrange(0, step.len() as int));
    assert(sub.skip(step.len() as int) =~= id);
    assert(sub[1] == 'r' && sub[9] == '/' && sub.len() >= 10);
    assert("/style.css"@[1] == 's');
    if step.is_prefix_of(id) {
        assert(id.subrange(0, step.len() as int)[0] == '/');
        assert(crate::capture::is_token_char(id[0]));
    }
    assert(admin::without_leading(id, step) == id);
    assert(admin::without_leading(sub, step) == id);
    let front = "<tr>\n<td class=\"mono\"><a href=\""@;
    let close = "\">"@;
    let parts = row_parts(prefix, id, time, meta);
    let start = seq![front, prefix, step, id, close];
    assert(parts =~= start + parts.skip(5));
    vstd::seq_lib::lemma_flatten_concat(start, parts.skip(5));
    text::lemma_flatten_last(start);
    let four = start.drop_last();
    text::lemma_flatten_last(four);
    let three = four.drop_last();
    text::lemma_flatten_last(three);
    assert(three.drop_last() =~= seq![front, prefix]);
    text::lemma_two(front, prefix);
    assert(start.flatten() =~= front + link + close);
    let whole = row_html(prefix, id, time, meta);
    assert(start.flatten() =~= whole.subrange(0, start.flatten().len() as int));
}

/// A line about a path and how many requests came in on it.
pub open spec fn path_row_html(
    prefix: Seq<char>,
    encoded_path: Seq<char>,
    path: Seq<char>,
    count: nat,
) -> Seq<char> {
    seq![
        "<tr><td><a href=\""@,
        prefix,
        "/requests?path="@,
        encoded_path,
        "\">"@,
        escaped(path),
        "</a></td><td class=\"num\">"@,
        text::decimal(count),
        "</td></tr>"@,
    ].flatten()
}

/// A line about a path, once the path is written as it stands in a link.
pub fn path_row_with(prefix: &str, encoded_path: &str, path: &str, count: usize) -> (html: String)
    ensures
        html@ == path_row_html(prefix@, encoded_path@, path@, count as nat),
{
    let shown: String = escape(path);
    let number: String = text::decimal_text(count as u64);
    let parts: [&str; 9] = [
        "<tr><td><a href=\"",
        prefix,
        "/requests?path=",
        encoded_path,
        "\">",
        shown.as_str(),
        "</a></td><td class=\"num\">",
        number.as_str(),
        "</td></tr>",
    ];
    assert(text::borrowed_contents(parts@) =~= seq![
        "<tr><td><a href=\""@,
        prefix@,
        "/requests?path="@,
        encoded_path@,
        "\">"@,
        shown@,
        "</a></td><td class=\"num\">"@,
        number@,
        "</td></tr>"@,
    ]);
    text::join_parts(&parts)
}

/// A line about a method and how many requests came in with it.
pub open spec fn method_row_html(method: Seq<char>, count: nat) -> Seq<char> {
    seq![
        "<tr><td>"@,
        chip_html(method),
        "</td><td class=\"num\">"@,
        text::decimal(count),
        "</td></tr>"@,
    ].flatten()
}

/// A line about a method and how many requests came in with it.
fn method_row(method: &str, count: usize) -> (html: String)
    ensures
        html@ == method_row_html(method@, count as nat),
{
    let chip: String = method_chip(method);
    let number: String = text::decimal_text(count as u64);
    let parts: [&str; 5] = [
        "<tr><td>",
        chip.as_str(),
        "</td><td class=\"num\">",
        number.as_str(),
        "</td></tr>",
    ];
    assert(text::borrowed_contents(parts@) =~= seq![
        "<tr><td>"@,
        chip@,
        "</td><td class=\"num\">"@,
        number@,
        "</td></tr>"@,
    ]);
    text::join_parts(&parts)
}

/// The lines about the paths; a note where there are none.
pub open spec fn path_rows_html(prefix: Seq<char>, list: Seq<(String, usize)>) -> Seq<char> {
    if list.len() == 0 {
        templates::NOTHING_CAPTURED@
    } else {
        list.map_values(
            |entry: (String, usize)|
                path_row_html(
                    prefix,
                    urls::encoded(entry.0@),
                    entry.0@,
                    entry.1 as nat,
                ),
        ).flatten()
    }
}

/// The lines about the methods; a note where there are none.
pub open spec fn method_rows_html(list: Seq<(String, usize)>) -> Seq<char> {
    if list.len() == 0 {
        templates::NOTHING_CAPTURED@
    } else {
        list.map_values(
            |entry: (String, usize)| method_row_html(entry.0@, entry.1 as nat),
        ).flatten()
    }
}

/// The lines about the requests; a note where there are none.
pub open spec fn record_rows_html(prefix: Seq<char>, records: Seq<RequestRecord>) -> Seq<char> {
    if records.len() == 0 {
        templates::NOTHING_MATCHED@
    } else {
        records.map_values(|record: RequestRecord| record_html(prefix, record)).flatten()
    }
}

/// The lines about the paths.
fn path_rows(prefix: &str, list: &Vec<(String, usize)>) -> (html: String)
    ensures
        html@ == path_rows_html(prefix@, list@),
{
    if list.len() == 0 {
        return templates::NOTHING_CAPTURED.to_string();
    }
    let mut html: String = String::new();
    let ghost rows = list@.map_values(
        |entry: (String, usize)|
            path_row_html(prefix@, urls::encoded(entry.0@), entry.0@, entry.1 as nat),
    );
    for i in 0..list.len()
        invariant
            rows == list@.map_values(
                |entry: (String, usize)|
                    path_row_html(
                        prefix@,
                        urls::encoded(entry.0@),
                        entry.0@,
                        entry.1 as nat,
                    ),
            ),
            html@ == rows.take(i as int).flatten(),
    {
        let encoded: String = outside::url_encode(list[i].0.as_str());
        let row: String = path_row_with(
            prefix,
            encoded.as_str(),
            list[i].0.as_str(),
            list[i].1,
        );
        proof {
            assert(rows.take(i + 1) == rows.take(i as int).push(row@));
            rows.take(i as int).lemma_flatten_push(row@);
        }
        html.append(row.as_str());
    }
    assert(rows.take(rows.len() as int) == rows);
    html
}

/// The lines about the methods.
fn method_rows(list: &Vec<(String, usize)>) -> (html: String)
    ensures
        html@ == method_rows_html(list@),
{
    if list.len() == 0 {
        return templates::NOTHING_CAPTURED.to_string();
    }
    let mut html: String = String::new();
    let ghost rows = list@.map_values(
        |entry: (String, usize)| method_row_html(entry.0@, entry.1 as nat),
    );
    for i in 0..list.len()
        invariant
            rows == list@.map_values(
                |entry: (String, usize)| method_row_html(entry.0@, entry.1 as nat),
            ),
            html@ == rows.take(i as int).flatten(),
    {
        let row: String = method_row(list[i].0.as_str(), list[i].1);
        proof {
            assert(rows.take(i + 1) == rows.take(i as int).push(row@));
            rows.take(i as int).lemma_flatten_push(row@);
        }
        html.append(row.as_str());
    }
    assert(rows.take(rows.len() as int) == rows);
    html
}

/// The lines about the requests.
fn record_rows(config: &Config, records: &Vec<RequestRecord>) -> (html: String)
    ensures
        html@ == record_rows_html(config.server.admin_prefix@, records@),
{
    if records.len() == 0 {
        return templates::NOTHING_MATCHED.to_string();
    }
    let mut html: String = String::new();
    let ghost prefix = config.server.admin_prefix@;
    let ghost rows = records@.map_values(|record: RequestRecord| record_html(prefix, record));
    for i in 0..records.len()
        invariant
            prefix == config.server.admin_prefix@,
            rows == records@.map_values(|record: RequestRecord| record_html(prefix, record)),
            html@ == rows.take(i as int).flatten(),
    {
        let row: String = request_row(config, &records[i]);
        proof {
            assert(rows.take(i + 1) == rows.take(i as int).push(row@));
            rows.take(i as int).lemma_flatten_push(row@);
        }
        html.append(row.as_str());
    }
    assert(rows.take(rows.len() as int) == rows);
    html
}

/// The prefix of the administration pages without the slashes at its end.
pub open spec fn base_of(config: Config) -> Seq<char> {
    text::without_trailing(config.server.admin_prefix@, '/')
}

/// The prefix of the administration pages without the slashes at its end.
pub fn admin_base(config: &Config) -> (base: String)
    ensures
        base@ == base_of(*config),
{
    let chars: Vec<char> = text::to_chars(config.server.admin_prefix.as_str());
    let kept: Vec<char> = text::trim_end(chars.as_slice(), '/');
    text::from_chars(kept.as_slice())
}

/// An answer that holds an HTML page.
pub open spec fn html_reply(status: u16, html: Seq<char>) -> Reply {
    response::typed_reply(status, "text/html; charset=utf-8"@, html)
}

/// An answer that holds plain text.
pub open spec fn plain_reply(status: u16, body: Seq<char>) -> Reply {
    response::typed_reply(status, "text/plain; charset=utf-8"@, body)
}

/// What marks the link to the page that is shown.
pub open spec fn link_class(active: bool) -> Seq<char> {
    if active {
        " class=\"active\""@
    } else {
        ""@
    }
}

/// The link to sign out, where somebody has to sign in.
pub open spec fn logout_html(needed: bool, base: Seq<char>) -> Seq<char> {
    if needed {
        seq!["<a class=\"logout\" href=\""@, base, "/logout\">Sign out</a>"@].flatten()
    } else {
        ""@
    }
}

/// A page of the administration.
pub open spec fn page_html(
    config: Config,
    root: Seq<char>,
    title: Seq<char>,
    active: Seq<char>,
    body: Seq<char>,
) -> Seq<char> {
    let base = base_of(config);
    seq![
        templates::PAGE_TITLE@,
        escaped(title),
        templates::PAGE_STYLE@,
        base,
        templates::PAGE_BRAND@,
        base,
        templates::PAGE_HOME@,
        link_class(active == "dashboard"@),
        templates::PAGE_LIST@,
        base,
        templates::PAGE_LIST_END@,
        link_class(active == "requests"@),
        templates::PAGE_ROOT@,
        escaped(root),
        templates::PAGE_LOGOUT@,
        logout_html(config.admin.password is Some, base),
        templates::PAGE_HEADING@,
        escaped(title),
        templates::PAGE_BODY@,
        body,
        templates::PAGE_END@,
    ].flatten()
}

/// What marks the link to the page that is shown.
fn class_for(name: &str, active: &str) -> (class: &'static str)
    ensures
        class@ == link_class(active@ == name@),
{
    if text::same_text(name, active) {
        " class=\"active\""
    } else {
        ""
    }
}

/// A page of the administration. `active` names the section that it belongs to;
/// `body` is HTML already.
pub fn page(
    config: &Config,
    storage: &LocalStorage,
    title: &str,
    active: &str,
    body: &str,
) -> (reply: HttpReply)
    ensures
        reply@ == html_reply(
            200,
            page_html(*config, storage.root_text(), title@, active@, body@),
        ),
{
    let base: String = admin_base(config);
    let shown_title: String = escape(title);
    let home_class: &str = class_for("dashboard", active);
    let list_class: &str = class_for("requests", active);
    let root: String = escape(storage.root());
    let logout: String = if config.admin.password.is_some() {
        let link: [&str; 3] = [
            "<a class=\"logout\" href=\"",
            base.as_str(),
            "/logout\">Sign out</a>",
        ];
        assert(text::borrowed_contents(link@) =~= seq![
            "<a class=\"logout\" href=\""@,
            base@,
            "/logout\">Sign out</a>"@,
        ]);
        text::join_parts(&link)
    } else {
        "".to_string()
    };
    let parts: [&str; 21] = [
        templates::PAGE_TITLE,
        shown_title.as_str(),
        templates::PAGE_STYLE,
        base.as_str(),
        templates::PAGE_BRAND,
        base.as_str(),
        templates::PAGE_HOME,
        home_class,
        templates::PAGE_LIST,
        base.as_str(),
        templates::PAGE_LIST_END,
        list_class,
        templates::PAGE_ROOT,
        root.as_str(),
        templates::PAGE_LOGOUT,
        logout.as_str(),
        templates::PAGE_HEADING,
        shown_title.as_str(),
        templates::PAGE_BODY,
        body,
        templates::PAGE_END,
    ];
    assert(text::borrowed_contents(parts@) =~= seq![
        templates::PAGE_TITLE@,
        shown_title@,
        templates::PAGE_STYLE@,
        base@,
        templates::PAGE_BRAND@,
        base@,
        templates::PAGE_HOME@,
        home_class@,
        templates::PAGE_LIST@,
        base@,
        templates::PAGE_LIST_END@,
        list_class@,
        templates::PAGE_ROOT@,
        root@,
        templates::PAGE_LOGOUT@,
        logout@,
        templates::PAGE_HEADING@,
        shown_title@,
        templates::PAGE_BODY@,
        body@,
        templates::PAGE_END@,
    ]);
    response::reply_with(200, "text/html; charset=utf-8", text::join_parts(&parts))
}

/// The body of the dashboard.
pub open spec fn dashboard_html(prefix: Seq<char>, stats: DashboardStats) -> Seq<char> {
    seq![
        templates::DASHBOARD_TOTAL@,
        text::decimal(stats.total_requests as nat),
        templates::DASHBOARD_COMPLETE@,
        text::decimal(stats.complete_requests as nat),
        templates::DASHBOARD_INCOMPLETE@,
        text::decimal(stats.incomplete_requests as nat),
        templates::DASHBOARD_BYTES@,
        size_text(stats.stored_body_bytes),
        templates::DASHBOARD_PATHS@,
        path_rows_html(prefix, stats.top_paths@),
        templates::DASHBOARD_METHODS@,
        method_rows_html(stats.top_methods@),
        templates::DASHBOARD_END@,
    ].flatten()
}

/// The dashboard.
pub fn dashboard(config: &Config, storage: &LocalStorage, stats: &DashboardStats) -> (reply:
    HttpReply)
    ensures
        reply@ == html_reply(
            200,
            page_html(
                *config,
                storage.root_text(),
                "Dashboard"@,
                "dashboard"@,
                dashboard_html(config.server.admin_prefix@, *stats),
            ),
        ),
{
    let total: String = text::decimal_text(stats.total_requests as u64);
    let complete: String = text::decimal_text(stats.complete_requests as u64);
    let incomplete: String = text::decimal_text(stats.incomplete_requests as u64);
    let bytes: String = human_bytes(stats.stored_body_bytes);
    let paths: String = path_rows(config.server.admin_prefix.as_str(), &stats.top_paths);
    let methods: String = method_rows(&stats.top_methods);
    let parts: [&str; 13] = [
        templates::DASHBOARD_TOTAL,
        total.as_str(),
        templates::DASHBOARD_COMPLETE,
        complete.as_str(),
        templates::DASHBOARD_INCOMPLETE,
        incomplete.as_str(),
        templates::DASHBOARD_BYTES,
        bytes.as_str(),
        templates::DASHBOARD_PATHS,
        paths.as_str(),
        templates::DASHBOARD_METHODS,
        methods.as_str(),
        templates::DASHBOARD_END,
    ];
    assert(text::borrowed_contents(parts@) =~= seq![
        templates::DASHBOARD_TOTAL@,
        total@,
        templates::DASHBOARD_COMPLETE@,
        complete@,
        templates::DASHBOARD_INCOMPLETE@,
        incomplete@,
        templates::DASHBOARD_BYTES@,
        bytes@,
        templates::DASHBOARD_PATHS@,
        paths@,
        templates::DASHBOARD_METHODS@,
        methods@,
        templates::DASHBOARD_END@,
    ]);
    let body: String = text::join_parts(&parts);
    page(config, storage, "Dashboard", "dashboard", body.as_str())
}

/// The path that a list of requests is filtered by: the first `path` in the query,
/// unless it is empty.
pub open spec fn filter_in(query: Option<Seq<char>>) -> Option<Seq<char>> {
    match query {
        None => None,
        Some(q) => match auth::first_field(auth::form_fields(q), "path"@) {
            Some(path) if path.len() > 0 => Some(path),
            _ => None,
        },
    }
}

/// The path that a list of requests is filtered by.
pub fn path_filter(query: Option<&str>) -> (filter: Option<String>)
    ensures
        text::optional_text(filter) == filter_in(
            match query {
                Some(q) => Some(q@),
                None => None,
            },
        ),
{
    match query {
        None => None,
        Some(q) => {
            let form: Vec<(String, String)> = auth::parse_form(q);
            match auth::form_value(&form, "path") {
                None => None,
                Some(path) => {
                    if text::same_text(path.as_str(), "") {
                        proof {
                            reveal_strlit("");
                        }
                        None
                    } else {
                        proof {
                            reveal_strlit("");
                            if path@.len() == 0 {
                                assert(path@ =~= ""@);
                            }
                        }
                        Some(path)
                    }
                },
            }
        },
    }
}

/// The title of a list of requests.
pub open spec fn list_title(filter: Option<Seq<char>>) -> Seq<char> {
    match filter {
        Some(path) => seq!["Requests for "@, path].flatten(),
        None => "Recent requests"@,
    }
}

/// The body of a list of requests.
pub open spec fn list_html(
    prefix: Seq<char>,
    filter: Seq<char>,
    records: Seq<RequestRecord>,
) -> Seq<char> {
    seq![
        templates::LIST_FILTER@,
        escaped(filter),
        templates::LIST_ROWS@,
        record_rows_html(prefix, records),
        templates::LIST_END@,
    ].flatten()
}

/// The list of requests.
pub fn requests(
    config: &Config,
    storage: &LocalStorage,
    records: &Vec<RequestRecord>,
    filter: Option<&str>,
) -> (reply: HttpReply)
    ensures
        reply@ == html_reply(
            200,
            page_html(
                *config,
                storage.root_text(),
                list_title(
                    match filter {
                        Some(path) => Some(path@),
                        None => None,
                    },
                ),
                "requests"@,
                list_html(
                    config.server.admin_prefix@,
                    match filter {
                        Some(path) => path@,
                        None => ""@,
                    },
                    records@,
                ),
            ),
        ),
{
    let rows: String = record_rows(config, records);
    let title: String = match filter {
        Some(path) => text::join_two("Requests for ", path),
        None => "Recent requests".to_string(),
    };
    let shown_filter: String = match filter {
        Some(path) => escape(path),
        None => escape(""),
    };
    let parts: [&str; 5] = [
        templates::LIST_FILTER,
        shown_filter.as_str(),
        templates::LIST_ROWS,
        rows.as_str(),
        templates::LIST_END,
    ];
    assert(text::borrowed_contents(parts@) =~= seq![
        templates::LIST_FILTER@,
        shown_filter@,
        templates::LIST_ROWS@,
        rows@,
        templates::LIST_END@,
    ]);
    let body: String = text::join_parts(&parts);
    page(config, storage, title.as_str(), "requests", body.as_str())
}

/// The body of the page of a request: `received` is how its time is written,
/// `preview` what is shown of its body and `meta_json` its metadata as JSON.
pub open spec fn detail_html(
    prefix: Seq<char>,
    record: RequestRecord,
    received: Seq<char>,
    preview: Seq<char>,
    meta_json: Seq<char>,
) -> Seq<char> {
    seq![
        templates::DETAIL_BACK@,
        prefix,
        templates::DETAIL_METHOD@,
        chip_html(record.meta.method@),
        templates::DETAIL_PATH@,
        escaped(record.meta.path@),
        templates::DETAIL_RECEIVED@,
        escaped(received),
        templates::DETAIL_STATUS@,
        status_html(record.meta.body.limit_exceeded, record.meta.body.complete),
        templates::DETAIL_FILE@,
        escaped(record.meta_path@),
        templates::DETAIL_PREVIEW@,
        preview,
        templates::DETAIL_JSON@,
        escaped(meta_json),
        templates::DETAIL_END@,
    ].flatten()
}

/// The title of the page of a request.
pub open spec fn detail_title(id: Seq<char>) -> Seq<char> {
    seq!["Request "@, escaped(id)].flatten()
}

/// The page of a request, once its time is written.
pub fn request_detail_with(
    config: &Config,
    storage: &LocalStorage,
    record: &RequestRecord,
    received: &str,
    preview: &str,
    meta_json: &str,
) -> (reply: HttpReply)
    ensures
        reply@ == html_reply(
            200,
            page_html(
                *config,
                storage.root_text(),
                detail_title(record.meta.id@),
                "requests"@,
                detail_html(
                    config.server.admin_prefix@,
                    *record,
                    received@,
                    preview@,
                    meta_json@,
                ),
            ),
        ),
{
    let method: String = method_chip(record.meta.method.as_str());
    let path: String = escape(record.meta.path.as_str());
    let time: String = escape(received);
    let status: &str = body_status(&record.meta);
    let file: String = escape(record.meta_path.as_str());
    let json: String = escape(meta_json);
    let parts: [&str; 17] = [
        templates::DETAIL_BACK,
        config.server.admin_prefix.as_str(),
        templates::DETAIL_METHOD,
        method.as_str(),
        templates::DETAIL_PATH,
        path.as_str(),
        templates::DETAIL_RECEIVED,
        time.as_str(),
        templates::DETAIL_STATUS,
        status,
        templates::DETAIL_FILE,
        file.as_str(),
        templates::DETAIL_PREVIEW,
        preview,
        templates::DETAIL_JSON,
        json.as_str(),
        templates::DETAIL_END,
    ];
    assert(text::borrowed_contents(parts@) =~= seq![
        templates::DETAIL_BACK@,
        config.server.admin_prefix@,
        templates::DETAIL_METHOD@,
        method@,
        templates::DETAIL_PATH@,
        path@,
        templates::DETAIL_RECEIVED@,
        time@,
        templates::DETAIL_STATUS@,
        status@,
        templates::DETAIL_FILE@,
        file@,
        templates::DETAIL_PREVIEW@,
        preview@,
        templates::DETAIL_JSON@,
        json@,
        templates::DETAIL_END@,
    ]);
    let body: String = text::join_parts(&parts);
    let id: String = escape(record.meta.id.as_str());
    let title: String = text::join_two("Request ", id.as_str());
    page(config, storage, title.as_str(), "requests", body.as_str())
}

/// The page of a request: `preview` is what is shown of its body and `meta_json`
/// its metadata as JSON.
pub fn request_detail(
    config: &Config,
    storage: &LocalStorage,
    record: &RequestRecord,
    preview: &str,
    meta_json: &str,
) -> (reply: HttpReply)
    ensures
        reply@ == html_reply(
            200,
            page_html(
                *config,
                storage.root_text(),
                detail_title(record.meta.id@),
                "requests"@,
                detail_html(
                    config.server.admin_prefix@,
                    *record,
                    record.meta.received_at.rfc3339(),
                    preview@,
                    meta_json@,
                ),
            ),
        ),
{
    let received: String = record.meta.received_at.to_rfc3339();
    request_detail_with(config, storage, record, received.as_str(), preview, meta_json)
}

/// The page for a request that there is not.
pub fn request_not_found() -> (reply: HttpReply)
    ensures
        reply@ == plain_reply(404, "request not found"@),
{
    response::reply_with(404, "text/plain; charset=utf-8", "request not found".to_string())
}

/// The page for an address that there is not.
pub fn not_found() -> (reply: HttpReply)
    ensures
        reply@ == plain_reply(404, "not found"@),
{
    response::reply_with(404, "text/plain; charset=utf-8", "not found".to_string())
}

/// The page for an error.
pub fn error_response(error: &str) -> (reply: HttpReply)
    ensures
        reply@ == plain_reply(500, seq!["admin error: "@, error@, "\n"@].flatten()),
{
    let parts: [&str; 3] = ["admin error: ", error, "\n"];
    assert(text::borrowed_contents(parts@) =~= seq!["admin error: "@, error@, "\n"@]);
    response::reply_with(500, "text/plain; charset=utf-8", text::join_parts(&parts))
}

/// What the login page says went wrong.
pub open spec fn form_error_html(error: Option<Seq<char>>) -> Seq<char> {
    match error {
        Some(message) => seq!["<p class=\"form-error\">"@, escaped(message), "</p>"@].flatten(),
        None => ""@,
    }
}

/// The login page.
pub open spec fn login_html(config: Config, error: Option<Seq<char>>) -> Seq<char> {
    let base = base_of(config);
    seq![
        templates::LOGIN_STYLE@,
        base,
        templates::LOGIN_CARD@,
        form_error_html(error),
        templates::LOGIN_FORM@,
        base,
        templates::LOGIN_END@,
    ].flatten()
}

/// The login page, with what went wrong if anything did.
pub fn login_page(config: &Config, error: Option<&str>, status: u16) -> (reply: HttpReply)
    ensures
        reply@ == html_reply(
            status,
            login_html(
                *config,
                match error {
                    Some(message) => Some(message@),
                    None => None,
                },
            ),
        ),
{
    let base: String = admin_base(config);
    let error_html: String = match error {
        Some(message) => {
            let shown: String = escape(message);
            let note: [&str; 3] = ["<p class=\"form-error\">", shown.as_str(), "</p>"];
            assert(text::borrowed_contents(note@) =~= seq![
                "<p class=\"form-error\">"@,
                shown@,
                "</p>"@,
            ]);
            text::join_parts(&note)
        },
        None => "".to_string(),
    };
    let parts: [&str; 7] = [
        templates::LOGIN_STYLE,
        base.as_str(),
        templates::LOGIN_CARD,
        error_html.as_str(),
        templates::LOGIN_FORM,
        base.as_str(),
        templates::LOGIN_END,
    ];
    assert(text::borrowed_contents(parts@) =~= seq![
        templates::LOGIN_STYLE@,
        base@,
        templates::LOGIN_CARD@,
        error_html@,
        templates::LOGIN_FORM@,
        base@,
        templates::LOGIN_END@,
    ]);
    response::reply_with(status, "text/html; charset=utf-8", text::join_parts(&parts))
}

/// How the preview of a body begins.
#[derive(Debug)]
pub enum PreviewStep {
    /// Nothing is read; this is shown.
    Show(String),
    /// The body file is to be read.
    Read(String),
}

/// What is done for the preview of a body: it is read where it is previewable and
/// there is a file of it, and otherwise this is said.
pub fn preview_step(record: &RequestRecord) -> (step: PreviewStep)
    ensures
        match step {
            PreviewStep::Show(html) => {
                ||| !record.meta.body.previewable && html@
                    == "<p class=\"muted\">Body preview is unavailable for this request.</p>"@
                ||| record.meta.body.previewable && record.body_path is None && html@
                    == "<p class=\"muted\">No body object was stored.</p>"@
            },
            PreviewStep::Read(path) => record.meta.body.previewable && Some(path@)
                == text::optional_text(record.body_path),
        },
{
    if !record.meta.body.previewable {
        return PreviewStep::Show(
            "<p class=\"muted\">Body preview is unavailable for this request.</p>".to_string(),
        );
    }
    match &record.body_path {
        None => PreviewStep::Show(
            "<p class=\"muted\">No body object was stored.</p>".to_string(),
        ),
        Some(path) => PreviewStep::Read(path.clone()),
    }
}

/// A note that something failed.
pub open spec fn failure_html(what: Seq<char>, reason: Seq<char>) -> Seq<char> {
    seq!["<p class=\"error\">"@, what, ": "@, escaped(reason), "</p>"@].flatten()
}

/// A note that something failed.
fn failure_note(what: &str, reason: &str) -> (html: String)
    ensures
        html@ == failure_html(what@, reason@),
{
    let shown: String = escape(reason);
    let parts: [&str; 5] = ["<p class=\"error\">", what, ": ", shown.as_str(), "</p>"];
    assert(text::borrowed_contents(parts@) =~= seq![
        "<p class=\"error\">"@,
        what@,
        ": "@,
        shown@,
        "</p>"@,
    ]);
    text::join_parts(&parts)
}

/// What is shown of a text.
pub open spec fn text_preview(shown: Seq<char>) -> Seq<char> {
    seq!["<pre>"@, escaped(shown), "</pre>"@].flatten()
}

/// What is shown of a text.
pub fn preview_text(shown: &str) -> (html: String)
    ensures
        html@ == text_preview(shown@),
{
    let escaped_text: String = escape(shown);
    let parts: [&str; 3] = ["<pre>", escaped_text.as_str(), "</pre>"];
    assert(text::borrowed_contents(parts@) =~= seq!["<pre>"@, escaped_text@, "</pre>"@]);
    text::join_parts(&parts)
}

/// What is shown of a body once it is decompressed; of one that could not be, why.
pub open spec fn decoded_preview(decoded: Result<Seq<u8>, Seq<char>>) -> Seq<char> {
    match decoded {
        Ok(bytes) => text_preview(outside::lossy_text(bytes)),
        Err(reason) => failure_html("Failed to decompress body"@, reason),
    }
}

/// What is shown of a body once it is decompressed; of one that could not be, why.
pub fn preview_decoded(decoded: Result<Vec<u8>, String>) -> (html: String)
    ensures
        html@ == decoded_preview(outside::decoding(decoded)),
{
    match decoded {
        Ok(bytes) => {
            let shown: String = outside::utf8_lossy(bytes.as_slice());
            preview_text(shown.as_str())
        },
        Err(reason) => failure_note("Failed to decompress body", reason.as_str()),
    }
}

/// What is shown of a body file that was read; of one that could not be, why. A
/// file that is marked as gzip is decompressed first.
pub fn body_preview(record: &RequestRecord, read: Result<Vec<u8>, String>) -> (html: String)
    ensures
        html@ == match read {
            Err(reason) => failure_html("Failed to read body"@, reason@),
            Ok(bytes) => if text::optional_text(record.meta.body.encoding) == Some("gzip"@) {
                decoded_preview(outside::gunzipped(bytes@))
            } else {
                text_preview(outside::lossy_text(bytes@))
            },
        },
{
    match read {
        Err(reason) => failure_note("Failed to read body", reason.as_str()),
        Ok(bytes) => {
            let compressed: bool = match &record.meta.body.encoding {
                Some(encoding) => text::same_text(encoding.as_str(), "gzip"),
                None => false,
            };
            if compressed {
                preview_decoded(outside::gunzip(bytes.as_slice()))
            } else {
                preview_decoded(Ok(bytes))
            }
        },
    }
}

/// The line about a request shows its own time, method, path, query, received size
/// and state, each in its column.
pub proof fn law_row_shows_the_request(
    prefix: Seq<char>,
    encoded_id: Seq<char>,
    time: Seq<char>,
    meta: RequestMeta,
)
    ensures
        ({
            let row = row_html(prefix, encoded_id, time, meta);
            let query = match meta.query {
                Some(q) => "<span class=\"query\">?"@ + escaped(q@) + "</span>"@,
                None => Seq::empty(),
            };
            &&& text::holds(row, "\">"@ + escaped(time) + "</a></td>\n<td>"@)
            &&& text::holds(
                row,
                "</a></td>\n<td>"@ + chip_html(meta.method@) + "</td>\n<td class=\"path\">"@,
            )
            &&& text::holds(row, "</td>\n<td class=\"path\">"@ + escaped(meta.path@) + query)
            &&& text::holds(
                row,
                "</td>\n<td class=\"num\">"@ + size_text(meta.body.original_size)
                    + "</td>\n<td>"@,
            )
            &&& text::holds(
                row,
                "</td>\n<td>"@ + status_html(meta.body.limit_exceeded, meta.body.complete)
                    + "</td>\n</tr>"@,
            )
        }),
{
    let parts = row_parts(prefix, encoded_id, time, meta);
    text::lemma_holds_three(parts, 4);
    text::lemma_holds_three(parts, 6);
    text::lemma_holds_three(parts, 8);
    text::lemma_holds_three(parts, 11);
    text::lemma_holds_three(parts, 13);
    if meta.query is Some {
        text::lemma_three("<span class=\"query\">?"@, escaped(meta.query->0@), "</span>"@);
    }
}

/// The method is shown as it came, whatever it is, and coloured by what it does:
/// what only reads, what sends, what replaces, what deletes and the rest.
pub proof fn law_method_is_shown_as_it_came(method: Seq<char>)
    ensures
        chip_html(method) == "<span class=\"method "@ + method_class(method) + "\">"@ + escaped(
            method,
        ) + "</span>"@,
        method == "GET"@ ==> method_class(method) == "get"@,
        method == "POST"@ ==> method_class(method) == "post"@,
        method == "PUT"@ || method == "PATCH"@ ==> method_class(method) == "put"@,
        method == "DELETE"@ ==> method_class(method) == "delete"@,
        method != "GET"@ && method != "POST"@ && method != "PUT"@ && method != "PATCH"@ && method
            != "DELETE"@ ==> method_class(method) == "other"@,
{
    reveal_strlit("GET");
    reveal_strlit("POST");
    reveal_strlit("PUT");
    reveal_strlit("PATCH");
    reveal_strlit("DELETE");
    assert("GET"@[0] != "PUT"@[0] && "GET"@.len() == 3 && "PUT"@.len() == 3);
    assert("POST"@.len() == 4 && "PATCH"@.len() == 5 && "DELETE"@.len() == 6);
    text::lemma_five(
        "<span class=\"method "@,
        method_class(method),
        "\">"@,
        escaped(method),
        "</span>"@,
    );
}

/// A body over the limit is shown as such, whether it is complete or not; another one
/// as complete or incomplete.
pub proof fn law_state_is_shown(complete: bool)
    ensures
        status_html(true, complete) == "<span class=\"pill warn\">&#9888; limit exceeded</span>"@,
        status_html(false, true) == "<span class=\"pill ok\">&#10003; complete</span>"@,
        status_html(false, false) == "<span class=\"pill bad\">&#10007; incomplete</span>"@,
{
}

/// A number with one decimal and a unit.
pub open spec fn tenths_text(tenths: nat, unit: Seq<char>) -> Seq<char> {
    text::decimal(tenths / 10) + "."@ + text::decimal(tenths % 10) + " "@ + unit
}

/// A number of tenths of a unit is as near to a size as one can be; halfway between
/// two of them, it is the even one.
pub open spec fn is_nearest(tenths: nat, unit: nat, bytes: nat) -> bool {
    let over = tenths * unit - 10 * bytes;
    &&& -unit <= 2 * over <= unit
    &&& 2 * over == unit || 2 * over == -unit ==> tenths % 2 == 0
}

proof fn lemma_rounded_is_nearest(bytes: nat, unit: nat)
    requires
        unit > 0,
    ensures
        is_nearest(rounded(10 * bytes, unit), unit, bytes),
{
    let n = 10 * bytes;
    vstd::arithmetic::div_mod::lemma_fundamental_div_mod(n as int, unit as int);
    let q = (n / unit) as int;
    let rest = (n % unit) as int;
    let tenths = rounded(n, unit) as int;
    assert(tenths * unit == unit * q || tenths * unit == unit * q + unit) by (nonlinear_arith)
        requires
            tenths == q || tenths == q + 1,
    ;
    if tenths == q {
        assert(tenths * unit == unit * q) by (nonlinear_arith)
            requires
                tenths == q,
        ;
    } else {
        assert(tenths * unit == unit * q + unit) by (nonlinear_arith)
            requires
                tenths == q + 1,
        ;
    }
}

/// A size is shown in bytes as it is below 1024, and from there on in the largest unit
/// that it reaches, to the nearest tenth. (Sizes from 2^53 on are left out, which are
/// rounded to a number of 53 bits before.)
pub proof fn law_size_is_shown_to_the_nearest_tenth(bytes: u64)
    requires
        bytes < 9_007_199_254_740_992,
    ensures
        bytes < 1024 ==> size_text(bytes) == text::decimal(bytes as nat) + " B"@,
        1024 <= bytes < 1024 * 1024 ==> exists|tenths: nat| #[trigger]
            tenths_text(tenths, "KiB"@) == size_text(bytes) && is_nearest(
                tenths,
                1024,
                bytes as nat,
            ),
        1024 * 1024 <= bytes < 1024 * 1024 * 1024 ==> exists|tenths: nat| #[trigger]
            tenths_text(tenths, "MiB"@) == size_text(bytes) && is_nearest(
                tenths,
                1024 * 1024,
                bytes as nat,
            ),
        1024 * 1024 * 1024 <= bytes < 1024 * 1024 * 1024 * 1024 ==> exists|tenths: nat| #[trigger]
            tenths_text(tenths, "GiB"@) == size_text(bytes) && is_nearest(
                tenths,
                1024 * 1024 * 1024,
                bytes as nat,
            ),
        1024 * 1024 * 1024 * 1024 <= bytes ==> exists|tenths: nat| #[trigger]
            tenths_text(tenths, "TiB"@) == size_text(bytes) && is_nearest(
                tenths,
                1024 * 1024 * 1024 * 1024,
                bytes as nat,
            ),
{
    let n = bytes as nat;
    assert(n / 1 == n);
    assert(precision_step(n, 1) == 1);
    assert(n % 1 == 0);
    assert(rounded(n, 1) == n);
    assert(n * 1 == n);
    assert(to_53_bits(n) == n);
    text::lemma_two(text::decimal(n), " B"@);
    if bytes >= 1024 {
        let unit = unit_for(n);
        let tenths = rounded(10 * n, unit.1);
        lemma_rounded_is_nearest(n, unit.1);
        text::lemma_five(
            text::decimal(tenths / 10),
            "."@,
            text::decimal(tenths % 10),
            " "@,
            unit.0,
        );
        assert(tenths_text(tenths, unit.0) == size_text(bytes));
    }
}

/// The line about a path leads to the list of the requests on it and shows the path
/// and how many there are.
pub proof fn law_path_row_leads_to_its_requests(
    prefix: Seq<char>,
    encoded_path: Seq<char>,
    path: Seq<char>,
    count: nat,
)
    ensures
        ({
            let row = path_row_html(prefix, encoded_path, path, count);
            &&& text::holds(row, prefix + "/requests?path="@ + encoded_path)
            &&& text::holds(row, "\">"@ + escaped(path) + "</a></td><td class=\"num\">"@)
            &&& text::holds(
                row,
                "</a></td><td class=\"num\">"@ + text::decimal(count) + "</td></tr>"@,
            )
        }),
{
    let parts = seq![
        "<tr><td><a href=\""@,
        prefix,
        "/requests?path="@,
        encoded_path,
        "\">"@,
        escaped(path),
        "</a></td><td class=\"num\">"@,
        text::decimal(count),
        "</td></tr>"@,
    ];
    text::lemma_holds_three(parts, 1);
    text::lemma_holds_three(parts, 4);
    text::lemma_holds_three(parts, 6);
}

/// A list of paths has a line for each of them, in order, with the path as it stands
/// in a link; an empty one has a note.
pub proof fn law_every_path_has_a_row(
    prefix: Seq<char>,
    list: Seq<(String, usize)>,
    more: (String, usize),
)
    ensures
        path_rows_html(prefix, Seq::empty()) == templates::NOTHING_CAPTURED@,
        path_rows_html(prefix, seq![more]) == path_row_html(
            prefix,
            urls::encoded(more.0@),
            more.0@,
            more.1 as nat,
        ),
        list.len() > 0 ==> path_rows_html(prefix, list.push(more)) == path_rows_html(prefix, list)
            + path_row_html(prefix, urls::encoded(more.0@), more.0@, more.1 as nat),
{
    let row = |entry: (String, usize)|
        path_row_html(prefix, urls::encoded(entry.0@), entry.0@, entry.1 as nat);
    let none = Seq::<(String, usize)>::empty();
    assert(seq![more].map_values(row) =~= Seq::<Seq<char>>::empty().push(row(more)));
    Seq::<Seq<char>>::empty().lemma_flatten_push(row(more));
    assert(Seq::<Seq<char>>::empty().flatten() + row(more) =~= row(more));
    assert(list.push(more).map_values(row) =~= list.map_values(row).push(row(more)));
    list.map_values(row).lemma_flatten_push(row(more));
}

/// A list of methods has a line for each of them, in order; an empty one has a note.
pub proof fn law_every_method_has_a_row(list: Seq<(String, usize)>, more: (String, usize))
    ensures
        method_rows_html(Seq::empty()) == templates::NOTHING_CAPTURED@,
        method_rows_html(seq![more]) == method_row_html(more.0@, more.1 as nat),
        list.len() > 0 ==> method_rows_html(list.push(more)) == method_rows_html(list)
            + method_row_html(more.0@, more.1 as nat),
{
    let row = |entry: (String, usize)| method_row_html(entry.0@, entry.1 as nat);
    assert(seq![more].map_values(row) =~= Seq::<Seq<char>>::empty().push(row(more)));
    Seq::<Seq<char>>::empty().lemma_flatten_push(row(more));
    assert(Seq::<Seq<char>>::empty().flatten() + row(more) =~= row(more));
    assert(list.push(more).map_values(row) =~= list.map_values(row).push(row(more)));
    list.map_values(row).lemma_flatten_push(row(more));
}

/// A list of requests has a line for each of them, in order; an empty one has a note.
pub proof fn law_every_request_has_a_row(
    prefix: Seq<char>,
    records: Seq<RequestRecord>,
    more: RequestRecord,
)
    ensures
        record_rows_html(prefix, Seq::empty()) == templates::NOTHING_MATCHED@,
        record_rows_html(prefix, seq![more]) == row_html(
            prefix,
            urls::encoded(more.meta.id@),
            more.meta.received_at.listing(),
            more.meta,
        ),
        records.len() > 0 ==> record_rows_html(prefix, records.push(more)) == record_rows_html(
            prefix,
            records,
        ) + record_html(prefix, more),
{
    let row = |record: RequestRecord| record_html(prefix, record);
    assert(seq![more].map_values(row) =~= Seq::<Seq<char>>::empty().push(row(more)));
    Seq::<Seq<char>>::empty().lemma_flatten_push(row(more));
    assert(Seq::<Seq<char>>::empty().flatten() + row(more) =~= row(more));
    assert(records.push(more).map_values(row) =~= records.map_values(row).push(row(more)));
    records.map_values(row).lemma_flatten_push(row(more));
}

/// A page shows its title, the storage root and its body, and a link to sign out
/// exactly if one has to sign in.
pub proof fn law_page_shows_its_body(
    config: Config,
    root: Seq<char>,
    title: Seq<char>,
    active: Seq<char>,
    body: Seq<char>,
)
    ensures
        ({
            let html = page_html(config, root, title, active, body);
            let base = base_of(config);
            &&& text::holds(html, templates::PAGE_TITLE@ + escaped(title) + templates::PAGE_STYLE@)
            &&& text::holds(
                html,
                templates::PAGE_HEADING@ + escaped(title) + templates::PAGE_BODY@,
            )
            &&& text::holds(html, templates::PAGE_BODY@ + body + templates::PAGE_END@)
            &&& text::holds(html, templates::PAGE_ROOT@ + escaped(root) + templates::PAGE_LOGOUT@)
            &&& config.admin.password is Some ==> text::holds(
                html,
                templates::PAGE_LOGOUT@ + ("<a class=\"logout\" href=\""@ + base
                    + "/logout\">Sign out</a>"@) + templates::PAGE_HEADING@,
            )
            &&& config.admin.password is None ==> text::holds(
                html,
                templates::PAGE_LOGOUT@ + ""@ + templates::PAGE_HEADING@,
            )
        }),
{
    let base = base_of(config);
    let parts = seq![
        templates::PAGE_TITLE@,
        escaped(title),
        templates::PAGE_STYLE@,
        base,
        templates::PAGE_BRAND@,
        base,
        templates::PAGE_HOME@,
        link_class(active == "dashboard"@),
        templates::PAGE_LIST@,
        base,
        templates::PAGE_LIST_END@,
        link_class(active == "requests"@),
        templates::PAGE_ROOT@,
        escaped(root),
        templates::PAGE_LOGOUT@,
        logout_html(config.admin.password is Some, base),
        templates::PAGE_HEADING@,
        escaped(title),
        templates::PAGE_BODY@,
        body,
        templates::PAGE_END@,
    ];
    text::lemma_holds_three(parts, 0);
    text::lemma_holds_three(parts, 12);
    text::lemma_holds_three(parts, 14);
    text::lemma_holds_three(parts, 16);
    text::lemma_holds_three(parts, 18);
    text::lemma_three("<a class=\"logout\" href=\""@, base, "/logout\">Sign out</a>"@);
}

/// The dashboard shows each number of the statistics under its own heading, and the
/// lines about paths and methods.
pub proof fn law_dashboard_shows_the_statistics(prefix: Seq<char>, stats: DashboardStats)
    ensures
        ({
            let html = dashboard_html(prefix, stats);
            &&& text::holds(
                html,
                templates::DASHBOARD_TOTAL@ + text::decimal(stats.total_requests as nat)
                    + templates::DASHBOARD_COMPLETE@,
            )
            &&& text::holds(
                html,
                templates::DASHBOARD_COMPLETE@ + text::decimal(stats.complete_requests as nat)
                    + templates::DASHBOARD_INCOMPLETE@,
            )
            &&& text::holds(
                html,
                templates::DASHBOARD_INCOMPLETE@ + text::decimal(stats.incomplete_requests as nat)
                    + templates::DASHBOARD_BYTES@,
            )
            &&& text::holds(
                html,
                templates::DASHBOARD_BYTES@ + size_text(stats.stored_body_bytes)
                    + templates::DASHBOARD_PATHS@,
            )
            &&& text::holds(
                html,
                templates::DASHBOARD_PATHS@ + path_rows_html(prefix, stats.top_paths@)
                    + templates::DASHBOARD_METHODS@,
            )
            &&& text::holds(
                html,
                templates::DASHBOARD_METHODS@ + method_rows_html(stats.top_methods@)
                    + templates::DASHBOARD_END@,
            )
        }),
{
    let parts = seq![
        templates::DASHBOARD_TOTAL@,
        text::decimal(stats.total_requests as nat),
        templates::DASHBOARD_COMPLETE@,
        text::decimal(stats.complete_requests as nat),
        templates::DASHBOARD_INCOMPLETE@,
        text::decimal(stats.incomplete_requests as nat),
        templates::DASHBOARD_BYTES@,
        size_text(stats.stored_body_bytes),
        templates::DASHBOARD_PATHS@,
        path_rows_html(prefix, stats.top_paths@),
        templates::DASHBOARD_METHODS@,
        method_rows_html(stats.top_methods@),
        templates::DASHBOARD_END@,
    ];
    text::lemma_holds_three(parts, 0);
    text::lemma_holds_three(parts, 2);
    text::lemma_holds_three(parts, 4);
    text::lemma_holds_three(parts, 6);
    text::lemma_holds_three(parts, 8);
    text::lemma_holds_three(parts, 10);
}

/// A list of requests is filtered by the path that the query gives, as forms encode
/// it; an empty path and a query without one filter nothing.
pub proof fn law_query_gives_the_filter(key: Seq<char>, value: Seq<char>, rest: Seq<char>)
    requires
        !key.contains('=') && !key.contains('&') && !value.contains('&'),
        auth::form_text(key) == "path"@,
    ensures
        filter_in(None) is None,
        auth::form_text(value).len() > 0 ==> filter_in(Some(key.push('=') + value)) == Some(
            auth::form_text(value),
        ) && filter_in(Some((key.push('=') + value).push('&') + rest)) == Some(
            auth::form_text(value),
        ),
        auth::form_text(value).len() == 0 ==> filter_in(Some(key.push('=') + value)) is None,
{
    let one = key.push('=') + value;
    auth::law_field_is_parted_at_the_equals_sign(key, value);
    auth::law_form_is_read_part_by_part(one, rest);
    let field = (auth::form_text(key), auth::form_text(value));
    auth::law_first_field_counts(seq![field], "path"@, 0);
    let fields = auth::form_fields(one.push('&') + rest);
    assert(fields[0] == field);
    auth::law_first_field_counts(fields, "path"@, 0);
}

/// A list shows the filter that it is made with and the lines about its requests, and
/// its title names the filter.
pub proof fn law_list_shows_its_filter(
    prefix: Seq<char>,
    filter: Seq<char>,
    records: Seq<RequestRecord>,
)
    ensures
        text::holds(
            list_html(prefix, filter, records),
            templates::LIST_FILTER@ + escaped(filter) + templates::LIST_ROWS@,
        ),
        text::holds(
            list_html(prefix, filter, records),
            templates::LIST_ROWS@ + record_rows_html(prefix, records) + templates::LIST_END@,
        ),
        list_title(Some(filter)) == "Requests for "@ + filter,
        list_title(None) == "Recent requests"@,
{
    let parts = seq![
        templates::LIST_FILTER@,
        escaped(filter),
        templates::LIST_ROWS@,
        record_rows_html(prefix, records),
        templates::LIST_END@,
    ];
    text::lemma_holds_three(parts, 0);
    text::lemma_holds_three(parts, 2);
    text::lemma_two("Requests for "@, filter);
}

/// The page of a request shows its own method, path, time, state and metadata file,
/// what there is to see of its body, and its metadata; its title names its id.
pub proof fn law_detail_shows_the_request(
    prefix: Seq<char>,
    record: RequestRecord,
    received: Seq<char>,
    preview: Seq<char>,
    meta_json: Seq<char>,
)
    ensures
        ({
            let html = detail_html(prefix, record, received, preview, meta_json);
            &&& text::holds(
                html,
                templates::DETAIL_METHOD@ + chip_html(record.meta.method@)
                    + templates::DETAIL_PATH@,
            )
            &&& text::holds(
                html,
                templates::DETAIL_PATH@ + escaped(record.meta.path@) + templates::DETAIL_RECEIVED@,
            )
            &&& text::holds(
                html,
                templates::DETAIL_RECEIVED@ + escaped(received) + templates::DETAIL_STATUS@,
            )
            &&& text::holds(
                html,
                templates::DETAIL_STATUS@ + status_html(
                    record.meta.body.limit_exceeded,
                    record.meta.body.complete,
                ) + templates::DETAIL_FILE@,
            )
            &&& text::holds(
                html,
                templates::DETAIL_FILE@ + escaped(record.meta_path@) + templates::DETAIL_PREVIEW@,
            )
            &&& text::holds(html, templates::DETAIL_PREVIEW@ + preview + templates::DETAIL_JSON@)
            &&& text::holds(
                html,
                templates::DETAIL_JSON@ + escaped(meta_json) + templates::DETAIL_END@,
            )
            &&& detail_title(record.meta.id@) == "Request "@ + escaped(record.meta.id@)
        }),
{
    let parts = seq![
        templates::DETAIL_BACK@,
        prefix,
        templates::DETAIL_METHOD@,
        chip_html(record.meta.method@),
        templates::DETAIL_PATH@,
        escaped(record.meta.path@),
        templates::DETAIL_RECEIVED@,
        escaped(received),
        templates::DETAIL_STATUS@,
        status_html(record.meta.body.limit_exceeded, record.meta.body.complete),
        templates::DETAIL_FILE@,
        escaped(record.meta_path@),
        templates::DETAIL_PREVIEW@,
        preview,
        templates::DETAIL_JSON@,
        escaped(meta_json),
        templates::DETAIL_END@,
    ];
    text::lemma_holds_three(parts, 2);
    text::lemma_holds_three(parts, 4);
    text::lemma_holds_three(parts, 6);
    text::lemma_holds_three(parts, 8);
    text::lemma_holds_three(parts, 10);
    text::lemma_holds_three(parts, 12);
    text::lemma_holds_three(parts, 14);
    text::lemma_two("Request "@, escaped(record.meta.id@));
}

/// The login page says what went wrong, if anything did, and sends its form to the
/// login below the prefix.
pub proof fn law_login_page_tells_what_went_wrong(config: Config, message: Seq<char>)
    ensures
        text::holds(
            login_html(config, Some(message)),
            templates::LOGIN_CARD@ + ("<p class=\"form-error\">"@ + escaped(message) + "</p>"@)
                + templates::LOGIN_FORM@,
        ),
        text::holds(
            login_html(config, None),
            templates::LOGIN_CARD@ + ""@ + templates::LOGIN_FORM@,
        ),
        text::holds(
            login_html(config, None),
            templates::LOGIN_FORM@ + base_of(config) + templates::LOGIN_END@,
        ),
{
    let base = base_of(config);
    text::lemma_three("<p class=\"form-error\">"@, escaped(message), "</p>"@);
    let failed = seq![
        templates::LOGIN_STYLE@,
        base,
        templates::LOGIN_CARD@,
        form_error_html(Some(message)),
        templates::LOGIN_FORM@,
        base,
        templates::LOGIN_END@,
    ];
    let first = seq![
        templates::LOGIN_STYLE@,
        base,
        templates::LOGIN_CARD@,
        form_error_html(None),
        templates::LOGIN_FORM@,
        base,
        templates::LOGIN_END@,
    ];
    text::lemma_holds_three(failed, 2);
    text::lemma_holds_three(first, 2);
    text::lemma_holds_three(first, 4);
}

/// What is shown of a body is all of its text, escaped, once it is decompressed where
/// it has to be; where that failed, the reason, escaped too.
pub proof fn law_preview_shows_the_text(bytes: Seq<u8>, reason: Seq<char>, shown: Seq<char>)
    ensures
        text_preview(shown) == "<pre>"@ + escaped(shown) + "</pre>"@,
        decoded_preview(Ok(bytes)) == "<pre>"@ + escaped(outside::lossy_text(bytes)) + "</pre>"@,
        decoded_preview(Err(reason)) == "<p class=\"error\">"@ + "Failed to decompress body"@
            + ": "@ + escaped(reason) + "</p>"@,
{
    text::lemma_three("<pre>"@, escaped(shown), "</pre>"@);
    text::lemma_three("<pre>"@, escaped(outside::lossy_text(bytes)), "</pre>"@);
    text::lemma_five(
        "<p class=\"error\">"@,
        "Failed to decompress body"@,
        ": "@,
        escaped(reason),
        "</p>"@,
    );
}

/// A text without characters that mean something in HTML is written as it is, and
/// texts one behind the other as each is written.
pub proof fn law_plain_text_is_written_as_it_is(s: Seq<char>, t: Seq<char>)
    ensures
        (forall|i: int| 0 <= i < s.len() ==> !is_markup(#[trigger] s[i]) && s[i] != '&')
            ==> escaped(s) == s,
        escaped(s + t) == escaped(s) + escaped(t),
    decreases s.len() + t.len(),
{
    if t.len() > 0 {
        law_plain_text_is_written_as_it_is(s, t.drop_last());
        assert((s + t).drop_last() =~= s + t.drop_last());
        assert(escaped(s + t) =~= escaped(s) + escaped(t));
    } else {
        assert(s + t =~= s);
        assert(escaped(s + t) =~= escaped(s) + escaped(t));
        if s.len() > 0 {
            law_plain_text_is_written_as_it_is(s.drop_last(), t);
            if forall|i: int| 0 <= i < s.len() ==> !is_markup(#[trigger] s[i]) && s[i] != '&' {
                assert forall|i: int| 0 <= i < s.drop_last().len() implies !is_markup(
                    #[trigger] s.drop_last()[i],
                ) && s.drop_last()[i] != '&' by {
                    assert(s.drop_last()[i] == s[i]);
                }
                assert(!is_markup(s[s.len() - 1]) && s[s.len() - 1] != '&');
                assert(escaped(s) =~= s);
            }
        }
    }
}

/// The characters that mean something in HTML are written as their entities.
pub proof fn law_markup_is_written_as_entities(s: Seq<char>)
    ensures
        escaped(s.push('&')) == escaped(s) + "&amp;"@,
        escaped(s.push('<')) == escaped(s) + "&lt;"@,
        escaped(s.push('>')) == escaped(s) + "&gt;"@,
        escaped(s.push('"')) == escaped(s) + "&quot;"@,
        escaped(s.push('\'')) == escaped(s) + "&#39;"@,
        escaped(Seq::empty()).len() == 0,
{
    assert(s.push('&').drop_last() == s);
    assert(s.push('<').drop_last() == s);
    assert(s.push('>').drop_last() == s);
    assert(s.push('"').drop_last() == s);
    assert(s.push('\'').drop_last() == s);
}

/// The line about a method shows it and how many requests came in with it.
pub proof fn law_method_row_shows_the_count(method: Seq<char>, count: nat)
    ensures
        method_row_html(method, count) == "<tr><td>"@ + chip_html(method)
            + "</td><td class=\"num\">"@ + text::decimal(count) + "</td></tr>"@,
{
    text::lemma_five(
        "<tr><td>"@,
        chip_html(method),
        "</td><td class=\"num\">"@,
        text::decimal(count),
        "</td></tr>"@,
    );
}

/// A page marks the section that it belongs to and no other, and links to both below
/// the prefix.
pub proof fn law_page_marks_its_section(
    config: Config,
    root: Seq<char>,
    title: Seq<char>,
    body: Seq<char>,
)
    ensures
        ({
            let mark = " class=\"active\""@;
            let home = page_html(config, root, title, "dashboard"@, body);
            let list = page_html(config, root, title, "requests"@, body);
            &&& text::holds(home, templates::PAGE_HOME@ + mark + templates::PAGE_LIST@)
            &&& text::holds(home, templates::PAGE_LIST_END@ + ""@ + templates::PAGE_ROOT@)
            &&& text::holds(list, templates::PAGE_HOME@ + ""@ + templates::PAGE_LIST@)
            &&& text::holds(list, templates::PAGE_LIST_END@ + mark + templates::PAGE_ROOT@)
            &&& text::holds(
                home,
                templates::PAGE_BRAND@ + base_of(config) + templates::PAGE_HOME@,
            )
            &&& text::holds(
                home,
                templates::PAGE_LIST@ + base_of(config) + templates::PAGE_LIST_END@,
            )
        }),
{
    reveal_strlit("dashboard");
    reveal_strlit("requests");
    assert("dashboard"@.len() != "requests"@.len());
    lemma_section_marked(config, root, title, "dashboard"@, body);
    lemma_section_marked(config, root, title, "requests"@, body);
}

proof fn lemma_section_marked(
    config: Config,
    root: Seq<char>,
    title: Seq<char>,
    active: Seq<char>,
    body: Seq<char>,
)
    ensures
        ({
            let html = page_html(config, root, title, active, body);
            let base = base_of(config);
            &&& text::holds(html, templates::PAGE_BRAND@ + base + templates::PAGE_HOME@)
            &&& text::holds(
                html,
                templates::PAGE_HOME@ + link_class(active == "dashboard"@) + templates::PAGE_LIST@,
            )
            &&& text::holds(html, templates::PAGE_LIST@ + base + templates::PAGE_LIST_END@)
            &&& text::holds(
                html,
                templates::PAGE_LIST_END@ + link_class(active == "requests"@)
                    + templates::PAGE_ROOT@,
            )
        }),
{
    let base = base_of(config);
    let parts = seq![
        templates::PAGE_TITLE@,
        escaped(title),
        templates::PAGE_STYLE@,
        base,
        templates::PAGE_BRAND@,
        base,
        templates::PAGE_HOME@,
        link_class(active == "dashboard"@),
        templates::PAGE_LIST@,
        base,
        templates::PAGE_LIST_END@,
        link_class(active == "requests"@),
        templates::PAGE_ROOT@,
        escaped(root),
        templates::PAGE_LOGOUT@,
        logout_html(config.admin.password is Some, base),
        templates::PAGE_HEADING@,
        escaped(title),
        templates::PAGE_BODY@,
        body,
        templates::PAGE_END@,
    ];
    text::lemma_holds_three(parts, 4);
    text::lemma_holds_three(parts, 6);
    text::lemma_holds_three(parts, 8);
    text::lemma_holds_three(parts, 10);
}

/// A page is sent as HTML and a note as plain text, each with the status it was given.
pub proof fn law_pages_are_html_and_notes_are_text(status: u16, body: Seq<char>)
    ensures
        html_reply(status, body).status == status,
        html_reply(status, body).body == body,
        html_reply(status, body).headers["content-type"@] == "text/html; charset=utf-8"@,
        plain_reply(status, body).status == status,
        plain_reply(status, body).body == body,
        plain_reply(status, body).headers["content-type"@] == "text/plain; charset=utf-8"@,
{
}

/// A note that something failed tells what and why.
pub proof fn law_failure_is_told(what: Seq<char>, reason: Seq<char>)
    ensures
        failure_html(what, reason) == "<p class=\"error\">"@ + what + ": "@ + escaped(reason)
            + "</p>"@,
{
    text::lemma_five("<p class=\"error\">"@, what, ": "@, escaped(reason), "</p>"@);
}

/// A size from 2^53 on is rounded to 53 bits first, which moves it by no more than
/// 2048 bytes, and then shown in the largest unit to the nearest tenth.
pub proof fn law_huge_size_is_shown_to_the_nearest_tenth(bytes: u64)
    requires
        bytes >= 9_007_199_254_740_992,
    ensures
        bytes - 2048 <= to_53_bits(bytes as nat) <= bytes + 2048,
        exists|tenths: nat| #[trigger]
            tenths_text(tenths, "TiB"@) == size_text(bytes) && is_nearest(
                tenths,
                1024 * 1024 * 1024 * 1024,
                to_53_bits(bytes as nat),
            ),
{
    let n = bytes as nat;
    lemma_step_bounded(n);
    let step = precision_step(n, 1);
    vstd::arithmetic::div_mod::lemma_fundamental_div_mod(n as int, step as int);
    let q = (n / step) as int;
    let rest = (n % step) as int;
    let count = rounded(n, step) as int;
    if count == q {
        assert(count * step == step * q) by (nonlinear_arith)
            requires
                count == q,
        ;
    } else {
        assert(count * step == step * q + step) by (nonlinear_arith)
            requires
                count == q + 1,
        ;
    }
    let size = to_53_bits(n);
    let unit = unit_for(size);
    assert(unit == ("TiB"@, 1_099_511_627_776nat));
    let tenths = rounded(10 * size, unit.1);
    lemma_rounded_is_nearest(size, unit.1);
    text::lemma_five(
        text::decimal(tenths / 10),
        "."@,
        text::decimal(tenths % 10),
        " "@,
        unit.0,
    );
    assert(tenths_text(tenths, unit.0) == size_text(bytes));
}

proof fn lemma_step_bounded(n: nat)
    requires
        n <= u64::MAX,
    ensures
        0 < precision_step(n, 1) <= 2048,
{
    assert(n / 2048 < 9_007_199_254_740_992);
    assert(precision_step(n, 2048) == 2048);
    assert(precision_step(n, 1024) == 1024 || precision_step(n, 1024) == 2048);
    assert(0 < precision_step(n, 512) <= 2048);
    assert(0 < precision_step(n, 256) <= 2048);
    assert(0 < precision_step(n, 128) <= 2048);
    assert(0 < precision_step(n, 64) <= 2048);
    assert(0 < precision_step(n, 32) <= 2048);
    assert(0 < precision_step(n, 16) <= 2048);
    assert(0 < precision_step(n, 8) <= 2048);
    assert(0 < precision_step(n, 4) <= 2048);
    assert(0 < precision_step(n, 2) <= 2048);
}

/// The body of a request is read for its preview exactly if it is previewable and has
/// a file.
pub proof fn law_preview_reads_previewable_bodies(record: &RequestRecord, step: PreviewStep)
    requires
        call_ensures(preview_step, (record,), step),
    ensures
        step is Read <==> record.meta.body.previewable && record.body_path is Some,
        step is Read ==> Some(step->Read_0@) == text::optional_text(record.body_path),
{
}

/// What is shown of a body file: its text, decompressed first exactly if it is marked
/// as gzip; where the file could not be read, why.
pub proof fn law_body_preview_goes_by_the_encoding(
    record: &RequestRecord,
    read: Result<Vec<u8>, String>,
    html: String,
)
    requires
        call_ensures(body_preview, (record, read), html),
    ensures
        read is Ok && text::optional_text(record.meta.body.encoding) != Some("gzip"@) ==> html@
            == "<pre>"@ + escaped(outside::lossy_text(read->Ok_0@)) + "</pre>"@,
        read is Ok && text::optional_text(record.meta.body.encoding) == Some("gzip"@)
            && outside::gunzipped(read->Ok_0@) is Ok ==> html@ == "<pre>"@ + escaped(
            outside::lossy_text(outside::gunzipped(read->Ok_0@)->Ok_0),
        ) + "</pre>"@,
        read is Err ==> html@ == "<p class=\"error\">"@ + "Failed to read body"@ + ": "@
            + escaped(read->Err_0@) + "</p>"@,
{
    if read is Ok {
        let bytes = read->Ok_0@;
        law_preview_shows_the_text(bytes, Seq::empty(), outside::lossy_text(bytes));
        if outside::gunzipped(bytes) is Ok {
            law_preview_shows_the_text(
                outside::gunzipped(bytes)->Ok_0,
                Seq::empty(),
                Seq::empty(),
            );
        }
    } else {
        law_failure_is_told("Failed to read body"@, read->Err_0@);
    }
}

} // verus!
