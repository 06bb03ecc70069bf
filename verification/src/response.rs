//! The answers that the server gives.

use vstd::prelude::*;
use vstd::string::*;

use crate::capture;
use crate::config;
use crate::config::{Config, ResolvedResponder, ResponderBody, ResponderConfig};
use crate::models::CaptureResponse;
use crate::outside;
use crate::table;
use crate::table::OrderedTable;
use crate::text;

verus! {

/// An answer. Header names are in small letters.
#[derive(Debug)]
pub struct HttpReply {
    pub status: u16,
    pub headers: OrderedTable<String>,
    pub body: String,
}

/// What an answer says.
pub struct Reply {
    pub status: u16,
    pub headers: Map<Seq<char>, Seq<char>>,
    pub body: Seq<char>,
}

impl View for HttpReply {
    type V = Reply;

    open spec fn view(&self) -> Reply {
        Reply {
            status: self.status,
            headers: config::header_texts(self.headers@),
            body: self.body@,
        }
    }
}

/// A header that HTTP allows.
pub open spec fn is_usable(name: Seq<char>, value: Seq<char>) -> bool {
    outside::is_header_name(name) && outside::is_header_value(value)
}

/// `key` is the configured name whose value goes out under `name`: of all usable
/// ones that are `name` but for capitals, the last in byte order.
pub open spec fn goes_out_as(
    configured: Map<Seq<char>, String>,
    key: Seq<char>,
    name: Seq<char>,
) -> bool {
    &&& configured.contains_key(key)
    &&& is_usable(key, configured[key]@)
    &&& text::lowered(key) == name
    &&& forall|other: Seq<char>| #[trigger]
        configured.contains_key(other) && is_usable(other, configured[other]@) && text::lowered(
            other,
        ) == name && other != key ==> table::text_before(other, key)
}

/// `sent` holds the configured headers that HTTP allows, and a content type in
/// any case.
pub open spec fn are_answer_headers(
    sent: Map<Seq<char>, Seq<char>>,
    configured: Map<Seq<char>, String>,
    content_type: Seq<char>,
) -> bool {
    &&& forall|name: Seq<char>| #[trigger]
        sent.contains_key(name) <==> name == "content-type"@ || exists|key: Seq<char>|
            goes_out_as(configured, key, name)
    &&& forall|key: Seq<char>, name: Seq<char>| #[trigger]
        goes_out_as(configured, key, name) ==> sent[name] == configured[key]@
    &&& (forall|key: Seq<char>| !goes_out_as(configured, key, "content-type"@))
        ==> sent["content-type"@] == content_type
}

/// The text of a responder's body.
pub open spec fn body_text(body: ResponderBody, summary_json: Seq<char>) -> Seq<char> {
    match body {
        ResponderBody::StaticText(fixed) => fixed@,
        ResponderBody::StaticJson(fixed) => fixed@,
        ResponderBody::MetadataJson => summary_json,
    }
}

/// The content type of a responder's body.
pub open spec fn body_type(body: ResponderBody) -> Seq<char> {
    match body {
        ResponderBody::StaticText(_) => "text/plain; charset=utf-8"@,
        _ => "application/json; charset=utf-8"@,
    }
}

/// `reply` is what a responder with this status, these headers and this body
/// answers. A status that HTTP does not allow becomes 200.
pub open spec fn is_answer(
    reply: Reply,
    status: u16,
    headers: Map<Seq<char>, String>,
    body: ResponderBody,
    summary_json: Seq<char>,
) -> bool {
    &&& reply.status == if 100 <= status <= 999 {
        status
    } else {
        200
    }
    &&& are_answer_headers(reply.headers, headers, body_type(body))
    &&& reply.body == body_text(body, summary_json)
}

/// One configured header more, later in byte order than those before it.
proof fn lemma_header_added(
    before: Map<Seq<char>, String>,
    key: Seq<char>,
    value: String,
    sent: Map<Seq<char>, Seq<char>>,
    content_type: Seq<char>,
)
    requires
        forall|k: Seq<char>| #[trigger] before.contains_key(k) ==> table::text_before(k, key),
        are_answer_headers(sent, before, content_type),
    ensures
        are_answer_headers(
            if is_usable(key, value@) {
                sent.insert(text::lowered(key), value@)
            } else {
                sent
            },
            before.insert(key, value),
            content_type,
        ),
{
    table::lemma_text_order(key, key);
    assert(!before.contains_key(key));
    let after = before.insert(key, value);
    let small = text::lowered(key);
    let usable = is_usable(key, value@);
    let result = if usable {
        sent.insert(small, value@)
    } else {
        sent
    };
    if usable {
        assert(goes_out_as(after, key, small));
    }
    assert forall|k: Seq<char>, name: Seq<char>|
        k != key && (!usable || name != small) implies goes_out_as(before, k, name) == goes_out_as(
        after,
        k,
        name,
    ) by {
        if goes_out_as(after, k, name) {
            assert forall|other: Seq<char>| #[trigger]
                before.contains_key(other) && is_usable(other, before[other]@) && text::lowered(
                    other,
                ) == name && other != k implies table::text_before(other, k) by {
                assert(after.contains_key(other));
            }
        }
    }
    assert forall|k: Seq<char>, name: Seq<char>| #[trigger]
        goes_out_as(after, k, name) implies result[name] == after[k]@ by {
        if k == key {
            assert(name == small);
        } else if usable && name == small {
            assert(after.contains_key(key));
            assert(table::text_before(key, k));
            assert(table::text_before(k, key));
            table::lemma_text_order(k, key);
        } else {
            assert(goes_out_as(before, k, name));
        }
    }
    assert forall|name: Seq<char>| #[trigger]
        result.contains_key(name) <==> name == "content-type"@ || exists|k: Seq<char>|
            goes_out_as(after, k, name) by {
        if result.contains_key(name) && name != "content-type"@ {
            if usable && name == small {
                assert(goes_out_as(after, key, name));
            } else {
                let k = choose|k: Seq<char>| goes_out_as(before, k, name);
                assert(goes_out_as(before, k, name));
                assert(goes_out_as(after, k, name));
            }
        }
        if exists|k: Seq<char>| goes_out_as(after, k, name) {
            let k = choose|k: Seq<char>| goes_out_as(after, k, name);
            if k != key && !(usable && name == small) {
                assert(goes_out_as(before, k, name));
            }
        }
    }
    if forall|k: Seq<char>| !goes_out_as(after, k, "content-type"@) {
        assert forall|k: Seq<char>| !goes_out_as(before, k, "content-type"@) by {
            if goes_out_as(before, k, "content-type"@) {
                assert(!usable || small != "content-type"@);
                assert(goes_out_as(after, k, "content-type"@));
            }
        }
    }
}

/// The headers of an answer.
fn answer_headers(configured: &OrderedTable<String>, content_type: &str) -> (sent: OrderedTable<
    String,
>)
    ensures
        are_answer_headers(config::header_texts(sent@), configured@, content_type@),
{
    let mut sent: OrderedTable<String> = OrderedTable::new();
    sent.insert("content-type".to_string(), content_type.to_string());
    let count: usize = configured.len();
    let ghost pairs = configured.pairs();
    proof {
        assert(table::spelled_map(pairs.take(0)) == Map::<Seq<char>, String>::empty());
    }
    for i in 0..count
        invariant
            count == pairs.len(),
            pairs == configured.pairs(),
            table::keys_in_order(pairs),
            are_answer_headers(
                config::header_texts(sent@),
                table::spelled_map(pairs.take(i as int)),
                content_type@,
            ),
    {
        let key: &String = configured.key(i);
        let value: &String = configured.value(i);
        let ghost before = table::spelled_map(pairs.take(i as int));
        let ghost sent_before = sent@;
        proof {
            assert(pairs.take(i + 1).drop_last() == pairs.take(i as int));
            table::lemma_spelled_map(pairs.take(i as int));
            assert forall|k: Seq<char>| #[trigger] before.contains_key(k) implies
                table::text_before(k, key@) by {
                let j = choose|j: int|
                    0 <= j < pairs.take(i as int).len() && (#[trigger] pairs.take(i as int)[j]).0
                        == k;
                assert(pairs[j].0 == k);
                assert(table::text_before(pairs[j].0, pairs[i as int].0));
            }
            lemma_header_added(
                before,
                key@,
                *value,
                config::header_texts(sent@),
                content_type@,
            );
        }
        if outside::header_name_accepted(key.as_str()) && outside::header_value_accepted(
            value.as_str(),
        ) {
            let chars: Vec<char> = text::to_chars(key.as_str());
            let small: Vec<char> = text::lowercase(chars.as_slice());
            sent.insert(text::from_chars(small.as_slice()), value.clone());
            assert(config::header_texts(sent@) =~= config::header_texts(sent_before).insert(
                text::lowered(key@),
                value@,
            ));
        }
    }
    assert(pairs.take(pairs.len() as int) == pairs);
    sent
}

/// What a responder answers to a capture whose summary is `summary_json`.
pub fn build_capture_response(responder: ResolvedResponder, summary_json: &str) -> (reply:
    HttpReply)
    ensures
        is_answer(
            reply@,
            responder.status,
            responder.headers@,
            responder.body,
            summary_json@,
        ),
{
    let status: u16 = if outside::status_code_accepted(responder.status) {
        responder.status
    } else {
        200
    };
    let content_type: &str = match &responder.body {
        ResponderBody::StaticText(_) => "text/plain; charset=utf-8",
        ResponderBody::StaticJson(_) => "application/json; charset=utf-8",
        ResponderBody::MetadataJson => "application/json; charset=utf-8",
    };
    let headers: OrderedTable<String> = answer_headers(&responder.headers, content_type);
    let body: String = match responder.body {
        ResponderBody::StaticText(fixed) => fixed,
        ResponderBody::StaticJson(fixed) => fixed,
        ResponderBody::MetadataJson => summary_json.to_string(),
    };
    HttpReply { status, headers, body }
}

/// A summary of a capture as JSON, under a status.
pub open spec fn is_health_answer(reply: Reply, status: u16, summary_json: Seq<char>) -> bool {
    &&& reply.status == if 100 <= status <= 999 {
        status
    } else {
        200
    }
    &&& reply.headers == config::default_headers()
    &&& reply.body == summary_json
}

/// Answers the summary of a capture as JSON.
pub fn metadata_json_response(status: u16, summary_json: &str) -> (reply: HttpReply)
    ensures
        is_health_answer(reply@, status, summary_json@),
{
    let defaults: ResponderConfig = ResponderConfig::default();
    let ghost configured = defaults.headers@;
    let responder: ResolvedResponder = ResolvedResponder {
        status,
        headers: defaults.headers,
        body: ResponderBody::MetadataJson,
    };
    let reply: HttpReply = build_capture_response(responder, summary_json);
    proof {
        let name = "content-type"@;
        let json = "application/json; charset=utf-8"@;
        assert(config::header_texts(configured) == config::default_headers());
        assert(config::header_texts(configured).contains_key(name));
        assert(configured.contains_key(name));
        assert(config::header_texts(configured)[name] == json);
        assert forall|k: Seq<char>| #[trigger] configured.contains_key(k) implies k == name by {
            assert(config::header_texts(configured).contains_key(k));
        }
        assert(text::lowered(name) =~= name) by {
            reveal_strlit("content-type");
        }
        assert forall|k: Seq<char>, n: Seq<char>| #[trigger]
            goes_out_as(configured, k, n) implies k == name && n == name by {
            assert(configured.contains_key(k));
        }
        if goes_out_as(configured, name, name) {
            assert(reply@.headers[name] == json);
        } else {
            assert forall|k: Seq<char>| !goes_out_as(configured, k, name) by {
                if goes_out_as(configured, k, name) {
                    assert(k == name);
                }
            }
        }
        assert(reply@.headers =~= config::default_headers());
    }
    reply
}

/// Answers a capture: as the configuration says for the path if it succeeded;
/// otherwise with its summary, under the status that tells how it went.
pub fn capture_reply(
    config: &Config,
    path: &str,
    summary: &CaptureResponse,
    summary_json: &str,
) -> (reply: HttpReply)
    ensures
        summary.success ==> is_answer(
            reply@,
            config.answer_status(path@),
            config::merged_headers(config.responders@, path@, config.responder.headers@),
            config.answer_body(path@),
            summary_json@,
        ),
        !summary.success ==> is_health_answer(
            reply@,
            capture::health_status(summary@),
            summary_json@,
        ),
{
    if summary.success {
        build_capture_response(config.responder_for_path(path), summary_json)
    } else {
        metadata_json_response(capture::capture_status(summary), summary_json)
    }
}

/// An answer with a body of some type.
pub open spec fn typed_reply(status: u16, content_type: Seq<char>, body: Seq<char>) -> Reply {
    Reply {
        status,
        headers: Map::<Seq<char>, Seq<char>>::empty().insert("content-type"@, content_type),
        body,
    }
}

/// Answers a body of some type.
pub fn reply_with(status: u16, content_type: &str, body: String) -> (reply: HttpReply)
    ensures
        reply@ == typed_reply(status, content_type@, body@),
{
    let mut headers: OrderedTable<String> = OrderedTable::new();
    headers.insert("content-type".to_string(), content_type.to_string());
    let reply: HttpReply = HttpReply { status, headers, body };
    assert(reply@.headers =~= typed_reply(status, content_type@, body@).headers);
    reply
}

/// An answer that sends on to another page. A location that cannot stand in a
/// header is left out.
pub open spec fn redirect_reply(location: Seq<char>) -> Reply {
    Reply {
        status: 303,
        headers: if outside::is_header_value(location) {
            Map::<Seq<char>, Seq<char>>::empty().insert("location"@, location)
        } else {
            Map::empty()
        },
        body: Seq::empty(),
    }
}

/// Sends on to another page.
pub fn redirect(location: &str) -> (reply: HttpReply)
    ensures
        reply@ == redirect_reply(location@),
{
    let mut headers: OrderedTable<String> = OrderedTable::new();
    if outside::header_value_accepted(location) {
        headers.insert("location".to_string(), location.to_string());
    }
    let reply: HttpReply = HttpReply { status: 303, headers, body: String::new() };
    assert(reply@.headers =~= redirect_reply(location@).headers);
    assert(reply@.body =~= Seq::<char>::empty());
    reply
}

/// An answer that sends on to another page and sets a cookie. Where either cannot
/// stand in a header, no cookie is set.
pub open spec fn cookie_reply(location: Seq<char>, cookie: Seq<char>) -> Reply {
    if outside::is_header_value(location) && outside::is_header_value(cookie) {
        Reply {
            status: 303,
            headers: Map::<Seq<char>, Seq<char>>::empty().insert("location"@, location).insert(
                "set-cookie"@,
                cookie,
            ),
            body: Seq::empty(),
        }
    } else {
        redirect_reply(location)
    }
}

/// Sends on to another page and sets a cookie.
pub fn redirect_with_cookie(location: &str, cookie: &str) -> (reply: HttpReply)
    ensures
        reply@ == cookie_reply(location@, cookie@),
{
    if outside::header_value_accepted(location) && outside::header_value_accepted(cookie) {
        let mut headers: OrderedTable<String> = OrderedTable::new();
        headers.insert("location".to_string(), location.to_string());
        headers.insert("set-cookie".to_string(), cookie.to_string());
        let reply: HttpReply = HttpReply { status: 303, headers, body: String::new() };
        assert(reply@.headers =~= cookie_reply(location@, cookie@).headers);
        assert(reply@.body =~= Seq::<char>::empty());
        reply
    } else {
        redirect(location)
    }
}

/// A configured header that HTTP allows is sent, under its name in small letters,
/// with the configured value, unless another spelling of the same name is configured
/// as well.
pub proof fn law_configured_header_is_sent(
    sent: Map<Seq<char>, Seq<char>>,
    configured: Map<Seq<char>, String>,
    content_type: Seq<char>,
    key: Seq<char>,
)
    requires
        are_answer_headers(sent, configured, content_type),
        configured.contains_key(key),
        outside::is_header_name(key),
        outside::is_header_value(configured[key]@),
        forall|other: Seq<char>| #[trigger]
            configured.contains_key(other) && text::lowered(other) == text::lowered(key)
                ==> other == key,
    ensures
        sent.contains_key(text::lowered(key)),
        sent[text::lowered(key)] == configured[key]@,
{
    let name = text::lowered(key);
    assert(goes_out_as(configured, key, name)) by {
        assert forall|other: Seq<char>| #[trigger]
            configured.contains_key(other) && is_usable(other, configured[other]@)
                && text::lowered(other) == name && other != key implies table::text_before(
            other,
            key,
        ) by {
            assert(other == key);
        }
    }
}

/// No header is sent but those that are configured and the content type, and none
/// whose name or value HTTP does not allow. An answer always has a content type: the
/// configured one, or else that of its body.
pub proof fn law_no_other_header_is_sent(
    sent: Map<Seq<char>, Seq<char>>,
    configured: Map<Seq<char>, String>,
    content_type: Seq<char>,
    name: Seq<char>,
)
    requires
        are_answer_headers(sent, configured, content_type),
    ensures
        sent.contains_key("content-type"@),
        (forall|key: Seq<char>| #[trigger]
            configured.contains_key(key) ==> text::lowered(key) != "content-type"@)
            ==> sent["content-type"@] == content_type,
        sent.contains_key(name) && name != "content-type"@ ==> exists|key: Seq<char>| #[trigger]
            configured.contains_key(key) && text::lowered(key) == name
                && outside::is_header_name(key) && outside::is_header_value(configured[key]@)
                && sent[name] == configured[key]@,
{
    if sent.contains_key(name) && name != "content-type"@ {
        let key = choose|key: Seq<char>| goes_out_as(configured, key, name);
        assert(goes_out_as(configured, key, name));
        assert(configured.contains_key(key));
    }
    if forall|key: Seq<char>| #[trigger]
        configured.contains_key(key) ==> text::lowered(key) != "content-type"@ {
        assert forall|key: Seq<char>| !goes_out_as(configured, key, "content-type"@) by {
            if goes_out_as(configured, key, "content-type"@) {
                assert(configured.contains_key(key));
            }
        }
    }
}

/// An answer has the status, the text and the type that its responder states: a fixed
/// text as plain text, a fixed document and the summary of the capture as JSON.
pub proof fn law_answer_is_what_the_responder_states(
    reply: Reply,
    status: u16,
    headers: Map<Seq<char>, String>,
    body: ResponderBody,
    summary_json: Seq<char>,
)
    requires
        is_answer(reply, status, headers, body, summary_json),
        forall|key: Seq<char>| #[trigger]
            headers.contains_key(key) ==> text::lowered(key) != "content-type"@,
    ensures
        100 <= status <= 999 ==> reply.status == status,
        body matches ResponderBody::StaticText(fixed) ==> reply.body == fixed@
            && reply.headers["content-type"@] == "text/plain; charset=utf-8"@,
        body matches ResponderBody::StaticJson(fixed) ==> reply.body == fixed@
            && reply.headers["content-type"@] == "application/json; charset=utf-8"@,
        body is MetadataJson ==> reply.body == summary_json && reply.headers["content-type"@]
            == "application/json; charset=utf-8"@,
{
    law_no_other_header_is_sent(reply.headers, headers, body_type(body), Seq::empty());
}

/// A capture that failed is answered with its summary as JSON under the status that
/// tells how it went, and with no configured header.
pub proof fn law_failed_capture_gets_its_summary(
    reply: Reply,
    summary: CaptureResponse,
    summary_json: Seq<char>,
)
    requires
        is_health_answer(reply, capture::health_status(summary@), summary_json),
    ensures
        reply.body == summary_json,
        reply.headers.contains_key("content-type"@),
        reply.headers["content-type"@] == "application/json; charset=utf-8"@,
        forall|name: Seq<char>| #[trigger]
            reply.headers.contains_key(name) ==> name == "content-type"@,
        !summary.metadata_saved ==> reply.status == 500,
        summary.metadata_saved && summary.limit_exceeded ==> reply.status == 413,
        summary.metadata_saved && !summary.limit_exceeded && !summary.complete ==> reply.status
            == 400,
{
    capture::law_status_tells_the_state(summary@);
}

/// An answer that sends on names the place in its location, under the status that
/// makes a browser fetch it; with a cookie, it sets that too.
pub proof fn law_redirect_leads_on(location: Seq<char>, cookie: Seq<char>)
    requires
        outside::is_header_value(location),
        outside::is_header_value(cookie),
    ensures
        redirect_reply(location).status == 303,
        redirect_reply(location).headers["location"@] == location,
        redirect_reply(location).headers.dom() == set!["location"@],
        redirect_reply(location).body.len() == 0,
        cookie_reply(location, cookie).status == 303,
        cookie_reply(location, cookie).headers["location"@] == location,
        cookie_reply(location, cookie).headers["set-cookie"@] == cookie,
        cookie_reply(location, cookie).headers.dom() == set!["location"@, "set-cookie"@],
        cookie_reply(location, cookie).body.len() == 0,
{
    reveal_strlit("location");
    reveal_strlit("set-cookie");
    assert("location"@.len() != "set-cookie"@.len());
    assert(redirect_reply(location).headers.dom() =~= set!["location"@]);
    assert(cookie_reply(location, cookie).headers.dom() =~= set!["location"@, "set-cookie"@]);
}

/// Where a location or a cookie cannot stand in a header, no cookie is set; a location
/// that cannot is left out.
pub proof fn law_unusable_cookie_is_not_set(location: Seq<char>, cookie: Seq<char>)
    requires
        !outside::is_header_value(location) || !outside::is_header_value(cookie),
    ensures
        !cookie_reply(location, cookie).headers.contains_key("set-cookie"@),
        cookie_reply(location, cookie).headers.contains_key("location"@)
            <==> outside::is_header_value(location),
        cookie_reply(location, cookie).status == 303,
{
    reveal_strlit("location");
    reveal_strlit("set-cookie");
    assert("location"@.len() != "set-cookie"@.len());
}

/// An answer with a body of some type has the status and the body it was made of and
/// no other header than its type.
pub proof fn law_typed_reply_says_its_type(
    status: u16,
    content_type: Seq<char>,
    body: Seq<char>,
)
    ensures
        ({
            let reply = typed_reply(status, content_type, body);
            &&& reply.status == status
            &&& reply.body == body
            &&& reply.headers.dom() == set!["content-type"@]
            &&& reply.headers["content-type"@] == content_type
        }),
{
    assert(typed_reply(status, content_type, body).headers.dom() =~= set!["content-type"@]);
}

/// Of two spellings of a header's name the one that comes later in the order of texts
/// decides.
pub proof fn law_later_spelling_decides(
    sent: Map<Seq<char>, Seq<char>>,
    configured: Map<Seq<char>, String>,
    content_type: Seq<char>,
    first: Seq<char>,
    second: Seq<char>,
)
    requires
        are_answer_headers(sent, configured, content_type),
        configured.contains_key(first),
        configured.contains_key(second),
        text::lowered(first) == text::lowered(second),
        table::text_before(first, second),
        outside::is_header_name(second),
        outside::is_header_value(configured[second]@),
        forall|other: Seq<char>| #[trigger]
            configured.contains_key(other) && text::lowered(other) == text::lowered(second)
                ==> other == first || other == second,
    ensures
        sent[text::lowered(second)] == configured[second]@,
{
    assert(goes_out_as(configured, second, text::lowered(second)));
}

/// A status that HTTP does not know is answered as 200.
pub proof fn law_unknown_status_becomes_200(
    reply: Reply,
    status: u16,
    headers: Map<Seq<char>, String>,
    body: ResponderBody,
    summary_json: Seq<char>,
)
    requires
        is_answer(reply, status, headers, body, summary_json),
        status < 100 || status > 999,
    ensures
        reply.status == 200,
{
}

/// What is said of an answer is what the answer holds.
pub proof fn law_answer_says_what_it_holds(reply: HttpReply, name: Seq<char>)
    ensures
        reply@.status == reply.status,
        reply@.body == reply.body@,
        reply@.headers.contains_key(name) <==> reply.headers@.contains_key(name),
        reply.headers@.contains_key(name) ==> reply@.headers[name] == reply.headers@[name]@,
{
}

/// A successful capture is answered as the configuration says for its path, a failed
/// one with its summary under the status that tells how it went, whatever the
/// configuration says.
pub proof fn law_capture_reply_goes_by_success(
    config: &Config,
    path: &str,
    summary: &CaptureResponse,
    summary_json: &str,
    reply: HttpReply,
)
    requires
        call_ensures(capture_reply, (config, path, summary, summary_json), reply),
    ensures
        summary.success && 100 <= config.answer_status(path@) <= 999 ==> reply.status
            == config.answer_status(path@),
        summary.success ==> reply.body@ == match config.answer_body(path@) {
            ResponderBody::StaticText(fixed) => fixed@,
            ResponderBody::StaticJson(fixed) => fixed@,
            ResponderBody::MetadataJson => summary_json@,
        },
        !summary.success ==> reply.body@ == summary_json@,
        !summary.success && !summary.metadata_saved ==> reply.status == 500,
        !summary.success && summary.metadata_saved && summary.limit_exceeded ==> reply.status
            == 413,
        !summary.success && summary.metadata_saved && !summary.limit_exceeded && !summary.complete
            ==> reply.status == 400,
{
}

} // verus!
