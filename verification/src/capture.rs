//! The capture of a request: its id, what is recorded of it, and the summary that
//! its sender gets.

use vstd::prelude::*;
use vstd::string::*;

use crate::body;
use crate::body::BodyEvent;
use crate::config::{Config, ResolvedPathRule};
use crate::headers;
use crate::headers::Header;
use crate::models::{BodyFacts, BodyMeta, CaptureFacts, CaptureResponse, RequestMeta};
use crate::outside;
use crate::size;
use crate::storage;
use crate::storage::{LocalStorage, StoredRequestPaths};
use crate::text;
use crate::time::{LocalTime, Moment};

verus! {

/// The record of a request. The path and the query stay as they came.
pub fn build_meta(
    id: &str,
    received_at: Moment,
    method: &str,
    path: &str,
    query: Option<&str>,
    headers: &Vec<Header>,
    body: BodyMeta,
) -> (meta: RequestMeta)
    ensures
        meta.id@ == id@,
        meta.received_at == received_at,
        meta.method@ == method@,
        meta.path@ == path@,
        meta.query is Some <==> query is Some,
        meta.query matches Some(q) ==> q@ == query->0@,
        headers::is_record_of(meta.headers@, headers@),
        meta.body == body,
{
    RequestMeta {
        id: id.to_string(),
        received_at,
        method: method.to_string(),
        path: path.to_string(),
        query: text::owned(query),
        headers: headers::headers_to_json(headers),
        body,
    }
}

/// The summary of a capture whose record was saved.
pub open spec fn saved_summary(id: Seq<char>, header_length: u64, body: BodyFacts) -> CaptureFacts {
    CaptureFacts {
        success: body.complete && !body.limit_exceeded,
        id,
        complete: body.complete,
        body_stored: body.stored,
        total_bytes_in: size::capped(header_length + body.original_size),
        body_length: body.original_size,
        stored_body_length: body.stored_size,
        header_length,
        limit_exceeded: body.limit_exceeded,
        metadata_saved: true,
        error: body.error,
    }
}

/// The summary of the same capture where its record could not be saved.
pub open spec fn unsaved_summary(summary: CaptureFacts) -> CaptureFacts {
    CaptureFacts {
        success: false,
        metadata_saved: false,
        error: Some("failed to persist request metadata"@),
        ..summary
    }
}

/// The status that tells how a capture went.
pub open spec fn health_status(summary: CaptureFacts) -> u16 {
    if !summary.metadata_saved {
        500
    } else if summary.limit_exceeded {
        413
    } else if summary.complete {
        200
    } else {
        400
    }
}

/// The summary of a capture whose record was saved.
pub fn summarize(id: &str, header_length: u64, body: &BodyMeta) -> (summary: CaptureResponse)
    ensures
        summary@ == saved_summary(id@, header_length, body@),
{
    CaptureResponse {
        success: body.complete && !body.limit_exceeded,
        id: id.to_string(),
        complete: body.complete,
        body_stored: body.stored,
        total_bytes_in: size::capped_sum(header_length, body.original_size),
        body_length: body.original_size,
        stored_body_length: body.stored_size,
        header_length,
        limit_exceeded: body.limit_exceeded,
        metadata_saved: true,
        error: text::copy_text(&body.error),
    }
}

/// The summary of a capture once its record could not be saved.
pub fn mark_unsaved(summary: CaptureResponse) -> (unsaved: CaptureResponse)
    ensures
        unsaved@ == unsaved_summary(summary@),
{
    let mut unsaved: CaptureResponse = summary;
    unsaved.success = false;
    unsaved.metadata_saved = false;
    unsaved.error = Some("failed to persist request metadata".to_string());
    unsaved
}

/// The status that tells how a capture went.
pub fn capture_status(summary: &CaptureResponse) -> (status: u16)
    ensures
        status == health_status(summary@),
{
    if !summary.metadata_saved {
        500
    } else if summary.limit_exceeded {
        413
    } else if summary.complete {
        200
    } else {
        400
    }
}

/// A capture succeeded exactly if its status is 200, whether its record was saved
/// or not.
pub proof fn law_success_is_status_200(id: Seq<char>, header_length: u64, body: BodyFacts)
    ensures
        ({
            let saved = saved_summary(id, header_length, body);
            let unsaved = unsaved_summary(saved);
            &&& saved.success <==> health_status(saved) == 200
            &&& unsaved.success <==> health_status(unsaved) == 200
        }),
{
}

/// A capture that failed is answered 413 or 400, and 500 where its record could
/// not be saved.
pub proof fn law_failed_capture_has_a_health_status(
    id: Seq<char>,
    header_length: u64,
    body: BodyFacts,
)
    ensures
        ({
            let saved = saved_summary(id, header_length, body);
            let unsaved = unsaved_summary(saved);
            &&& !saved.success ==> health_status(saved) == 413 || health_status(saved) == 400
            &&& !unsaved.success
            &&& health_status(unsaved) == 500
        }),
{
}

/// A body whose stated length is over the limit is answered 413, though nothing
/// of it was read.
pub proof fn law_stated_over_limit_is_413(
    id: Seq<char>,
    header_length: u64,
    stated: u64,
    rule: ResolvedPathRule,
    content_type: Option<Seq<char>>,
)
    ensures
        ({
            let body = body::rejected_facts(stated, rule, content_type);
            let summary = saved_summary(id, header_length, body);
            &&& health_status(summary) == 413
            &&& summary.body_length == 0
            &&& summary.total_bytes_in == header_length
            &&& summary.error == body.error
        }),
{
}

/// A body that streams in is answered 200 exactly if nothing fails and it is
/// within the limit, and 413 if nothing fails and it is over it. Where it fails it
/// is answered 400, unless it was over the limit before. (The same bodies are left
/// out as in [`body::law_complete_means_whole`].)
pub proof fn law_streamed_body_status(
    id: Seq<char>,
    header_length: u64,
    rule: ResolvedPathRule,
    events: Seq<BodyEvent>,
    object: Option<Seq<char>>,
    content_type: Option<Seq<char>>,
)
    requires
        rule.max_body_size < u64::MAX || body::total_received(events) <= u64::MAX,
    ensures
        ({
            let intake = body::intake_after_all(rule, events);
            let body = body::body_facts(intake, object, content_type);
            let status = health_status(saved_summary(id, header_length, body));
            let well = body::opens(events) && body::all_well(events);
            let fits = body::total_received(events) <= rule.max_body_size;
            &&& status == 200 <==> well && fits
            &&& well && !fits ==> status == 413
            &&& !well ==> status == 400 || (body::opens(events) && status == 413
                && intake.progress.limit_exceeded)
        }),
{
    body::lemma_progress(rule.max_body_size, events);
    body::lemma_intake(rule, events);
}

/// The id of a request: the second and the nanosecond that the clock showed, the
/// host and a random part.
pub open spec fn id_text(second: nat, nanos: nat, hostname: Seq<char>, random: Seq<char>) -> Seq<
    char,
> {
    seq![
        text::zero_padded(text::decimal(second), 2),
        "_"@,
        text::zero_padded(text::decimal(nanos), 9),
        "_"@,
        hostname,
        "_"@,
        random,
    ].flatten()
}

/// Sixteen letters and digits of ASCII.
pub open spec fn is_random_part(random: Seq<char>) -> bool {
    &&& random.len() == 16
    &&& forall|i: int| 0 <= i < random.len() ==> text::is_alphanumeric(#[trigger] random[i])
}

/// The id of a request with a given random part.
pub fn request_id_with(received_at: &Moment, hostname: &str, random: &str) -> (id: String)
    ensures
        id@ == id_text(
            received_at.shown().second as nat,
            received_at.nanos() as nat,
            hostname@,
            random@,
        ),
{
    let shown: LocalTime = received_at.local_time();
    let second: String = text::padded_decimal(shown.second as u64, 2);
    let nanos: String = text::padded_decimal(received_at.subsec_nanos() as u64, 9);
    let parts: [&str; 7] = [second.as_str(), "_", nanos.as_str(), "_", hostname, "_", random];
    assert(text::borrowed_contents(parts@) =~= seq![
        second@,
        "_"@,
        nanos@,
        "_"@,
        hostname@,
        "_"@,
        random@,
    ]);
    text::join_parts(&parts)
}

/// A new id for a request. Its random part is drawn anew at each call.
pub fn request_id(received_at: &Moment, hostname: &str) -> (id: String)
    ensures
        exists|random: Seq<char>| #[trigger]
            is_random_part(random) && id@ == id_text(
                received_at.shown().second as nat,
                received_at.nanos() as nat,
                hostname@,
                random,
            ),
{
    let random: String = outside::random_alphanumeric(16);
    assert(is_random_part(random@));
    request_id_with(received_at, hostname, random.as_str())
}

/// A character that a token can hold.
pub open spec fn is_token_char(c: char) -> bool {
    text::is_alphanumeric(c) || c == '-' || c == '_'
}

/// `input` with an underscore in place of every character that a token cannot
/// hold.
pub open spec fn token_text(input: Seq<char>) -> Seq<char> {
    input.map_values(
        |c: char|
            if is_token_char(c) {
                c
            } else {
                '_'
            },
    )
}

/// `input` with an underscore in place of every character but letters and digits
/// of ASCII, `-` and `_`.
pub fn sanitize_token(input: &str) -> (token: String)
    ensures
        token@ == token_text(input@),
{
    let chars: Vec<char> = text::to_chars(input);
    let mut token: String = String::new();
    for i in 0..chars.len()
        invariant
            chars@ == input@,
            token@ == token_text(input@.take(i as int)),
    {
        let c: char = chars[i];
        if text::alphanumeric(c) || c == '-' || c == '_' {
            token.push(c);
        } else {
            token.push('_');
        }
        assert(token@ =~= token_text(input@.take(i + 1)));
    }
    assert(input@.take(input@.len() as int) == input@);
    token
}

proof fn lemma_padded_digits(n: nat, width: nat)
    ensures
        forall|i: int|
            0 <= i < text::zero_padded(text::decimal(n), width).len() ==> text::is_digit(
                #[trigger] text::zero_padded(text::decimal(n), width)[i],
            ),
{
    crate::size::lemma_decimal(n);
}

/// With a host name made a token, a request id holds letters and digits of ASCII,
/// `-` and `_` only, so that it can stand as a file name and in a link.
pub proof fn law_request_id_is_a_token(
    second: nat,
    nanos: nat,
    hostname: Seq<char>,
    random: Seq<char>,
)
    requires
        is_random_part(random),
    ensures
        ({
            let id = id_text(second, nanos, token_text(hostname), random);
            forall|i: int| 0 <= i < id.len() ==> is_token_char(#[trigger] id[i])
        }),
{
    reveal_strlit("_");
    let parts = seq![
        text::zero_padded(text::decimal(second), 2),
        "_"@,
        text::zero_padded(text::decimal(nanos), 9),
        "_"@,
        token_text(hostname),
        "_"@,
        random,
    ];
    lemma_padded_digits(second, 2);
    lemma_padded_digits(nanos, 9);
    text::lemma_flatten_all(parts, |c: char| is_token_char(c));
}

/// Ids with different random parts differ, whatever the clock and the host were.
pub proof fn law_request_ids_differ(
    second_a: nat,
    nanos_a: nat,
    hostname_a: Seq<char>,
    random_a: Seq<char>,
    second_b: nat,
    nanos_b: nat,
    hostname_b: Seq<char>,
    random_b: Seq<char>,
)
    requires
        is_random_part(random_a),
        is_random_part(random_b),
        random_a != random_b,
    ensures
        id_text(second_a, nanos_a, hostname_a, random_a) != id_text(
            second_b,
            nanos_b,
            hostname_b,
            random_b,
        ),
{
    lemma_id_ends_with_random(second_a, nanos_a, hostname_a, random_a);
    lemma_id_ends_with_random(second_b, nanos_b, hostname_b, random_b);
}

proof fn lemma_id_ends_with_random(
    second: nat,
    nanos: nat,
    hostname: Seq<char>,
    random: Seq<char>,
)
    ensures
        ({
            let id = id_text(second, nanos, hostname, random);
            &&& id.len() >= random.len()
            &&& id.skip(id.len() - random.len()) == random
        }),
{
    let parts = seq![
        text::zero_padded(text::decimal(second), 2),
        "_"@,
        text::zero_padded(text::decimal(nanos), 9),
        "_"@,
        hostname,
        "_"@,
        random,
    ];
    text::lemma_flatten_last(parts);
    let id = parts.flatten();
    assert(id.skip(id.len() - random.len()) =~= random);
}

/// When a record that came in at `received_at` has outlived `ttl`.
pub fn expires_at(received_at: &Moment, ttl: u128) -> (expiry: i128)
    requires
        received_at.instant() + ttl <= i128::MAX,
    ensures
        expiry == received_at.instant() + ttl,
{
    let received: i128 = received_at.unix_nanos();
    if received >= 0 {
        received + ttl as i128
    } else {
        let before: u128 = (-received) as u128;
        if ttl >= before {
            (ttl - before) as i128
        } else {
            -((before - ttl) as i128)
        }
    }
}

/// The host part of request ids: the host's name made a token.
pub fn host_token(found: Option<&str>) -> (token: String)
    ensures
        token@ == token_text(
            match found {
                Some(name) => name@,
                None => "unknown-host"@,
            },
        ),
{
    match found {
        Some(name) => sanitize_token(name),
        None => sanitize_token("unknown-host"),
    }
}

/// A request as it comes in, but for its body.
#[derive(Debug)]
pub struct IncomingRequest {
    pub method: String,
    /// The target as it stands in the request line.
    pub uri: String,
    /// The path in the target.
    pub path: String,
    /// The query in the target.
    pub query: Option<String>,
    pub headers: Vec<Header>,
}

/// A capture that has begun.
#[derive(Debug)]
pub struct OpenCapture {
    pub id: String,
    pub received_at: Moment,
    pub rule: ResolvedPathRule,
    pub header_length: u64,
    pub paths: StoredRequestPaths,
    /// The length that the request states for its body, where it is over the
    /// limit. Nothing of such a body is read.
    pub over_limit: Option<u64>,
}

/// `capture` is how the capture of a request begins, with a given random part in
/// its id.
pub open spec fn is_open_capture(
    capture: OpenCapture,
    config: Config,
    root: Seq<char>,
    hostname: Seq<char>,
    received_at: Moment,
    request: IncomingRequest,
    random: Seq<char>,
) -> bool {
    &&& capture.id@ == id_text(
        received_at.shown().second as nat,
        received_at.nanos() as nat,
        hostname,
        random,
    )
    &&& capture.received_at == received_at
    &&& capture.rule == config.resolved_rule(request.path@)
    &&& capture.header_length == size::capped(
        headers::head_length(request.method@, request.uri@, request.headers@) as int,
    )
    &&& capture.paths@ == storage::stored_paths(
        root,
        request.path@,
        received_at.shown(),
        capture.id@,
        capture.rule.body_mode,
    )
    &&& capture.over_limit == body::length_over_limit(
        request.headers@,
        capture.rule.max_body_size,
    )
}

/// Begins the capture of a request, with a given random part in its id.
pub fn open_capture_with(
    config: &Config,
    storage: &LocalStorage,
    hostname: &str,
    received_at: Moment,
    request: &IncomingRequest,
    random: &str,
) -> (capture: OpenCapture)
    ensures
        is_open_capture(
            capture,
            *config,
            storage.root_text(),
            hostname@,
            received_at,
            *request,
            random@,
        ),
{
    let rule: ResolvedPathRule = config.rule_for_path(request.path.as_str());
    let header_length: u64 = headers::approximate_header_length(
        request.method.as_str(),
        request.uri.as_str(),
        &request.headers,
    );
    let over_limit: Option<u64> = body::stated_over_limit(&request.headers, &rule);
    let id: String = request_id_with(&received_at, hostname, random);
    let paths: StoredRequestPaths = storage.paths_for(
        request.path.as_str(),
        &received_at,
        id.as_str(),
        rule.body_mode,
    );
    OpenCapture { id, received_at, rule, header_length, paths, over_limit }
}

/// Begins the capture of a request. The random part of its id is drawn anew at each
/// call.
pub fn open_capture(
    config: &Config,
    storage: &LocalStorage,
    hostname: &str,
    received_at: Moment,
    request: &IncomingRequest,
) -> (capture: OpenCapture)
    ensures
        exists|random: Seq<char>| #[trigger]
            is_random_part(random) && is_open_capture(
                capture,
                *config,
                storage.root_text(),
                hostname@,
                received_at,
                *request,
                random,
            ),
{
    let random: String = outside::random_alphanumeric(16);
    assert(is_random_part(random@));
    open_capture_with(config, storage, hostname, received_at, request, random.as_str())
}

/// Ends the capture of a request whose body was taken in, or rejected: its record,
/// and its summary once the record is saved.
pub fn close_capture(
    capture: &OpenCapture,
    request: &IncomingRequest,
    body: BodyMeta,
) -> (ended: (RequestMeta, CaptureResponse))
    ensures
        ended.0.id@ == capture.id@,
        ended.0.received_at == capture.received_at,
        ended.0.method@ == request.method@,
        ended.0.path@ == request.path@,
        text::optional_text(ended.0.query) == text::optional_text(request.query),
        headers::is_record_of(ended.0.headers@, request.headers@),
        ended.0.body == body,
        ended.1@ == saved_summary(capture.id@, capture.header_length, body@),
{
    let summary: CaptureResponse = summarize(capture.id.as_str(), capture.header_length, &body);
    let query: Option<&str> = match &request.query {
        Some(q) => Some(q.as_str()),
        None => None,
    };
    let meta: RequestMeta = build_meta(
        capture.id.as_str(),
        capture.received_at,
        request.method.as_str(),
        request.path.as_str(),
        query,
        &request.headers,
        body,
    );
    (meta, summary)
}

/// The summary of a capture tells what was recorded of its body and its head: each
/// under its own name, the bytes that came in and the bytes on disk apart.
pub proof fn law_summary_tells_what_was_recorded(
    id: Seq<char>,
    header_length: u64,
    body: BodyFacts,
)
    ensures
        ({
            let summary = saved_summary(id, header_length, body);
            &&& summary.id == id
            &&& summary.header_length == header_length
            &&& summary.body_length == body.original_size
            &&& summary.stored_body_length == body.stored_size
            &&& summary.body_stored == body.stored
            &&& summary.complete == body.complete
            &&& summary.limit_exceeded == body.limit_exceeded
            &&& summary.error == body.error
            &&& summary.metadata_saved
            &&& summary.success <==> body.complete && !body.limit_exceeded
            &&& header_length + body.original_size <= u64::MAX ==> summary.total_bytes_in
                == header_length + body.original_size
            &&& header_length + body.original_size > u64::MAX ==> summary.total_bytes_in
                == u64::MAX
        }),
{
}

/// The summary states the size of the file in which the body is kept, as it was
/// measured last, whatever came in and whatever went wrong; nothing where no body is
/// stored.
pub proof fn law_summary_states_the_size_on_disk(
    id: Seq<char>,
    header_length: u64,
    rule: ResolvedPathRule,
    before: Seq<BodyEvent>,
    size: u64,
    object: Option<Seq<char>>,
    content_type: Option<Seq<char>>,
)
    ensures
        ({
            let events = before.push(BodyEvent::Measured(Some(size)));
            let body = body::body_facts(
                body::intake_after_all(rule, events),
                object,
                content_type,
            );
            let summary = saved_summary(id, header_length, body);
            let failed = exists|i: int|
                0 <= i < before.len() && (#[trigger] before[i]) is OpenFailed;
            &&& !failed && (rule.body_mode == crate::config::BodyMode::Raw || rule.body_mode
                == crate::config::BodyMode::Compressed) ==> summary.body_stored
                && summary.stored_body_length == size
            &&& failed || rule.body_mode == crate::config::BodyMode::MetadataOnly
                ==> !summary.body_stored && summary.stored_body_length == 0
        }),
{
    let event = BodyEvent::Measured(Some(size));
    let events = before.push(event);
    let rest = Seq::<BodyEvent>::empty();
    assert(events + rest == events);
    body::lemma_intake(rule, before);
    body::lemma_intake(rule, events);
    if body::opens(before) {
        assert forall|i: int| 0 <= i < events.len() implies !((
        #[trigger] events[i]) is OpenFailed) by {
            if i < before.len() {
                assert(events[i] == before[i]);
            }
        }
        assert(body::opens(events));
        if rule.body_mode != crate::config::BodyMode::MetadataOnly {
            body::law_stored_size_is_measured(rule, before, size, rest, object, content_type);
        }
    } else {
        let i = choose|i: int| 0 <= i < before.len() && (#[trigger] before[i]) is OpenFailed;
        assert(events[i] is OpenFailed);
    }
}

/// The summary of a body that came in whole states every byte of it, and with the
/// head all that came in.
pub proof fn law_summary_counts_the_whole_body(
    id: Seq<char>,
    header_length: u64,
    rule: ResolvedPathRule,
    events: Seq<BodyEvent>,
    object: Option<Seq<char>>,
    content_type: Option<Seq<char>>,
)
    requires
        body::opens(events),
        body::all_well(events),
        body::total_received(events) <= rule.max_body_size,
    ensures
        ({
            let intake = body::intake_after_all(rule, events);
            let summary = saved_summary(
                id,
                header_length,
                body::body_facts(intake, object, content_type),
            );
            &&& summary.success && summary.complete && summary.error is None
            &&& summary.body_length == body::total_received(events)
            &&& header_length + body::total_received(events) <= u64::MAX
                ==> summary.total_bytes_in == header_length + body::total_received(events)
        }),
{
    body::law_complete_body_is_recorded_whole(rule, events, object, content_type);
}

/// Where the record could not be saved, the sender is told so: the capture failed, and
/// everything that was counted is told all the same.
pub proof fn law_unsaved_capture_is_told(summary: CaptureFacts)
    ensures
        ({
            let unsaved = unsaved_summary(summary);
            &&& !unsaved.success && !unsaved.metadata_saved
            &&& unsaved.error == Some("failed to persist request metadata"@)
            &&& unsaved.id == summary.id
            &&& unsaved.complete == summary.complete
            &&& unsaved.body_stored == summary.body_stored
            &&& unsaved.total_bytes_in == summary.total_bytes_in
            &&& unsaved.body_length == summary.body_length
            &&& unsaved.stored_body_length == summary.stored_body_length
            &&& unsaved.header_length == summary.header_length
            &&& unsaved.limit_exceeded == summary.limit_exceeded
        }),
{
}

/// The statuses: 500 where the record could not be saved, whatever the body was; with
/// the record saved 413 for a body that is too large, and otherwise 200 for a complete
/// body and 400 for an incomplete one.
pub proof fn law_status_tells_the_state(summary: CaptureFacts)
    ensures
        health_status(summary) == 500 <==> !summary.metadata_saved,
        health_status(summary) == 413 <==> summary.metadata_saved && summary.limit_exceeded,
        health_status(summary) == 200 <==> summary.metadata_saved && !summary.limit_exceeded
            && summary.complete,
        health_status(summary) == 400 <==> summary.metadata_saved && !summary.limit_exceeded
            && !summary.complete,
{
}

/// The record of a request names the file of its body whenever that is stored, under
/// the name that the request's id and the body mode give.
pub proof fn law_record_names_its_body_file(
    root: Seq<char>,
    hostname: Seq<char>,
    config: Config,
    received_at: Moment,
    request: IncomingRequest,
    random: Seq<char>,
    capture: OpenCapture,
    events: Seq<BodyEvent>,
    content_type: Option<Seq<char>>,
)
    requires
        is_open_capture(capture, config, root, hostname, received_at, request, random),
        body::opens(events),
    ensures
        ({
            let mode = capture.rule.body_mode;
            let intake = body::intake_after_all(capture.rule, events);
            let body = body::body_facts(intake, capture.paths@.body_file_name, content_type);
            &&& mode == crate::config::BodyMode::Raw ==> body.stored && body.object == Some(
                capture.id@ + ".body.bin"@,
            )
            &&& mode == crate::config::BodyMode::Compressed ==> body.stored && body.object
                == Some(capture.id@ + ".body.bin.gz"@)
            &&& mode == crate::config::BodyMode::MetadataOnly ==> !body.stored && body.object
                is None
        }),
{
    let mode = capture.rule.body_mode;
    body::law_stored_body_is_named(
        capture.rule,
        events,
        capture.paths@.body_file_name,
        content_type,
    );
    if mode != crate::config::BodyMode::MetadataOnly {
        storage::lemma_body_suffix(capture.id@, mode);
        text::lemma_two(capture.id@, storage::body_suffix(mode));
    }
}

/// A capture begins by what the request itself says and the configuration states for
/// its path: when it came in, the rule for its path, and the limit of that rule on the
/// length that it states.
pub proof fn law_capture_follows_the_request(
    root: Seq<char>,
    hostname: Seq<char>,
    config: Config,
    received_at: Moment,
    request: IncomingRequest,
    random: Seq<char>,
    capture: OpenCapture,
)
    requires
        is_open_capture(capture, config, root, hostname, received_at, request, random),
    ensures
        capture.received_at == received_at,
        capture.rule == config.resolved_rule(request.path@),
        capture.over_limit matches Some(length) ==> length > config.resolved_rule(
            request.path@,
        ).max_body_size,
        capture.over_limit is Some ==> headers::first_text(
            request.headers@,
            "content-length"@,
        ) is Some,
        capture.paths@.meta_path == storage::joined(
            storage::request_directory(root, request.path@, received_at.shown()),
            capture.id@ + ".json"@,
        ),
{
    text::lemma_two(capture.id@, ".json"@);
}

/// The id of a request can be read back: the second in two digits, the nanosecond in
/// nine, the host and the random part, underscores between them.
pub proof fn law_request_id_is_read_back(
    second: nat,
    nanos: nat,
    hostname: Seq<char>,
    random: Seq<char>,
)
    requires
        second < 100,
        nanos < 1_000_000_000,
    ensures
        ({
            let id = id_text(second, nanos, hostname, random);
            let host_end = 13 + hostname.len() as int;
            &&& id.len() == host_end + 1 + random.len()
            &&& size::digits_value(id.subrange(0, 2)) == second
            &&& id[2] == '_'
            &&& size::digits_value(id.subrange(3, 12)) == nanos
            &&& id[12] == '_'
            &&& id.subrange(13, host_end) == hostname
            &&& id[host_end] == '_'
            &&& id.skip(host_end + 1) == random
        }),
{
    reveal_strlit("_");
    let a = text::zero_padded(text::decimal(second), 2);
    let b = text::zero_padded(text::decimal(nanos), 9);
    size::law_padding_keeps_the_number(second, 2);
    size::law_padding_keeps_the_number(nanos, 9);
    assert(vstd::arithmetic::power::pow(10, 2) == 100 && vstd::arithmetic::power::pow(10, 9)
        == 1_000_000_000) by {
        reveal_with_fuel(vstd::arithmetic::power::pow, 10);
    }
    size::lemma_decimal_len(second, 2);
    size::lemma_decimal_len(nanos, 9);
    let parts = seq![a, "_"@, b, "_"@, hostname, "_"@, random];
    text::lemma_flatten_last(parts);
    let six = parts.drop_last();
    text::lemma_flatten_last(six);
    let five = six.drop_last();
    text::lemma_flatten_last(five);
    let four = five.drop_last();
    text::lemma_flatten_last(four);
    let three = four.drop_last();
    text::lemma_flatten_last(three);
    assert(three.drop_last() =~= seq![a, "_"@]);
    text::lemma_two(a, "_"@);
    let id = id_text(second, nanos, hostname, random);
    assert(id == a + "_"@ + b + "_"@ + hostname + "_"@ + random);
    assert(id.subrange(0, 2) =~= a);
    assert(id.subrange(3, 12) =~= b);
    let host_end = 13 + hostname.len() as int;
    assert(id.subrange(13, host_end) =~= hostname);
    assert(id.skip(host_end + 1) =~= random);
}

/// A token is as long as the text it is made of and differs from it only where that
/// holds something else than letters and digits of ASCII, `-` and `_`.
pub proof fn law_token_keeps_what_it_can(input: Seq<char>, i: int)
    requires
        0 <= i < input.len(),
    ensures
        token_text(input).len() == input.len(),
        ({
            let c = input[i];
            let kept = ('a' <= c <= 'z') || ('A' <= c <= 'Z') || ('0' <= c <= '9') || c == '-' || c
                == '_';
            token_text(input)[i] == if kept {
                c
            } else {
                '_'
            }
        }),
{
}

/// A capture that begins counts the head of the request as it came, up to what 64
/// bits hold, and has an id that tells when the request came in, and on which host.
/// (Left out of what the id tells: leap seconds, whose nanoseconds take ten digits.)
pub proof fn law_capture_tells_when_and_where(
    root: Seq<char>,
    hostname: Seq<char>,
    config: Config,
    received_at: Moment,
    request: IncomingRequest,
    random: Seq<char>,
    capture: OpenCapture,
)
    requires
        is_open_capture(capture, config, root, hostname, received_at, request, random),
        received_at.nanos() < 1_000_000_000,
        received_at.shown().second < 60,
    ensures
        ({
            let head = headers::head_length(request.method@, request.uri@, request.headers@);
            let id = capture.id@;
            &&& head <= u64::MAX ==> capture.header_length == head
            &&& size::digits_value(id.subrange(0, 2)) == received_at.shown().second
            &&& size::digits_value(id.subrange(3, 12)) == received_at.nanos()
            &&& id.subrange(13, 13 + hostname.len() as int) == hostname
            &&& id.skip(14 + hostname.len() as int) == random
            &&& capture.over_limit == body::length_over_limit(
                request.headers@,
                config.resolved_rule(request.path@).max_body_size,
            )
        }),
{
    law_request_id_is_read_back(
        received_at.shown().second as nat,
        received_at.nanos() as nat,
        hostname,
        random,
    );
}

/// The random part of an id is sixteen letters and digits of ASCII.
pub proof fn law_random_part_is_sixteen_characters(random: Seq<char>, i: int)
    requires
        is_random_part(random),
        0 <= i < random.len(),
    ensures
        random.len() == 16,
        ('a' <= random[i] <= 'z') || ('A' <= random[i] <= 'Z') || ('0' <= random[i] <= '9'),
{
    assert(text::is_alphanumeric(random[i]));
}

/// The summary that a sender gets tells of the record of the body: the bytes that came
/// in, the bytes on disk, and with the head all that came in.
pub proof fn law_summarize_tells_of_the_record(
    id: &str,
    header_length: u64,
    body: &BodyMeta,
    summary: CaptureResponse,
)
    requires
        call_ensures(summarize, (id, header_length, body), summary),
    ensures
        summary.id@ == id@,
        summary.header_length == header_length,
        summary.body_length == body.original_size,
        summary.stored_body_length == body.stored_size,
        summary.body_stored == body.stored,
        summary.complete == body.complete,
        summary.limit_exceeded == body.limit_exceeded,
        text::optional_text(summary.error) == text::optional_text(body.error),
        summary.success <==> body.complete && !body.limit_exceeded,
        summary.metadata_saved,
        header_length + body.original_size <= u64::MAX ==> summary.total_bytes_in == header_length
            + body.original_size,
{
    law_summary_tells_what_was_recorded(id@, header_length, body@);
    crate::models::law_summary_says_what_it_holds(summary);
    crate::models::law_body_record_says_what_it_holds(*body);
}

/// The record of a request keeps it as it came: id, time, method, path, query and
/// body, and its headers line by line.
pub proof fn law_record_keeps_the_request(
    id: &str,
    received_at: Moment,
    method: &str,
    path: &str,
    query: Option<&str>,
    headers: &Vec<Header>,
    body: BodyMeta,
    meta: RequestMeta,
    at: int,
)
    requires
        call_ensures(build_meta, (id, received_at, method, path, query, headers, body), meta),
    ensures
        meta.id@ == id@,
        meta.received_at == received_at,
        meta.method@ == method@,
        meta.path@ == path@,
        meta.query is Some <==> query is Some,
        query is Some ==> meta.query->0@ == query->0@,
        meta.body == body,
        0 <= at < headers@.len() ==> meta.headers@.contains_key(headers@[at].name@)
            && meta.headers@[headers@[at].name@].values().contains(
            headers::recorded_text(headers@[at].value@),
        ),
{
    if 0 <= at < headers@.len() {
        headers::law_every_line_is_recorded(meta.headers@, headers@, at);
    }
}

/// At its end a capture gives the record of the request as it came, with the record of
/// its body, and the summary of that.
pub proof fn law_close_capture_keeps_the_request(
    capture: &OpenCapture,
    request: &IncomingRequest,
    body: BodyMeta,
    ended: (RequestMeta, CaptureResponse),
)
    requires
        call_ensures(close_capture, (capture, request, body), ended),
    ensures
        ended.0.id@ == capture.id@ && ended.1.id@ == capture.id@,
        ended.0.received_at == capture.received_at,
        ended.0.method@ == request.method@,
        ended.0.path@ == request.path@,
        text::optional_text(ended.0.query) == text::optional_text(request.query),
        ended.0.body == body,
        ended.1.body_length == body.original_size,
        ended.1.stored_body_length == body.stored_size,
        ended.1.body_stored == body.stored,
        ended.1.header_length == capture.header_length,
        ended.1.success <==> body.complete && !body.limit_exceeded,
{
    law_summary_tells_what_was_recorded(capture.id@, capture.header_length, body@);
    crate::models::law_summary_says_what_it_holds(ended.1);
    crate::models::law_body_record_says_what_it_holds(body);
}

/// The status of a capture: 500 without a saved record, then 413 for a body that is
/// too large, 200 for a complete one and 400 for an incomplete one.
pub proof fn law_capture_status_tells_the_state(summary: &CaptureResponse, status: u16)
    requires
        call_ensures(capture_status, (summary,), status),
    ensures
        status == if !summary.metadata_saved {
            500u16
        } else if summary.limit_exceeded {
            413u16
        } else if summary.complete {
            200u16
        } else {
            400u16
        },
{
}

/// A capture whose record could not be saved did not succeed, and all that was counted
/// stays.
pub proof fn law_mark_unsaved_keeps_the_counts(
    summary: CaptureResponse,
    unsaved: CaptureResponse,
)
    requires
        call_ensures(mark_unsaved, (summary,), unsaved),
    ensures
        !unsaved.success && !unsaved.metadata_saved && unsaved.error is Some,
        unsaved.id@ == summary.id@,
        unsaved.complete == summary.complete,
        unsaved.body_stored == summary.body_stored,
        unsaved.total_bytes_in == summary.total_bytes_in,
        unsaved.body_length == summary.body_length,
        unsaved.stored_body_length == summary.stored_body_length,
        unsaved.header_length == summary.header_length,
        unsaved.limit_exceeded == summary.limit_exceeded,
{
    law_unsaved_capture_is_told(summary@);
    crate::models::law_summary_says_what_it_holds(summary);
    crate::models::law_summary_says_what_it_holds(unsaved);
}

/// The host part of an id is as long as the name it is made of, and a token.
pub proof fn law_host_token_is_a_token(found: Option<&str>, token: String, i: int)
    requires
        call_ensures(host_token, (found,), token),
        0 <= i < token@.len(),
    ensures
        is_token_char(token@[i]),
        found is Some ==> token@.len() == found->0@.len(),
        found is Some && is_token_char(found->0@[i]) ==> token@[i] == found->0@[i],
{
}

} // verus!
