//! The taking in of a request body: what is done with it as it streams in, and
//! what is recorded of it.

use vstd::prelude::*;
use vstd::string::*;

use crate::config::{BodyMode, ResolvedPathRule};
use crate::headers;
use crate::headers::Header;
use crate::models::{BodyFacts, BodyMeta};
use crate::size;
use crate::text;

verus! {

/// What happens to a body on its way in.
#[derive(Debug)]
pub enum BodyEvent {
    /// A file for the body was made.
    Opened,
    /// No file could be made for the body, for the reason given.
    OpenFailed(String),
    /// This many bytes came in.
    Chunk(u64),
    /// The body is at its end.
    Ended,
    /// The sender's side failed, for the reason given.
    StreamFailed(String),
    /// What came in was written.
    Written,
    /// What came in could not be written, for the reason given.
    WriteFailed(String),
    /// The body file was closed.
    Closed,
    /// The body file could not be closed, for the reason given.
    CloseFailed(String),
    /// The body file has this size; `None` where that could not be told.
    Measured(Option<u64>),
}

/// What is to be done next with a body.
#[derive(Debug, Clone, Copy, PartialEq, Eq, Structural)]
pub enum BodyAction {
    /// Make a file for it.
    Open,
    /// Read what comes in.
    Read,
    /// Write what came in last.
    Write,
    /// Close the file.
    Close,
    /// Look how large the file is.
    Measure,
    /// Nothing more.
    Finish,
}

/// How far the reading of a body has come.
#[derive(Debug)]
struct BodyProgress {
    max_body_size: u64,
    received: u64,
    limit_exceeded: bool,
    error: Option<String>,
}

/// How far the reading of a body has come.
pub struct Progress {
    /// The largest body that is accepted.
    pub max_body_size: u64,
    /// The bytes that came in, capped at what 64 bits hold.
    pub received: u64,
    /// More came in than is accepted.
    pub limit_exceeded: bool,
    /// Why the body is incomplete; `None` as long as nothing went wrong.
    pub error: Option<Seq<char>>,
}

impl View for BodyProgress {
    type V = Progress;

    closed spec fn view(&self) -> Progress {
        Progress {
            max_body_size: self.max_body_size,
            received: self.received,
            limit_exceeded: self.limit_exceeded,
            error: text::optional_text(self.error),
        }
    }
}

/// The state before anything came in.
pub open spec fn untouched(max_body_size: u64) -> Progress {
    Progress { max_body_size, received: 0, limit_exceeded: false, error: None }
}

/// Why a body that went over the limit is incomplete.
pub open spec fn over_limit_text(max_body_size: u64) -> Seq<char> {
    seq![
        "streamed body exceeded configured max_body_size "@,
        text::decimal(max_body_size as nat),
    ].flatten()
}

/// The state after an event. Once something went wrong, it stays as it is.
pub open spec fn after_event(p: Progress, event: BodyEvent) -> Progress {
    if p.error is Some {
        p
    } else {
        match event {
            BodyEvent::Chunk(size) => {
                let received = size::capped(p.received + size);
                let over = received > p.max_body_size;
                Progress {
                    received,
                    limit_exceeded: over,
                    error: if over {
                        Some(over_limit_text(p.max_body_size))
                    } else {
                        None
                    },
                    ..p
                }
            },
            BodyEvent::StreamFailed(reason) => Progress {
                error: Some(seq!["request body stream failed: "@, reason@].flatten()),
                ..p
            },
            BodyEvent::WriteFailed(reason) => Progress {
                error: Some(seq!["body write failed: "@, reason@].flatten()),
                ..p
            },
            BodyEvent::CloseFailed(reason) => Progress {
                error: Some(seq!["body close failed: "@, reason@].flatten()),
                ..p
            },
            _ => p,
        }
    }
}

/// The state after a number of events, one after the other.
pub open spec fn after_events(p: Progress, events: Seq<BodyEvent>) -> Progress
    decreases events.len(),
{
    if events.len() == 0 {
        p
    } else {
        after_event(after_events(p, events.drop_last()), events.last())
    }
}

/// The bytes that came in with a number of events.
pub open spec fn total_received(events: Seq<BodyEvent>) -> nat
    decreases events.len(),
{
    if events.len() == 0 {
        0
    } else {
        total_received(events.drop_last()) + match events.last() {
            BodyEvent::Chunk(size) => size as nat,
            _ => 0,
        }
    }
}

impl BodyProgress {
    /// As long as nothing went wrong the size is within the limit, and where the
    /// limit was exceeded the size is over it.
    #[verifier::type_invariant]
    spec fn consistent(self) -> bool {
        &&& self.error is None ==> !self.limit_exceeded && self.received <= self.max_body_size
        &&& self.limit_exceeded ==> self.received > self.max_body_size
    }

    /// The state before anything came in.
    fn new(max_body_size: u64) -> (progress: BodyProgress)
        ensures
            progress@ == untouched(max_body_size),
    {
        BodyProgress { max_body_size, received: 0, limit_exceeded: false, error: None }
    }

    /// Takes note of an event.
    fn observe(&mut self, event: &BodyEvent)
        ensures
            final(self)@ == after_event(old(self)@, *event),
    {
        proof {
            use_type_invariant(&*self);
        }
        if self.error.is_some() {
            return;
        }
        let mut received: u64 = self.received;
        let mut limit_exceeded: bool = false;
        let mut error: Option<String> = None;
        match event {
            BodyEvent::Chunk(size) => {
                received = size::capped_sum(self.received, *size);
                if received > self.max_body_size {
                    limit_exceeded = true;
                    let limit: String = text::decimal_text(self.max_body_size);
                    error = Some(
                        text::join_two(
                            "streamed body exceeded configured max_body_size ",
                            limit.as_str(),
                        ),
                    );
                }
            },
            BodyEvent::StreamFailed(reason) => {
                error = Some(text::join_two("request body stream failed: ", reason.as_str()));
            },
            BodyEvent::WriteFailed(reason) => {
                error = Some(text::join_two("body write failed: ", reason.as_str()));
            },
            BodyEvent::CloseFailed(reason) => {
                error = Some(text::join_two("body close failed: ", reason.as_str()));
            },
            _ => {},
        }
        *self = BodyProgress { max_body_size: self.max_body_size, received, limit_exceeded, error };
    }

    /// Whether anything went wrong.
    fn failed(&self) -> (yes: bool)
        ensures
            yes == (self@.error is Some),
    {
        self.error.is_some()
    }
}

/// The taking in of a body.
#[derive(Debug)]
pub struct BodyIntake {
    rule: ResolvedPathRule,
    action: BodyAction,
    progress: BodyProgress,
    unopened: Option<String>,
    stored_size: u64,
}

/// The taking in of a body.
pub struct Intake {
    /// How requests on the path are captured.
    pub rule: ResolvedPathRule,
    /// What is to be done next.
    pub action: BodyAction,
    /// How far the reading has come.
    pub progress: Progress,
    /// Why no file could be made.
    pub unopened: Option<Seq<char>>,
    /// The size of the file.
    pub stored_size: u64,
}

impl View for BodyIntake {
    type V = Intake;

    closed spec fn view(&self) -> Intake {
        Intake {
            rule: self.rule,
            action: self.action,
            progress: self.progress@,
            unopened: text::optional_text(self.unopened),
            stored_size: self.stored_size,
        }
    }
}

/// The body itself is stored, not its size alone.
pub open spec fn keeps_body(rule: ResolvedPathRule) -> bool {
    rule.body_mode != BodyMode::MetadataOnly
}

/// The state before anything came in. Where the body is stored, a file is made
/// first.
pub open spec fn intake_start(rule: ResolvedPathRule) -> Intake {
    Intake {
        rule,
        action: if keeps_body(rule) {
            BodyAction::Open
        } else {
            BodyAction::Read
        },
        progress: untouched(rule.max_body_size),
        unopened: None,
        stored_size: 0,
    }
}

/// What is to be done once reading is over: a file is closed.
pub open spec fn after_reading(kept: bool) -> BodyAction {
    if kept {
        BodyAction::Close
    } else {
        BodyAction::Finish
    }
}

/// What is to be done after an event: `failed` says whether anything went wrong up
/// to and with it. An event that does not belong to the action changes nothing.
pub open spec fn next_action(
    kept: bool,
    action: BodyAction,
    event: BodyEvent,
    failed: bool,
) -> BodyAction {
    match action {
        BodyAction::Open => match event {
            BodyEvent::Opened => BodyAction::Read,
            BodyEvent::OpenFailed(_) => BodyAction::Finish,
            _ => action,
        },
        BodyAction::Read => match event {
            BodyEvent::Chunk(_) => if failed {
                after_reading(kept)
            } else if kept {
                BodyAction::Write
            } else {
                BodyAction::Read
            },
            BodyEvent::Ended => after_reading(kept),
            BodyEvent::StreamFailed(_) => after_reading(kept),
            _ => action,
        },
        BodyAction::Write => match event {
            BodyEvent::Written => BodyAction::Read,
            BodyEvent::WriteFailed(_) => BodyAction::Close,
            _ => action,
        },
        BodyAction::Close => match event {
            BodyEvent::Closed => BodyAction::Measure,
            BodyEvent::CloseFailed(_) => BodyAction::Measure,
            _ => action,
        },
        BodyAction::Measure => match event {
            BodyEvent::Measured(_) => BodyAction::Finish,
            _ => action,
        },
        BodyAction::Finish => action,
    }
}

/// The state after an event.
pub open spec fn intake_after(intake: Intake, event: BodyEvent) -> Intake {
    let progress = after_event(intake.progress, event);
    Intake {
        rule: intake.rule,
        action: next_action(
            keeps_body(intake.rule),
            intake.action,
            event,
            progress.error is Some,
        ),
        progress,
        unopened: match event {
            BodyEvent::OpenFailed(reason) => Some(reason@),
            _ => intake.unopened,
        },
        stored_size: match event {
            BodyEvent::Measured(Some(size)) => size,
            _ => intake.stored_size,
        },
    }
}

/// The state after a number of events, one after the other.
pub open spec fn intake_after_all(rule: ResolvedPathRule, events: Seq<BodyEvent>) -> Intake
    decreases events.len(),
{
    if events.len() == 0 {
        intake_start(rule)
    } else {
        intake_after(intake_after_all(rule, events.drop_last()), events.last())
    }
}

impl BodyIntake {
    /// The state before anything came in.
    pub fn new(rule: &ResolvedPathRule) -> (intake: BodyIntake)
        ensures
            intake@ == intake_start(*rule),
    {
        let action: BodyAction = if rule.body_mode == BodyMode::MetadataOnly {
            BodyAction::Read
        } else {
            BodyAction::Open
        };
        BodyIntake {
            rule: *rule,
            action,
            progress: BodyProgress::new(rule.max_body_size),
            unopened: None,
            stored_size: 0,
        }
    }

    /// What is to be done next.
    pub fn action(&self) -> (action: BodyAction)
        ensures
            action == self@.action,
    {
        self.action
    }

    /// Takes note of what happened and returns what is to be done next.
    pub fn observe(&mut self, event: BodyEvent) -> (action: BodyAction)
        ensures
            final(self)@ == intake_after(old(self)@, event),
            action == final(self)@.action,
    {
        let kept: bool = self.rule.body_mode != BodyMode::MetadataOnly;
        self.progress.observe(&event);
        let failed: bool = self.progress.failed();
        let stop: BodyAction = if kept {
            BodyAction::Close
        } else {
            BodyAction::Finish
        };
        self.action = match (self.action, &event) {
            (BodyAction::Open, BodyEvent::Opened) => BodyAction::Read,
            (BodyAction::Open, BodyEvent::OpenFailed(_)) => BodyAction::Finish,
            (BodyAction::Read, BodyEvent::Chunk(_)) => {
                if failed {
                    stop
                } else if kept {
                    BodyAction::Write
                } else {
                    BodyAction::Read
                }
            },
            (BodyAction::Read, BodyEvent::Ended) => stop,
            (BodyAction::Read, BodyEvent::StreamFailed(_)) => stop,
            (BodyAction::Write, BodyEvent::Written) => BodyAction::Read,
            (BodyAction::Write, BodyEvent::WriteFailed(_)) => BodyAction::Close,
            (BodyAction::Close, BodyEvent::Closed) => BodyAction::Measure,
            (BodyAction::Close, BodyEvent::CloseFailed(_)) => BodyAction::Measure,
            (BodyAction::Measure, BodyEvent::Measured(_)) => BodyAction::Finish,
            (action, _) => action,
        };
        match event {
            BodyEvent::OpenFailed(reason) => {
                self.unopened = Some(reason);
            },
            BodyEvent::Measured(Some(size)) => {
                self.stored_size = size;
            },
            _ => {},
        }
        self.action
    }
}

/// An event that tells of a failure once there is a file.
pub open spec fn is_failure(event: BodyEvent) -> bool {
    event is StreamFailed || event is WriteFailed || event is CloseFailed
}

/// A file for the body is made, if one is asked for.
pub open spec fn opens(events: Seq<BodyEvent>) -> bool {
    forall|i: int| 0 <= i < events.len() ==> !((#[trigger] events[i]) is OpenFailed)
}

/// Nothing fails.
pub open spec fn all_well(events: Seq<BodyEvent>) -> bool {
    forall|i: int| 0 <= i < events.len() ==> !is_failure(#[trigger] events[i])
}

/// What the events leave of the reading of a body.
pub proof fn lemma_progress(max_body_size: u64, events: Seq<BodyEvent>)
    ensures
        ({
            let p = after_events(untouched(max_body_size), events);
            &&& p.max_body_size == max_body_size
            &&& p.error is None ==> {
                &&& all_well(events)
                &&& p.received == size::capped(total_received(events) as int)
                &&& p.received <= max_body_size
                &&& !p.limit_exceeded
            }
            &&& p.limit_exceeded ==> p.error is Some
            &&& p.error is Some && all_well(events) ==> {
                &&& p.limit_exceeded
                &&& total_received(events) > max_body_size
            }
        }),
    decreases events.len(),
{
    if events.len() > 0 {
        let before = events.drop_last();
        lemma_progress(max_body_size, before);
        if all_well(events) {
            assert forall|i: int| 0 <= i < before.len() implies !is_failure(
                #[trigger] before[i],
            ) by {
                assert(before[i] == events[i]);
            }
        }
        let p = after_events(untouched(max_body_size), events);
        if p.error is None {
            assert forall|i: int| 0 <= i < events.len() implies !is_failure(
                #[trigger] events[i],
            ) by {
                if i < before.len() {
                    assert(before[i] == events[i]);
                }
            }
        }
    }
}

/// A body is complete exactly if nothing failed while it came in and all of it
/// is within the limit. (No body reaches past what 64 bits count, so the law
/// leaves out one that does under a limit that excludes nothing.)
pub proof fn law_complete_means_whole(max_body_size: u64, events: Seq<BodyEvent>)
    requires
        max_body_size < u64::MAX || total_received(events) <= u64::MAX,
    ensures
        after_events(untouched(max_body_size), events).error is None <==> all_well(events)
            && total_received(events) <= max_body_size,
{
    lemma_progress(max_body_size, events);
}

/// A complete body is counted to the byte.
pub proof fn law_complete_body_is_counted(max_body_size: u64, events: Seq<BodyEvent>)
    requires
        total_received(events) <= u64::MAX,
        after_events(untouched(max_body_size), events).error is None,
    ensures
        after_events(untouched(max_body_size), events).received == total_received(events),
{
    lemma_progress(max_body_size, events);
}

/// A body that comes in without a failure is marked as too large exactly if it
/// is. (The same bodies are left out as in [`law_complete_means_whole`].)
pub proof fn law_too_large_is_marked(max_body_size: u64, events: Seq<BodyEvent>)
    requires
        all_well(events),
        max_body_size < u64::MAX || total_received(events) <= u64::MAX,
    ensures
        after_events(untouched(max_body_size), events).limit_exceeded <==> total_received(events)
            > max_body_size,
{
    lemma_progress(max_body_size, events);
}

/// The record of a body whose stated length is over the limit. Nothing of it is
/// read.
pub open spec fn rejected_facts(
    stated: u64,
    rule: ResolvedPathRule,
    content_type: Option<Seq<char>>,
) -> BodyFacts {
    BodyFacts {
        stored: false,
        complete: false,
        mode: rule.body_mode.label_text(),
        object: None,
        encoding: None,
        original_size: 0,
        stored_size: 0,
        content_type,
        previewable: false,
        limit_exceeded: true,
        error: Some(
            seq![
                "content-length "@,
                text::decimal(stated as nat),
                " exceeds configured max_body_size "@,
                text::decimal(rule.max_body_size as nat),
            ].flatten(),
        ),
    }
}

/// The record of a body for which no file could be made. Nothing of it is read.
pub open spec fn unopened_facts(
    rule: ResolvedPathRule,
    object: Option<Seq<char>>,
    reason: Seq<char>,
    content_type: Option<Seq<char>>,
) -> BodyFacts {
    BodyFacts {
        stored: false,
        complete: false,
        mode: rule.body_mode.label_text(),
        object,
        encoding: rule.body_mode.encoding_text(),
        original_size: 0,
        stored_size: 0,
        content_type,
        previewable: false,
        limit_exceeded: false,
        error: Some(seq!["failed to create body file: "@, reason].flatten()),
    }
}

/// The record of a body that was read as far as `p` says.
pub open spec fn read_facts(
    p: Progress,
    rule: ResolvedPathRule,
    object: Option<Seq<char>>,
    stored_size: u64,
    content_type: Option<Seq<char>>,
) -> BodyFacts {
    let stored = rule.body_mode != BodyMode::MetadataOnly;
    BodyFacts {
        stored,
        complete: p.error is None,
        mode: rule.body_mode.label_text(),
        object: if stored {
            object
        } else {
            None
        },
        encoding: rule.body_mode.encoding_text(),
        original_size: p.received,
        stored_size: if stored {
            stored_size
        } else {
            0
        },
        content_type,
        previewable: stored && p.error is None && p.received <= rule.preview_limit,
        limit_exceeded: p.limit_exceeded,
        error: p.error,
    }
}

/// The length that a request states for its body, if it is over the limit.
pub open spec fn length_over_limit(headers: Seq<Header>, max_body_size: u64) -> Option<u64> {
    match headers::first_text(headers, "content-length"@) {
        Some(stated) => match headers::spelled_number(stated) {
            Some(length) if length > max_body_size => Some(length),
            _ => None,
        },
        None => None,
    }
}

/// The length that a request states for its body, if it is over the limit.
pub fn stated_over_limit(headers: &Vec<Header>, rule: &ResolvedPathRule) -> (over: Option<u64>)
    ensures
        over == length_over_limit(headers@, rule.max_body_size),
{
    match headers::parse_content_length(headers) {
        Some(length) => {
            if length > rule.max_body_size {
                Some(length)
            } else {
                None
            }
        },
        None => None,
    }
}

/// The record of a body whose stated length is over the limit.
pub fn rejected_body(stated: u64, rule: &ResolvedPathRule, headers: &Vec<Header>) -> (body:
    BodyMeta)
    ensures
        body@ == rejected_facts(stated, *rule, headers::first_text(headers@, "content-type"@)),
{
    let length: String = text::decimal_text(stated);
    let limit: String = text::decimal_text(rule.max_body_size);
    let parts: [&str; 4] = [
        "content-length ",
        length.as_str(),
        " exceeds configured max_body_size ",
        limit.as_str(),
    ];
    assert(text::borrowed_contents(parts@) =~= seq![
        "content-length "@,
        text::decimal(stated as nat),
        " exceeds configured max_body_size "@,
        text::decimal(rule.max_body_size as nat),
    ]);
    BodyMeta {
        stored: false,
        complete: false,
        mode: rule.body_mode.label().to_string(),
        object: None,
        encoding: None,
        original_size: 0,
        stored_size: 0,
        content_type: headers::content_type(headers),
        previewable: false,
        limit_exceeded: true,
        error: Some(text::join_parts(&parts)),
    }
}

/// The record of a body for which no file could be made.
fn unopened_body(
    rule: &ResolvedPathRule,
    object: Option<String>,
    reason: &str,
    headers: &Vec<Header>,
) -> (body: BodyMeta)
    ensures
        body@ == unopened_facts(
            *rule,
            text::optional_text(object),
            reason@,
            headers::first_text(headers@, "content-type"@),
        ),
{
    BodyMeta {
        stored: false,
        complete: false,
        mode: rule.body_mode.label().to_string(),
        object,
        encoding: text::owned(rule.body_mode.encoding()),
        original_size: 0,
        stored_size: 0,
        content_type: headers::content_type(headers),
        previewable: false,
        limit_exceeded: false,
        error: Some(text::join_two("failed to create body file: ", reason)),
    }
}

/// The record of a body that was taken in.
pub open spec fn body_facts(
    intake: Intake,
    object: Option<Seq<char>>,
    content_type: Option<Seq<char>>,
) -> BodyFacts {
    match intake.unopened {
        Some(reason) => unopened_facts(intake.rule, object, reason, content_type),
        None => read_facts(
            intake.progress,
            intake.rule,
            object,
            intake.stored_size,
            content_type,
        ),
    }
}

impl BodyIntake {
    /// The record of the body, once it was taken in. `object` is the name of its
    /// file.
    pub fn finish(self, object: Option<String>, headers: &Vec<Header>) -> (body: BodyMeta)
        ensures
            body@ == body_facts(
                self@,
                text::optional_text(object),
                headers::first_text(headers@, "content-type"@),
            ),
    {
        match self.unopened {
            Some(reason) => unopened_body(&self.rule, object, reason.as_str(), headers),
            None => read_body(self.progress, &self.rule, object, self.stored_size, headers),
        }
    }
}

/// The record of a body that was read as far as `progress` says: `object` is the
/// name of its file and `stored_size` the size of that.
fn read_body(
    progress: BodyProgress,
    rule: &ResolvedPathRule,
    object: Option<String>,
    stored_size: u64,
    headers: &Vec<Header>,
) -> (body: BodyMeta)
    ensures
        body@ == read_facts(
            progress@,
            *rule,
            text::optional_text(object),
            stored_size,
            headers::first_text(headers@, "content-type"@),
        ),
{
    let complete: bool = progress.error.is_none();
    let mode: String = rule.body_mode.label().to_string();
    let content_type: Option<String> = headers::content_type(headers);
    if rule.body_mode == BodyMode::MetadataOnly {
        BodyMeta {
            stored: false,
            complete,
            mode,
            object: None,
            encoding: None,
            original_size: progress.received,
            stored_size: 0,
            content_type,
            previewable: false,
            limit_exceeded: progress.limit_exceeded,
            error: progress.error,
        }
    } else {
        BodyMeta {
            stored: true,
            complete,
            mode,
            object,
            encoding: text::owned(rule.body_mode.encoding()),
            original_size: progress.received,
            stored_size,
            content_type,
            previewable: complete && progress.received <= rule.preview_limit,
            limit_exceeded: progress.limit_exceeded,
            error: progress.error,
        }
    }
}

/// Nothing is previewable but a stored, complete body within the preview limit.
pub proof fn law_previewable_body_is_complete(
    p: Progress,
    rule: ResolvedPathRule,
    object: Option<Seq<char>>,
    stored_size: u64,
    content_type: Option<Seq<char>>,
)
    ensures
        ({
            let body = read_facts(p, rule, object, stored_size, content_type);
            body.previewable <==> body.stored && body.complete && body.original_size
                <= rule.preview_limit
        }),
{
}

/// What the events leave of the taking in of a body.
pub proof fn lemma_intake(rule: ResolvedPathRule, events: Seq<BodyEvent>)
    ensures
        ({
            let intake = intake_after_all(rule, events);
            &&& intake.rule == rule
            &&& intake.progress == after_events(untouched(rule.max_body_size), events)
            &&& intake.unopened is Some <==> !opens(events)
        }),
    decreases events.len(),
{
    if events.len() > 0 {
        let before = events.drop_last();
        lemma_intake(rule, before);
        if opens(before) && !(events.last() is OpenFailed) {
            assert forall|i: int| 0 <= i < events.len() implies !((
            #[trigger] events[i]) is OpenFailed) by {
                if i < before.len() {
                    assert(before[i] == events[i]);
                }
            }
        }
        if opens(events) {
            assert(!(events[events.len() - 1] is OpenFailed));
            assert forall|i: int| 0 <= i < before.len() implies !((
            #[trigger] before[i]) is OpenFailed) by {
                assert(before[i] == events[i]);
            }
        }
    }
}

/// A chunk that takes a body over the limit is not written: reading is over.
pub proof fn law_chunk_over_limit_is_not_written(intake: Intake, size: u64)
    requires
        intake.action == BodyAction::Read,
        intake.progress.error is None,
        intake.progress.received + size > intake.progress.max_body_size,
        intake.progress.max_body_size < u64::MAX,
    ensures
        ({
            let after = intake_after(intake, BodyEvent::Chunk(size));
            &&& after.action == after_reading(keeps_body(intake.rule))
            &&& after.progress.limit_exceeded
        }),
{
}

/// The file was closed, or it was tried.
pub open spec fn tried_to_close(events: Seq<BodyEvent>) -> bool {
    exists|i: int|
        0 <= i < events.len() && ((#[trigger] events[i]) is Closed || events[i] is CloseFailed)
}

/// Once a body file is open, the taking in of the body does not end before the file
/// was closed.
pub proof fn law_open_file_is_closed(rule: ResolvedPathRule, events: Seq<BodyEvent>)
    requires
        keeps_body(rule),
        opens(events),
    ensures
        ({
            let action = intake_after_all(rule, events).action;
            action == BodyAction::Finish || action == BodyAction::Measure ==> tried_to_close(
                events,
            )
        }),
    decreases events.len(),
{
    if events.len() > 0 {
        let before = events.drop_last();
        assert forall|i: int| 0 <= i < before.len() implies !((
        #[trigger] before[i]) is OpenFailed) by {
            assert(before[i] == events[i]);
        }
        law_open_file_is_closed(rule, before);
        lemma_intake(rule, before);
        assert(!(events[events.len() - 1] is OpenFailed));
        if tried_to_close(before) {
            let i = choose|i: int|
                0 <= i < before.len() && ((#[trigger] before[i]) is Closed
                    || before[i] is CloseFailed);
            assert(events[i] == before[i]);
        } else if events.last() is Closed || events.last() is CloseFailed {
            assert(events[events.len() - 1] is Closed || events[events.len() - 1] is CloseFailed);
        }
    }
}

/// The record of a body that is kept names the body file and says that it is stored,
/// whatever came in and whether it was complete. Where only the size is kept, no file
/// is named and nothing is stored. Where no file could be made nothing is stored
/// either, and the name is that of the file that was asked for.
pub proof fn law_stored_body_is_named(
    rule: ResolvedPathRule,
    events: Seq<BodyEvent>,
    object: Option<Seq<char>>,
    content_type: Option<Seq<char>>,
)
    ensures
        ({
            let body = body_facts(intake_after_all(rule, events), object, content_type);
            let failed = exists|i: int|
                0 <= i < events.len() && (#[trigger] events[i]) is OpenFailed;
            &&& !failed && (rule.body_mode == BodyMode::Raw || rule.body_mode
                == BodyMode::Compressed) ==> body.stored && body.object == object
            &&& !failed && rule.body_mode == BodyMode::MetadataOnly ==> !body.stored
                && body.object is None && body.stored_size == 0
            &&& failed ==> !body.stored && body.object == object && body.stored_size == 0
                && body.original_size == 0 && !body.complete && body.error is Some
        }),
{
    lemma_intake(rule, events);
}

/// A body that is not stored is recorded with no size on disk, and is not offered
/// for preview.
pub proof fn law_unstored_body_takes_no_room(
    rule: ResolvedPathRule,
    events: Seq<BodyEvent>,
    object: Option<Seq<char>>,
    content_type: Option<Seq<char>>,
)
    ensures
        ({
            let body = body_facts(intake_after_all(rule, events), object, content_type);
            !body.stored ==> body.stored_size == 0 && !body.previewable
        }),
{
}

/// An event that tells the size of the body file.
pub open spec fn tells_size(event: BodyEvent) -> bool {
    event matches BodyEvent::Measured(Some(_))
}

/// The size that is recorded of a body file is the one that was measured last, to
/// the byte, whatever came in before and whatever went wrong.
pub proof fn law_stored_size_is_measured(
    rule: ResolvedPathRule,
    before: Seq<BodyEvent>,
    size: u64,
    rest: Seq<BodyEvent>,
    object: Option<Seq<char>>,
    content_type: Option<Seq<char>>,
)
    requires
        rule.body_mode == BodyMode::Raw || rule.body_mode == BodyMode::Compressed,
        opens(before.push(BodyEvent::Measured(Some(size))) + rest),
        forall|i: int| 0 <= i < rest.len() ==> !tells_size(#[trigger] rest[i]),
    ensures
        ({
            let events = before.push(BodyEvent::Measured(Some(size))) + rest;
            body_facts(intake_after_all(rule, events), object, content_type).stored_size == size
        }),
{
    let start = before.push(BodyEvent::Measured(Some(size)));
    assert(start.drop_last() == before);
    lemma_size_stays(rule, start, rest);
    lemma_intake(rule, start + rest);
}

/// Where the size of the body file was never told, it is recorded as nothing.
pub proof fn law_unmeasured_file_counts_nothing(
    rule: ResolvedPathRule,
    events: Seq<BodyEvent>,
    object: Option<Seq<char>>,
    content_type: Option<Seq<char>>,
)
    requires
        forall|i: int| 0 <= i < events.len() ==> !tells_size(#[trigger] events[i]),
    ensures
        body_facts(intake_after_all(rule, events), object, content_type).stored_size == 0,
{
    lemma_size_stays(rule, Seq::empty(), events);
    assert(Seq::<BodyEvent>::empty() + events == events);
}

proof fn lemma_size_stays(rule: ResolvedPathRule, start: Seq<BodyEvent>, rest: Seq<BodyEvent>)
    requires
        forall|i: int| 0 <= i < rest.len() ==> !tells_size(#[trigger] rest[i]),
    ensures
        intake_after_all(rule, start + rest).stored_size == intake_after_all(
            rule,
            start,
        ).stored_size,
    decreases rest.len(),
{
    if rest.len() == 0 {
        assert(start + rest == start);
    } else {
        let less = rest.drop_last();
        assert forall|i: int| 0 <= i < less.len() implies !tells_size(#[trigger] less[i]) by {
            assert(less[i] == rest[i]);
        }
        lemma_size_stays(rule, start, less);
        assert((start + rest).drop_last() == start + less);
        assert((start + rest).last() == rest[rest.len() - 1]);
    }
}

/// The record of a body says in which mode it was taken in, how its file is encoded
/// and what type its sender gave it, however the intake went.
pub proof fn law_record_tells_the_mode(
    rule: ResolvedPathRule,
    events: Seq<BodyEvent>,
    stated: u64,
    object: Option<Seq<char>>,
    content_type: Option<Seq<char>>,
)
    ensures
        ({
            let body = body_facts(intake_after_all(rule, events), object, content_type);
            let rejected = rejected_facts(stated, rule, content_type);
            &&& body.content_type == content_type
            &&& rejected.content_type == content_type
            &&& rejected.mode == body.mode
            &&& rule.body_mode == BodyMode::Compressed ==> body.mode == "compressed"@
                && body.encoding == Some("gzip"@)
            &&& rule.body_mode == BodyMode::Raw ==> body.mode == "raw"@ && body.encoding is None
            &&& rule.body_mode == BodyMode::MetadataOnly ==> body.mode == "metadata_only"@
                && body.encoding is None
        }),
{
    lemma_intake(rule, events);
}

/// A body is recorded as complete exactly if a file for it could be made where one is
/// needed, nothing failed and all of it is within the limit. It is then counted to
/// the byte, no error is recorded, and it can be previewed exactly if it is stored and
/// within the preview limit. (The same bodies are left out as in
/// [`law_complete_means_whole`].)
pub proof fn law_complete_body_is_recorded_whole(
    rule: ResolvedPathRule,
    events: Seq<BodyEvent>,
    object: Option<Seq<char>>,
    content_type: Option<Seq<char>>,
)
    requires
        rule.max_body_size < u64::MAX || total_received(events) <= u64::MAX,
    ensures
        ({
            let body = body_facts(intake_after_all(rule, events), object, content_type);
            let whole = opens(events) && all_well(events) && total_received(events)
                <= rule.max_body_size;
            &&& body.complete <==> whole
            &&& body.error is None <==> whole
            &&& whole ==> body.original_size == total_received(events) && !body.limit_exceeded
            &&& whole ==> (body.previewable <==> rule.body_mode != BodyMode::MetadataOnly
                && total_received(events) <= rule.preview_limit)
            &&& !whole ==> !body.previewable
            &&& body.limit_exceeded ==> body.original_size > rule.max_body_size
        }),
{
    lemma_progress(rule.max_body_size, events);
    lemma_over_limit(rule.max_body_size, events);
    lemma_intake(rule, events);
}

proof fn lemma_over_limit(max_body_size: u64, events: Seq<BodyEvent>)
    ensures
        after_events(untouched(max_body_size), events).limit_exceeded ==> after_events(
            untouched(max_body_size),
            events,
        ).received > max_body_size,
    decreases events.len(),
{
    if events.len() > 0 {
        lemma_over_limit(max_body_size, events.drop_last());
        lemma_progress(max_body_size, events.drop_last());
    }
}

/// What ends the reading of a body: a failure, or a chunk that goes over the limit.
pub open spec fn ends_reading(received: nat, max_body_size: u64, event: BodyEvent) -> bool {
    match event {
        BodyEvent::Chunk(size) => received + size > max_body_size,
        _ => is_failure(event),
    }
}

/// The first thing that goes wrong decides what is recorded of a body, and nothing
/// that comes behind it changes that. Up to and with a chunk that goes over the limit
/// every byte is counted, and only such a chunk marks the body as too large; the error
/// names the limit, or what failed and why.
pub proof fn law_first_fault_decides(
    rule: ResolvedPathRule,
    before: Seq<BodyEvent>,
    event: BodyEvent,
    rest: Seq<BodyEvent>,
    object: Option<Seq<char>>,
    content_type: Option<Seq<char>>,
)
    requires
        opens(before.push(event) + rest),
        all_well(before),
        total_received(before) <= rule.max_body_size < u64::MAX,
        ends_reading(total_received(before), rule.max_body_size, event),
    ensures
        ({
            let intake = intake_after_all(rule, before.push(event) + rest);
            let body = body_facts(intake, object, content_type);
            &&& !body.complete
            &&& body.limit_exceeded <==> event is Chunk
            &&& event matches BodyEvent::Chunk(size) ==> body.original_size == size::capped(
                total_received(before) + size,
            ) && body.error == Some(
                "streamed body exceeded configured max_body_size "@ + text::decimal(
                    rule.max_body_size as nat,
                ),
            )
            &&& !(event is Chunk) ==> body.original_size == total_received(before)
            &&& event matches BodyEvent::StreamFailed(reason) ==> body.error == Some(
                "request body stream failed: "@ + reason@,
            )
            &&& event matches BodyEvent::WriteFailed(reason) ==> body.error == Some(
                "body write failed: "@ + reason@,
            )
            &&& event matches BodyEvent::CloseFailed(reason) ==> body.error == Some(
                "body close failed: "@ + reason@,
            )
        }),
{
    let start = before.push(event);
    lemma_progress(rule.max_body_size, before);
    assert(start.drop_last() == before);
    lemma_fault_stays(untouched(rule.max_body_size), start, rest);
    lemma_intake(rule, start + rest);
    text::lemma_two(
        "streamed body exceeded configured max_body_size "@,
        text::decimal(rule.max_body_size as nat),
    );
    match event {
        BodyEvent::StreamFailed(reason) => {
            text::lemma_two("request body stream failed: "@, reason@);
        },
        BodyEvent::WriteFailed(reason) => {
            text::lemma_two("body write failed: "@, reason@);
        },
        BodyEvent::CloseFailed(reason) => {
            text::lemma_two("body close failed: "@, reason@);
        },
        _ => {},
    }
}

proof fn lemma_fault_stays(p: Progress, start: Seq<BodyEvent>, rest: Seq<BodyEvent>)
    requires
        after_events(p, start).error is Some,
    ensures
        after_events(p, start + rest) == after_events(p, start),
    decreases rest.len(),
{
    if rest.len() == 0 {
        assert(start + rest == start);
    } else {
        lemma_fault_stays(p, start, rest.drop_last());
        assert((start + rest).drop_last() == start + rest.drop_last());
    }
}

/// Where no file could be made, the record gives the reason of the last attempt.
pub proof fn law_unopened_body_tells_why(
    rule: ResolvedPathRule,
    before: Seq<BodyEvent>,
    reason: String,
    object: Option<Seq<char>>,
    content_type: Option<Seq<char>>,
)
    ensures
        ({
            let intake = intake_after_all(rule, before.push(BodyEvent::OpenFailed(reason)));
            let body = body_facts(intake, object, content_type);
            &&& !body.stored && !body.complete && !body.limit_exceeded
            &&& body.error == Some("failed to create body file: "@ + reason@)
        }),
{
    let events = before.push(BodyEvent::OpenFailed(reason));
    assert(events.drop_last() == before);
    text::lemma_two("failed to create body file: "@, reason@);
}

/// A body that is rejected for its stated length leaves nothing behind, and the
/// error names that length and the limit.
pub proof fn law_rejected_body_leaves_nothing(
    stated: u64,
    rule: ResolvedPathRule,
    content_type: Option<Seq<char>>,
)
    ensures
        ({
            let body = rejected_facts(stated, rule, content_type);
            &&& !body.stored && !body.complete && !body.previewable && body.limit_exceeded
            &&& body.object is None && body.encoding is None
            &&& body.original_size == 0 && body.stored_size == 0
            &&& body.error == Some(
                "content-length "@ + text::decimal(stated as nat)
                    + " exceeds configured max_body_size "@ + text::decimal(
                    rule.max_body_size as nat,
                ),
            )
        }),
{
    let parts = seq![
        "content-length "@,
        text::decimal(stated as nat),
        " exceeds configured max_body_size "@,
        text::decimal(rule.max_body_size as nat),
    ];
    text::lemma_flatten_last(parts);
    let three = parts.drop_last();
    text::lemma_flatten_last(three);
    assert(three.drop_last() =~= seq!["content-length "@, text::decimal(stated as nat)]);
    text::lemma_two("content-length "@, text::decimal(stated as nat));
}

/// The events of a body that comes in in chunks of the given sizes, each written as
/// it comes where the body is kept.
pub open spec fn smooth_chunks(kept: bool, sizes: Seq<u64>) -> Seq<BodyEvent>
    decreases sizes.len(),
{
    if sizes.len() == 0 {
        if kept {
            seq![BodyEvent::Opened]
        } else {
            Seq::empty()
        }
    } else {
        let before = smooth_chunks(kept, sizes.drop_last()).push(BodyEvent::Chunk(sizes.last()));
        if kept {
            before.push(BodyEvent::Written)
        } else {
            before
        }
    }
}

/// The sum of some sizes.
pub open spec fn sum_of(sizes: Seq<u64>) -> nat
    decreases sizes.len(),
{
    if sizes.len() == 0 {
        0
    } else {
        sum_of(sizes.drop_last()) + sizes.last() as nat
    }
}

proof fn lemma_smooth(rule: ResolvedPathRule, sizes: Seq<u64>)
    requires
        sum_of(sizes) <= rule.max_body_size,
    ensures
        ({
            let events = smooth_chunks(rule.body_mode != BodyMode::MetadataOnly, sizes);
            let intake = intake_after_all(rule, events);
            &&& intake.rule == rule
            &&& intake.action == BodyAction::Read
            &&& intake.unopened is None
            &&& intake.stored_size == 0
            &&& intake.progress == (Progress {
                received: sum_of(sizes) as u64,
                ..untouched(rule.max_body_size)
            })
            &&& sizes.len() > 0 && rule.body_mode != BodyMode::MetadataOnly
                ==> intake_after_all(rule, events.drop_last()).action == BodyAction::Write
        }),
    decreases sizes.len(),
{
    let kept = rule.body_mode != BodyMode::MetadataOnly;
    let events = smooth_chunks(kept, sizes);
    if sizes.len() == 0 {
        if kept {
            assert(events.drop_last() == Seq::<BodyEvent>::empty());
            assert(intake_after_all(rule, events.drop_last()) == intake_start(rule));
        }
    } else {
        lemma_smooth(rule, sizes.drop_last());
        let before = smooth_chunks(kept, sizes.drop_last());
        let chunk = before.push(BodyEvent::Chunk(sizes.last()));
        assert(chunk.drop_last() == before);
        if kept {
            assert(events.drop_last() == chunk);
        }
    }
}

/// A body that comes in without a failure and within the limit is taken in to its
/// end: where it is kept, a file is made first, each chunk is written before the next
/// is read, and at the end the file is closed and measured. What is recorded is the
/// size that came in, the size of the file and its name.
pub proof fn law_body_is_taken_in_to_its_end(
    rule: ResolvedPathRule,
    sizes: Seq<u64>,
    size: u64,
    object: Option<Seq<char>>,
    content_type: Option<Seq<char>>,
)
    requires
        sum_of(sizes) <= rule.max_body_size,
    ensures
        ({
            let kept = rule.body_mode != BodyMode::MetadataOnly;
            let read = smooth_chunks(kept, sizes);
            let ended = read.push(BodyEvent::Ended);
            let closed = ended.push(BodyEvent::Closed);
            let measured = closed.push(BodyEvent::Measured(Some(size)));
            let all = if kept {
                measured
            } else {
                ended
            };
            let body = body_facts(intake_after_all(rule, all), object, content_type);
            let start = intake_after_all(rule, Seq::empty()).action;
            &&& start == if kept {
                BodyAction::Open
            } else {
                BodyAction::Read
            }
            &&& intake_after_all(rule, read).action == BodyAction::Read
            &&& kept && sizes.len() > 0 ==> intake_after_all(rule, read.drop_last()).action
                == BodyAction::Write
            &&& kept ==> intake_after_all(rule, ended).action == BodyAction::Close
            &&& kept ==> intake_after_all(rule, closed).action == BodyAction::Measure
            &&& intake_after_all(rule, all).action == BodyAction::Finish
            &&& body.complete && body.error is None && !body.limit_exceeded
            &&& body.original_size == sum_of(sizes)
            &&& body.stored == kept
            &&& kept ==> body.object == object && body.stored_size == size
            &&& !kept ==> body.object is None && body.stored_size == 0
            &&& body.previewable <==> kept && sum_of(sizes) <= rule.preview_limit
        }),
{
    let kept = rule.body_mode != BodyMode::MetadataOnly;
    let read = smooth_chunks(kept, sizes);
    let ended = read.push(BodyEvent::Ended);
    let closed = ended.push(BodyEvent::Closed);
    let measured = closed.push(BodyEvent::Measured(Some(size)));
    lemma_smooth(rule, sizes);
    assert(ended.drop_last() == read);
    assert(closed.drop_last() == ended);
    assert(measured.drop_last() == closed);
}

/// Whatever fails once there is a file, the file is closed next: what failed to be
/// read or written ends the reading, and a file that could not be closed is measured
/// like one that could.
pub proof fn law_failure_leads_to_the_end(intake: Intake, event: BodyEvent)
    requires
        is_failure(event),
    ensures
        ({
            let kept = intake.rule.body_mode != BodyMode::MetadataOnly;
            let after = intake_after(intake, event).action;
            &&& intake.action == BodyAction::Read && event is StreamFailed ==> after == if kept {
                BodyAction::Close
            } else {
                BodyAction::Finish
            }
            &&& intake.action == BodyAction::Write && event is WriteFailed ==> after
                == BodyAction::Close
            &&& intake.action == BodyAction::Close && event is CloseFailed ==> after
                == BodyAction::Measure
            &&& intake.action == BodyAction::Finish ==> after == BodyAction::Finish
        }),
{
}

/// A stated length rejects a body exactly if it is a number over the limit; the limit
/// itself is allowed. What counts is the first line that states one.
pub proof fn law_stated_length_decides(
    headers: Seq<Header>,
    at: int,
    stated: u64,
    max_body_size: u64,
)
    requires
        0 <= at < headers.len(),
        headers[at].name@ == "content-length"@,
        headers::is_readable(headers[at].value@),
        headers::value_text(headers[at].value@) == text::decimal(stated as nat),
        forall|i: int| 0 <= i < at ==> (#[trigger] headers[i]).name@ != "content-length"@,
    ensures
        length_over_limit(headers, max_body_size) == if stated > max_body_size {
            Some(stated)
        } else {
            None
        },
{
    headers::law_first_line_counts(headers, at, "content-length"@);
    headers::law_number_is_read_back(stated);
}

/// A request that states no length is not rejected before its body is read.
pub proof fn law_unstated_length_rejects_nothing(headers: Seq<Header>, max_body_size: u64)
    requires
        forall|i: int| 0 <= i < headers.len() ==> (#[trigger] headers[i]).name@
            != "content-length"@,
    ensures
        length_over_limit(headers, max_body_size) is None,
{
    headers::law_missing_line_is_none(headers, "content-length"@);
}

/// A stated length that is no number, or that cannot be read, rejects nothing.
pub proof fn law_unreadable_length_rejects_nothing(
    headers: Seq<Header>,
    at: int,
    wrong: int,
    max_body_size: u64,
)
    requires
        0 <= at < headers.len(),
        headers[at].name@ == "content-length"@,
        forall|i: int| 0 <= i < at ==> (#[trigger] headers[i]).name@ != "content-length"@,
        ({
            let stated = headers::value_text(headers[at].value@);
            ||| !headers::is_readable(headers[at].value@)
            ||| stated.len() == 0
            ||| 0 <= wrong < stated.len() && !text::is_digit(stated[wrong]) && !(wrong == 0
                && stated[wrong] == '+')
        }),
    ensures
        length_over_limit(headers, max_body_size) is None,
{
    headers::law_first_line_counts(headers, at, "content-length"@);
    if headers::is_readable(headers[at].value@) {
        headers::law_other_text_is_no_number(headers::value_text(headers[at].value@), wrong);
    }
}

/// What is to be done changes only with an event that answers it: a file that was
/// asked for is made or not, what is read comes in or ends, what is written is written
/// or not, and so on. Once nothing more is to be done, it stays so.
pub proof fn law_other_events_change_nothing(intake: Intake, event: BodyEvent)
    ensures
        ({
            let after = intake_after(intake, event).action;
            &&& after != intake.action ==> match intake.action {
                BodyAction::Open => event is Opened || event is OpenFailed,
                BodyAction::Read => event is Chunk || event is Ended || event is StreamFailed,
                BodyAction::Write => event is Written || event is WriteFailed,
                BodyAction::Close => event is Closed || event is CloseFailed,
                BodyAction::Measure => event is Measured,
                BodyAction::Finish => false,
            }
            &&& intake.action == BodyAction::Open && event is Opened ==> after == BodyAction::Read
            &&& intake.action == BodyAction::Open && event is OpenFailed ==> after
                == BodyAction::Finish
            &&& intake.action == BodyAction::Write && event is Written ==> after
                == BodyAction::Read
            &&& intake.action == BodyAction::Measure && event is Measured ==> after
                == BodyAction::Finish
        }),
{
}

/// The record of a body that was taken in, once it is finished with the name of its
/// file: a kept body names that file, with the size that was measured last; the bytes
/// that came in are counted apart; only a body whose size alone is kept names none.
pub proof fn law_finish_names_the_file(
    intake: BodyIntake,
    object: Option<String>,
    headers: &Vec<Header>,
    body: BodyMeta,
    events: Seq<BodyEvent>,
    rule: ResolvedPathRule,
)
    requires
        call_ensures(BodyIntake::finish, (intake, object, headers), body),
        intake@ == intake_after_all(rule, events),
        opens(events),
    ensures
        rule.body_mode != BodyMode::MetadataOnly ==> body.stored && text::optional_text(
            body.object,
        ) == text::optional_text(object) && body.stored_size == intake@.stored_size,
        rule.body_mode == BodyMode::MetadataOnly ==> !body.stored && body.object is None
            && body.stored_size == 0,
        body.original_size == intake@.progress.received,
        body.complete <==> intake@.progress.error is None,
        body.limit_exceeded == intake@.progress.limit_exceeded,
        body.previewable <==> body.stored && body.complete && body.original_size
            <= rule.preview_limit,
        text::optional_text(body.content_type) == headers::first_text(
            headers@,
            "content-type"@,
        ),
{
    lemma_intake(rule, events);
    assert(body@.object == text::optional_text(body.object));
}

/// A body is rejected before it is read exactly if the length that is stated for it is
/// over the limit for its path.
pub proof fn law_stated_over_limit_goes_by_the_rule(
    headers: &Vec<Header>,
    rule: &ResolvedPathRule,
    over: Option<u64>,
    stated: u64,
)
    requires
        call_ensures(stated_over_limit, (headers, rule), over),
        headers@.len() > 0,
        headers@[0].name@ == "content-length"@,
        headers::is_readable(headers@[0].value@),
        headers::value_text(headers@[0].value@) == text::decimal(stated as nat),
    ensures
        over == if stated > rule.max_body_size {
            Some(stated)
        } else {
            None
        },
{
    law_stated_length_decides(headers@, 0, stated, rule.max_body_size);
}

/// The record of a rejected body says that nothing was stored or read of it and that
/// it was over the limit.
pub proof fn law_rejected_body_stores_nothing(
    stated: u64,
    rule: &ResolvedPathRule,
    headers: &Vec<Header>,
    body: BodyMeta,
)
    requires
        call_ensures(rejected_body, (stated, rule, headers), body),
    ensures
        !body.stored && !body.complete && !body.previewable && body.limit_exceeded,
        body.object is None && body.encoding is None,
        body.original_size == 0 && body.stored_size == 0,
        body.error is Some,
{
    assert(body@.object == text::optional_text(body.object));
    assert(body@.encoding == text::optional_text(body.encoding));
    assert(body@.error == text::optional_text(body.error));
}

} // verus!
