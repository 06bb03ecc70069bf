//! What is recorded of a captured request, and what its sender is told.

use vstd::prelude::*;

use crate::headers::HeaderEntry;
use crate::table::OrderedTable;
use crate::text;
use crate::time::Moment;

verus! {

/// The record of a captured request.
#[derive(Debug)]
pub struct RequestMeta {
    pub id: String,
    pub received_at: Moment,
    pub method: String,
    pub path: String,
    pub query: Option<String>,
    pub headers: OrderedTable<HeaderEntry>,
    pub body: BodyMeta,
}

/// The record of a request body.
#[derive(Debug)]
pub struct BodyMeta {
    pub stored: bool,
    pub complete: bool,
    pub mode: String,
    pub object: Option<String>,
    pub encoding: Option<String>,
    pub original_size: u64,
    pub stored_size: u64,
    pub content_type: Option<String>,
    pub previewable: bool,
    pub limit_exceeded: bool,
    pub error: Option<String>,
}

/// What the record of a request body says.
pub struct BodyFacts {
    pub stored: bool,
    pub complete: bool,
    pub mode: Seq<char>,
    pub object: Option<Seq<char>>,
    pub encoding: Option<Seq<char>>,
    pub original_size: u64,
    pub stored_size: u64,
    pub content_type: Option<Seq<char>>,
    pub previewable: bool,
    pub limit_exceeded: bool,
    pub error: Option<Seq<char>>,
}

impl View for BodyMeta {
    type V = BodyFacts;

    open spec fn view(&self) -> BodyFacts {
        BodyFacts {
            stored: self.stored,
            complete: self.complete,
            mode: self.mode@,
            object: text::optional_text(self.object),
            encoding: text::optional_text(self.encoding),
            original_size: self.original_size,
            stored_size: self.stored_size,
            content_type: text::optional_text(self.content_type),
            previewable: self.previewable,
            limit_exceeded: self.limit_exceeded,
            error: text::optional_text(self.error),
        }
    }
}

/// The summary of a capture that its sender gets.
#[derive(Debug)]
pub struct CaptureResponse {
    pub success: bool,
    pub id: String,
    pub complete: bool,
    pub body_stored: bool,
    pub total_bytes_in: u64,
    pub body_length: u64,
    pub stored_body_length: u64,
    pub header_length: u64,
    pub limit_exceeded: bool,
    pub metadata_saved: bool,
    pub error: Option<String>,
}

/// What the summary of a capture says.
pub struct CaptureFacts {
    pub success: bool,
    pub id: Seq<char>,
    pub complete: bool,
    pub body_stored: bool,
    pub total_bytes_in: u64,
    pub body_length: u64,
    pub stored_body_length: u64,
    pub header_length: u64,
    pub limit_exceeded: bool,
    pub metadata_saved: bool,
    pub error: Option<Seq<char>>,
}

impl View for CaptureResponse {
    type V = CaptureFacts;

    open spec fn view(&self) -> CaptureFacts {
        CaptureFacts {
            success: self.success,
            id: self.id@,
            complete: self.complete,
            body_stored: self.body_stored,
            total_bytes_in: self.total_bytes_in,
            body_length: self.body_length,
            stored_body_length: self.stored_body_length,
            header_length: self.header_length,
            limit_exceeded: self.limit_exceeded,
            metadata_saved: self.metadata_saved,
            error: text::optional_text(self.error),
        }
    }
}

/// What is said of the record of a body is what the record holds.
pub proof fn law_body_record_says_what_it_holds(body: BodyMeta)
    ensures
        body@.stored == body.stored,
        body@.complete == body.complete,
        body@.mode == body.mode@,
        body@.object == text::optional_text(body.object),
        body@.encoding == text::optional_text(body.encoding),
        body@.original_size == body.original_size,
        body@.stored_size == body.stored_size,
        body@.content_type == text::optional_text(body.content_type),
        body@.previewable == body.previewable,
        body@.limit_exceeded == body.limit_exceeded,
        body@.error == text::optional_text(body.error),
{
}

/// What is said of a summary is what the summary holds.
pub proof fn law_summary_says_what_it_holds(summary: CaptureResponse)
    ensures
        summary@.success == summary.success,
        summary@.id == summary.id@,
        summary@.complete == summary.complete,
        summary@.body_stored == summary.body_stored,
        summary@.total_bytes_in == summary.total_bytes_in,
        summary@.body_length == summary.body_length,
        summary@.stored_body_length == summary.stored_body_length,
        summary@.header_length == summary.header_length,
        summary@.limit_exceeded == summary.limit_exceeded,
        summary@.metadata_saved == summary.metadata_saved,
        summary@.error == text::optional_text(summary.error),
{
}

} // verus!
