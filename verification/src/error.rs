//! The failures of the pipeline.

use vstd::prelude::*;

verus! {

/// Why a run failed, or, for `CommentFetchFailed`, why one item has no
/// comments.
#[derive(Clone, Debug, PartialEq, Eq)]
pub enum PipelineError {
    /// The activity query failed or returned data that is not a list of
    /// records. Fatal. `detail` is what the transport said.
    SourceUnavailable { detail: String },
    /// The comment query for one item failed. Never fatal: the item keeps an
    /// empty comment sequence.
    CommentFetchFailed,
    /// A record could not be rendered into the structured payload. Fatal.
    SerializationFailed,
    /// The completion endpoint answered with a non-success status. Fatal.
    /// `body` is the response body as it came.
    UpstreamError { body: String },
    /// The completion endpoint answered without any choice. Fatal.
    NoCompletionError,
}

/// What a [`PipelineError`] holds, as mathematical values.
pub enum PipelineErrorView {
    SourceUnavailable { detail: Seq<char> },
    CommentFetchFailed,
    SerializationFailed,
    UpstreamError { body: Seq<char> },
    NoCompletionError,
}

impl View for PipelineError {
    type V = PipelineErrorView;

    open spec fn view(&self) -> PipelineErrorView {
        match self {
            PipelineError::SourceUnavailable { detail } => PipelineErrorView::SourceUnavailable {
                detail: detail@,
            },
            PipelineError::CommentFetchFailed => PipelineErrorView::CommentFetchFailed,
            PipelineError::SerializationFailed => PipelineErrorView::SerializationFailed,
            PipelineError::UpstreamError { body } => PipelineErrorView::UpstreamError { body: body@ },
            PipelineError::NoCompletionError => PipelineErrorView::NoCompletionError,
        }
    }
}

/// Whether an error ends the run. Only a failed comment query does not.
pub open spec fn is_fatal(error: PipelineErrorView) -> bool {
    !(error is CommentFetchFailed)
}

/// The message that reports an error: the stage that failed and what the
/// underlying transport said.
pub open spec fn message_text(error: PipelineErrorView) -> Seq<char> {
    match error {
        PipelineErrorView::SourceUnavailable { detail } => "activity query failed: "@ + detail,
        PipelineErrorView::CommentFetchFailed => "comment query failed"@,
        PipelineErrorView::SerializationFailed => "structured payload could not be built"@,
        PipelineErrorView::UpstreamError { body } => "completion endpoint error: "@ + body,
        PipelineErrorView::NoCompletionError => "completion endpoint returned no choices"@,
    }
}

impl PipelineError {
    /// Whether this error aborts the pipeline.
    pub fn fatal(&self) -> (r: bool)
        ensures
            r == is_fatal(self@),
    {
        match self {
            PipelineError::CommentFetchFailed => false,
            _ => true,
        }
    }

    /// The message to report for this error.
    pub fn message(&self) -> (text: String)
        ensures
            text@ == message_text(self@),
    {
        match self {
            PipelineError::SourceUnavailable { detail } => {
                let mut text = String::from_str("activity query failed: ");
                text.append(detail.as_str());
                text
            },
            PipelineError::CommentFetchFailed => String::from_str("comment query failed"),
            PipelineError::SerializationFailed => String::from_str(
                "structured payload could not be built",
            ),
            PipelineError::UpstreamError { body } => {
                let mut text = String::from_str("completion endpoint error: ");
                text.append(body.as_str());
                text
            },
            PipelineError::NoCompletionError => String::from_str(
                "completion endpoint returned no choices",
            ),
        }
    }
}

} // verus!
