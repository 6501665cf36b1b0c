//! Errors of the provider and of the session, and the rules that tell them apart.
use crate::text::{
    after_prefix, chars_of, contains, contains_text, eq_ignore_ascii_case, parses_as_u64,
    same_ignoring_ascii_case, split_once, split_once_text, strip_prefix, trim, trimmed, writes_u64,
};
use vstd::prelude::*;

verus! {

pub const BAD_REQUEST: u16 = 400;

pub const UNAUTHORIZED: u16 = 401;

pub const INTERNAL_SERVER_ERROR: u16 = 500;

/// What the user is told where the endpoint calls the request's signature expired.
pub const BEDROCK_EXPIRED_SIGNATURE_MESSAGE: &'static str =
    "Amazon Bedrock rejected the request because its AWS signature has expired. Refresh your AWS credentials and retry. If `AWS_BEARER_TOKEN_BEDROCK` is set, update or unset it, then restart Codex";

/// The document in which the endpoint describes an error.
#[derive(Debug, PartialEq, Eq)]
pub struct ErrorResponse {
    pub error: ResponseError,
}

/// The error that such a document describes.
#[derive(Debug, PartialEq, Eq)]
pub struct ResponseError {
    pub code: String,
    pub message: String,
    pub error_type: String,
}

/// The body of a response that reports an error.
#[derive(Debug, PartialEq, Eq)]
pub enum ErrorBody {
    /// The body is an error document.
    Response(ErrorResponse),
    /// The body is anything else.
    Unrecognized,
}

/// A failure to get an answer at all.
#[derive(Debug, PartialEq, Eq)]
pub enum TransportError {
    /// The endpoint answered with a status that is not a success.
    Http { status: u16, body: Option<ErrorBody> },
    /// Any other failure, with its text.
    Other(String),
}

/// An error of a request to the endpoint.
#[derive(Debug, PartialEq, Eq)]
pub enum ApiError {
    Transport(TransportError),
    Stream(String),
    /// Any other error, with its text.
    Other(String),
}

/// How long to wait before the next attempt.
#[derive(Debug, Clone, Copy, PartialEq, Eq)]
pub struct RetryDelay {
    pub secs: u64,
    pub nanos: u32,
}

/// A response whose status has no meaning of its own.
#[derive(Debug, PartialEq, Eq)]
pub struct UnexpectedResponse {
    pub status: u16,
    pub body: String,
    /// What the user is told in place of the status and the body.
    pub user_message: Option<String>,
    /// The JSON text of the fields that are carried along unread.
    pub rest: String,
}

/// What went wrong.
#[derive(Debug, PartialEq, Eq)]
pub enum CodexErrorDetails {
    InvalidRequest(String),
    UnexpectedStatus(UnexpectedResponse),
    ContextWindowExceeded,
    InternalServerError,
    /// Any other failure, with its text.
    Other(String),
}

/// An error of the session.
#[derive(Debug, PartialEq, Eq)]
pub struct CodexErr {
    pub details: CodexErrorDetails,
    pub retry_delay: Option<RetryDelay>,
}

impl CodexErr {
    /// An error that asks for no delay.
    pub fn new(details: CodexErrorDetails) -> (error: CodexErr)
        ensures
            error == (CodexErr { details, retry_delay: None }),
    {
        CodexErr { details, retry_delay: None }
    }
}

/// What stands on either side of the words between the two token counts.
pub open spec fn split_token_counts(rest: Seq<char>) -> Option<(Seq<char>, Seq<char>)> {
    match split_once_text(rest, ") exceed model maximum ("@) {
        Some(parts) => Some(parts),
        None => split_once_text(rest, ") exceed customer model maximum ("@),
    }
}

/// The message says that a prompt has more tokens than a model, or a customer's model, takes:
/// both counts are numbers and the model is named.
pub open spec fn prompt_exceeds_model(message: Seq<char>) -> bool {
    match after_prefix(message, "prompt tokens ("@) {
        None => false,
        Some(rest) => match split_token_counts(rest) {
            None => false,
            Some((prompt_tokens, tail)) => match split_once_text(tail, ") for "@) {
                None => false,
                Some((model_maximum, model)) => {
                    &&& writes_u64(prompt_tokens)
                    &&& writes_u64(model_maximum)
                    &&& model.len() > 0
                },
            },
        },
    }
}

/// The message is the endpoint's name for a failure of its own.
pub open spec fn reports_internal_error(message: Seq<char>) -> bool {
    same_ignoring_ascii_case(message, "Internal server error"@)
}

/// The response refuses a request because its signature is too old.
pub open spec fn signature_expired(response: UnexpectedResponse) -> bool {
    response.status == UNAUTHORIZED && contains_text(response.body@, "Signature expired:"@)
}

/// Whether the message says that a prompt has more tokens than the model takes.
fn is_context_window_exceeded(message: &[char]) -> (result: bool)
    ensures
        result == prompt_exceeds_model(message@),
{
    let rest = match strip_prefix(message, "prompt tokens (") {
        Some(rest) => rest,
        None => return false,
    };
    let counts = match split_once(rest, ") exceed model maximum (") {
        Some(parts) => Some(parts),
        None => split_once(rest, ") exceed customer model maximum ("),
    };
    let (prompt_tokens, tail) = match counts {
        Some(parts) => parts,
        None => return false,
    };
    match split_once(tail, ") for ") {
        Some((model_maximum, model)) => parses_as_u64(prompt_tokens) && parses_as_u64(model_maximum)
            && model.len() > 0,
        None => false,
    }
}

/// Gives the endpoint's own wording of an error its meaning.
///
/// Endpoints report a prompt that is too long, and failures of their own, as invalid requests;
/// both become the errors that the session knows how to handle. An expired signature gets a
/// message for the user, and keeps everything else. Any other error stays as it is.
pub fn map_api_error(error: CodexErr) -> (mapped: CodexErr)
    ensures
        match error.details {
            CodexErrorDetails::InvalidRequest(message) => {
                if prompt_exceeds_model(trimmed(message@)) {
                    mapped == (CodexErr {
                        details: CodexErrorDetails::ContextWindowExceeded,
                        retry_delay: None,
                    })
                } else if reports_internal_error(trimmed(message@)) {
                    mapped == (CodexErr {
                        details: CodexErrorDetails::InternalServerError,
                        retry_delay: None,
                    })
                } else {
                    mapped == error
                }
            },
            CodexErrorDetails::UnexpectedStatus(response) => {
                if signature_expired(response) {
                    &&& mapped.retry_delay == error.retry_delay
                    &&& mapped.details matches CodexErrorDetails::UnexpectedStatus(told)
                    &&& told.status == response.status
                    &&& told.body == response.body
                    &&& told.rest == response.rest
                    &&& told.user_message matches Some(user_message)
                    &&& user_message@ == BEDROCK_EXPIRED_SIGNATURE_MESSAGE@
                } else {
                    mapped == error
                }
            },
            _ => mapped == error,
        },
{
    match error.details {
        CodexErrorDetails::InvalidRequest(message) => {
            let chars = chars_of(message.as_str());
            let trimmed_message = trim(chars.as_slice());
            if is_context_window_exceeded(trimmed_message) {
                return CodexErr::new(CodexErrorDetails::ContextWindowExceeded);
            }
            if eq_ignore_ascii_case(trimmed_message, "Internal server error") {
                return CodexErr::new(CodexErrorDetails::InternalServerError);
            }
            CodexErr {
                details: CodexErrorDetails::InvalidRequest(message),
                retry_delay: error.retry_delay,
            }
        },
        CodexErrorDetails::UnexpectedStatus(response) => {
            if response.status == UNAUTHORIZED && contains(
                response.body.as_str(),
                "Signature expired:",
            ) {
                let told = UnexpectedResponse {
                    status: response.status,
                    body: response.body,
                    user_message: Some(BEDROCK_EXPIRED_SIGNATURE_MESSAGE.to_owned()),
                    rest: response.rest,
                };
                let mapped_error = CodexErr::new(CodexErrorDetails::UnexpectedStatus(told));
                return match error.retry_delay {
                    Some(retry_delay) => CodexErr {
                        details: mapped_error.details,
                        retry_delay: Some(retry_delay),
                    },
                    None => mapped_error,
                };
            }
            CodexErr {
                details: CodexErrorDetails::UnexpectedStatus(response),
                retry_delay: error.retry_delay,
            }
        },
        details => CodexErr { details, retry_delay: error.retry_delay },
    }
}

/// What stands before the reason in a refusal to move a checkpoint.
pub const REFUSAL_START: &'static str =
    "Cannot migrate the encrypted compaction checkpoint to this region: ";

/// What stands after the reason in a refusal to move a checkpoint.
pub const REFUSAL_END: &'static str =
    ". The saved conversation has been preserved. Resume in the checkpoint's original region and create a handoff summary for a new session.";

/// The error that refuses to move a checkpoint to another region, for a reason.
pub fn recovery_error(reason: &str) -> (error: CodexErr)
    ensures
        error.retry_delay is None,
        error.details matches CodexErrorDetails::InvalidRequest(message) && message@
            == REFUSAL_START@ + reason@ + REFUSAL_END@,
{
    let mut message = REFUSAL_START.to_owned();
    message.append(reason);
    message.append(REFUSAL_END);
    CodexErr::new(CodexErrorDetails::InvalidRequest(message))
}

} // verus!
