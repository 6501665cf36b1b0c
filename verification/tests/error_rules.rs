use region_recovery::errors::{
    map_api_error, recovery_error, CodexErr, CodexErrorDetails, RetryDelay, UnexpectedResponse,
    BAD_REQUEST, BEDROCK_EXPIRED_SIGNATURE_MESSAGE, INTERNAL_SERVER_ERROR, UNAUTHORIZED,
};
use region_recovery::refusal::Refusal;

fn delay() -> Option<RetryDelay> {
    Some(RetryDelay { secs: 3, nanos: 500 })
}

fn invalid(message: &str) -> CodexErr {
    CodexErr {
        details: CodexErrorDetails::InvalidRequest(message.to_string()),
        retry_delay: delay(),
    }
}

fn unexpected(status: u16, body: &str, user_message: Option<&str>) -> CodexErr {
    CodexErr {
        details: CodexErrorDetails::UnexpectedStatus(UnexpectedResponse {
            status,
            body: body.to_string(),
            user_message: user_message.map(str::to_string),
            rest: r#"{"url":"https://example.com","request_id":"req-1"}"#.to_string(),
        }),
        retry_delay: delay(),
    }
}

#[test]
fn statuses_are_those_of_http() {
    assert_eq!(BAD_REQUEST, http::StatusCode::BAD_REQUEST.as_u16());
    assert_eq!(UNAUTHORIZED, http::StatusCode::UNAUTHORIZED.as_u16());
    assert_eq!(INTERNAL_SERVER_ERROR, http::StatusCode::INTERNAL_SERVER_ERROR.as_u16());
}

#[test]
fn prompt_token_limits_exceed_the_context_window() {
    for message in [
        "prompt tokens (282061) exceed model maximum (278528) for openai.gpt-5.6-sol",
        "  prompt tokens (282061) exceed model maximum (278528) for openai.gpt-5.6-sol\n",
        "prompt tokens (1) exceed customer model maximum (0) for m",
        "prompt tokens (+1) exceed model maximum (007) for ) for ",
        "prompt tokens (18446744073709551615) exceed model maximum (1) for m",
    ] {
        assert_eq!(
            map_api_error(invalid(message)),
            CodexErr::new(CodexErrorDetails::ContextWindowExceeded),
            "{}",
            message,
        );
    }
}

#[test]
fn messages_that_only_resemble_a_token_limit_stay_invalid_requests() {
    for message in [
        "",
        "prompt tokens (282061) exceed model maximum (278528) for ",
        "prompt tokens (282061) exceed model maximum (278528)",
        "prompt tokens (many) exceed model maximum (278528) for m",
        "prompt tokens (282061) exceed model maximum (few) for m",
        "prompt tokens (-1) exceed model maximum (278528) for m",
        "prompt tokens (18446744073709551616) exceed model maximum (1) for m",
        "Prompt tokens (1) exceed model maximum (1) for m",
        "the prompt tokens (1) exceed model maximum (1) for m",
        "prompt tokens (1) exceed the model maximum (1) for m",
        "prompt tokens (1) exceed customer model maximum (1) for ) exceed model maximum (2) for m",
    ] {
        assert_eq!(map_api_error(invalid(message)), invalid(message), "{}", message);
    }
}

#[test]
fn internal_server_errors_are_recognised_by_their_message() {
    for message in ["Internal server error", "internal SERVER error", "\tInternal server error "] {
        assert_eq!(
            map_api_error(invalid(message)),
            CodexErr::new(CodexErrorDetails::InternalServerError),
        );
    }
    for message in ["Internal server error.", "An internal server error", "Internal  server error"] {
        assert_eq!(map_api_error(invalid(message)), invalid(message));
    }
}

#[test]
fn expired_signatures_tell_the_user_and_keep_everything_else() {
    let body = r#"{"message":"Signature expired: 20250101T000000Z is now earlier"}"#;
    assert_eq!(
        map_api_error(unexpected(401, body, None)),
        unexpected(401, body, Some(BEDROCK_EXPIRED_SIGNATURE_MESSAGE)),
    );
    assert_eq!(
        map_api_error(unexpected(401, body, Some("earlier message"))),
        unexpected(401, body, Some(BEDROCK_EXPIRED_SIGNATURE_MESSAGE)),
    );
    let without_delay = CodexErr { retry_delay: None, ..unexpected(401, body, None) };
    assert_eq!(map_api_error(without_delay).retry_delay, None);
    assert_eq!(map_api_error(unexpected(403, body, None)), unexpected(403, body, None));
    assert_eq!(
        map_api_error(unexpected(401, "signature expired:", None)),
        unexpected(401, "signature expired:", None),
    );
}

#[test]
fn other_errors_stay_as_they_are() {
    for details in [
        CodexErrorDetails::ContextWindowExceeded,
        CodexErrorDetails::InternalServerError,
        CodexErrorDetails::Other("Internal server error".to_string()),
    ] {
        let copy = match &details {
            CodexErrorDetails::ContextWindowExceeded => CodexErrorDetails::ContextWindowExceeded,
            CodexErrorDetails::InternalServerError => CodexErrorDetails::InternalServerError,
            _ => CodexErrorDetails::Other("Internal server error".to_string()),
        };
        assert_eq!(
            map_api_error(CodexErr { details, retry_delay: delay() }),
            CodexErr { details: copy, retry_delay: delay() },
        );
    }
}

#[test]
fn refusals_say_that_the_conversation_is_preserved() {
    assert_eq!(
        recovery_error("because"),
        CodexErr::new(CodexErrorDetails::InvalidRequest(
            "Cannot migrate the encrypted compaction checkpoint to this region: because. \
             The saved conversation has been preserved. Resume in the checkpoint's original \
             region and create a handoff summary for a new session."
                .to_string(),
        )),
    );
    for (refusal, reason) in [
        (
            Refusal::TranscriptUnavailable,
            "the original transcript is not available for this session",
        ),
        (Refusal::FlushFailed("disk".to_string()), "cannot flush the transcript: disk"),
        (Refusal::LoadFailed("disk".to_string()), "cannot load the transcript: disk"),
        (Refusal::TooManyCheckpoints, "too many dependent checkpoints to rebuild safely"),
        (Refusal::CheckpointMissing, "the source checkpoint is missing from the transcript"),
        (Refusal::WindowMissing, "the checkpoint's source window is missing"),
        (Refusal::WindowIncomplete, "the checkpoint's source window is incomplete"),
        (Refusal::TooManyItems, "the source window exceeds the replay item limit"),
        (Refusal::TooManyBytes, "the source window exceeds the replay byte limit"),
        (
            Refusal::OverContextBudget,
            "the source window exceeds the active model's context budget",
        ),
        (Refusal::NotACheckpoint, "regeneration did not return a checkpoint"),
        (Refusal::SameCheckpoint, "regeneration returned the rejected checkpoint"),
        (Refusal::CacheLimit, "regenerated checkpoints exceed the provider's cache limit"),
    ] {
        assert_eq!(refusal.reason(), reason);
        assert_eq!(refusal.into_error(), recovery_error(reason));
    }
}
