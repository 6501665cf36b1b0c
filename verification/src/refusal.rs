//! Why a checkpoint is not moved to another region.
use crate::errors::{recovery_error, CodexErr, CodexErrorDetails, REFUSAL_END, REFUSAL_START};
use vstd::prelude::*;

verus! {

/// Why a checkpoint is not moved to another region. The saved conversation is left as it is.
#[derive(Debug, PartialEq, Eq)]
pub enum Refusal {
    /// The session keeps no transcript.
    TranscriptUnavailable,
    /// The transcript could not be written out, with the error.
    FlushFailed(String),
    /// The transcript could not be read, with the error.
    LoadFailed(String),
    /// Too many checkpoints depend on each other.
    TooManyCheckpoints,
    /// The transcript does not record the checkpoint.
    CheckpointMissing,
    /// Nothing is recorded before the checkpoint.
    WindowMissing,
    /// The window behind the checkpoint rests on a checkpoint that rests on it.
    WindowIncomplete,
    /// The window behind the checkpoint holds too many items.
    TooManyItems,
    /// The encoding of the window is too long.
    TooManyBytes,
    /// The window does not fit the active model.
    OverContextBudget,
    /// The endpoint answered with something else than a checkpoint.
    NotACheckpoint,
    /// The endpoint answered with the checkpoint that it rejects.
    SameCheckpoint,
    /// The session cannot hold the new checkpoints.
    CacheLimit,
}

/// The reason in words.
pub open spec fn refusal_reason(refusal: Refusal) -> Seq<char> {
    match refusal {
        Refusal::TranscriptUnavailable =>
            "the original transcript is not available for this session"@,
        Refusal::FlushFailed(error) => "cannot flush the transcript: "@ + error@,
        Refusal::LoadFailed(error) => "cannot load the transcript: "@ + error@,
        Refusal::TooManyCheckpoints => "too many dependent checkpoints to rebuild safely"@,
        Refusal::CheckpointMissing => "the source checkpoint is missing from the transcript"@,
        Refusal::WindowMissing => "the checkpoint's source window is missing"@,
        Refusal::WindowIncomplete => "the checkpoint's source window is incomplete"@,
        Refusal::TooManyItems => "the source window exceeds the replay item limit"@,
        Refusal::TooManyBytes => "the source window exceeds the replay byte limit"@,
        Refusal::OverContextBudget =>
            "the source window exceeds the active model's context budget"@,
        Refusal::NotACheckpoint => "regeneration did not return a checkpoint"@,
        Refusal::SameCheckpoint => "regeneration returned the rejected checkpoint"@,
        Refusal::CacheLimit => "regenerated checkpoints exceed the provider's cache limit"@,
    }
}

impl Refusal {
    /// The reason in words.
    pub fn reason(&self) -> (reason: String)
        ensures
            reason@ == refusal_reason(*self),
    {
        match self {
            Refusal::TranscriptUnavailable =>
                "the original transcript is not available for this session".to_owned(),
            Refusal::FlushFailed(error) => {
                let mut reason = "cannot flush the transcript: ".to_owned();
                reason.append(error.as_str());
                reason
            },
            Refusal::LoadFailed(error) => {
                let mut reason = "cannot load the transcript: ".to_owned();
                reason.append(error.as_str());
                reason
            },
            Refusal::TooManyCheckpoints =>
                "too many dependent checkpoints to rebuild safely".to_owned(),
            Refusal::CheckpointMissing =>
                "the source checkpoint is missing from the transcript".to_owned(),
            Refusal::WindowMissing => "the checkpoint's source window is missing".to_owned(),
            Refusal::WindowIncomplete => "the checkpoint's source window is incomplete".to_owned(),
            Refusal::TooManyItems =>
                "the source window exceeds the replay item limit".to_owned(),
            Refusal::TooManyBytes =>
                "the source window exceeds the replay byte limit".to_owned(),
            Refusal::OverContextBudget =>
                "the source window exceeds the active model's context budget".to_owned(),
            Refusal::NotACheckpoint => "regeneration did not return a checkpoint".to_owned(),
            Refusal::SameCheckpoint =>
                "regeneration returned the rejected checkpoint".to_owned(),
            Refusal::CacheLimit =>
                "regenerated checkpoints exceed the provider's cache limit".to_owned(),
        }
    }

    /// The error that the session reports.
    pub fn into_error(self) -> (error: CodexErr)
        ensures
            error.retry_delay is None,
            error.details matches CodexErrorDetails::InvalidRequest(message) && message@
                == REFUSAL_START@ + refusal_reason(self) + REFUSAL_END@,
    {
        let reason = self.reason();
        recovery_error(reason.as_str())
    }
}

} // verus!
