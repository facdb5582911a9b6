//! The job-completion polling state machine.
//!
//! The caller queries the job's status once per round and hands the answer
//! to [`poll_step`], which either names the backoff to sleep before the
//! next round, tells the caller to fetch the result, or aborts with the
//! reason.  The decision logic is pure; the querying and sleeping stay
//! with the caller.

use vstd::prelude::*;

use crate::strutil::opt_str_view;

verus! {

/// The job states the service reports.  `InProgress` is the only
/// non-terminal state; anything unrecognized is `Unknown`, a terminal
/// failure of the protocol rather than of the transcription.
#[derive(Debug, Clone, Copy, PartialEq, Eq, Structural)]
pub enum TranscriptionJobState {
    InProgress,
    Completed,
    Failed,
    Unknown,
}

/// Why a transcription run failed.
#[derive(Debug, Clone, PartialEq, Eq)]
pub enum ProcessingError {
    /// Transport or auth error while polling; fatal, never retried here.
    StatusQueryFailed(String),
    /// The service reported `Failed`; carries the service's own reason.
    JobFailed(String),
    /// Status absent or unrecognized: the collaborator broke protocol.
    UnexpectedJobState,
    /// The result document could not be fetched.
    RetrievalError(String),
    /// The result document did not match the expected schema.
    ParseError(String),
}

impl ProcessingError {
    /// A human-readable description of the failure.
    pub fn message(&self) -> (r: String)
        ensures
            r@ == self.spec_message(),
    {
        let mut out = String::new();
        match self {
            ProcessingError::StatusQueryFailed(s) => {
                out.append("failed to get transcription job status: ");
                out.append(s.as_str());
            },
            ProcessingError::JobFailed(s) => {
                out.append("transcription job failed: ");
                out.append(s.as_str());
            },
            ProcessingError::UnexpectedJobState => {
                out.append("unexpected transcription job status");
            },
            ProcessingError::RetrievalError(s) => {
                out.append("failed to download transcript: ");
                out.append(s.as_str());
            },
            ProcessingError::ParseError(s) => {
                out.append("failed to parse transcript document: ");
                out.append(s.as_str());
            },
        }
        proof {
            assert(Seq::<char>::empty() + self.spec_message() =~= self.spec_message());
            assert(out@ =~= self.spec_message());
        }
        out
    }

    pub open spec fn spec_message(&self) -> Seq<char> {
        match self {
            ProcessingError::StatusQueryFailed(s) =>
                "failed to get transcription job status: "@ + s@,
            ProcessingError::JobFailed(s) => "transcription job failed: "@ + s@,
            ProcessingError::UnexpectedJobState => "unexpected transcription job status"@,
            ProcessingError::RetrievalError(s) => "failed to download transcript: "@ + s@,
            ProcessingError::ParseError(s) => "failed to parse transcript document: "@
                + s@,
        }
    }
}

/// What the poller does after reading one status answer.
#[derive(Debug, Clone, PartialEq, Eq)]
pub enum PollDecision {
    /// Sleep this many seconds, then query again.
    Recheck { wait_seconds: u64 },
    /// The job completed: fetch and process the result.
    Proceed,
    /// The run is over; the error says why.
    Abort(ProcessingError),
}

/// Backoff before the `check_count`-th re-query: 5 s, then 2 s more per
/// round, never above 30 s.
pub open spec fn backoff_seconds_spec(check_count: int) -> int {
    if 5 + (check_count - 1) * 2 > 30 {
        30
    } else {
        5 + (check_count - 1) * 2
    }
}

/// The backoff schedule, `check_count` counting queries from 1.
pub fn backoff_seconds(check_count: u64) -> (r: u64)
    requires
        check_count >= 1,
    ensures
        r == backoff_seconds_spec(check_count as int),
        5 <= r <= 30,
{
    if check_count >= 14 {
        30
    } else {
        5 + (check_count - 1) * 2
    }
}

/// The reason handed on when the service reports `Failed` without one.
pub open spec fn failure_reason_spec(reason: Option<Seq<char>>) -> Seq<char> {
    match reason {
        Some(r) => r,
        None => "Unknown error"@,
    }
}

/// One transition of the polling state machine: given the state the
/// service reported on the `check_count`-th query (counting from 1) and
/// the failure reason it supplied, decide what happens next.
pub fn poll_step(status: TranscriptionJobState, failure_reason: &Option<String>,
    check_count: u64) -> (d: PollDecision)
    requires
        check_count >= 1,
    ensures
        status == TranscriptionJobState::InProgress ==> d == (PollDecision::Recheck {
            wait_seconds: backoff_seconds_spec(check_count as int) as u64,
        }),
        status == TranscriptionJobState::Completed ==> d == PollDecision::Proceed,
        status == TranscriptionJobState::Failed ==> (d matches PollDecision::Abort(
            ProcessingError::JobFailed(r)) && r@ == failure_reason_spec(opt_str_view(
            failure_reason))),
        status == TranscriptionJobState::Unknown ==> d == PollDecision::Abort(
            ProcessingError::UnexpectedJobState),
{
    match status {
        TranscriptionJobState::InProgress => PollDecision::Recheck {
            wait_seconds: backoff_seconds(check_count),
        },
        TranscriptionJobState::Completed => PollDecision::Proceed,
        TranscriptionJobState::Failed => {
            let reason: String = match failure_reason {
                Some(r) => r.clone(),
                None => {
                    let mut s = String::new();
                    s.append("Unknown error");
                    proof {
                        assert(Seq::<char>::empty() + "Unknown error"@ =~= "Unknown error"@);
                    }
                    s
                },
            };
            PollDecision::Abort(ProcessingError::JobFailed(reason))
        },
        TranscriptionJobState::Unknown => PollDecision::Abort(
            ProcessingError::UnexpectedJobState),
    }
}

} // verus!
