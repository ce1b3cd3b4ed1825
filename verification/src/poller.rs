//! The bracket poller's retry policy: up to four extra attempts with
//! exponential backoff on transient failures, while a decode failure — a
//! persistent incompatibility — and a success are surfaced at once. The
//! fetch itself is an external edge; the driver performs it, classifies the
//! outcome, and obeys the decision made here.

use vstd::prelude::*;

verus! {

/// How one fetch attempt went, as the driver classifies it.
#[derive(Clone, Copy, PartialEq, Eq, Structural, Debug)]
pub enum FetchOutcome {
    /// The snapshot arrived and decoded.
    Success,
    /// A transient failure: network, server error, timeout, or a response
    /// that is valid transport but arrived broken.
    Retryable,
    /// The response parsed as transport but not as the expected schema:
    /// retrying cannot help.
    Decode,
}

/// What the poll loop does after an attempt.
#[derive(Clone, Copy, PartialEq, Eq, Structural, Debug)]
pub enum PollAction {
    /// Hand the attempt's result to the caller, success or not.
    Return,
    /// Sleep this many seconds, then try again.
    RetryAfterSecs(u64),
}

/// Decides the poll loop's next move after attempt number `attempt` (the
/// first try is attempt 1; the fifth is the last): a success or a decode
/// failure is returned at once, a transient failure retries after 2, 4, 8
/// then 16 seconds, and the fifth outcome is returned whatever it is.
pub fn poll_step(attempt: u32, outcome: FetchOutcome) -> (r: PollAction)
    requires
        1 <= attempt <= 5,
    ensures
        outcome is Success ==> r is Return,
        outcome is Decode ==> r is Return,
        outcome is Retryable && attempt == 5 ==> r is Return,
        outcome is Retryable && attempt < 5 ==> r == PollAction::RetryAfterSecs(
            1u64 << attempt,
        ),
{
    match outcome {
        FetchOutcome::Success => PollAction::Return,
        FetchOutcome::Decode => PollAction::Return,
        FetchOutcome::Retryable => {
            if attempt >= 5 {
                PollAction::Return
            } else {
                PollAction::RetryAfterSecs(1u64 << attempt)
            }
        },
    }
}

} // verus!
