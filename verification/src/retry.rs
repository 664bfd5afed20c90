//! Bounded retry for issuing one request over an unreliable transport.
//!
//! A request is attempted up to [`MAX_ATTEMPTS`] times.  After a failed
//! attempt that still has attempts left, the sender pauses for
//! [`RETRY_DELAY_SECS`] seconds and tries again.  When every attempt has
//! failed, the last transport failure is reported to the caller.  A
//! non-success application-level response is not a transport failure and
//! is never retried: it is handed back as a successful transport result.

use vstd::prelude::*;

verus! {

/// Largest number of times one request is attempted.
pub const MAX_ATTEMPTS: u64 = 3;

/// Fixed pause, in seconds, between a failed attempt and the next one.
pub const RETRY_DELAY_SECS: u64 = 2;

/// A transport-level failure: no response could be obtained at all
/// (connection failure, timeout).
#[derive(Debug)]
pub struct TransportError {
    /// Description of the failure, for the caller's report.
    pub message: String,
}

/// Terminal error after every attempt failed at the transport level.
#[derive(Debug)]
pub struct RequestFailed {
    /// Note for the caller that several attempts were made.
    pub context: String,
    /// The transport failure of the last attempt.
    pub last: TransportError,
}

/// What the sender does after one attempt.
pub enum RetryStep {
    /// The attempt succeeded: hand the response to the caller.
    Accept,
    /// Wait the given number of seconds, then attempt again.
    Backoff { delay_secs: u64 },
    /// Every attempt is used up: report failure to the caller.
    Exhausted,
}

/// Decides what follows the attempt numbered `attempt` (counted from 1),
/// given whether that attempt failed at the transport level.
pub fn retry_step(attempt: u64, failed: bool) -> (r: RetryStep)
    requires
        1 <= attempt <= MAX_ATTEMPTS,
    ensures
        !failed ==> r == RetryStep::Accept,
        failed && attempt < MAX_ATTEMPTS ==> r == (RetryStep::Backoff { delay_secs: RETRY_DELAY_SECS }),
        failed && attempt == MAX_ATTEMPTS ==> r == RetryStep::Exhausted,
{
    if !failed {
        RetryStep::Accept
    } else if attempt < MAX_ATTEMPTS {
        RetryStep::Backoff { delay_secs: RETRY_DELAY_SECS }
    } else {
        RetryStep::Exhausted
    }
}

/// The capability to issue the request once and to pause between
/// attempts.  The caller supplies an implementation; the retry logic
/// makes no assumption about how either method behaves.
pub trait RequestIssuer<T> {
    /// Issues the request once, yielding a response or a transport failure.
    fn issue(&mut self) -> Result<T, TransportError>;

    /// Pauses for the given number of seconds before the next attempt.
    fn wait_before_retry(&mut self, seconds: u64);
}

/// The result of a full send, together with how much work it took.
pub struct SendReport<T> {
    /// The response of the last attempt, or the terminal failure.
    pub outcome: Result<T, RequestFailed>,
    /// How many attempts were made, counted from 1.
    pub attempts: u64,
    /// Total pause requested between attempts, in seconds.
    pub delay_requested_secs: u64,
}

/// The note attached to a terminal failure.
fn failure_context() -> (s: String)
    ensures
        s@ == "Failed to send request after multiple attempts"@,
{
    "Failed to send request after multiple attempts".to_owned()
}

/// Issues the request with bounded retry and reports the attempt count
/// and the total requested delay.
///
/// Failure is reported only once every attempt has failed, so a terminal
/// failure always reflects [`MAX_ATTEMPTS`] attempts and a total pause of
/// `RETRY_DELAY_SECS * (MAX_ATTEMPTS - 1)` seconds.
pub fn send_with_retry_report<T, I: RequestIssuer<T>>(issuer: &mut I) -> (r: SendReport<T>)
    ensures
        1 <= r.attempts <= MAX_ATTEMPTS,
        r.delay_requested_secs == RETRY_DELAY_SECS * (r.attempts - 1),
        r.outcome is Err ==> r.attempts == MAX_ATTEMPTS,
        r.outcome matches Err(e) ==> e.context@ == "Failed to send request after multiple attempts"@,
{
    let mut attempt: u64 = 1;
    let mut waited: u64 = 0;
    loop
        invariant
            1 <= attempt <= MAX_ATTEMPTS,
            waited == RETRY_DELAY_SECS * (attempt - 1),
        decreases MAX_ATTEMPTS - attempt,
    {
        match issuer.issue() {
            Ok(t) => {
                return SendReport { outcome: Ok(t), attempts: attempt, delay_requested_secs: waited };
            },
            Err(e) => {
                match retry_step(attempt, true) {
                    RetryStep::Backoff { delay_secs } => {
                        issuer.wait_before_retry(delay_secs);
                        waited = waited + delay_secs;
                        attempt = attempt + 1;
                    },
                    _ => {
                        return SendReport {
                            outcome: Err(RequestFailed { context: failure_context(), last: e }),
                            attempts: attempt,
                            delay_requested_secs: waited,
                        };
                    },
                }
            },
        }
    }
}

/// Issues the request with bounded retry, as the caller-facing entry
/// point: the response on some attempt's success, the terminal failure
/// once every attempt has failed.
pub fn send_with_retry<T, I: RequestIssuer<T>>(issuer: &mut I) -> (r: Result<T, RequestFailed>)
    ensures
        r matches Err(e) ==> e.context@ == "Failed to send request after multiple attempts"@,
{
    let report = send_with_retry_report(issuer);
    report.outcome
}

} // verus!
