use chatstream::retry::{
    send_with_retry, send_with_retry_report, RequestIssuer, TransportError, MAX_ATTEMPTS,
    RETRY_DELAY_SECS,
};

/// An issuer whose first `failures_left` attempts fail, and which
/// records every call and every requested pause.
struct ScriptedIssuer {
    failures_left: u32,
    issue_calls: u32,
    waits: Vec<u64>,
}

impl ScriptedIssuer {
    fn failing(times: u32) -> Self {
        ScriptedIssuer { failures_left: times, issue_calls: 0, waits: Vec::new() }
    }
}

impl RequestIssuer<u32> for ScriptedIssuer {
    fn issue(&mut self) -> Result<u32, TransportError> {
        self.issue_calls += 1;
        if self.failures_left > 0 {
            self.failures_left -= 1;
            Err(TransportError { message: "connection reset".to_string() })
        } else {
            Ok(self.issue_calls)
        }
    }

    fn wait_before_retry(&mut self, seconds: u64) {
        self.waits.push(seconds);
    }
}

#[test]
fn succeeds_immediately_without_waiting() {
    let mut issuer = ScriptedIssuer::failing(0);
    let result = send_with_retry(&mut issuer).unwrap();
    assert_eq!(result, 1);
    assert_eq!(issuer.issue_calls, 1);
    assert!(issuer.waits.is_empty());
}

#[test]
fn two_failures_then_success_returns_the_third_attempt() {
    let mut issuer = ScriptedIssuer::failing(2);
    let result = send_with_retry(&mut issuer).unwrap();
    assert_eq!(result, 3);
    assert_eq!(issuer.issue_calls, 3);
    assert_eq!(issuer.waits, vec![RETRY_DELAY_SECS, RETRY_DELAY_SECS]);
}

#[test]
fn constant_failure_gives_up_after_three_attempts_and_four_seconds() {
    let mut issuer = ScriptedIssuer::failing(u32::MAX);
    let report = send_with_retry_report(&mut issuer);
    let failure = report.outcome.unwrap_err();
    assert_eq!(failure.context, "Failed to send request after multiple attempts");
    assert_eq!(failure.last.message, "connection reset");
    assert_eq!(report.attempts, MAX_ATTEMPTS);
    assert_eq!(report.delay_requested_secs, 4);
    assert_eq!(issuer.issue_calls, 3);
    assert_eq!(issuer.waits, vec![RETRY_DELAY_SECS, RETRY_DELAY_SECS]);
}
