use std::time::Duration;

use agent_loop_core::error::TransportFailure;
use agent_loop_core::AgentError;

#[test]
fn transient_failures_are_retryable() {
    assert!(AgentError::Timeout(Duration::from_secs(1)).is_retryable());
    assert!(AgentError::RateLimited {
        attempts: 1,
        retry_after: None
    }
    .is_retryable());
    for status in [500u16, 502, 503, 504, 408] {
        assert!(
            AgentError::Api {
                status,
                message: String::new()
            }
            .is_retryable(),
            "{status} should be retryable"
        );
    }
}

#[test]
fn caller_errors_are_not_retryable() {
    for status in [400u16, 401, 403, 404, 422] {
        assert!(
            !AgentError::Api {
                status,
                message: String::new()
            }
            .is_retryable(),
            "{status} must not be retried — it burns quota and will fail again"
        );
    }
    assert!(!AgentError::Decode("bad".into()).is_retryable());
    assert!(!AgentError::Config("missing key".into()).is_retryable());
}

#[test]
fn rate_limit_reports_status_and_retry_after() {
    let e = AgentError::RateLimited {
        attempts: 3,
        retry_after: Some(Duration::from_secs(2)),
    };
    assert_eq!(e.status(), Some(429));
    assert_eq!(e.retry_after(), Some(Duration::from_secs(2)));
}

fn failure(timeout: bool, connect: bool, request: bool) -> AgentError {
    AgentError::Transport(TransportFailure {
        timeout,
        connect,
        request,
        message: "broken pipe".into(),
    })
}

#[test]
fn transport_failures_are_retryable_when_the_request_did_not_get_through() {
    assert!(failure(true, false, false).is_retryable());
    assert!(failure(false, true, false).is_retryable());
    assert!(failure(false, false, true).is_retryable());
    assert!(!failure(false, false, false).is_retryable());
    assert_eq!(failure(false, false, true).status(), None);
    assert_eq!(failure(false, false, true).retry_after(), None);
}

#[test]
fn every_error_says_what_happened() {
    let said = |e: AgentError| e.to_string();
    assert_eq!(
        said(AgentError::Timeout(Duration::from_millis(1500))),
        format!("request timed out after {:?}", Duration::from_millis(1500))
    );
    assert_eq!(
        said(AgentError::Timeout(Duration::from_secs(120))),
        "request timed out after 120s"
    );
    assert_eq!(said(failure(false, true, false)), "transport error: broken pipe");
    assert_eq!(
        said(AgentError::RateLimited { attempts: 12, retry_after: None }),
        "rate limited after 12 attempt(s)"
    );
    assert_eq!(
        said(AgentError::Api { status: 400, message: "bad model".into() }),
        "provider returned 400: bad model"
    );
    assert_eq!(
        said(AgentError::Decode("x".into())),
        "could not decode provider response: x"
    );
    assert_eq!(said(AgentError::Config("x".into())), "configuration error: x");
}
