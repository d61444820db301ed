use std::time::Duration;

use agent_loop_core::error::TransportFailure;
use agent_loop_core::provider::{
    error_message, error_message_of, parse_retry_after, read_reply, read_reply_of, Exchange, Next,
};
use agent_loop_core::{AgentError, ChatClient, Json, ProviderConfig, RetryPolicy};

/// A reply: its status, its `Retry-After` header and its body.
type Reply = (u16, Option<&'static str>, &'static str);

const OK: Reply = (200, None, r#"{"choices": [], "ok": true}"#);

/// Send a request to an endpoint that replays a script, the last reply for ever.
/// What came of it, how often it was sent and how long the waits were.
fn served(mut exchange: Exchange, script: &[Reply]) -> (Result<Json, AgentError>, usize, Vec<Duration>) {
    let mut calls = 0;
    let mut waits = Vec::new();
    loop {
        let (status, header, body) = script[calls.min(script.len() - 1)];
        calls += 1;
        match exchange.replied(status, header, body) {
            Next::Done(result) => return (result, calls, waits),
            Next::RetryAfter(delay, _) => waits.push(delay),
        }
    }
}

fn json(text: &str) -> Json {
    Json::parse(text).unwrap()
}

fn config(base_url: &str, max_retries: u32) -> ProviderConfig {
    ProviderConfig {
        base_url: base_url.to_string(),
        api_key: "test-key".to_string(),
        retry: RetryPolicy {
            max_retries,
            initial_backoff: Duration::ZERO,
            max_backoff: Duration::ZERO,
        },
        ..ProviderConfig::default()
    }
}

fn client(max_retries: u32) -> ChatClient {
    ChatClient::new(config("http://localhost:1", max_retries)).unwrap()
}

#[test]
fn successful_response_is_returned_verbatim() {
    let (out, calls, _) = served(client(3).post_chat(&json(r#"{"model": "m"}"#)), &[OK]);
    assert_eq!(out.unwrap().at("ok"), &Json::Bool(true));
    assert_eq!(calls, 1);
}

#[test]
fn auth_and_extra_headers_are_sent() {
    let c = ChatClient::new(ProviderConfig {
        base_url: "http://localhost:1".into(),
        api_key: "test-key".to_string(),
        extra_headers: vec![("X-Title".into(), "vexar".into())],
        retry: RetryPolicy::none(),
        ..ProviderConfig::default()
    })
    .unwrap();
    let exchange = c.post_chat(&json("{}"));
    let request = exchange.request();
    assert_eq!(request.url, "http://localhost:1/chat/completions");
    assert_eq!(request.bearer.as_deref(), Some("test-key"));
    assert_eq!(request.headers, vec![("X-Title".to_string(), "vexar".to_string())]);
    assert_eq!(request.body, json("{}"));
}

#[test]
fn base_url_trailing_slash_is_tolerated() {
    for base in ["http://localhost:1", "http://localhost:1/", "http://localhost:1//"] {
        let c = ChatClient::new(config(base, 0)).unwrap();
        let exchange = c.post_chat(&json("{}"));
        assert_eq!(exchange.request().url, "http://localhost:1/chat/completions");
        assert!(served(exchange, &[OK]).0.is_ok());
        assert_eq!(c.post("responses", &json("{}")).request().url, "http://localhost:1/responses");
    }
}

#[test]
fn a_429_is_retried_and_then_succeeds() {
    let (out, calls, _) = served(client(3).post_chat(&json("{}")), &[(429, None, ""), OK]);
    assert_eq!(out.unwrap().at("ok"), &Json::Bool(true));
    assert_eq!(calls, 2, "one failure, one success");
}

#[test]
fn persistent_429_exhausts_retries_and_reports_attempts() {
    let (out, calls, _) = served(client(2).post_chat(&json("{}")), &[(429, None, "")]);
    match out.unwrap_err() {
        AgentError::RateLimited { attempts, .. } => assert_eq!(attempts, 3),
        other => panic!("expected RateLimited, got {other:?}"),
    }
    assert_eq!(calls, 3, "initial attempt + 2 retries");
}

#[test]
fn server_errors_are_retried() {
    let script = [(503, None, ""), (502, None, ""), OK];
    let (out, calls, _) = served(client(3).post_chat(&json("{}")), &script);
    assert!(out.is_ok());
    assert_eq!(calls, 3);
}

#[test]
fn a_gateway_error_with_a_non_json_body_is_still_retried() {
    let script = [(502, None, "<html>Bad Gateway</html>"), OK];
    let (out, calls, _) = served(client(3).post_chat(&json("{}")), &script);
    assert!(out.is_ok());
    assert_eq!(calls, 2);
}

#[test]
fn client_errors_are_not_retried() {
    let script = [(400, None, r#"{"error": {"message": "bad model"}}"#)];
    let (out, calls, _) = served(client(3).post_chat(&json("{}")), &script);
    let err = out.unwrap_err();
    assert!(matches!(err, AgentError::Api { status: 400, .. }));
    assert!(err.to_string().contains("bad model"));
    assert_eq!(calls, 1, "retrying a 400 only burns quota");
}

#[test]
fn retry_after_header_is_honoured() {
    let script = [(429, Some("0"), ""), OK];
    let (out, calls, _) = served(client(3).post_chat(&json("{}")), &script);
    assert!(out.is_ok());
    assert_eq!(calls, 2);
}

#[test]
fn a_stalled_provider_times_out_instead_of_hanging_forever() {
    let c = ChatClient::new(ProviderConfig {
        base_url: "http://localhost:1".into(),
        api_key: "k".to_string(),
        timeout: Duration::from_millis(80),
        retry: RetryPolicy::none(),
        ..ProviderConfig::default()
    })
    .unwrap();
    let mut exchange = c.post_chat(&json("{}"));
    let next = exchange.not_carried_out(TransportFailure {
        timeout: true,
        connect: false,
        request: true,
        message: "operation timed out".into(),
    });
    match next {
        Next::Done(Err(AgentError::Timeout(d))) => assert_eq!(d, Duration::from_millis(80)),
        other => panic!("got {other:?}"),
    }
}

#[test]
fn a_connection_that_fails_is_tried_again() {
    let broken = || TransportFailure {
        timeout: false,
        connect: true,
        request: false,
        message: "connection refused".into(),
    };
    let mut exchange = client(1).post_chat(&json("{}"));
    assert_eq!(exchange.attempts(), 0);
    match exchange.not_carried_out(broken()) {
        Next::RetryAfter(delay, e) => {
            assert_eq!(delay, Duration::ZERO);
            assert_eq!(e.to_string(), "transport error: connection refused");
        }
        other => panic!("got {other:?}"),
    }
    assert_eq!(exchange.attempts(), 1);
    match exchange.not_carried_out(broken()) {
        Next::Done(Err(e)) => assert_eq!(e.to_string(), "transport error: connection refused"),
        other => panic!("got {other:?}"),
    }
}

#[test]
fn an_error_member_on_a_200_is_still_an_error() {
    let script = [(200, None, r#"{"error": {"message": "no credit"}}"#)];
    let err = served(client(0).post_chat(&json("{}")), &script).0.unwrap_err();
    assert!(matches!(err, AgentError::Api { status: 200, .. }));
    assert!(err.to_string().contains("no credit"));
}

#[test]
fn a_non_json_body_is_a_decode_error_not_a_panic() {
    let script = [(200, None, "<html>502</html>")];
    let (out, calls, _) = served(client(3).post_chat(&json("{}")), &script);
    let err = out.unwrap_err();
    assert!(matches!(err, AgentError::Decode(_)), "got {err:?}");
    assert_eq!(calls, 1, "a malformed body is not retryable");
}

#[test]
fn an_empty_base_url_is_rejected_before_any_request() {
    assert!(matches!(
        ChatClient::new(ProviderConfig::default()),
        Err(AgentError::Config(_))
    ));
    let blank = ProviderConfig {
        base_url: " \t\u{2003}".into(),
        ..ProviderConfig::default()
    };
    assert!(matches!(ChatClient::new(blank), Err(AgentError::Config(m)) if m == "base_url is empty"));
}

#[test]
fn a_keyless_provider_is_accepted() {
    assert!(ChatClient::new(ProviderConfig {
        base_url: "http://localhost:11434/v1".into(),
        ..ProviderConfig::default()
    })
    .is_ok());
}

#[test]
fn no_authorization_header_is_sent_when_the_key_is_empty() {
    for key in ["", "  "] {
        let c = ChatClient::new(ProviderConfig {
            base_url: "http://localhost:1".into(),
            api_key: key.to_string(),
            retry: RetryPolicy::none(),
            ..ProviderConfig::default()
        })
        .unwrap();
        assert_eq!(c.post_chat(&json("{}")).request().bearer, None);
    }
}

#[test]
fn backoff_doubles_and_saturates_at_the_ceiling() {
    let p = RetryPolicy {
        max_retries: 10,
        initial_backoff: Duration::from_millis(100),
        max_backoff: Duration::from_millis(500),
    };
    assert_eq!(p.backoff_for(0), Duration::from_millis(100));
    assert_eq!(p.backoff_for(1), Duration::from_millis(200));
    assert_eq!(p.backoff_for(2), Duration::from_millis(400));
    assert_eq!(p.backoff_for(3), Duration::from_millis(500));
    assert_eq!(p.backoff_for(30), Duration::from_millis(500));
}

#[test]
fn backoff_never_overflows() {
    let p = RetryPolicy {
        max_retries: u32::MAX,
        initial_backoff: Duration::MAX,
        max_backoff: Duration::MAX,
    };
    assert_eq!(p.backoff_for(0), Duration::MAX);
    assert_eq!(p.backoff_for(u32::MAX), Duration::MAX);
    let small = RetryPolicy {
        initial_backoff: Duration::from_nanos(1),
        ..p.clone()
    };
    assert_eq!(small.backoff_for(40), Duration::from_nanos(1 << 40));
    assert_eq!(small.backoff_for(u32::MAX), Duration::MAX);
    let zero = RetryPolicy {
        initial_backoff: Duration::ZERO,
        ..p.clone()
    };
    assert_eq!(zero.backoff_for(u32::MAX), Duration::ZERO);
}

#[test]
fn backoff_doubles_until_the_ceiling_however_small_it_starts() {
    let p = RetryPolicy {
        max_retries: 50,
        initial_backoff: Duration::from_nanos(1),
        max_backoff: Duration::from_secs(8),
    };
    assert_eq!(p.backoff_for(32), Duration::from_nanos(1 << 32));
    assert_eq!(p.backoff_for(33), Duration::from_secs(8));
    assert_eq!(p.backoff_for(40), Duration::from_secs(8));
    let long = RetryPolicy {
        max_retries: 50,
        initial_backoff: Duration::from_millis(1),
        max_backoff: Duration::from_secs(5_000_000),
    };
    assert_eq!(long.backoff_for(32), Duration::from_millis(1 << 32));
    assert_eq!(long.backoff_for(40), Duration::from_secs(5_000_000));
}

#[test]
fn the_wait_is_the_one_asked_for_or_the_backoff() {
    let c = ChatClient::new(ProviderConfig {
        retry: RetryPolicy::default(),
        ..config("http://localhost:1", 0)
    })
    .unwrap();
    let script = [(429, Some(" 7 "), ""), (429, Some("soon"), ""), (503, Some("9"), ""), OK];
    let (out, calls, waits) = served(c.post_chat(&json("{}")), &script);
    assert!(out.is_ok());
    assert_eq!(calls, 4);
    assert_eq!(
        waits,
        vec![Duration::from_secs(7), Duration::from_secs(1), Duration::from_secs(2)]
    );
}

#[test]
fn the_last_rate_limit_tells_the_delay_that_was_asked_for() {
    let (out, _, _) = served(client(0).post_chat(&json("{}")), &[(429, Some("30"), "")]);
    let err = out.unwrap_err();
    assert_eq!(err.retry_after(), Some(Duration::from_secs(30)));
    assert_eq!(err.to_string(), "rate limited after 1 attempt(s)");
}

#[test]
fn a_retry_after_header_is_whole_seconds() {
    assert_eq!(parse_retry_after(Some("120")), Some(Duration::from_secs(120)));
    assert_eq!(parse_retry_after(Some("+5")), Some(Duration::from_secs(5)));
    assert_eq!(parse_retry_after(Some("-5")), None);
    assert_eq!(parse_retry_after(Some("1.5")), None);
    assert_eq!(parse_retry_after(Some("")), None);
    assert_eq!(parse_retry_after(Some("18446744073709551615")), Some(Duration::from_secs(u64::MAX)));
    assert_eq!(parse_retry_after(Some("18446744073709551616")), None);
    assert_eq!(parse_retry_after(Some("Wed, 21 Oct 2015 07:28:00 GMT")), None);
    assert_eq!(parse_retry_after(None), None);
}

#[test]
fn a_body_that_was_read_tells_what_went_wrong() {
    let body = json(r#"{"error": {"message": "no such model"}}"#);
    assert_eq!(error_message_of("raw", &Ok(body)), "no such model");
    assert_eq!(error_message_of("raw", &Err("bad".into())), "raw");
    let data = read_reply_of(200, None, "{}", Ok(json("{}"))).unwrap();
    assert_eq!(data, json("{}"));
    let err = read_reply_of(200, None, "<x>", Err("expected value".into())).unwrap_err();
    assert!(matches!(err, AgentError::Decode(m) if m.contains("expected value") && m.contains("<x>")));
    let err = read_reply_of(503, None, "", Err("EOF".into())).unwrap_err();
    assert!(matches!(err, AgentError::Api { status: 503, .. }));
}

#[test]
fn a_configuration_has_time_limits_and_retries_by_default() {
    let cfg = ProviderConfig::default();
    assert_eq!(cfg.timeout, Duration::from_secs(120));
    assert_eq!(cfg.connect_timeout, Duration::from_secs(10));
    assert_eq!(cfg.retry.max_retries, 3);
    assert_eq!(cfg.retry.initial_backoff, Duration::from_millis(500));
    assert_eq!(cfg.retry.max_backoff, Duration::from_secs(8));
    assert_eq!(RetryPolicy::none().max_retries, 0);

    let c = ChatClient::new(config("http://localhost:1", 2)).unwrap();
    let d = c.clone();
    assert_eq!(d.config().base_url, "http://localhost:1");
    assert_eq!(d.config().retry.max_retries, 2);
}

#[test]
fn an_error_body_is_told_in_the_providers_words_or_quoted() {
    assert_eq!(error_message(r#"{"error": {"message": "no such model"}}"#), "no such model");
    assert_eq!(error_message(r#"{"error": "plain"}"#), r#"{"error": "plain"}"#);
    assert_eq!(error_message("<html>"), "<html>");
    assert_eq!(error_message(&"x".repeat(401)), format!("{}…", "x".repeat(400)));
    let err = read_reply(502, None, "<html>Bad Gateway</html>").unwrap_err();
    assert_eq!(err.to_string(), "provider returned 502: <html>Bad Gateway</html>");
    assert!(read_reply(299, None, "[]").is_ok());
    assert!(matches!(read_reply(300, None, "[]"), Err(AgentError::Api { status: 300, .. })));
    assert!(matches!(read_reply(199, None, "[]"), Err(AgentError::Api { status: 199, .. })));
}
