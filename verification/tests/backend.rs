use agent_loop_core::backend::not_decoded;
use agent_loop_core::{
    extract_json, AgentError, AgentEvent, EventSink, Json, ModelPolicy, Number, RunOutcome,
    RunRequest, StopReason,
};

#[test]
fn tiering_is_reported_honestly() {
    let single = ModelPolicy::single("main/model");
    assert!(!single.is_tiered());
    assert_eq!(single.display_model(), "main/model");

    let tiered = ModelPolicy::tiered("cheap/model", "main/model");
    assert!(tiered.is_tiered());
    assert_eq!(tiered.display_model(), "main/model (explore: cheap/model)");
}

#[test]
fn the_token_budget_is_named_as_a_threshold_not_a_ceiling() {
    let p = ModelPolicy::default();
    assert_eq!(p.stop_after_tokens, Some(100_000));
    assert_eq!(p.max_tokens, 4_000, "the overshoot bound");
}

#[test]
fn extract_json_handles_bare_objects() {
    assert_eq!(extract_json(r#"{"a":1}"#), Some(r#"{"a":1}"#));
}

#[test]
fn extract_json_ignores_surrounding_prose_and_fences() {
    assert_eq!(
        extract_json("Sure! ```json\n{\"a\":1}\n``` hope that helps"),
        Some(r#"{"a":1}"#)
    );
}

#[test]
fn extract_json_respects_nesting() {
    let s = r#"prefix {"a":{"b":[1,2]},"c":3} suffix"#;
    assert_eq!(extract_json(s), Some(r#"{"a":{"b":[1,2]},"c":3}"#));
}

#[test]
fn extract_json_is_not_fooled_by_braces_inside_strings() {
    let s = r#"{"a":"}{ not a brace","b":1}"#;
    assert_eq!(extract_json(s), Some(s));
}

#[test]
fn extract_json_handles_escaped_quotes() {
    let s = r#"{"a":"say \"hi\" }","b":2}"#;
    assert_eq!(extract_json(s), Some(s));
}

#[test]
fn extract_json_finds_arrays() {
    assert_eq!(extract_json("here: [1,2,3] done"), Some("[1,2,3]"));
}

#[test]
fn extract_json_returns_none_when_unbalanced_or_absent() {
    assert_eq!(extract_json("no json here"), None);
    assert_eq!(extract_json(r#"{"a": 1"#), None);
}

fn canned(content: Option<&str>) -> RunOutcome {
    RunOutcome {
        content: content.map(str::to_string),
        turns: 1,
        total_tokens: 10,
        duration_ms: 0,
        stop_reason: StopReason::Complete,
        messages: vec![],
        model: "canned".into(),
    }
}

#[test]
fn run_structured_parses_json_out_of_prose() {
    let outcome = canned(Some("Here you go:\n```json\n{\"summary\":\"ok\"}\n```"));
    let review = Json::parse(outcome.structured().unwrap()).unwrap();
    assert_eq!(review.at("summary").as_str(), Some("ok"));
    assert_eq!(outcome.total_tokens, 10);
}

#[test]
fn run_structured_reports_a_decode_error_with_context() {
    let err = canned(Some("I could not do that.")).structured().unwrap_err();
    assert!(matches!(err, AgentError::Decode(_)), "got {err:?}");
    let text = err.to_string();
    assert!(text.contains("could not do that"), "{text}");
    assert_eq!(
        text,
        "could not decode provider response: no JSON object in response: I could not do that."
    );
}

#[test]
fn run_structured_works_with_a_live_sink_too() {
    let (sink, mut rx) = EventSink::channel();
    sink.emit(AgentEvent::TurnStart { turn: 1 });
    assert!(canned(Some(r#"{"summary":"ok"}"#)).structured().is_ok());
    assert!(rx.blocking_recv().is_some(), "events reached the sink");
}

#[test]
fn an_outcome_without_content_has_no_structured_ending() {
    let err = canned(None).structured().unwrap_err();
    assert!(matches!(err, AgentError::Decode(m) if m == "no JSON object in response: "));
}

#[test]
fn a_long_message_is_quoted_up_to_a_limit() {
    let err = canned(Some(&"é".repeat(400))).structured().unwrap_err();
    let expected = format!("no JSON object in response: {}…", "é".repeat(300));
    assert!(matches!(err, AgentError::Decode(m) if m == expected));
}

#[test]
fn json_that_is_not_what_was_asked_for_is_quoted_with_the_reason() {
    let err = not_decoded("missing field `summary`", r#"{"a":1}"#);
    assert_eq!(
        err.to_string(),
        r#"could not decode provider response: missing field `summary`: {"a":1}"#
    );
}

#[test]
fn a_default_policy_has_every_limit_at_its_default() {
    let p = ModelPolicy::default();
    assert_eq!(p.explore, "");
    assert_eq!(p.synthesize, "");
    assert_eq!(p.max_turns, 6);
    assert_eq!(p.timeout_secs, Some(300));
    assert_eq!(p.initial_tool_choice, "auto");
    assert_eq!(p.max_history_chars, 45_000);
    assert!(p.continue_on_tool_error);
    assert!(!p.final_synthesis);
    assert!(ModelPolicy::tiered("a", "b").final_synthesis);
    assert!(!ModelPolicy::single("a").final_synthesis);
}

#[test]
fn the_default_temperature_is_sent_as_the_single_precision_number_it_is() {
    let sent = serde_json::to_value(0.2f32).unwrap().to_string();
    match ModelPolicy::default().temperature {
        Number::Float(text) => assert_eq!(text, sent),
        other => panic!("got {other:?}"),
    }
}

#[test]
fn a_copy_of_a_policy_or_a_request_is_the_same() {
    let mut p = ModelPolicy::tiered("a", "b");
    p.extra_body.insert("k".into(), Json::Bool(true));
    let q = p.clone();
    assert_eq!(q.display_model(), "b (explore: a)");
    assert_eq!(q.extra_body.get("k"), Some(&Json::Bool(true)));

    let r = RunRequest {
        system_prompt: "s".into(),
        messages: vec![Json::Null],
        tool_scope: vec!["t".into()],
        ..RunRequest::default()
    };
    let s = r.clone();
    assert_eq!(s.system_prompt, "s");
    assert_eq!(s.user_prompt, "");
    assert_eq!(s.messages, vec![Json::Null]);
    assert_eq!(s.tool_scope, vec!["t".to_string()]);

    let o = canned(Some("x")).clone();
    assert_eq!((o.content.as_deref(), o.model.as_str()), (Some("x"), "canned"));
}

#[test]
fn extracting_again_gives_the_same() {
    let once = extract_json(r#"see [{"a": "]"}, 2] and {"b": 1}"#).unwrap();
    assert_eq!(once, r#"[{"a": "]"}, 2]"#);
    assert_eq!(extract_json(once), Some(once));
}

#[test]
fn text_around_the_json_does_not_matter() {
    let json = r#"{"a": ["}", 1]}"#;
    for before in ["", "so: ", "\"quoted\" \\ ]} \""] {
        for after in ["", " done", "} ] \" {[", json] {
            let text = format!("{before}{json}{after}");
            assert_eq!(extract_json(&text), Some(json), "{text}");
        }
        assert_eq!(extract_json(&format!("{before}[1")), None);
    }
    assert_eq!(extract_json("[1"), None);
    assert_eq!(extract_json("[1]"), Some("[1]"), "what is left open, text after it may close");
}

#[test]
fn an_opener_that_never_closes_hides_what_follows() {
    assert_eq!(extract_json("a { b [1, 2]"), None);
    assert_eq!(extract_json(""), None);
    assert_eq!(extract_json("]}[]"), Some("[]"));
    assert_eq!(extract_json("{ü}"), Some("{ü}"));
}
