use std::cell::RefCell;
use std::collections::{HashSet, VecDeque};
use std::rc::Rc;
use std::sync::atomic::{AtomicBool, Ordering};
use std::sync::Arc;
use std::time::{Duration, Instant};

use agent_loop_core::loop_runner::{ChatBackend, Step};
use agent_loop_core::provider::{Exchange, Next};
use agent_loop_core::{
    trim_history, AgentError, AgentEvent, ChatClient, ChatCompletions, ErasedTool, EventSink, Json,
    JsonMap, ModelPolicy, ProviderConfig, Responses, RetryPolicy, RunOutcome, RunRequest,
    StopReason, ToolError, ToolOutput, ToolRegistry, WireFormat,
};
use tokio::sync::mpsc::UnboundedReceiver;

type Handle = Box<dyn Fn(&Json) -> Result<ToolOutput, ToolError>>;

struct Approver {
    needs: Box<dyn Fn(&str) -> bool>,
    approve: Box<dyn Fn(&str, &str, &Json) -> bool>,
}

type Backend = ChatBackend<Handle, Approver, ChatCompletions>;

/// An endpoint that replays replies and keeps what it was sent.
struct Endpoint {
    queued: VecDeque<Json>,
    seen: Vec<Json>,
    urls: Vec<String>,
    trip_on_serve: Option<Arc<AtomicBool>>,
}

impl Endpoint {
    fn new(replies: Vec<Json>) -> Self {
        Endpoint {
            queued: replies.into(),
            seen: Vec::new(),
            urls: Vec::new(),
            trip_on_serve: None,
        }
    }

    fn serve(&mut self, mut exchange: Exchange) -> Result<Json, AgentError> {
        loop {
            self.seen.push(exchange.request().body.clone());
            self.urls.push(exchange.request().url.clone());
            if let Some(flag) = &self.trip_on_serve {
                flag.store(true, Ordering::Relaxed);
            }
            let next = match self.queued.pop_front() {
                Some(body) => exchange.replied(200, None, &body.to_string()),
                None => exchange.replied(500, None, "no queued response"),
            };
            match next {
                Next::Done(result) => return result,
                Next::RetryAfter(..) => {}
            }
        }
    }
}

/// Do what the steps of a run ask for.
fn drive<W: WireFormat>(
    backend: &ChatBackend<Handle, Approver, W>,
    request: RunRequest,
    endpoint: &mut Endpoint,
    sink: EventSink,
) -> Result<RunOutcome, AgentError> {
    let started = Instant::now();
    let flag = backend.interrupt_flag();
    let (mut events, mut step) = backend.begin(request);
    loop {
        for event in events {
            sink.emit(event);
        }
        let interrupted = flag.load(Ordering::Relaxed);
        (events, step) = match step {
            Step::Check(run) => backend.check(run, interrupted, started.elapsed()),
            Step::Explore(run, exchange) => backend.explored(run, endpoint.serve(exchange))?,
            Step::TakeCall(calls) => backend.take_call(calls, interrupted),
            Step::Gate(call, args) => {
                let needed = (backend.approver().unwrap().needs)(call.tool());
                backend.gate(call, args, needed)
            }
            Step::Approve(call, args) => {
                let approver = backend.approver().unwrap();
                let approved = (approver.approve)(call.tool(), call.call_id(), &args);
                backend.decided(call, args, approved)
            }
            Step::RunTool(call, handle, args) => {
                let t0 = Instant::now();
                let result = handle(&args);
                backend.completed(call, result, t0.elapsed())
            }
            Step::Settled(call, result) => backend.completed(call, result, Duration::ZERO),
            Step::Conclude(run, stop) => backend.conclude(run, stop, interrupted),
            Step::Synthesize(run, stop, exchange) => {
                backend.synthesized(run, stop, endpoint.serve(exchange))?
            }
            Step::Done(ending) => return Ok(ending.outcome(started.elapsed())),
        };
    }
}

fn json(text: &str) -> Json {
    Json::parse(text).unwrap()
}

fn string(text: &str) -> String {
    Json::text(text).to_string()
}

fn tool_turn(calls: &[(&str, &str, &str)], tokens: u32) -> Json {
    let list: Vec<String> = calls
        .iter()
        .map(|(id, name, args)| {
            format!(
                r#"{{"id": {}, "type": "function", "function": {{"name": {}, "arguments": {}}}}}"#,
                string(id),
                string(name),
                string(args)
            )
        })
        .collect();
    json(&format!(
        r#"{{"choices": [{{"message": {{"role": "assistant", "content": null, "tool_calls": [{}]}}}}],
            "usage": {{"total_tokens": {tokens}}}}}"#,
        list.join(", ")
    ))
}

fn text_turn(content: &str, tokens: u32) -> Json {
    json(&format!(
        r#"{{"choices": [{{"message": {{"role": "assistant", "content": {}}}}}],
            "usage": {{"total_tokens": {tokens}}}}}"#,
        string(content)
    ))
}

fn no_args() -> Option<Json> {
    Some(json(r#"{"title": "NoArgs", "type": "object", "properties": {}}"#))
}

fn echo() -> ErasedTool<Handle> {
    let schema = json(
        r#"{"title": "EchoArgs", "type": "object",
            "properties": {"text": {"type": "string"}}, "required": ["text"]}"#,
    );
    ErasedTool::derived(
        "echo",
        "Echo.",
        Some(schema),
        Box::new(|args| match args.at("text").as_str() {
            Some(text) => Ok(ToolOutput::ok(format!("echo: {text}"))),
            None => Err(ToolError::InvalidArguments {
                tool: "echo".into(),
                reason: "missing field `text`".into(),
            }),
        }),
    )
}

fn boom() -> ErasedTool<Handle> {
    ErasedTool::derived(
        "boom",
        "Fails.",
        no_args(),
        Box::new(|_| {
            Err(ToolError::Execution {
                tool: "boom".into(),
                reason: "exploded".into(),
            })
        }),
    )
}

/// A tool that trips the shared interrupt flag when it runs.
fn trip(flag: Arc<AtomicBool>) -> ErasedTool<Handle> {
    ErasedTool::derived(
        "trip",
        "Trips the interrupt.",
        no_args(),
        Box::new(move |_| {
            flag.store(true, Ordering::Relaxed);
            Ok(ToolOutput::ok("tripped"))
        }),
    )
}

fn client() -> ChatClient {
    ChatClient::new(ProviderConfig {
        base_url: "http://localhost:1".to_string(),
        api_key: "k".into(),
        retry: RetryPolicy::none(),
        ..Default::default()
    })
    .unwrap()
}

fn backend(policy: ModelPolicy) -> Backend {
    let tools = ToolRegistry::new().with(echo()).with(boom());
    ChatBackend::new(client(), Arc::new(tools), policy)
}

fn tripping(flag: &Arc<AtomicBool>, policy: ModelPolicy) -> Backend {
    let tools = ToolRegistry::new().with(trip(Arc::clone(flag)));
    let backend: Backend = ChatBackend::new(client(), Arc::new(tools), policy);
    backend.with_interrupt(Arc::clone(flag))
}

fn req() -> RunRequest {
    RunRequest {
        system_prompt: "SYS".into(),
        user_prompt: "USER".into(),
        ..Default::default()
    }
}

fn tiered() -> ModelPolicy {
    ModelPolicy::tiered("cheap/m", "main/m")
}

fn received(rx: &mut UnboundedReceiver<AgentEvent>) -> Vec<AgentEvent> {
    std::iter::from_fn(|| rx.try_recv().ok()).collect()
}

fn tool_message(request: &Json) -> &Json {
    request
        .at("messages")
        .as_array()
        .unwrap()
        .iter()
        .find(|m| m.at("role").as_str() == Some("tool"))
        .expect("tool result fed back")
}

#[test]
fn explore_runs_cheap_with_tools_then_synthesis_runs_strong_without() {
    let mut end = Endpoint::new(vec![
        tool_turn(&[("c1", "echo", r#"{"text":"hi"}"#)], 10),
        text_turn("gathered enough", 10),
        text_turn(r#"{"summary":"done"}"#, 30),
    ]);
    let out = drive(&backend(tiered()), req(), &mut end, EventSink::none()).unwrap();

    assert_eq!(end.seen.len(), 3);
    let r = &end.seen;
    assert_eq!(r[0].at("model").as_str(), Some("cheap/m"));
    assert_eq!(r[0].at("tool_choice").as_str(), Some("auto"));
    assert_eq!(r[2].at("model").as_str(), Some("main/m"));
    assert_eq!(r[2].at("tool_choice").as_str(), Some("none"));
    assert_eq!(out.total_tokens, 50);
    assert_eq!(out.model, "main/m (explore: cheap/m)");
    assert_eq!(out.stop_reason, StopReason::Complete);
    assert_eq!(end.urls[0], "http://localhost:1/chat/completions");
}

#[test]
fn a_single_model_policy_skips_the_synthesis_call_entirely() {
    let mut end = Endpoint::new(vec![text_turn("done", 5)]);
    let policy = ModelPolicy::single("solo/m");
    let out = drive(&backend(policy), req(), &mut end, EventSink::none()).unwrap();
    assert_eq!(end.seen.len(), 1);
    assert_eq!(out.content.as_deref(), Some("done"));
    assert_eq!(out.model, "solo/m");
}

#[test]
fn hitting_the_turn_cap_still_synthesises() {
    let replies = (0..6)
        .map(|i| tool_turn(&[(&format!("c{i}"), "echo", r#"{"text":"x"}"#)], 1))
        .chain(std::iter::once(text_turn(r#"{"ok":true}"#, 1)))
        .collect();
    let mut end = Endpoint::new(replies);
    let mut p = tiered();
    p.max_turns = 2;
    let out = drive(&backend(p), req(), &mut end, EventSink::none()).unwrap();

    assert_eq!(end.seen.len(), 3, "2 explore turns capped, then 1 synthesis");
    assert_eq!(
        out.stop_reason,
        StopReason::MaxTurns(2),
        "the cap is preserved even though we synthesized"
    );
}

#[test]
fn a_hard_stop_still_skips_synthesis() {
    let mut end = Endpoint::new(vec![
        tool_turn(&[("c1", "echo", r#"{"text":"x"}"#)], 100),
        tool_turn(&[("c2", "echo", r#"{"text":"y"}"#)], 100),
    ]);
    let mut p = tiered();
    p.stop_after_tokens = Some(50);
    let out = drive(&backend(p), req(), &mut end, EventSink::none()).unwrap();

    assert_eq!(end.seen.len(), 1, "no synthesis after a token-budget stop");
    assert_eq!(out.stop_reason, StopReason::MaxTokens(50));
}

#[test]
fn reaching_the_threshold_with_the_last_exploration_skips_synthesis() {
    // The reply that ends exploration reaches the threshold: asking the strong
    // model as well would overshoot by two calls.
    let mut end = Endpoint::new(vec![text_turn("done exploring", 100), text_turn("{}", 100)]);
    let mut p = tiered();
    p.stop_after_tokens = Some(50);
    p.max_tokens = 100;
    let (sink, mut rx) = EventSink::channel();
    let out = drive(&backend(p), req(), &mut end, sink).unwrap();
    assert_eq!(end.seen.len(), 1);
    assert_eq!(out.stop_reason, StopReason::MaxTokens(50));
    assert_eq!(out.total_tokens, 100);
    assert_eq!(out.content.as_deref(), Some("done exploring"));
    assert_eq!(last_finished(&mut rx), Some(StopReason::MaxTokens(50)));

    // So does the turn cap.
    let mut end = Endpoint::new(vec![
        tool_turn(&[("c1", "echo", r#"{"text":"x"}"#)], 100),
        text_turn("{}", 100),
    ]);
    let mut p = tiered();
    p.stop_after_tokens = Some(100);
    p.max_turns = 1;
    let out = drive(&backend(p), req(), &mut end, EventSink::none()).unwrap();
    assert_eq!(end.seen.len(), 1);
    assert_eq!(out.stop_reason, StopReason::MaxTokens(100));
    assert_no_dangling_tool_calls(&out.messages);

    // One token below the threshold, the synthesis runs.
    let mut end = Endpoint::new(vec![text_turn("done exploring", 99), text_turn("{}", 100)]);
    let mut p = tiered();
    p.stop_after_tokens = Some(100);
    let out = drive(&backend(p), req(), &mut end, EventSink::none()).unwrap();
    assert_eq!(end.seen.len(), 2);
    assert_eq!(out.stop_reason, StopReason::Complete);
    assert_eq!(out.total_tokens, 199);
}

#[test]
fn a_resumed_transcript_may_answer_its_calls_in_any_order() {
    let mut end = Endpoint::new(vec![
        tool_turn(&[("c3", "echo", r#"{"text":"x"}"#)], 1),
        text_turn("ok", 1),
    ]);
    let mut r = req();
    r.messages = vec![
        json(
            r#"{"role": "assistant", "content": null, "tool_calls": [
                {"id": "c1", "type": "function", "function": {"name": "echo", "arguments": "{}"}},
                {"id": "c2", "type": "function", "function": {"name": "echo", "arguments": "{}"}}]}"#,
        ),
        json(r#"{"role": "tool", "tool_call_id": "c2", "content": "two"}"#),
        json(r#"{"role": "user", "content": "and?"}"#),
        json(r#"{"role": "tool", "tool_call_id": "c1", "content": "one"}"#),
    ];
    let mut p = ModelPolicy::single("m");
    p.max_history_chars = 3;
    let out = drive(&backend(p), r, &mut end, EventSink::none()).unwrap();
    assert_no_dangling_tool_calls(&out.messages);
    assert_eq!(out.messages.len(), 9);
    assert_eq!(
        out.messages[2],
        json(
            r#"{"role": "tool", "tool_call_id": "c2",
                "content": "[earlier tool result elided to save context]"}"#
        )
    );
    assert_eq!(out.messages[4].at("content").as_str(), Some("one"));
}

#[test]
fn the_token_threshold_stops_between_turns_and_may_overshoot() {
    let mut end = Endpoint::new(vec![
        tool_turn(&[("c1", "echo", r#"{"text":"x"}"#)], 100),
        tool_turn(&[("c2", "echo", r#"{"text":"y"}"#)], 100),
    ]);
    let mut p = tiered();
    p.stop_after_tokens = Some(50);
    let out = drive(&backend(p), req(), &mut end, EventSink::none()).unwrap();

    assert_eq!(end.seen.len(), 1);
    assert_eq!(out.stop_reason, StopReason::MaxTokens(50));
    assert_eq!(out.total_tokens, 100, "overshoot is expected, not a bug");
}

#[test]
fn a_preset_interrupt_stops_before_any_call() {
    let mut end = Endpoint::new(vec![text_turn("never", 1)]);
    let b = backend(tiered());
    assert!(!b.interrupt_flag().load(Ordering::Relaxed));
    b.interrupt_flag().store(true, Ordering::Relaxed);
    let out = drive(&b, req(), &mut end, EventSink::none()).unwrap();
    assert_eq!(end.seen.len(), 0);
    assert_eq!(out.stop_reason, StopReason::Interrupted);
}

#[test]
fn the_first_turn_can_force_a_tool_call() {
    let mut end = Endpoint::new(vec![
        tool_turn(&[("c1", "echo", r#"{"text":"x"}"#)], 1),
        text_turn("done", 1),
    ]);
    let mut p = ModelPolicy::single("m");
    p.initial_tool_choice = "required".into();
    drive(&backend(p), req(), &mut end, EventSink::none()).unwrap();

    let r = &end.seen;
    assert_eq!(r[0].at("tool_choice").as_str(), Some("required"), "first turn is forced");
    assert_eq!(r[1].at("tool_choice").as_str(), Some("auto"), "later turns are not");
}

#[test]
fn tool_results_are_threaded_back_into_the_next_turn() {
    let mut end = Endpoint::new(vec![
        tool_turn(&[("c1", "echo", r#"{"text":"hello"}"#)], 1),
        text_turn("ok", 1),
        text_turn("{}", 1),
    ]);
    drive(&backend(tiered()), req(), &mut end, EventSink::none()).unwrap();

    let tool_msg = tool_message(&end.seen[1]);
    assert_eq!(tool_msg.at("tool_call_id").as_str(), Some("c1"));
    assert_eq!(tool_msg.at("content").as_str(), Some("echo: hello"));
}

#[test]
fn malformed_tool_arguments_are_reported_to_the_model_not_silently_defaulted() {
    let mut end = Endpoint::new(vec![
        tool_turn(&[("c1", "echo", "{not json")], 1),
        text_turn("ok", 1),
        text_turn("{}", 1),
    ]);
    drive(&backend(tiered()), req(), &mut end, EventSink::none()).unwrap();

    let content = tool_message(&end.seen[1]).at("content").as_str().unwrap();
    assert!(content.contains("invalid arguments"), "got: {content}");
    assert!(content.contains("echo"), "names the tool: {content}");
}

#[test]
fn a_failing_tool_aborts_when_continue_on_error_is_false() {
    let mut end = Endpoint::new(vec![tool_turn(&[("c1", "boom", "{}")], 1)]);
    let mut p = tiered();
    p.continue_on_tool_error = false;
    let out = drive(&backend(p), req(), &mut end, EventSink::none()).unwrap();
    assert!(matches!(out.stop_reason, StopReason::Error(m) if m.contains("exploded")));
}

#[test]
fn a_failing_tool_is_fed_back_when_continue_on_error_is_true() {
    let mut end = Endpoint::new(vec![
        tool_turn(&[("c1", "boom", "{}"), ("c2", "nope", "{}")], 1),
        text_turn("done", 1),
    ]);
    let out = drive(&backend(ModelPolicy::single("m")), req(), &mut end, EventSink::none()).unwrap();
    assert_eq!(out.stop_reason, StopReason::Complete);
    let contents: Vec<&str> = out
        .messages
        .iter()
        .filter(|m| m.at("role").as_str() == Some("tool"))
        .map(|m| m.at("content").as_str().unwrap())
        .collect();
    assert_eq!(contents, vec!["`boom` failed: exploded", "unknown tool `nope`"]);
}

#[test]
fn an_unregistered_tool_in_scope_warns_rather_than_shrinking_silently() {
    let mut end = Endpoint::new(vec![text_turn("ok", 1)]);
    let (sink, mut rx) = EventSink::channel();
    let mut r = req();
    r.tool_scope = vec!["echo".into(), "ecoh".into()];
    drive(&backend(ModelPolicy::single("m")), r, &mut end, sink).unwrap();

    let warned = received(&mut rx)
        .into_iter()
        .any(|e| matches!(e, AgentEvent::Warning { turn: 0, message } if message == "tool `ecoh` in scope is not registered"));
    assert!(warned, "a typo in the scope list must be visible");
    assert_eq!(end.seen[0].at("tools").as_array().unwrap().len(), 1);
}

fn approver<N, D>(needs: N, approve: D) -> Approver
where
    N: Fn(&str) -> bool + 'static,
    D: Fn(&str, &str, &Json) -> bool + 'static,
{
    Approver {
        needs: Box::new(needs),
        approve: Box::new(approve),
    }
}

fn recording() -> (Approver, Rc<RefCell<Vec<String>>>) {
    let seen = Rc::new(RefCell::new(Vec::new()));
    let kept = Rc::clone(&seen);
    let a = approver(
        |_| true,
        move |tool, _, args| {
            let text = args.at("text").as_str().unwrap_or("");
            kept.borrow_mut().push(format!("{tool}:{text}"));
            true
        },
    );
    (a, seen)
}

#[test]
fn a_rejected_tool_is_reported_to_the_model_and_the_loop_continues() {
    let mut end = Endpoint::new(vec![
        tool_turn(&[("c1", "echo", r#"{"text":"danger"}"#)], 1),
        text_turn("understood", 1),
    ]);
    let b = backend(ModelPolicy::single("m")).with_approver(approver(|_| true, |_, _, _| false));
    let (sink, mut rx) = EventSink::channel();
    let out = drive(&b, req(), &mut end, sink).unwrap();

    assert_eq!(out.stop_reason, StopReason::Complete);
    let content = tool_message(&end.seen[1]).at("content").as_str().unwrap();
    assert!(content.contains("rejected"), "got {content}");
    assert!(received(&mut rx)
        .iter()
        .any(|e| matches!(e, AgentEvent::ToolComplete { ok: false, .. })));
}

#[test]
fn the_approver_receives_the_real_call_id() {
    let ids = Rc::new(RefCell::new(Vec::new()));
    let kept = Rc::clone(&ids);
    let mut end = Endpoint::new(vec![
        tool_turn(&[("call_abc", "echo", r#"{"text":"x"}"#)], 1),
        text_turn("done", 1),
    ]);
    let a = approver(
        |_| true,
        move |_, call_id, _| {
            kept.borrow_mut().push(call_id.to_string());
            true
        },
    );
    let b = backend(ModelPolicy::single("m")).with_approver(a);
    drive(&b, req(), &mut end, EventSink::none()).unwrap();
    assert_eq!(*ids.borrow(), vec!["call_abc"]);
}

#[test]
fn approval_required_is_emitted_only_for_gated_tools() {
    let mut end = Endpoint::new(vec![
        tool_turn(&[("c1", "echo", r#"{"text":"x"}"#)], 1),
        text_turn("done", 1),
    ]);
    let (sink, mut rx) = EventSink::channel();
    let a = approver(|tool| tool == "echo", |_, _, _| true);
    let b = backend(ModelPolicy::single("m")).with_approver(a);
    drive(&b, req(), &mut end, sink).unwrap();

    let approvals: Vec<_> = received(&mut rx)
        .into_iter()
        .filter_map(|e| match e {
            AgentEvent::ToolApprovalRequired { tool, call_id, arguments, .. } => {
                Some((tool, call_id, arguments))
            }
            _ => None,
        })
        .collect();
    assert_eq!(
        approvals,
        vec![("echo".to_string(), "c1".to_string(), r#"{"text":"x"}"#.to_string())]
    );
}

#[test]
fn a_tool_not_needing_approval_emits_no_approval_event() {
    let mut end = Endpoint::new(vec![
        tool_turn(&[("c1", "echo", r#"{"text":"x"}"#)], 1),
        text_turn("done", 1),
    ]);
    let (sink, mut rx) = EventSink::channel();
    // Would reject if consulted.
    let a = approver(|_| false, |_, _, _| false);
    let b = backend(ModelPolicy::single("m")).with_approver(a);
    drive(&b, req(), &mut end, sink).unwrap();

    assert_eq!(tool_message(&end.seen[1]).at("content").as_str(), Some("echo: x"));
    assert!(!received(&mut rx)
        .iter()
        .any(|e| matches!(e, AgentEvent::ToolApprovalRequired { .. })));
}

#[test]
fn the_approver_sees_the_tool_name_and_parsed_arguments() {
    let (a, seen) = recording();
    let mut end = Endpoint::new(vec![
        tool_turn(&[("c1", "echo", r#"{"text":"hi"}"#)], 1),
        text_turn("done", 1),
    ]);
    let b = backend(ModelPolicy::single("m")).with_approver(a);
    drive(&b, req(), &mut end, EventSink::none()).unwrap();
    assert_eq!(*seen.borrow(), vec!["echo:hi"]);
}

#[test]
fn without_an_approver_every_tool_runs() {
    let mut end = Endpoint::new(vec![
        tool_turn(&[("c1", "echo", r#"{"text":"x"}"#)], 1),
        text_turn("done", 1),
    ]);
    let b = backend(ModelPolicy::single("m"));
    drive(&b, req(), &mut end, EventSink::none()).unwrap();
    assert_eq!(tool_message(&end.seen[1]).at("content").as_str(), Some("echo: x"));
}

#[test]
fn approval_wait_is_not_counted_as_tool_latency() {
    let mut end = Endpoint::new(vec![
        tool_turn(&[("c1", "echo", r#"{"text":"x"}"#)], 1),
        text_turn("done", 1),
    ]);
    let (sink, mut rx) = EventSink::channel();
    let a = approver(
        |_| true,
        |_, _, _| {
            let asked = Instant::now();
            while asked.elapsed() < Duration::from_millis(120) {}
            true
        },
    );
    let b = backend(ModelPolicy::single("m")).with_approver(a);
    drive(&b, req(), &mut end, sink).unwrap();

    let d = received(&mut rx)
        .into_iter()
        .find_map(|e| match e {
            AgentEvent::ToolComplete { duration_ms, .. } => Some(duration_ms),
            _ => None,
        })
        .expect("a ToolComplete was emitted");
    assert!(d < 100, "duration_ms {d} includes the 120ms approval wait");
}

#[test]
fn malformed_arguments_skip_approval_and_reach_the_model_as_an_error() {
    let (a, seen) = recording();
    let mut end = Endpoint::new(vec![
        tool_turn(&[("c1", "echo", "{not json")], 1),
        text_turn("understood", 1),
    ]);
    let b = backend(ModelPolicy::single("m")).with_approver(a);
    drive(&b, req(), &mut end, EventSink::none()).unwrap();

    assert!(seen.borrow().is_empty(), "nothing meaningful to approve; dispatch rejects it");
    let content = tool_message(&end.seen[1]).at("content").as_str().unwrap();
    assert!(content.contains("invalid arguments"), "got {content}");
}

fn kind(event: &AgentEvent) -> &'static str {
    match event {
        AgentEvent::TurnStart { .. } => "TurnStart",
        AgentEvent::TurnResponse { .. } => "TurnResponse",
        AgentEvent::ContentToken(_) => "ContentToken",
        AgentEvent::ToolApprovalRequired { .. } => "ToolApprovalRequired",
        AgentEvent::ToolStart { .. } => "ToolStart",
        AgentEvent::ToolComplete { .. } => "ToolComplete",
        AgentEvent::TurnComplete { .. } => "TurnComplete",
        AgentEvent::Usage { .. } => "Usage",
        AgentEvent::Finished { .. } => "Finished",
        AgentEvent::Warning { .. } => "Warning",
    }
}

#[test]
fn the_same_run_streams_events_or_stays_silent() {
    let mut end = Endpoint::new(vec![
        tool_turn(&[("c1", "echo", r#"{"text":"x"}"#)], 1),
        text_turn("done", 1),
    ]);
    let (sink, mut rx) = EventSink::channel();
    drive(&backend(ModelPolicy::single("m")), req(), &mut end, sink).unwrap();

    let kinds: Vec<_> = received(&mut rx).iter().map(kind).collect();
    assert_eq!(
        kinds,
        vec![
            "TurnStart",
            "Usage",
            "TurnResponse",
            "ToolStart",
            "ToolComplete",
            "TurnComplete",
            "TurnStart",
            "Usage",
            "TurnResponse",
            "ContentToken",
            "Finished",
        ]
    );
}

fn last_finished(rx: &mut UnboundedReceiver<AgentEvent>) -> Option<StopReason> {
    received(rx).into_iter().fold(None, |acc, e| match e {
        AgentEvent::Finished { reason, .. } => Some(reason),
        _ => acc,
    })
}

#[test]
fn an_interrupt_during_tool_execution_still_emits_finished() {
    let mut end = Endpoint::new(vec![tool_turn(&[("c1", "trip", "{}"), ("c2", "trip", "{}")], 1)]);
    let flag = Arc::new(AtomicBool::new(false));
    let b = tripping(&flag, ModelPolicy::single("m"));

    let (sink, mut rx) = EventSink::channel();
    let out = drive(&b, req(), &mut end, sink).unwrap();

    assert_eq!(out.stop_reason, StopReason::Interrupted);
    assert_eq!(
        last_finished(&mut rx),
        Some(StopReason::Interrupted),
        "the mid-tool early return must still signal the end"
    );
}

#[test]
fn a_tool_error_abort_still_emits_finished() {
    let mut end = Endpoint::new(vec![tool_turn(&[("c1", "boom", "{}")], 1)]);
    let (sink, mut rx) = EventSink::channel();
    let mut p = ModelPolicy::single("m");
    p.continue_on_tool_error = false;
    let out = drive(&backend(p), req(), &mut end, sink).unwrap();

    assert!(matches!(out.stop_reason, StopReason::Error(_)));
    assert_eq!(last_finished(&mut rx), Some(out.stop_reason.clone()));
}

#[test]
fn every_stop_reason_reaches_the_sink_exactly_once() {
    for (responses, policy) in [
        (vec![text_turn("done", 1)], ModelPolicy::single("m")),
        (
            vec![tool_turn(&[("c1", "boom", "{}")], 1)],
            ModelPolicy {
                continue_on_tool_error: false,
                ..ModelPolicy::single("m")
            },
        ),
    ] {
        let mut end = Endpoint::new(responses);
        let (sink, mut rx) = EventSink::channel();
        drive(&backend(policy), req(), &mut end, sink).unwrap();
        let n = received(&mut rx)
            .iter()
            .filter(|e| matches!(e, AgentEvent::Finished { .. }))
            .count();
        assert_eq!(n, 1, "exactly one Finished per run");
    }
}

#[test]
fn an_interrupt_arriving_before_synthesis_skips_the_strong_model_call() {
    let flag = Arc::new(AtomicBool::new(false));
    let mut end = Endpoint::new(vec![
        text_turn("done exploring", 1),
        text_turn("SYNTHESIS SHOULD NOT HAPPEN", 1),
    ]);
    end.trip_on_serve = Some(Arc::clone(&flag));
    let b: Backend = ChatBackend::new(client(), Arc::new(ToolRegistry::new()), tiered());
    let b = b.with_interrupt(Arc::clone(&flag));

    let out = drive(&b, req(), &mut end, EventSink::none()).unwrap();

    assert_eq!(out.stop_reason, StopReason::Interrupted);
    assert_eq!(end.seen.len(), 1, "the strong model must not be paid for");
    assert_ne!(out.content.as_deref(), Some("SYNTHESIS SHOULD NOT HAPPEN"));
}

#[test]
fn usage_events_account_for_every_call_including_synthesis() {
    let mut end = Endpoint::new(vec![
        text_turn("done exploring", 10),
        text_turn("{\"ok\":true}", 40),
    ]);
    let (sink, mut rx) = EventSink::channel();
    let out = drive(&backend(tiered()), req(), &mut end, sink).unwrap();

    let tallied: u32 = received(&mut rx)
        .into_iter()
        .filter_map(|e| match e {
            AgentEvent::Usage { total_tokens, .. } => Some(total_tokens),
            _ => None,
        })
        .sum();
    assert_eq!(out.total_tokens, 50);
    assert_eq!(
        tallied, out.total_tokens,
        "a consumer tallying Usage must match Finished.total_tokens"
    );
}

/// Every `tool_calls` id in the transcript has a matching `role: "tool"`.
fn assert_no_dangling_tool_calls(messages: &[Json]) {
    let answered: HashSet<&str> = messages
        .iter()
        .filter(|m| m.at("role").as_str() == Some("tool"))
        .filter_map(|m| m.at("tool_call_id").as_str())
        .collect();
    for m in messages.iter().filter(|m| m.at("role").as_str() == Some("assistant")) {
        for call in m.at("tool_calls").as_array().unwrap_or(&vec![]) {
            let id = call.at("id").as_str().unwrap_or_default();
            assert!(
                answered.contains(id),
                "tool_call `{id}` has no matching tool response; transcript is unresumable"
            );
        }
    }
}

#[test]
fn a_tool_error_abort_returns_a_resumable_transcript() {
    let mut end = Endpoint::new(vec![tool_turn(
        &[("c1", "boom", "{}"), ("c2", "echo", r#"{"text":"x"}"#)],
        1,
    )]);
    let mut p = ModelPolicy::single("m");
    p.continue_on_tool_error = false;
    let out = drive(&backend(p), req(), &mut end, EventSink::none()).unwrap();

    assert!(matches!(out.stop_reason, StopReason::Error(_)));
    assert_no_dangling_tool_calls(&out.messages);
}

#[test]
fn a_mid_tool_interrupt_returns_a_resumable_transcript() {
    let mut end = Endpoint::new(vec![tool_turn(
        &[
            ("c1", "trip", "{}"),
            ("c2", "trip", "{}"),
            ("c3", "trip", "{}"),
        ],
        1,
    )]);
    let flag = Arc::new(AtomicBool::new(false));
    let b = tripping(&flag, ModelPolicy::single("m"));
    let out = drive(&b, req(), &mut end, EventSink::none()).unwrap();

    assert_eq!(out.stop_reason, StopReason::Interrupted);
    assert_no_dangling_tool_calls(&out.messages);
    let contents: Vec<&str> = out
        .messages
        .iter()
        .filter(|m| m.at("role").as_str() == Some("tool"))
        .map(|m| m.at("content").as_str().unwrap())
        .collect();
    assert_eq!(
        contents,
        vec![
            "tripped",
            "[not executed: run interrupted]",
            "[not executed: run interrupted]"
        ]
    );
}

#[test]
fn a_normal_run_also_leaves_no_dangling_tool_calls() {
    let mut end = Endpoint::new(vec![
        tool_turn(&[("c1", "echo", r#"{"text":"x"}"#)], 1),
        text_turn("done", 1),
    ]);
    let out = drive(&backend(ModelPolicy::single("m")), req(), &mut end, EventSink::none()).unwrap();
    assert_no_dangling_tool_calls(&out.messages);
}

#[test]
fn a_failed_tool_records_its_real_error_not_a_placeholder() {
    let mut end = Endpoint::new(vec![tool_turn(
        &[("c1", "boom", "{}"), ("c2", "echo", r#"{"text":"x"}"#)],
        1,
    )]);
    let mut p = ModelPolicy::single("m");
    p.continue_on_tool_error = false;
    let out = drive(&backend(p), req(), &mut end, EventSink::none()).unwrap();

    let resp = |id: &str| -> String {
        out.messages
            .iter()
            .find(|m| m.at("role").as_str() == Some("tool") && m.at("tool_call_id").as_str() == Some(id))
            .unwrap()
            .at("content")
            .as_str()
            .unwrap()
            .to_string()
    };
    assert!(resp("c1").contains("exploded"), "real error lost: {}", resp("c1"));
    assert!(resp("c2").contains("not executed"), "c2 never ran");
    assert_no_dangling_tool_calls(&out.messages);
}

#[test]
fn the_synthesis_call_reports_turn_progress() {
    let mut end = Endpoint::new(vec![text_turn("explored", 1), text_turn("final", 1)]);
    let (sink, mut rx) = EventSink::channel();
    let out = drive(&backend(tiered()), req(), &mut end, sink).unwrap();

    let starts: Vec<u32> = received(&mut rx)
        .into_iter()
        .filter_map(|e| match e {
            AgentEvent::TurnStart { turn } => Some(turn),
            _ => None,
        })
        .collect();
    assert_eq!(starts, vec![1, 2], "exploration turn 1, synthesis turn 2");
    assert_eq!(out.turns, 2, "turns counts every model round-trip");
}

#[test]
fn a_resumed_run_can_update_its_system_prompt() {
    let mut end = Endpoint::new(vec![text_turn("ok", 1)]);
    let mut r = req();
    r.system_prompt = "NEW INSTRUCTIONS".into();
    r.messages = vec![
        json(r#"{"role": "system", "content": "OLD INSTRUCTIONS"}"#),
        json(r#"{"role": "user", "content": "earlier"}"#),
    ];
    drive(&backend(ModelPolicy::single("m")), r, &mut end, EventSink::none()).unwrap();

    let msgs = end.seen[0].at("messages").as_array().unwrap();
    assert_eq!(msgs[0].at("content").as_str(), Some("NEW INSTRUCTIONS"), "silently dropped");
    assert_eq!(msgs[1].at("content").as_str(), Some("earlier"), "prior turns kept");
    assert_eq!(
        msgs.iter().filter(|m| m.at("role").as_str() == Some("system")).count(),
        1,
        "spliced, not duplicated"
    );
}

#[test]
fn a_system_prompt_goes_before_a_transcript_that_has_none() {
    let mut end = Endpoint::new(vec![text_turn("ok", 1)]);
    let mut r = req();
    r.messages = vec![json(r#"{"role": "user", "content": "earlier"}"#)];
    drive(&backend(ModelPolicy::single("m")), r, &mut end, EventSink::none()).unwrap();

    let msgs = end.seen[0].at("messages").as_array().unwrap();
    assert_eq!(msgs.len(), 3);
    assert_eq!(msgs[0], json(r#"{"role": "system", "content": "SYS"}"#));
    assert_eq!(msgs[1], json(r#"{"role": "user", "content": "earlier"}"#));
    assert_eq!(msgs[2], json(r#"{"role": "user", "content": "USER"}"#));
}

#[test]
fn resuming_without_a_system_prompt_keeps_the_prior_one() {
    let mut end = Endpoint::new(vec![text_turn("ok", 1)]);
    let mut r = req();
    r.system_prompt = String::new();
    r.messages = vec![json(r#"{"role": "system", "content": "KEEP ME"}"#)];
    drive(&backend(ModelPolicy::single("m")), r, &mut end, EventSink::none()).unwrap();
    let msgs = end.seen[0].at("messages").as_array().unwrap();
    assert_eq!(msgs[0].at("content").as_str(), Some("KEEP ME"));
}

#[test]
fn run_structured_over_the_real_loop_is_what_review_backend_was() {
    let mut end = Endpoint::new(vec![
        text_turn("done exploring", 1),
        text_turn("Here: {\"summary\":\"looks good\"}", 1),
    ]);
    let outcome = drive(&backend(tiered()), req(), &mut end, EventSink::none()).unwrap();
    let review = json(outcome.structured().unwrap());
    assert_eq!(review.at("summary").as_str(), Some("looks good"));
    assert_eq!(outcome.stop_reason, StopReason::Complete);
}

#[test]
fn trim_history_elides_only_older_tool_results() {
    let mut msgs = vec![
        json(r#"{"role":"system","content":"S"}"#),
        json(r#"{"role":"assistant","content":"reasoning worth keeping"}"#),
        json(r#"{"role":"tool","tool_call_id":"1","content":"old-and-long"}"#),
        json(r#"{"role":"tool","tool_call_id":"2","content":"newest"}"#),
    ];
    trim_history(&mut msgs, 8);
    assert_eq!(msgs[0].at("content").as_str(), Some("S"));
    assert_eq!(msgs[1].at("content").as_str(), Some("reasoning worth keeping"));
    assert_eq!(
        msgs[2].at("content").as_str(),
        Some("[earlier tool result elided to save context]")
    );
    assert_eq!(msgs[3].at("content").as_str(), Some("newest"));
    assert_eq!(msgs[2].at("tool_call_id").as_str(), Some("1"), "the answer stays an answer");
}

#[test]
fn trimming_counts_characters_and_skips_what_does_not_fit() {
    let mut msgs = vec![
        json(r#"{"role":"tool","tool_call_id":"1","content":"äöü"}"#),
        json(r#"{"role":"tool","tool_call_id":"2","content":"far too long"}"#),
        json(r#"{"role":"tool","tool_call_id":"3","content":"ab"}"#),
        json(r#"{"role":"tool","tool_call_id":"4","content":{"rows":3}}"#),
    ];
    trim_history(&mut msgs, 5);
    assert_eq!(msgs[0].at("content").as_str(), Some("äöü"));
    assert_eq!(
        msgs[1].at("content").as_str(),
        Some("[earlier tool result elided to save context]")
    );
    assert_eq!(msgs[2].at("content").as_str(), Some("ab"));
    assert_eq!(msgs[3].at("content"), &json(r#"{"rows":3}"#));
}

#[test]
fn a_run_past_its_time_stops_without_synthesis() {
    let b = backend(ModelPolicy {
        timeout_secs: Some(300),
        ..tiered()
    });
    let (_, step) = b.begin(req());
    let run = match step {
        Step::Check(run) => run,
        _ => panic!("a run starts with a look at the clock"),
    };
    let (events, step) = b.check(run, false, Duration::from_nanos(300_000_000_001));
    match step {
        Step::Done(ending) => {
            let out = ending.outcome(Duration::from_micros(300_000_999));
            assert_eq!(out.stop_reason, StopReason::Timeout(300));
            assert_eq!(out.duration_ms, 300_000);
            assert_eq!(out.turns, 0);
            assert_eq!(out.messages.len(), 2);
        }
        _ => panic!("the run went on"),
    }
    assert!(matches!(
        events[..],
        [AgentEvent::Finished { turns: 0, total_tokens: 0, reason: StopReason::Timeout(300) }]
    ));
}

#[test]
fn a_run_at_its_time_still_goes_on() {
    let b = backend(tiered());
    let (_, step) = b.begin(req());
    let run = match step {
        Step::Check(run) => run,
        _ => panic!("a run starts with a look at the clock"),
    };
    let (_, step) = b.check(run, false, Duration::from_secs(300));
    assert!(matches!(step, Step::Explore(..)));
}

#[test]
fn a_failed_request_ends_the_run_without_an_outcome() {
    let mut end = Endpoint::new(vec![tool_turn(&[("c1", "echo", r#"{"text":"x"}"#)], 1)]);
    let (sink, mut rx) = EventSink::channel();
    let err = drive(&backend(tiered()), req(), &mut end, sink).unwrap_err();
    assert_eq!(err.status(), Some(500));
    assert!(!received(&mut rx).iter().any(|e| matches!(e, AgentEvent::Finished { .. })));
}

#[test]
fn a_reply_without_a_message_is_a_decode_error() {
    let mut end = Endpoint::new(vec![json(r#"{"choices": []}"#)]);
    let err = drive(&backend(tiered()), req(), &mut end, EventSink::none()).unwrap_err();
    assert!(matches!(err, AgentError::Decode(m) if m == "response had no choices[0].message"));
}

#[test]
fn a_run_over_the_responses_endpoint_keeps_a_chat_transcript() {
    let call = json(
        r#"{"output": [{"type": "function_call", "call_id": "call_1", "name": "echo",
                       "arguments": "{\"text\":\"hi\"}"}],
            "usage": {"input_tokens": 3, "output_tokens": 4}}"#,
    );
    let done = json(
        r#"{"output": [{"type": "message", "role": "assistant",
                       "content": [{"type": "output_text", "text": "done"}]}]}"#,
    );
    let mut end = Endpoint::new(vec![call, done]);
    let b = backend(ModelPolicy::single("m"))
        .with_wire_format(Responses::new())
        .with_extra_field("parallel_tool_calls", Json::Bool(false));
    let out = drive(&b, req(), &mut end, EventSink::none()).unwrap();

    assert_eq!(end.urls, vec!["http://localhost:1/responses"; 2]);
    assert_eq!(end.seen[0].at("parallel_tool_calls"), &Json::Bool(false));
    let input = end.seen[1].at("input").as_array().unwrap();
    assert_eq!(input[2].at("call_id").as_str(), Some("call_1"));
    assert_eq!(input[3].at("call_id").as_str(), Some("call_1"));
    assert_eq!(input[3].at("output").as_str(), Some("echo: hi"));
    assert_eq!(out.total_tokens, 7);
    assert_eq!(out.content.as_deref(), Some("done"));
    assert_eq!(out.messages[2].at("tool_calls").first().unwrap().at("id").as_str(), Some("call_1"));
    assert_eq!(out.messages[3].at("role").as_str(), Some("tool"));
}

#[test]
fn extra_fields_of_a_backend_are_sent_and_win() {
    let mut extra = JsonMap::new();
    extra.insert("model".into(), Json::text("other/m"));
    extra.insert("seed".into(), json("7"));
    let mut end = Endpoint::new(vec![text_turn("ok", 1)]);
    let b = backend(ModelPolicy::single("m")).with_extra_body(extra);
    drive(&b, req(), &mut end, EventSink::none()).unwrap();
    assert_eq!(end.seen[0].at("model").as_str(), Some("other/m"));
    assert_eq!(end.seen[0].at("seed").as_u64(), Some(7));
    assert_eq!(b.name(), "chat");
}

#[test]
fn a_long_reply_is_previewed_and_a_silent_one_leaves_the_content() {
    let long = "x".repeat(120);
    let mut end = Endpoint::new(vec![
        json(&format!(
            r#"{{"choices": [{{"message": {{"role": "assistant", "content": "{long}",
                "tool_calls": [{{"id": "c1", "function": {{"name": "echo", "arguments": "{{\"text\":\"{long}\"}}"}}}}]}}}}]}}"#
        )),
        text_turn("", 0),
    ]);
    let (sink, mut rx) = EventSink::channel();
    let out = drive(&backend(ModelPolicy::single("m")), req(), &mut end, sink).unwrap();
    assert_eq!(out.content.as_deref(), Some(long.as_str()));

    let events = received(&mut rx);
    let previews: Vec<_> = events
        .iter()
        .filter_map(|e| match e {
            AgentEvent::TurnResponse { content_preview, .. } => Some(content_preview.clone()),
            _ => None,
        })
        .collect();
    assert_eq!(previews, vec![Some(format!("{}…", "x".repeat(100))), Some(String::new())]);
    let outputs: Vec<_> = events
        .iter()
        .filter_map(|e| match e {
            AgentEvent::ToolComplete { output_preview, .. } => Some(output_preview.clone()),
            _ => None,
        })
        .collect();
    assert_eq!(outputs, vec![format!("echo: {}…", "x".repeat(94))]);
    assert!(!events.iter().any(|e| matches!(e, AgentEvent::Usage { .. })), "nothing was reported");
}

#[test]
fn a_call_without_a_function_is_an_unknown_tool() {
    let mut end = Endpoint::new(vec![
        json(r#"{"choices": [{"message": {"role": "assistant", "tool_calls": [{}]}}]}"#),
        text_turn("ok", 1),
    ]);
    let out = drive(&backend(ModelPolicy::single("m")), req(), &mut end, EventSink::none()).unwrap();
    assert_eq!(
        out.messages[3],
        json(r#"{"role": "tool", "tool_call_id": "", "content": "unknown tool ``"}"#)
    );
}

#[test]
fn the_arguments_of_a_call_can_be_given_as_read() {
    let b = backend(ModelPolicy::single("m"));
    let start = |args: &str| {
        let (_, step) = b.begin(req());
        let run = match step {
            Step::Check(run) => run,
            _ => unreachable!(),
        };
        let run = match b.check(run, false, Duration::ZERO).1 {
            Step::Explore(run, _) => run,
            _ => unreachable!(),
        };
        let reply = tool_turn(&[("c1", "echo", args)], 1);
        match b.explored(run, Ok(reply)).unwrap().1 {
            Step::TakeCall(calls) => calls,
            _ => unreachable!(),
        }
    };
    let read = json(r#"{"text": "given"}"#);
    match b.take_call_of(start("..."), false, Ok(read.clone())).1 {
        Step::RunTool(call, _, args) => {
            assert_eq!(call.tool(), "echo");
            assert_eq!(args, read);
        }
        _ => panic!("the call does not run"),
    }
    match b.take_call_of(start("..."), false, Err("bad".into())).1 {
        Step::Settled(_, Err(ToolError::InvalidArguments { tool, reason })) => {
            assert_eq!((tool.as_str(), reason.as_str()), ("echo", "bad"));
        }
        _ => panic!("the call is not refused"),
    }
    match b.take_call_of(start("  "), false, Err("ignored".into())).1 {
        Step::RunTool(_, _, args) => assert_eq!(args, json("{}")),
        _ => panic!("no arguments are an empty object"),
    }
}
