use agent_loop_core::{AgentEvent, EventSink, StopReason};
use tokio::sync::mpsc;

#[test]
fn a_none_sink_swallows_events_and_reports_inactive() {
    let sink = EventSink::none();
    assert!(!sink.is_active());
    sink.emit(AgentEvent::TurnStart { turn: 1 }); // must not panic
}

#[test]
fn a_channel_sink_delivers_in_order() {
    let (sink, mut rx) = EventSink::channel();
    assert!(sink.is_active());
    sink.emit(AgentEvent::TurnStart { turn: 1 });
    sink.emit(AgentEvent::ContentToken("hi".into()));
    sink.emit(AgentEvent::Finished {
        turns: 1,
        total_tokens: 7,
        reason: StopReason::Complete,
    });

    assert!(matches!(rx.blocking_recv().unwrap(), AgentEvent::TurnStart { turn: 1 }));
    assert!(matches!(rx.blocking_recv().unwrap(), AgentEvent::ContentToken(t) if t == "hi"));
    assert!(matches!(
        rx.blocking_recv().unwrap(),
        AgentEvent::Finished {
            reason: StopReason::Complete,
            total_tokens: 7,
            ..
        }
    ));
}

#[test]
fn a_dropped_receiver_does_not_fail_the_run() {
    let (sink, rx) = EventSink::channel();
    drop(rx);
    sink.emit(AgentEvent::TurnStart { turn: 1 });
    assert!(sink.is_active(), "still nominally active; sends just no-op");
}

#[test]
fn a_sink_can_be_made_of_a_sender_and_shared() {
    let (tx, mut rx) = mpsc::unbounded_channel();
    let sink = EventSink::from(tx);
    let other = sink.clone();
    sink.emit(AgentEvent::TurnStart { turn: 1 });
    other.emit(AgentEvent::TurnStart { turn: 2 });
    drop((sink, other));
    assert!(matches!(rx.try_recv(), Ok(AgentEvent::TurnStart { turn: 1 })));
    assert!(matches!(rx.try_recv(), Ok(AgentEvent::TurnStart { turn: 2 })));
    assert!(matches!(rx.try_recv(), Err(mpsc::error::TryRecvError::Disconnected)));
    assert!(!EventSink::default().clone().is_active());

    let (tx, mut rx) = mpsc::unbounded_channel();
    EventSink::new(tx).emit(AgentEvent::ContentToken("x".into()));
    assert!(matches!(rx.try_recv(), Ok(AgentEvent::ContentToken(t)) if t == "x"));
}

#[test]
fn a_receiver_hears_its_own_sink_and_its_copies() {
    let (sink, mut rx) = EventSink::channel();
    let (other, mut other_rx) = EventSink::channel();
    sink.emit(AgentEvent::TurnStart { turn: 1 });
    sink.clone().emit(AgentEvent::TurnStart { turn: 2 });
    other.emit(AgentEvent::TurnStart { turn: 3 });
    drop((sink, other));
    assert!(matches!(rx.try_recv(), Ok(AgentEvent::TurnStart { turn: 1 })));
    assert!(matches!(rx.try_recv(), Ok(AgentEvent::TurnStart { turn: 2 })));
    assert!(matches!(rx.try_recv(), Err(mpsc::error::TryRecvError::Disconnected)));
    assert!(matches!(other_rx.try_recv(), Ok(AgentEvent::TurnStart { turn: 3 })));
    assert!(matches!(other_rx.try_recv(), Err(mpsc::error::TryRecvError::Disconnected)));
}

#[test]
fn a_copy_of_an_event_is_the_same() {
    let events = vec![
        AgentEvent::TurnResponse { turn: 1, has_tool_calls: true, content_preview: Some("p".into()) },
        AgentEvent::ToolApprovalRequired {
            turn: 2,
            tool: "t".into(),
            call_id: "c".into(),
            arguments: "{}".into(),
        },
        AgentEvent::ToolStart { turn: 3, tool: "t".into(), call_id: "c".into() },
        AgentEvent::ToolComplete {
            turn: 4,
            tool: "t".into(),
            call_id: "c".into(),
            ok: true,
            duration_ms: 5,
            output_preview: "o".into(),
        },
        AgentEvent::TurnComplete { turn: 6, tools_executed: 7 },
        AgentEvent::Usage { prompt_tokens: Some(1), completion_tokens: None, total_tokens: 8 },
        AgentEvent::Warning { turn: 9, message: "w".into() },
        AgentEvent::Finished { turns: 1, total_tokens: 2, reason: StopReason::Error("e".into()) },
        AgentEvent::Finished { turns: 1, total_tokens: 2, reason: StopReason::MaxTurns(3) },
    ];
    for event in &events {
        assert_eq!(format!("{event:?}"), format!("{:?}", event.clone()));
    }
}
