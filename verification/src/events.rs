//! Agent lifecycle events and the sink they flow into.
//!
//! One stream of these drives a live UI. A caller that wants none of them
//! passes [`EventSink::none`].
use tokio::sync::mpsc;
use vstd::prelude::*;
use vstd::string::*;

verus! {

/// Why a run stopped.
#[derive(Debug, PartialEq, Eq)]
pub enum StopReason {
    /// The model produced a turn with no tool calls.
    Complete,
    /// The turn cap was reached.
    MaxTurns(u32),
    /// The token budget was reached.
    MaxTokens(u32),
    /// The wall-clock budget was reached.
    Timeout(u64),
    /// The caller set the interrupt flag.
    Interrupted,
    /// A tool failed and the policy was to stop.
    Error(String),
}

/// What a [`StopReason`] is.
#[verifier::ext_equal]
pub enum StopView {
    Complete,
    MaxTurns(u32),
    MaxTokens(u32),
    Timeout(u64),
    Interrupted,
    Error(Seq<char>),
}

impl View for StopReason {
    type V = StopView;

    open spec fn view(&self) -> StopView {
        match *self {
            StopReason::Complete => StopView::Complete,
            StopReason::MaxTurns(n) => StopView::MaxTurns(n),
            StopReason::MaxTokens(n) => StopView::MaxTokens(n),
            StopReason::Timeout(n) => StopView::Timeout(n),
            StopReason::Interrupted => StopView::Interrupted,
            StopReason::Error(m) => StopView::Error(m@),
        }
    }
}

impl Clone for StopReason {
    fn clone(&self) -> (res: Self)
        ensures
            res@ == self@,
    {
        match self {
            StopReason::Complete => StopReason::Complete,
            StopReason::MaxTurns(n) => StopReason::MaxTurns(*n),
            StopReason::MaxTokens(n) => StopReason::MaxTokens(*n),
            StopReason::Timeout(n) => StopReason::Timeout(*n),
            StopReason::Interrupted => StopReason::Interrupted,
            StopReason::Error(m) => StopReason::Error(m.clone()),
        }
    }
}

/// Something observable that happened during a run.
///
/// Plain data, without borrowed state, so that a UI can forward it over IPC
/// as it is.
#[derive(Debug)]
pub enum AgentEvent {
    /// A new model turn is about to start. 1-indexed.
    TurnStart { turn: u32 },
    /// The model replied. `has_tool_calls` decides whether the loop continues.
    TurnResponse { turn: u32, has_tool_calls: bool, content_preview: Option<String> },
    /// A chunk of assistant text.
    ContentToken(String),
    /// A tool call waits for a decision before it may run.
    ToolApprovalRequired { turn: u32, tool: String, call_id: String, arguments: String },
    /// A tool is about to run.
    ToolStart { turn: u32, tool: String, call_id: String },
    /// A tool finished. `ok` is false for both execution failures and rejected
    /// or unparseable calls.
    ToolComplete {
        turn: u32,
        tool: String,
        call_id: String,
        ok: bool,
        duration_ms: u64,
        /// Leading characters of the result, for a UI that shows it inline.
        /// Always present — an empty result is an empty string, not absence.
        output_preview: String,
    },
    /// Every tool call in this turn has been executed.
    TurnComplete { turn: u32, tools_executed: u32 },
    /// Token usage reported by the provider for one call.
    Usage { prompt_tokens: Option<u32>, completion_tokens: Option<u32>, total_tokens: u32 },
    /// A non-fatal problem worth surfacing.
    Warning { turn: u32, message: String },
    /// The run ended.
    Finished { turns: u32, total_tokens: u32, reason: StopReason },
}

/// What an [`AgentEvent`] is.
#[verifier::ext_equal]
pub enum EventView {
    TurnStart { turn: u32 },
    TurnResponse { turn: u32, has_tool_calls: bool, content_preview: Option<Seq<char>> },
    ContentToken(Seq<char>),
    ToolApprovalRequired { turn: u32, tool: Seq<char>, call_id: Seq<char>, arguments: Seq<char> },
    ToolStart { turn: u32, tool: Seq<char>, call_id: Seq<char> },
    ToolComplete {
        turn: u32,
        tool: Seq<char>,
        call_id: Seq<char>,
        ok: bool,
        duration_ms: u64,
        output_preview: Seq<char>,
    },
    TurnComplete { turn: u32, tools_executed: u32 },
    Usage { prompt_tokens: Option<u32>, completion_tokens: Option<u32>, total_tokens: u32 },
    Warning { turn: u32, message: Seq<char> },
    Finished { turns: u32, total_tokens: u32, reason: StopView },
}

/// What a text that may be absent is.
pub open spec fn opt_text(s: Option<String>) -> Option<Seq<char>> {
    match s {
        Some(s) => Some(s@),
        None => None,
    }
}

impl View for AgentEvent {
    type V = EventView;

    open spec fn view(&self) -> EventView {
        match *self {
            AgentEvent::TurnStart { turn } => EventView::TurnStart { turn },
            AgentEvent::TurnResponse { turn, has_tool_calls, content_preview } =>
                EventView::TurnResponse {
                turn,
                has_tool_calls,
                content_preview: opt_text(content_preview),
            },
            AgentEvent::ContentToken(s) => EventView::ContentToken(s@),
            AgentEvent::ToolApprovalRequired { turn, tool, call_id, arguments } =>
                EventView::ToolApprovalRequired {
                turn,
                tool: tool@,
                call_id: call_id@,
                arguments: arguments@,
            },
            AgentEvent::ToolStart { turn, tool, call_id } => EventView::ToolStart {
                turn,
                tool: tool@,
                call_id: call_id@,
            },
            AgentEvent::ToolComplete { turn, tool, call_id, ok, duration_ms, output_preview } =>
                EventView::ToolComplete {
                turn,
                tool: tool@,
                call_id: call_id@,
                ok,
                duration_ms,
                output_preview: output_preview@,
            },
            AgentEvent::TurnComplete { turn, tools_executed } => EventView::TurnComplete {
                turn,
                tools_executed,
            },
            AgentEvent::Usage { prompt_tokens, completion_tokens, total_tokens } =>
                EventView::Usage { prompt_tokens, completion_tokens, total_tokens },
            AgentEvent::Warning { turn, message } => EventView::Warning { turn, message: message@ },
            AgentEvent::Finished { turns, total_tokens, reason } => EventView::Finished {
                turns,
                total_tokens,
                reason: reason@,
            },
        }
    }
}

impl Clone for AgentEvent {
    fn clone(&self) -> (res: Self)
        ensures
            res@ == self@,
    {
        match self {
            AgentEvent::TurnStart { turn } => AgentEvent::TurnStart { turn: *turn },
            AgentEvent::TurnResponse { turn, has_tool_calls, content_preview } =>
                AgentEvent::TurnResponse {
                turn: *turn,
                has_tool_calls: *has_tool_calls,
                content_preview: match content_preview {
                    Some(s) => Some(s.clone()),
                    None => None,
                },
            },
            AgentEvent::ContentToken(s) => AgentEvent::ContentToken(s.clone()),
            AgentEvent::ToolApprovalRequired { turn, tool, call_id, arguments } =>
                AgentEvent::ToolApprovalRequired {
                turn: *turn,
                tool: tool.clone(),
                call_id: call_id.clone(),
                arguments: arguments.clone(),
            },
            AgentEvent::ToolStart { turn, tool, call_id } => AgentEvent::ToolStart {
                turn: *turn,
                tool: tool.clone(),
                call_id: call_id.clone(),
            },
            AgentEvent::ToolComplete { turn, tool, call_id, ok, duration_ms, output_preview } =>
                AgentEvent::ToolComplete {
                turn: *turn,
                tool: tool.clone(),
                call_id: call_id.clone(),
                ok: *ok,
                duration_ms: *duration_ms,
                output_preview: output_preview.clone(),
            },
            AgentEvent::TurnComplete { turn, tools_executed } => AgentEvent::TurnComplete {
                turn: *turn,
                tools_executed: *tools_executed,
            },
            AgentEvent::Usage { prompt_tokens, completion_tokens, total_tokens } =>
                AgentEvent::Usage {
                prompt_tokens: *prompt_tokens,
                completion_tokens: *completion_tokens,
                total_tokens: *total_tokens,
            },
            AgentEvent::Warning { turn, message } => AgentEvent::Warning {
                turn: *turn,
                message: message.clone(),
            },
            AgentEvent::Finished { turns, total_tokens, reason } => AgentEvent::Finished {
                turns: *turns,
                total_tokens: *total_tokens,
                reason: reason.clone(),
            },
        }
    }
}

/// The views of a list of events.
pub open spec fn event_views(events: Seq<AgentEvent>) -> Seq<EventView> {
    events.map_values(|e: AgentEvent| e@)
}

/// The sending half of `tokio`'s unbounded channel.
#[verifier::external_type_specification]
#[verifier::external_body]
#[verifier::reject_recursive_types(T)]
pub struct ExUnboundedSender<T>(mpsc::UnboundedSender<T>);

/// The receiving half of `tokio`'s unbounded channel.
#[verifier::external_type_specification]
#[verifier::external_body]
#[verifier::reject_recursive_types(T)]
pub struct ExUnboundedReceiver<T>(mpsc::UnboundedReceiver<T>);

/// `tokio::sync::mpsc::unbounded_channel` for events. Nothing is claimed of either
/// half alone: [`paired`] says that two halves came out of one call.
#[verifier::external_body]
fn event_channel() -> (res: (
    mpsc::UnboundedSender<AgentEvent>,
    mpsc::UnboundedReceiver<AgentEvent>,
)) {
    mpsc::unbounded_channel()
}

/// Whether the two are the halves of one channel: what one call of
/// [`event_channel`] gave.
pub closed spec fn paired(
    tx: mpsc::UnboundedSender<AgentEvent>,
    rx: mpsc::UnboundedReceiver<AgentEvent>,
) -> bool {
    call_ensures(event_channel, (), (tx, rx))
}

/// `UnboundedSender::send`, whose failure on a closed receiver is let go. Nothing
/// is claimed of what the receiver sees, nor of the order in which it does:
/// [`sent`] says that the call was made.
#[verifier::external_body]
fn send_event(tx: &mpsc::UnboundedSender<AgentEvent>, event: AgentEvent) {
    let _ = tx.send(event);
}

/// Whether an event was handed to a sender, by a call of [`send_event`].
pub closed spec fn sent(tx: mpsc::UnboundedSender<AgentEvent>, event: AgentEvent) -> bool {
    call_ensures(send_event, (&tx, event), ())
}

/// `Clone` of `UnboundedSender`: the new handle sends to the same channel, so it is
/// the same sender.
#[verifier::external_body]
fn share_sender(tx: &mpsc::UnboundedSender<AgentEvent>) -> (res: mpsc::UnboundedSender<
    AgentEvent,
>)
    ensures
        res == *tx,
{
    tx.clone()
}

/// Where events go. Cloning is cheap; a `none()` sink discards everything.
///
/// This is the seam that lets one loop serve a streaming desktop UI and a
/// library caller that just wants a return value.
#[derive(Debug)]
pub struct EventSink(Option<mpsc::UnboundedSender<AgentEvent>>);

impl EventSink {
    /// The channel that events are sent to, if there is one.
    pub closed spec fn sender(&self) -> Option<mpsc::UnboundedSender<AgentEvent>> {
        self.0
    }

    /// Whether the sink has a channel to send to.
    pub open spec fn active(&self) -> bool {
        self.sender() is Some
    }

    /// Whether `rx` is the receiver of the channel that events are sent to.
    pub open spec fn heard_by(&self, rx: mpsc::UnboundedReceiver<AgentEvent>) -> bool {
        self.sender() matches Some(tx) && paired(tx, rx)
    }

    /// A sink that drops every event. Zero cost beyond an `Option` check.
    #[must_use]
    pub fn none() -> (res: Self)
        ensures
            !res.active(),
    {
        EventSink(None)
    }

    /// Send events to `tx`.
    #[must_use]
    pub fn new(tx: mpsc::UnboundedSender<AgentEvent>) -> (res: Self)
        ensures
            res.sender() == Some(tx),
    {
        EventSink(Some(tx))
    }

    /// Create a sink paired with its receiver.
    #[must_use]
    pub fn channel() -> (res: (Self, mpsc::UnboundedReceiver<AgentEvent>))
        ensures
            res.0.active(),
            res.0.heard_by(res.1),
    {
        let (tx, rx) = event_channel();
        (Self::new(tx), rx)
    }

    /// Whether anything is listening. Use to skip building an expensive payload.
    #[must_use]
    pub fn is_active(&self) -> (res: bool)
        ensures
            res == self.active(),
    {
        self.0.is_some()
    }

    /// Emit an event. A closed receiver is not an error — the run continues.
    pub fn emit(&self, event: AgentEvent)
        ensures
            self.sender() matches Some(tx) ==> sent(tx, event),
    {
        if let Some(tx) = &self.0 {
            send_event(tx, event);
        }
    }
}

impl From<mpsc::UnboundedSender<AgentEvent>> for EventSink {
    fn from(tx: mpsc::UnboundedSender<AgentEvent>) -> (res: Self)
        ensures
            res.sender() == Some(tx),
    {
        EventSink(Some(tx))
    }
}

impl vstd::std_specs::convert::FromSpecImpl<mpsc::UnboundedSender<AgentEvent>> for EventSink {
    open spec fn obeys_from_spec() -> bool {
        true
    }

    closed spec fn from_spec(tx: mpsc::UnboundedSender<AgentEvent>) -> Self {
        EventSink(Some(tx))
    }
}

impl Default for EventSink {
    fn default() -> (res: Self)
        ensures
            !res.active(),
    {
        EventSink(None)
    }
}

impl Clone for EventSink {
    fn clone(&self) -> (res: Self)
        ensures
            res.sender() == self.sender(),
            forall|rx: mpsc::UnboundedReceiver<AgentEvent>|
                res.heard_by(rx) == self.heard_by(rx),
    {
        match &self.0 {
            Some(tx) => EventSink(Some(share_sender(tx))),
            None => EventSink(None),
        }
    }
}

} // verus!
