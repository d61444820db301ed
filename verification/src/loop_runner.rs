//! The shared agent loop.
//!
//! A cheap model drives tool calls to gather context, then a strong model
//! answers with tools forbidden. Set `explore == synthesize` and it degenerates
//! to the ordinary single-model loop.
//!
//! A run is a chain of [`Step`]s. Each says what the host has to do — look at
//! the clock, send a request, ask about a call, run a tool — and a method of
//! [`ChatBackend`] takes what came of it to the events to report and the next
//! step. A host reports the events of a step before it does what the step asks.
use std::sync::atomic::AtomicBool;
use std::sync::Arc;
use std::time::Duration;

use vstd::prelude::*;
use vstd::slice::slice_subrange;
use vstd::string::*;

use crate::backend::{
    string_views, ModelPolicy, OutcomeView, PolicyView, RequestView, RunOutcome, RunRequest,
};
use crate::error::{AgentError, ErrorView};
use crate::events::{event_views, opt_text, AgentEvent, EventView, StopReason, StopView};
use crate::history::{
    message, seal_unanswered, sealed, spoken, tool_answer, tool_message, trim_history, trimmed,
};
use crate::json::{copies, json_of_text, parse_json, parsed_view, views, Json, JsonMap, JsonView};
use crate::provider::{
    first_attempt, result_view, wrapped, ChatClient, ConfigView, Exchange, ExchangeView,
};
use crate::span::{millis_of, nanos, whole_millis};
use crate::text::{clip, clip_text, joined, trim_text, IntoText};
use crate::tools::{
    args_view, definitions_of, dispatch, dispatch_view, known, parse_tool_args_of, sorted, texts,
    tool_args, unknown, ToolError, ToolErrorView, ToolOutput, ToolRegistry, ToolView,
};
use crate::wire::{turn_view, ChatCompletions, WireFormat, WireRequest, WireRequestView};

verus! {

/// How far a run has come.
#[derive(Debug)]
pub struct Run {
    tools: Vec<Json>,
    messages: Vec<Json>,
    turn: u32,
    total_tokens: u32,
    content: Option<String>,
}

/// What a [`Run`] is.
#[verifier::ext_equal]
pub struct RunView {
    /// The definitions that the model is sent.
    pub tools: Seq<JsonView>,
    /// The transcript.
    pub messages: Seq<JsonView>,
    /// Model round-trips started.
    pub turn: u32,
    /// Tokens spent.
    pub total_tokens: u32,
    /// The last text that the model said.
    pub content: Option<Seq<char>>,
}

impl View for Run {
    type V = RunView;

    closed spec fn view(&self) -> RunView {
        RunView {
            tools: views(self.tools@),
            messages: views(self.messages@),
            turn: self.turn,
            total_tokens: self.total_tokens,
            content: opt_text(self.content),
        }
    }
}

/// The tool calls of a turn, of which some are still to be taken up.
#[derive(Debug)]
pub struct Calls {
    run: Run,
    calls: Vec<Json>,
    next: usize,
    executed: u32,
}

/// What [`Calls`] are.
#[verifier::ext_equal]
pub struct CallsView {
    pub run: RunView,
    pub calls: Seq<JsonView>,
    /// The call that is next.
    pub next: int,
    /// How many have been executed.
    pub executed: u32,
}

impl View for Calls {
    type V = CallsView;

    closed spec fn view(&self) -> CallsView {
        CallsView {
            run: self.run@,
            calls: views(self.calls@),
            next: self.next as int,
            executed: self.executed,
        }
    }
}

impl Calls {
    #[verifier::type_invariant]
    spec fn one_is_next(self) -> bool {
        self.next < self.calls@.len()
    }
}

/// A tool call that was taken up.
#[derive(Debug)]
pub struct Call {
    calls: Calls,
    id: String,
    name: String,
    arguments: String,
}

/// What a [`Call`] is.
#[verifier::ext_equal]
pub struct CallView {
    pub calls: CallsView,
    pub id: Seq<char>,
    pub name: Seq<char>,
    /// The arguments as the model sent them.
    pub arguments: Seq<char>,
}

impl View for Call {
    type V = CallView;

    closed spec fn view(&self) -> CallView {
        CallView {
            calls: self.calls@,
            id: self.id@,
            name: self.name@,
            arguments: self.arguments@,
        }
    }
}

impl Call {
    /// The tool that is called.
    pub fn tool(&self) -> (res: &str)
        ensures
            res@ == self@.name,
    {
        self.name.as_str()
    }

    /// The model's id for the call.
    pub fn call_id(&self) -> (res: &str)
        ensures
            res@ == self@.id,
    {
        self.id.as_str()
    }
}

/// How a run ended.
#[derive(Debug)]
pub struct Ending {
    content: Option<String>,
    turns: u32,
    total_tokens: u32,
    stop_reason: StopReason,
    messages: Vec<Json>,
    model: String,
}

/// What an [`Ending`] is.
#[verifier::ext_equal]
pub struct EndingView {
    pub content: Option<Seq<char>>,
    pub turns: u32,
    pub total_tokens: u32,
    pub stop_reason: StopView,
    pub messages: Seq<JsonView>,
    pub model: Seq<char>,
}

impl View for Ending {
    type V = EndingView;

    closed spec fn view(&self) -> EndingView {
        EndingView {
            content: opt_text(self.content),
            turns: self.turns,
            total_tokens: self.total_tokens,
            stop_reason: self.stop_reason@,
            messages: views(self.messages@),
            model: self.model@,
        }
    }
}

impl EndingView {
    /// The outcome of a run that took this many nanoseconds.
    pub open spec fn outcome(self, elapsed: nat) -> OutcomeView {
        OutcomeView {
            content: self.content,
            turns: self.turns,
            total_tokens: self.total_tokens,
            duration_ms: millis_of(elapsed),
            stop_reason: self.stop_reason,
            messages: self.messages,
            model: self.model,
        }
    }
}

impl Ending {
    /// The outcome of a run that took this long.
    pub fn outcome(self, elapsed: Duration) -> (res: RunOutcome)
        ensures
            res@ == self@.outcome(nanos(elapsed)),
    {
        RunOutcome {
            content: self.content,
            turns: self.turns,
            total_tokens: self.total_tokens,
            duration_ms: whole_millis(elapsed),
            stop_reason: self.stop_reason,
            messages: self.messages,
            model: self.model,
        }
    }
}

/// What a host has to do next in a run.
#[derive(Debug)]
pub enum Step<'b, H> {
    /// Look at the interrupt flag and the clock: [`ChatBackend::check`].
    Check(Run),
    /// Send this exploration request: [`ChatBackend::explored`].
    Explore(Run, Exchange),
    /// Look at the interrupt flag: [`ChatBackend::take_call`].
    TakeCall(Calls),
    /// Ask the approver whether this call with these arguments needs a decision:
    /// [`ChatBackend::gate`].
    Gate(Call, Json),
    /// Have this call with these arguments approved or rejected:
    /// [`ChatBackend::decided`].
    Approve(Call, Json),
    /// Run this tool with these arguments: [`ChatBackend::completed`].
    RunTool(Call, &'b H, Json),
    /// Nothing is run, for this is the result: [`ChatBackend::completed`].
    Settled(Call, Result<ToolOutput, ToolError>),
    /// Exploration is done for this reason. Look at the interrupt flag:
    /// [`ChatBackend::conclude`].
    Conclude(Run, StopReason),
    /// Send this synthesis request: [`ChatBackend::synthesized`].
    Synthesize(Run, StopReason, Exchange),
    /// The run is over.
    Done(Ending),
}

/// What a tool gave back.
#[verifier::ext_equal]
pub struct OutputView {
    pub content: Seq<char>,
    pub is_error: bool,
}

/// What came of a tool call.
pub open spec fn tool_result(res: Result<ToolOutput, ToolError>) -> Result<
    OutputView,
    ToolErrorView,
> {
    match res {
        Ok(out) => Ok(OutputView { content: out.content@, is_error: out.is_error }),
        Err(e) => Err(e@),
    }
}

/// What a [`Step`] is.
#[verifier::ext_equal]
pub enum StepView<H> {
    Check(RunView),
    Explore(RunView, ExchangeView),
    TakeCall(CallsView),
    Gate(CallView, JsonView),
    Approve(CallView, JsonView),
    RunTool(CallView, H, JsonView),
    Settled(CallView, Result<OutputView, ToolErrorView>),
    Conclude(RunView, StopView),
    Synthesize(RunView, StopView, ExchangeView),
    Done(EndingView),
}

impl<'b, H> View for Step<'b, H> {
    type V = StepView<H>;

    open spec fn view(&self) -> StepView<H> {
        match *self {
            Step::Check(run) => StepView::Check(run@),
            Step::Explore(run, exchange) => StepView::Explore(run@, exchange@),
            Step::TakeCall(calls) => StepView::TakeCall(calls@),
            Step::Gate(call, args) => StepView::Gate(call@, args@),
            Step::Approve(call, args) => StepView::Approve(call@, args@),
            Step::RunTool(call, handle, args) => StepView::RunTool(call@, *handle, args@),
            Step::Settled(call, result) => StepView::Settled(call@, tool_result(result)),
            Step::Conclude(run, stop) => StepView::Conclude(run@, stop@),
            Step::Synthesize(run, stop, exchange) => StepView::Synthesize(
                run@,
                stop@,
                exchange@,
            ),
            Step::Done(ending) => StepView::Done(ending@),
        }
    }
}

/// The events to report, and the step after them.
pub open spec fn moved<'b, H>(res: (Vec<AgentEvent>, Step<'b, H>)) -> (
    Seq<EventView>,
    StepView<H>,
) {
    (event_views(res.0@), res.1@)
}

/// A move, or the error that ends the run without an outcome.
pub open spec fn moved_or_failed<'b, H>(
    res: Result<(Vec<AgentEvent>, Step<'b, H>), AgentError>,
) -> Result<(Seq<EventView>, StepView<H>), ErrorView> {
    match res {
        Ok(res) => Ok(moved(res)),
        Err(e) => Err(e@),
    }
}

/// A move that reports something before.
pub open spec fn after_reporting<H>(
    first: Seq<EventView>,
    then_moved: (Seq<EventView>, StepView<H>),
) -> (Seq<EventView>, StepView<H>) {
    (first + then_moved.0, then_moved.1)
}

/// A backend that drives the loop itself against an OpenAI-compatible endpoint.
///
/// `H` is the handle by which the host runs a tool, `A` what decides about tool
/// calls, `W` the endpoint schema.
#[derive(Debug)]
pub struct ChatBackend<H, A, W> {
    chat: ChatClient,
    tools: Arc<ToolRegistry<H>>,
    policy: ModelPolicy,
    interrupt: Arc<AtomicBool>,
    approver: Option<A>,
    wire: W,
}

/// What a [`ChatBackend`] is.
pub struct BackendView<H, A, W> {
    pub client: ConfigView,
    pub tools: Map<Seq<char>, ToolView<H>>,
    pub policy: PolicyView,
    pub interrupt: Arc<AtomicBool>,
    pub approver: Option<A>,
    pub wire: W,
}

impl<H, A, W> View for ChatBackend<H, A, W> {
    type V = BackendView<H, A, W>;

    closed spec fn view(&self) -> BackendView<H, A, W> {
        BackendView {
            client: self.chat.cfg(),
            tools: self.tools@,
            policy: self.policy@,
            interrupt: self.interrupt,
            approver: self.approver,
            wire: self.wire,
        }
    }
}

/// The definitions for a scope, and the names in it that are not registered. An
/// empty scope exposes every tool.
pub open spec fn scoped<H>(tools: Map<Seq<char>, ToolView<H>>, scope: Seq<Seq<char>>) -> (
    Seq<JsonView>,
    Seq<Seq<char>>,
) {
    if scope.len() == 0 {
        (definitions_of(tools, sorted(tools.dom())), Seq::empty())
    } else {
        (definitions_of(tools, known(tools, scope)), unknown(tools, scope))
    }
}

/// The warning about a name in a scope that is not registered.
pub open spec fn scope_warning(name: Seq<char>) -> EventView {
    EventView::Warning { turn: 0, message: "tool `"@ + name + "` in scope is not registered"@ }
}

/// The conversation that a request starts with: the prior transcript with the
/// system prompt that was given, then what the user says.
pub open spec fn opening(req: RequestView) -> Seq<JsonView> {
    let system = message("system"@, req.system_prompt);
    let before = if req.messages.len() == 0 {
        seq![system]
    } else if req.system_prompt.len() == 0 {
        req.messages
    } else if req.messages[0].at("role"@) == JsonView::String("system"@) {
        req.messages.update(0, system)
    } else {
        seq![system] + req.messages
    };
    before.push(message("user"@, req.user_prompt))
}

/// The token threshold that a run has reached, if it has.
pub open spec fn threshold_reached(policy: PolicyView, run: RunView) -> Option<u32> {
    match policy.stop_after_tokens {
        Some(limit) => if run.total_tokens >= limit {
            Some(limit)
        } else {
            None
        },
        None => None,
    }
}

/// Why no further turn is started, if it is not.
pub open spec fn halt(policy: PolicyView, run: RunView, interrupted: bool, elapsed: nat) -> Option<
    StopView,
> {
    if interrupted {
        Some(StopView::Interrupted)
    } else if run.turn >= policy.max_turns {
        Some(StopView::MaxTurns(policy.max_turns))
    } else {
        match (threshold_reached(policy, run), policy.timeout_secs) {
            (Some(limit), _) => Some(StopView::MaxTokens(limit)),
            (_, Some(secs)) if elapsed > secs * 1_000_000_000 => Some(StopView::Timeout(secs)),
            _ => None,
        }
    }
}

/// The event for tokens that a call cost, if it cost any.
pub open spec fn usage_events(tokens: u32) -> Seq<EventView> {
    if tokens > 0 {
        seq![
            EventView::Usage {
                prompt_tokens: None,
                completion_tokens: None,
                total_tokens: tokens,
            },
        ]
    } else {
        Seq::empty()
    }
}

/// What a UI shows of a text.
pub open spec fn preview(text: Seq<char>) -> Seq<char> {
    clip_text(text, 100)
}

/// What the model said in a message, where it said something.
pub open spec fn said(message: JsonView) -> Option<Seq<char>> {
    match message.at("content"@).as_str() {
        Some(text) => if text.len() > 0 {
            Some(text)
        } else {
            None
        },
        None => None,
    }
}

/// The events for a reply.
pub open spec fn reply_events(turn: u32, message: JsonView, tokens: u32, calls: bool) -> Seq<
    EventView,
> {
    usage_events(tokens) + seq![
        EventView::TurnResponse {
            turn,
            has_tool_calls: calls,
            content_preview: match message.at("content"@).as_str() {
                Some(text) => Some(preview(text)),
                None => None,
            },
        },
    ] + match said(message) {
        Some(text) => seq![EventView::ContentToken(text)],
        None => Seq::empty(),
    }
}

impl RunView {
    /// The run after a reply.
    pub open spec fn replied(self, message: JsonView, tokens: u32) -> RunView {
        RunView {
            total_tokens: wrapped(self.total_tokens + tokens),
            content: match said(message) {
                Some(text) => Some(text),
                None => self.content,
            },
            messages: self.messages.push(message),
            ..self
        }
    }
}

/// The prompt that ends exploration.
pub open spec fn synthesis_prompt() -> Seq<char> {
    "Stop investigating now. Using only what you've already gathered, produce the final answer — no prose preamble, no tool calls."@
}

impl<H, A, W: WireFormat> BackendView<H, A, W> {
    /// The request for a turn.
    pub open spec fn ask(
        self,
        model: Seq<char>,
        messages: Seq<JsonView>,
        tools: Seq<JsonView>,
        tool_choice: Seq<char>,
    ) -> ExchangeView {
        first_attempt(
            self.client,
            self.wire.path_text(),
            self.wire.body(
                WireRequestView { model, messages, tools, tool_choice, policy: self.policy },
            ),
        )
    }

    /// How a run starts.
    pub open spec fn begin(self, req: RequestView) -> (Seq<EventView>, StepView<H>) {
        let (tools, missing) = scoped(self.tools, req.tool_scope);
        (
            missing.map_values(|name: Seq<char>| scope_warning(name)),
            StepView::Check(
                RunView {
                    tools,
                    messages: opening(req),
                    turn: 0,
                    total_tokens: 0,
                    content: None,
                },
            ),
        )
    }

    /// How a run ends.
    pub open spec fn finish(self, run: RunView, stop: StopView) -> (Seq<EventView>, StepView<H>) {
        (
            seq![
                EventView::Finished {
                    turns: run.turn,
                    total_tokens: run.total_tokens,
                    reason: stop,
                },
            ],
            StepView::Done(
                EndingView {
                    content: run.content,
                    turns: run.turn,
                    total_tokens: run.total_tokens,
                    stop_reason: stop,
                    messages: run.messages,
                    model: self.policy.display(),
                },
            ),
        )
    }

    /// What follows exploration: the synthesis where the policy wants one and
    /// exploration is done, otherwise the end.
    pub open spec fn stop_exploring(self, run: RunView, stop: StopView) -> (
        Seq<EventView>,
        StepView<H>,
    ) {
        if (stop is Complete || stop is MaxTurns) && self.policy.final_synthesis {
            (Seq::empty(), StepView::Conclude(run, stop))
        } else {
            self.finish(run, stop)
        }
    }

    /// The `tool_choice` of an exploration turn.
    pub open spec fn choice(self, turn: int) -> Seq<char> {
        if turn == 1 {
            self.policy.initial_tool_choice
        } else {
            "auto"@
        }
    }

    /// What follows a look at the interrupt flag and the clock.
    pub open spec fn check(self, run: RunView, interrupted: bool, elapsed: nat) -> (
        Seq<EventView>,
        StepView<H>,
    ) {
        match halt(self.policy, run, interrupted, elapsed) {
            Some(stop) => self.stop_exploring(run, stop),
            None => {
                let turn = (run.turn + 1) as u32;
                let messages = trimmed(run.messages, self.policy.max_history_chars as int);
                (
                    seq![EventView::TurnStart { turn }],
                    StepView::Explore(
                        RunView { turn, messages, ..run },
                        self.ask(
                            self.policy.explore,
                            messages,
                            run.tools,
                            self.choice(turn as int),
                        ),
                    ),
                )
            },
        }
    }

    /// What follows an exploration request.
    pub open spec fn explored(self, run: RunView, outcome: Result<JsonView, ErrorView>) -> Result<
        (Seq<EventView>, StepView<H>),
        ErrorView,
    > {
        match outcome {
            Ok(data) => match self.wire.turn(data) {
                Ok((message, tokens)) => {
                    let calls = message.at("tool_calls"@).elements();
                    let next = run.replied(message, tokens);
                    Ok(
                        after_reporting(
                            reply_events(run.turn, message, tokens, calls.len() > 0),
                            if calls.len() == 0 {
                                self.stop_exploring(next, StopView::Complete)
                            } else {
                                (
                                    Seq::empty(),
                                    StepView::TakeCall(
                                        CallsView { run: next, calls, next: 0, executed: 0 },
                                    ),
                                )
                            },
                        ),
                    )
                },
                Err(e) => Err(e),
            },
            Err(e) => Err(e),
        }
    }

    /// What is done about a call that was approved or rejected.
    pub open spec fn decide(
        self,
        call: CallView,
        args: Result<JsonView, ToolErrorView>,
        approved: bool,
    ) -> StepView<H> {
        if !approved {
            StepView::Settled(
                call,
                Ok(
                    OutputView {
                        content: "Tool execution was rejected by the user."@,
                        is_error: true,
                    },
                ),
            )
        } else {
            match args {
                Ok(raw) => match dispatch(self.tools, call.name, raw) {
                    Ok((handle, args)) => StepView::RunTool(call, handle, args),
                    Err(e) => StepView::Settled(call, Err(e)),
                },
                Err(e) => StepView::Settled(call, Err(e)),
            }
        }
    }

    /// What follows a look at the interrupt flag before a call. `parsed` is what
    /// the text of its arguments was read as.
    pub open spec fn take_call(
        self,
        calls: CallsView,
        interrupted: bool,
        parsed: Result<JsonView, Seq<char>>,
    ) -> (Seq<EventView>, StepView<H>) {
        if interrupted {
            let answers = sealed(calls.calls.skip(calls.next), "[not executed: run interrupted]"@);
            self.finish(
                RunView { messages: calls.run.messages + answers, ..calls.run },
                StopView::Interrupted,
            )
        } else {
            let call = calls.taken();
            let args = tool_args(call.name, call.arguments, parsed);
            (
                seq![
                    EventView::ToolStart {
                        turn: calls.run.turn,
                        tool: call.name,
                        call_id: call.id,
                    },
                ],
                match args {
                    Ok(raw) if self.approver is Some => StepView::Gate(call, raw),
                    _ => self.decide(call, args, true),
                },
            )
        }
    }

    /// What follows the question whether a call needs a decision.
    pub open spec fn gate(self, call: CallView, args: JsonView, needed: bool) -> (
        Seq<EventView>,
        StepView<H>,
    ) {
        if needed {
            (
                seq![
                    EventView::ToolApprovalRequired {
                        turn: call.calls.run.turn,
                        tool: call.name,
                        call_id: call.id,
                        arguments: call.arguments,
                    },
                ],
                StepView::Approve(call, args),
            )
        } else {
            (Seq::empty(), self.decide(call, Ok(args), true))
        }
    }

    /// What follows a call that a tool answered.
    pub open spec fn answered(self, call: CallView, output: OutputView, elapsed: nat) -> (
        Seq<EventView>,
        StepView<H>,
    ) {
        let run = RunView {
            messages: call.calls.run.messages.push(tool_message(call.id, output.content)),
            ..call.calls.run
        };
        let executed = wrapped(call.calls.executed + 1);
        after_reporting(
            seq![call.complete(!output.is_error, output.content, elapsed)],
            if call.calls.next + 1 < call.calls.calls.len() {
                (
                    Seq::empty(),
                    StepView::TakeCall(
                        CallsView { run, next: call.calls.next + 1, executed, ..call.calls },
                    ),
                )
            } else {
                (
                    seq![EventView::TurnComplete { turn: run.turn, tools_executed: executed }],
                    StepView::Check(run),
                )
            },
        )
    }

    /// What follows a call whose failure ends the run.
    pub open spec fn aborted(self, call: CallView, e: ToolErrorView, elapsed: nat) -> (
        Seq<EventView>,
        StepView<H>,
    ) {
        let answer = tool_message(call.id, e.message());
        let unanswered = sealed(
            call.calls.calls.skip(call.calls.next + 1),
            "[not executed: run aborted after a tool failure]"@,
        );
        after_reporting(
            seq![call.complete(false, e.message(), elapsed)],
            self.finish(
                RunView {
                    messages: call.calls.run.messages.push(answer) + unanswered,
                    ..call.calls.run
                },
                StopView::Error(e.message()),
            ),
        )
    }

    /// What follows a call.
    pub open spec fn completed(
        self,
        call: CallView,
        result: Result<OutputView, ToolErrorView>,
        elapsed: nat,
    ) -> (Seq<EventView>, StepView<H>) {
        match result {
            Ok(output) => self.answered(call, output, elapsed),
            Err(e) => if self.policy.continue_on_tool_error {
                self.answered(
                    call,
                    OutputView { content: e.message(), is_error: true },
                    elapsed,
                )
            } else {
                self.aborted(call, e, elapsed)
            },
        }
    }

    /// What follows exploration that is done: the synthesis, unless the run was
    /// interrupted or has reached the token threshold.
    pub open spec fn conclude(self, run: RunView, stop: StopView, interrupted: bool) -> (
        Seq<EventView>,
        StepView<H>,
    ) {
        if interrupted {
            self.finish(run, StopView::Interrupted)
        } else if let Some(limit) = threshold_reached(self.policy, run) {
            self.finish(run, StopView::MaxTokens(limit))
        } else {
            let turn = wrapped(run.turn + 1);
            let messages = trimmed(
                run.messages.push(message("user"@, synthesis_prompt())),
                self.policy.max_history_chars as int,
            );
            (
                seq![EventView::TurnStart { turn }],
                StepView::Synthesize(
                    RunView { turn, messages, ..run },
                    stop,
                    self.ask(self.policy.synthesize, messages, run.tools, "none"@),
                ),
            )
        }
    }

    /// What follows the synthesis request.
    pub open spec fn synthesized(
        self,
        run: RunView,
        stop: StopView,
        outcome: Result<JsonView, ErrorView>,
    ) -> Result<(Seq<EventView>, StepView<H>), ErrorView> {
        match outcome {
            Ok(data) => match self.wire.turn(data) {
                Ok((message, tokens)) => Ok(
                    after_reporting(
                        reply_events(run.turn, message, tokens, false).push(
                            EventView::TurnComplete { turn: run.turn, tools_executed: 0 },
                        ),
                        self.finish(run.replied(message, tokens), stop),
                    ),
                ),
                Err(e) => Err(e),
            },
            Err(e) => Err(e),
        }
    }
}

impl CallsView {
    /// The call that is next, as the model made it.
    pub open spec fn taken(self) -> CallView {
        let call = self.calls[self.next];
        CallView {
            calls: self,
            id: call.at("id"@).str_or(""@),
            name: call.at("function"@).at("name"@).str_or(""@),
            arguments: call.at("function"@).at("arguments"@).str_or("{}"@),
        }
    }
}

impl CallView {
    /// The event for the end of the call.
    pub open spec fn complete(self, ok: bool, output: Seq<char>, elapsed: nat) -> EventView {
        EventView::ToolComplete {
            turn: self.calls.run.turn,
            tool: self.name,
            call_id: self.id,
            ok,
            duration_ms: millis_of(elapsed),
            output_preview: preview(output),
        }
    }
}

/// Add an event to those to report.
fn report(events: &mut Vec<AgentEvent>, event: AgentEvent)
    ensures
        event_views(final(events)@) == event_views(old(events)@).push(event@),
{
    let ghost before = event_views(events@);
    events.push(event);
    assert(event_views(events@) =~= before.push(event@));
}

/// No events.
fn quiet() -> (res: Vec<AgentEvent>)
    ensures
        event_views(res@) == Seq::<EventView>::empty(),
{
    let events: Vec<AgentEvent> = Vec::new();
    assert(event_views(events@) =~= Seq::empty());
    events
}

/// Report a reply.
fn report_reply(
    events: &mut Vec<AgentEvent>,
    turn: u32,
    message: &Json,
    tokens: u32,
    calls: bool,
)
    ensures
        event_views(final(events)@) == event_views(old(events)@) + reply_events(
            turn,
            message@,
            tokens,
            calls,
        ),
{
    let ghost before = event_views(events@);
    if tokens > 0 {
        report(
            events,
            AgentEvent::Usage {
                prompt_tokens: None,
                completion_tokens: None,
                total_tokens: tokens,
            },
        );
    }
    let text = message.at("content").as_str();
    report(
        events,
        AgentEvent::TurnResponse {
            turn,
            has_tool_calls: calls,
            content_preview: match text {
                Some(c) => Some(clip(c, 100)),
                None => None,
            },
        },
    );
    if let Some(t) = text {
        if t.unicode_len() > 0 {
            report(events, AgentEvent::ContentToken(t.to_owned()));
        }
    }
    assert(event_views(events@) =~= before + reply_events(turn, message@, tokens, calls));
}

impl Run {
    /// Take in a reply.
    fn take_in(&mut self, message: Json, tokens: u32)
        ensures
            final(self)@ == old(self)@.replied(message@, tokens),
    {
        let ghost before = self@;
        self.total_tokens = self.total_tokens.wrapping_add(tokens);
        if let Some(t) = message.at("content").as_str() {
            if t.unicode_len() > 0 {
                self.content = Some(t.to_owned());
            }
        }
        let ghost m = message@;
        self.messages.push(message);
        assert(self@.messages =~= before.messages.push(m));
    }
}

/// The conversation that a request starts with.
fn opening_messages(system_prompt: &str, user_prompt: &str, prior: Vec<Json>) -> (res: Vec<Json>)
    ensures
        views(res@) == opening(
            (RequestView {
                system_prompt: system_prompt@,
                user_prompt: user_prompt@,
                messages: views(prior@),
                tool_scope: Seq::empty(),
            }),
        ),
{
    let ghost before = views(prior@);
    let mut messages = prior;
    let system = spoken("system", system_prompt);
    let ghost sys = system@;
    if messages.len() == 0 {
        messages.push(system);
        assert(views(messages@) =~= seq![sys]);
    } else if system_prompt.unicode_len() > 0 {
        if messages[0].at("role").is_str("system") {
            messages.set(0, system);
            assert(views(messages@) =~= before.update(0, sys));
        } else {
            messages.insert(0, system);
            assert(views(messages@) =~= seq![sys] + before);
        }
    }
    let ghost spliced = views(messages@);
    let user = spoken("user", user_prompt);
    let ghost u = user@;
    messages.push(user);
    assert(views(messages@) =~= spliced.push(u));
    messages
}

/// Whether a flag was made lowered, by `AtomicBool::new(false)`.
pub open spec fn made_unset(flag: AtomicBool) -> bool {
    call_ensures(AtomicBool::new, (false,), flag)
}

impl<H, A> ChatBackend<H, A, ChatCompletions> {
    /// A backend that talks to a chat endpoint, with a lowered interrupt flag of
    /// its own.
    ///
    /// Note there is no constructor that yields a backend with *no* transport. A
    /// delegated backend is a different type, not this one built with fields
    /// missing.
    #[must_use]
    pub fn new(chat: ChatClient, tools: Arc<ToolRegistry<H>>, policy: ModelPolicy) -> (res: Self)
        ensures
            res@.client == chat.cfg(),
            res@.tools == tools@,
            res@.policy == policy@,
            made_unset(*res@.interrupt),
            res@.approver is None,
            res@.wire == ChatCompletions,
    {
        ChatBackend {
            chat,
            tools,
            policy,
            interrupt: Arc::new(AtomicBool::new(false)),
            approver: None,
            wire: ChatCompletions,
        }
    }
}

impl<H, A, W: WireFormat> ChatBackend<H, A, W> {
    /// The backend's name, for logs and attribution.
    pub fn name(&self) -> (res: &str)
        ensures
            res@ == "chat"@,
    {
        "chat"
    }

    /// Gate tool execution behind an approver.
    ///
    /// Without one, every tool runs. That is the right default for a library
    /// caller, and the wrong one for an interactive host.
    #[must_use]
    pub fn with_approver(self, approver: A) -> (res: Self)
        ensures
            res@ == (BackendView { approver: Some(approver), ..self@ }),
    {
        let mut backend = self;
        backend.approver = Some(approver);
        backend
    }

    /// What decides about tool calls.
    pub fn approver(&self) -> (res: Option<&A>)
        ensures
            match res {
                Some(a) => self@.approver == Some(*a),
                None => self@.approver is None,
            },
    {
        match &self.approver {
            Some(a) => Some(a),
            None => None,
        }
    }

    /// Share an interrupt flag so a caller can cancel a run in flight.
    #[must_use]
    pub fn with_interrupt(self, flag: Arc<AtomicBool>) -> (res: Self)
        ensures
            res@ == (BackendView { interrupt: flag, ..self@ }),
    {
        let mut backend = self;
        backend.interrupt = flag;
        backend
    }

    /// The flag this backend watches.
    #[must_use]
    pub fn interrupt_flag(&self) -> (res: Arc<AtomicBool>)
        ensures
            res == self@.interrupt,
    {
        self.interrupt.clone()
    }

    /// Speak another endpoint schema.
    #[must_use]
    pub fn with_wire_format<V: WireFormat>(self, wire: V) -> (res: ChatBackend<H, A, V>)
        ensures
            res@ == (BackendView {
                client: self@.client,
                tools: self@.tools,
                policy: self@.policy,
                interrupt: self@.interrupt,
                approver: self@.approver,
                wire,
            }),
    {
        ChatBackend {
            chat: self.chat,
            tools: self.tools,
            policy: self.policy,
            interrupt: self.interrupt,
            approver: self.approver,
            wire,
        }
    }

    /// Send an extra top-level field in every request body.
    #[must_use]
    pub fn with_extra_field<K: IntoText>(self, key: K, value: Json) -> (res: Self)
        ensures
            res@ == (BackendView {
                policy: PolicyView {
                    extra_body: self@.policy.extra_body.insert(key.text(), value@),
                    ..self@.policy
                },
                ..self@
            }),
    {
        let mut backend = self;
        backend.policy.extra_body.insert(key.into_text(), value);
        backend
    }

    /// Send extra top-level fields in every request body.
    #[must_use]
    pub fn with_extra_body(self, extra: JsonMap) -> (res: Self)
        ensures
            res@ == (BackendView {
                policy: PolicyView {
                    extra_body: self@.policy.extra_body.union_prefer_right(extra@),
                    ..self@.policy
                },
                ..self@
            }),
    {
        let mut backend = self;
        backend.policy.extra_body.extend_from(&extra);
        backend
    }

    /// The definitions for a scope, and the names in it that are not registered.
    pub fn tool_defs(&self, scope: &[String]) -> (res: (Vec<Json>, Vec<String>))
        ensures
            (views(res.0@), string_views(res.1@)) == scoped(self@.tools, string_views(scope@)),
    {
        if scope.len() == 0 {
            let missing: Vec<String> = Vec::new();
            assert(string_views(missing@) =~= Seq::empty());
            return (self.tools.definitions(), missing);
        }
        let mut names: Vec<&str> = Vec::new();
        for i in 0..scope.len()
            invariant
                names@.len() == i,
                forall|j: int| 0 <= j < i ==> (#[trigger] names@[j])@ == scope@[j]@,
        {
            names.push(scope[i].as_str());
        }
        assert(texts(names@) =~= string_views(scope@));
        let (defs, missing) = self.tools.definitions_for(names.as_slice());
        (defs, missing)
    }

    /// The request for a turn.
    fn ask(
        &self,
        model: &str,
        messages: &[Json],
        tools: &[Json],
        tool_choice: &str,
    ) -> (res: Exchange)
        ensures
            res@ == self@.ask(model@, views(messages@), views(tools@), tool_choice@),
    {
        let body = self.wire.build_request(
            WireRequest { model, messages, tools, tool_choice, policy: &self.policy },
        );
        self.chat.post(self.wire.path(), &body)
    }

    /// Start a run.
    pub fn begin(&self, request: RunRequest) -> (res: (Vec<AgentEvent>, Step<'_, H>))
        ensures
            moved(res) == self@.begin(request@),
    {
        let (tools, missing) = self.tool_defs(request.tool_scope.as_slice());
        let mut events = quiet();
        let ghost names = string_views(missing@);
        let ghost warnings = names.map_values(|name: Seq<char>| scope_warning(name));
        assert(warnings.take(0) =~= Seq::empty());
        for i in 0..missing.len()
            invariant
                names == string_views(missing@),
                warnings == names.map_values(|name: Seq<char>| scope_warning(name)),
                event_views(events@) == warnings.take(i as int),
        {
            // A typo in a scope list must not silently yield a smaller toolbelt.
            let head = joined("tool `", missing[i].as_str());
            let text = joined(head.as_str(), "` in scope is not registered");
            report(&mut events, AgentEvent::Warning { turn: 0, message: text });
            assert(warnings.take(i + 1) =~= warnings.take(i as int).push(warnings[i as int]));
        }
        assert(warnings.take(missing@.len() as int) =~= warnings);
        let messages = opening_messages(
            request.system_prompt.as_str(),
            request.user_prompt.as_str(),
            request.messages,
        );
        let run = Run { tools, messages, turn: 0, total_tokens: 0, content: None };
        (events, Step::Check(run))
    }

    /// End a run. Reporting it lives here, so that no way out of the loop can
    /// leave it out.
    fn finish(&self, events: Vec<AgentEvent>, run: Run, stop: StopReason) -> (res: (
        Vec<AgentEvent>,
        Step<'_, H>,
    ))
        ensures
            moved(res) == after_reporting(event_views(events@), self@.finish(run@, stop@)),
    {
        let mut events = events;
        let ghost before = event_views(events@);
        report(
            &mut events,
            AgentEvent::Finished {
                turns: run.turn,
                total_tokens: run.total_tokens,
                reason: stop.clone(),
            },
        );
        let ending = Ending {
            content: run.content,
            turns: run.turn,
            total_tokens: run.total_tokens,
            stop_reason: stop,
            messages: run.messages,
            model: self.policy.display_model(),
        };
        assert(event_views(events@) =~= before + self@.finish(run@, stop@).0);
        (events, Step::Done(ending))
    }

    /// End exploration.
    ///
    /// A run synthesizes once exploration is *done* — whether it finished
    /// naturally or hit the turn cap. Both mean "gather no more, now produce the
    /// answer from what you have". A hard stop (interrupt / token / time budget)
    /// does skip synthesis: those mean "stop spending".
    fn stop_exploring(&self, events: Vec<AgentEvent>, run: Run, stop: StopReason) -> (res: (
        Vec<AgentEvent>,
        Step<'_, H>,
    ))
        ensures
            moved(res) == after_reporting(event_views(events@), self@.stop_exploring(run@, stop@)),
    {
        let done = match &stop {
            StopReason::Complete => true,
            StopReason::MaxTurns(_) => true,
            _ => false,
        };
        if done && self.policy.final_synthesis {
            assert(event_views(events@) =~= event_views(events@) + Seq::empty());
            (events, Step::Conclude(run, stop))
        } else {
            self.finish(events, run, stop)
        }
    }

    /// The token threshold that a run has reached, if it has.
    fn reached_threshold(&self, run: &Run) -> (res: Option<u32>)
        ensures
            res == threshold_reached(self@.policy, run@),
    {
        match self.policy.stop_after_tokens {
            Some(limit) => if run.total_tokens >= limit {
                Some(limit)
            } else {
                None
            },
            None => None,
        }
    }

    /// Why no further turn is started, if it is not.
    fn halt(&self, run: &Run, interrupted: bool, elapsed: Duration) -> (res: Option<StopReason>)
        ensures
            match res {
                Some(stop) => halt(self@.policy, run@, interrupted, nanos(elapsed)) == Some(stop@),
                None => halt(self@.policy, run@, interrupted, nanos(elapsed)) is None,
            },
    {
        if interrupted {
            return Some(StopReason::Interrupted);
        }
        if run.turn >= self.policy.max_turns {
            return Some(StopReason::MaxTurns(self.policy.max_turns));
        }
        if let Some(limit) = self.reached_threshold(run) {
            // Threshold, not ceiling — see ModelPolicy::stop_after_tokens.
            return Some(StopReason::MaxTokens(limit));
        }
        if let Some(secs) = self.policy.timeout_secs {
            if elapsed.as_nanos() > Duration::from_secs(secs).as_nanos() {
                return Some(StopReason::Timeout(secs));
            }
        }
        None
    }

    /// Start a turn, unless the run has to stop: `interrupted` is the interrupt
    /// flag, `elapsed` the time since the run started.
    pub fn check(&self, run: Run, interrupted: bool, elapsed: Duration) -> (res: (
        Vec<AgentEvent>,
        Step<'_, H>,
    ))
        ensures
            moved(res) == self@.check(run@, interrupted, nanos(elapsed)),
    {
        let mut events = quiet();
        if let Some(stop) = self.halt(&run, interrupted, elapsed) {
            let res = self.stop_exploring(events, run, stop);
            assert(moved(res).0 =~= self@.check(run@, interrupted, nanos(elapsed)).0);
            return res;
        }
        let ghost before = run@;
        let mut run = run;
        run.turn += 1;
        report(&mut events, AgentEvent::TurnStart { turn: run.turn });
        trim_history(run.messages.as_mut_slice(), self.policy.max_history_chars);
        let tool_choice = if run.turn == 1 {
            self.policy.initial_tool_choice.as_str()
        } else {
            "auto"
        };
        let exchange = self.ask(
            self.policy.explore.as_str(),
            run.messages.as_slice(),
            run.tools.as_slice(),
            tool_choice,
        );
        assert(event_views(events@) =~= seq![EventView::TurnStart { turn: run.turn }]);
        (events, Step::Explore(run, exchange))
    }

    /// Take in what an exploration request came to.
    ///
    /// # Errors
    /// Whatever the request failed with, or what is wrong with its reply.
    pub fn explored(&self, run: Run, outcome: Result<Json, AgentError>) -> (res: Result<
        (Vec<AgentEvent>, Step<'_, H>),
        AgentError,
    >)
        ensures
            moved_or_failed(res) == self@.explored(run@, result_view(outcome)),
    {
        let data = match outcome {
            Ok(data) => data,
            Err(e) => {
                return Err(e);
            },
        };
        let (message, tokens) = match self.wire.parse_response(&data) {
            Ok(turn) => turn,
            Err(e) => {
                return Err(e);
            },
        };
        let mut run = run;
        let ghost (before, said) = (run@, message@);
        let calls = match message.at("tool_calls").as_array() {
            Some(list) => copies(list.as_slice()),
            None => {
                let none: Vec<Json> = Vec::new();
                assert(views(none@) =~= Seq::empty());
                none
            },
        };
        let mut events = quiet();
        report_reply(&mut events, run.turn, &message, tokens, calls.len() > 0);
        run.take_in(message, tokens);
        let ghost reply = reply_events(before.turn, said, tokens, calls@.len() > 0);
        assert(event_views(events@) =~= reply);
        if calls.len() == 0 {
            return Ok(self.stop_exploring(events, run, StopReason::Complete));
        }
        assert(reply + Seq::empty() =~= reply);
        Ok((events, Step::TakeCall(Calls { run, calls, next: 0, executed: 0 })))
    }

    /// What is done about a call that was approved or rejected.
    fn decide(&self, call: Call, args: Result<Json, ToolError>, approved: bool) -> (res: Step<
        '_,
        H,
    >)
        ensures
            res@ == self@.decide(call@, args_view(args), approved),
    {
        if !approved {
            return Step::Settled(
                call,
                Ok(ToolOutput::error("Tool execution was rejected by the user.")),
            );
        }
        match args {
            Ok(raw) => match self.tools.call(call.name.as_str(), raw) {
                Ok((handle, args)) => Step::RunTool(call, handle, args),
                Err(e) => Step::Settled(call, Err(e)),
            },
            Err(e) => Step::Settled(call, Err(e)),
        }
    }

    /// Take up the next call of a turn, unless the run is interrupted.
    pub fn take_call(&self, calls: Calls, interrupted: bool) -> (res: (
        Vec<AgentEvent>,
        Step<'_, H>,
    ))
        ensures
            moved(res) == self@.take_call(
                calls@,
                interrupted,
                json_of_text(trim_text(calls@.taken().arguments)),
            ),
    {
        if interrupted {
            return self.take_call_of(calls, true, Err(String::new()));
        }
        proof {
            use_type_invariant(&calls);
        }
        let call = &calls.calls[calls.next];
        let parsed = parse_json(call.at("function").at("arguments").str_or("{}").trim());
        self.take_call_of(calls, false, parsed)
    }

    /// Take up the next call of a turn, whose arguments `parsed` was read from,
    /// unless the run is interrupted.
    pub fn take_call_of(
        &self,
        calls: Calls,
        interrupted: bool,
        parsed: Result<Json, String>,
    ) -> (res: (Vec<AgentEvent>, Step<'_, H>))
        ensures
            moved(res) == self@.take_call(calls@, interrupted, parsed_view(parsed)),
    {
        proof {
            use_type_invariant(&calls);
        }
        let mut events = quiet();
        if interrupted {
            let Calls { run, calls: list, next, executed } = calls;
            let mut run = run;
            let pending = slice_subrange(list.as_slice(), next, list.len());
            assert(views(pending@) =~= views(list@).skip(next as int));
            seal_unanswered(&mut run.messages, pending, "[not executed: run interrupted]");
            let res = self.finish(events, run, StopReason::Interrupted);
            assert(moved(res).0 =~= self@.take_call(calls@, true, parsed_view(parsed)).0);
            return res;
        }
        let call = &calls.calls[calls.next];
        let id = call.at("id").str_or("").to_owned();
        let name = call.at("function").at("name").str_or("").to_owned();
        let arguments = call.at("function").at("arguments").str_or("{}").to_owned();
        report(
            &mut events,
            AgentEvent::ToolStart {
                turn: calls.run.turn,
                tool: name.clone(),
                call_id: id.clone(),
            },
        );
        // Read once and shared by the approver and dispatch, so that both see the
        // same arguments.
        let args = parse_tool_args_of(name.as_str(), arguments.as_str(), parsed);
        let taken = Call { calls, id, name, arguments };
        assert(taken@ == calls@.taken());
        assert(event_views(events@) =~= self@.take_call(calls@, false, parsed_view(parsed)).0);
        match args {
            Ok(raw) => if self.approver.is_some() {
                (events, Step::Gate(taken, raw))
            } else {
                (events, self.decide(taken, Ok(raw), true))
            },
            // Arguments that cannot be read leave nothing meaningful to approve:
            // dispatch rejects them.
            Err(e) => (events, self.decide(taken, Err(e), true)),
        }
    }

    /// Have a call decided on where that is `needed`, otherwise let it run.
    pub fn gate(&self, call: Call, args: Json, needed: bool) -> (res: (
        Vec<AgentEvent>,
        Step<'_, H>,
    ))
        ensures
            moved(res) == self@.gate(call@, args@, needed),
    {
        let mut events = quiet();
        if needed {
            report(
                &mut events,
                AgentEvent::ToolApprovalRequired {
                    turn: call.calls.run.turn,
                    tool: call.name.clone(),
                    call_id: call.id.clone(),
                    arguments: call.arguments.clone(),
                },
            );
            assert(event_views(events@) =~= self@.gate(call@, args@, true).0);
            (events, Step::Approve(call, args))
        } else {
            (events, self.decide(call, Ok(args), true))
        }
    }

    /// Run a call that was approved. A rejection is reported to the model as a
    /// tool result, not an error — the agent can choose another route.
    pub fn decided(&self, call: Call, args: Json, approved: bool) -> (res: (
        Vec<AgentEvent>,
        Step<'_, H>,
    ))
        ensures
            moved(res) == (
                Seq::<EventView>::empty(),
                self@.decide(call@, Ok(args@), approved),
            ),
    {
        (quiet(), self.decide(call, Ok(args), approved))
    }

    /// Take in what a call came to, which took `elapsed`.
    pub fn completed(
        &self,
        call: Call,
        result: Result<ToolOutput, ToolError>,
        elapsed: Duration,
    ) -> (res: (Vec<AgentEvent>, Step<'_, H>))
        ensures
            moved(res) == self@.completed(call@, tool_result(result), nanos(elapsed)),
    {
        match result {
            Ok(output) => self.answered(call, output, elapsed),
            Err(e) => if self.policy.continue_on_tool_error {
                self.answered(call, e.to_tool_output(), elapsed)
            } else {
                self.aborted(call, e, elapsed)
            },
        }
    }

    /// Answer a call and go on.
    fn answered(&self, call: Call, output: ToolOutput, elapsed: Duration) -> (res: (
        Vec<AgentEvent>,
        Step<'_, H>,
    ))
        ensures
            moved(res) == self@.answered(
                call@,
                (OutputView { content: output.content@, is_error: output.is_error }),
                nanos(elapsed),
            ),
    {
        let ghost out = OutputView { content: output.content@, is_error: output.is_error };
        let ghost expected = self@.answered(call@, out, nanos(elapsed));
        let ghost before = call@.calls.run;
        let Call { calls, id, name, arguments } = call;
        proof {
            use_type_invariant(&calls);
        }
        let Calls { run, calls: list, next, executed } = calls;
        let mut run = run;
        let mut events = quiet();
        let answer = tool_answer(id.as_str(), output.content.as_str());
        report(
            &mut events,
            AgentEvent::ToolComplete {
                turn: run.turn,
                tool: name,
                call_id: id,
                ok: !output.is_error,
                duration_ms: whole_millis(elapsed),
                output_preview: clip(output.content.as_str(), 100),
            },
        );
        let ghost a = answer@;
        run.messages.push(answer);
        assert(run@.messages =~= before.messages.push(a));
        let executed = executed.wrapping_add(1);
        let count: usize = list.len();
        if next + 1 < count {
            assert(event_views(events@) =~= expected.0);
            (events, Step::TakeCall(Calls { run, calls: list, next: next + 1, executed }))
        } else {
            report(
                &mut events,
                AgentEvent::TurnComplete { turn: run.turn, tools_executed: executed },
            );
            assert(event_views(events@) =~= expected.0);
            (events, Step::Check(run))
        }
    }

    /// End the run for the failure of a call.
    fn aborted(&self, call: Call, e: ToolError, elapsed: Duration) -> (res: (
        Vec<AgentEvent>,
        Step<'_, H>,
    ))
        ensures
            moved(res) == self@.aborted(call@, e@, nanos(elapsed)),
    {
        let ghost expected = self@.aborted(call@, e@, nanos(elapsed));
        let ghost before = call@.calls.run;
        let Call { calls, id, name, arguments } = call;
        proof {
            use_type_invariant(&calls);
        }
        let Calls { run, calls: list, next, executed } = calls;
        let mut run = run;
        let mut events = quiet();
        let text = e.to_string();
        // This call *did* run — its real error is persisted, so the resumed
        // transcript says what actually went wrong. Only the calls after it never
        // started.
        let answer = tool_answer(id.as_str(), text.as_str());
        report(
            &mut events,
            AgentEvent::ToolComplete {
                turn: run.turn,
                tool: name,
                call_id: id,
                ok: false,
                duration_ms: whole_millis(elapsed),
                output_preview: clip(text.as_str(), 100),
            },
        );
        let ghost a = answer@;
        run.messages.push(answer);
        assert(run@.messages =~= before.messages.push(a));
        let count: usize = list.len();
        let pending = slice_subrange(list.as_slice(), next + 1, count);
        assert(views(pending@) =~= views(list@).skip(next + 1));
        seal_unanswered(
            &mut run.messages,
            pending,
            "[not executed: run aborted after a tool failure]",
        );
        let res = self.finish(events, run, StopReason::Error(text));
        assert(moved(res).0 =~= expected.0);
        res
    }

    /// Start the synthesis, unless the run is interrupted or has reached the token
    /// threshold.
    ///
    /// Both are looked at immediately before committing to the expensive call:
    /// the flag can flip while the last exploration response is in flight, that
    /// response can reach the threshold, and "stop spending" has to mean the
    /// strong model too.
    pub fn conclude(&self, run: Run, stop: StopReason, interrupted: bool) -> (res: (
        Vec<AgentEvent>,
        Step<'_, H>,
    ))
        ensures
            moved(res) == self@.conclude(run@, stop@, interrupted),
    {
        let mut events = quiet();
        let ghost before = run@;
        if interrupted {
            let res = self.finish(events, run, StopReason::Interrupted);
            assert(moved(res).0 =~= self@.conclude(before, stop@, true).0);
            return res;
        }
        if let Some(limit) = self.reached_threshold(&run) {
            let res = self.finish(events, run, StopReason::MaxTokens(limit));
            assert(moved(res).0 =~= self@.conclude(before, stop@, false).0);
            return res;
        }
        let mut run = run;
        let prompt = spoken(
            "user",
            "Stop investigating now. Using only what you've already gathered, produce the final answer — no prose preamble, no tool calls.",
        );
        let ghost p = prompt@;
        run.messages.push(prompt);
        assert(run@.messages =~= before.messages.push(p));
        trim_history(run.messages.as_mut_slice(), self.policy.max_history_chars);
        run.turn = run.turn.wrapping_add(1);
        report(&mut events, AgentEvent::TurnStart { turn: run.turn });
        let exchange = self.ask(
            self.policy.synthesize.as_str(),
            run.messages.as_slice(),
            run.tools.as_slice(),
            "none",
        );
        assert(event_views(events@) =~= self@.conclude(before, stop@, false).0);
        (events, Step::Synthesize(run, stop, exchange))
    }

    /// Take in what the synthesis request came to, and end the run.
    ///
    /// The reason why exploration stopped is kept: a run that synthesized after
    /// the turn cap still reports `MaxTurns`, not `Complete` — the answer exists,
    /// but it was produced from capped context, and a caller should be able to
    /// tell.
    ///
    /// # Errors
    /// Whatever the request failed with, or what is wrong with its reply.
    pub fn synthesized(
        &self,
        run: Run,
        stop: StopReason,
        outcome: Result<Json, AgentError>,
    ) -> (res: Result<(Vec<AgentEvent>, Step<'_, H>), AgentError>)
        ensures
            moved_or_failed(res) == self@.synthesized(run@, stop@, result_view(outcome)),
    {
        let data = match outcome {
            Ok(data) => data,
            Err(e) => {
                return Err(e);
            },
        };
        let (message, tokens) = match self.wire.parse_response(&data) {
            Ok(turn) => turn,
            Err(e) => {
                return Err(e);
            },
        };
        let mut run = run;
        let mut events = quiet();
        let ghost reply = reply_events(run@.turn, message@, tokens, false);
        report_reply(&mut events, run.turn, &message, tokens, false);
        assert(event_views(events@) =~= reply);
        run.take_in(message, tokens);
        report(&mut events, AgentEvent::TurnComplete { turn: run.turn, tools_executed: 0 });
        Ok(self.finish(events, run, stop))
    }
}

} // verus!
