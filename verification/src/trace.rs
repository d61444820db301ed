//! Whole runs, and what holds of every one of them.
//!
//! A run is determined by the request that starts it and by what the host hands
//! back at each step. Here are the runs that can come of that, and the promises
//! that all of them keep.
use vstd::prelude::*;
use vstd::string::*;

use crate::backend::RequestView;
use crate::error::ErrorView;
use crate::events::{EventView, StopView};
use crate::history::{
    elided, is_tool_result, lemma_member_names, message, sealed, tool_message, trimmed,
};
use crate::json::{json_of_text, JsonView};
use crate::loop_runner::{
    opening, reply_events, said, synthesis_prompt, threshold_reached, usage_events, BackendView,
    CallView, CallsView, EndingView, OutputView, RunView, StepView,
};
use crate::provider::{wrapped, ExchangeView};
use crate::text::trim_text;
use crate::tools::{given_arguments, tool_args, ToolErrorView};
use crate::wire::WireFormat;

verus! {

/// What a host hands back.
pub enum Input {
    /// The interrupt flag, and the nanoseconds since the run started.
    Looked { interrupted: bool, elapsed: nat },
    /// What a request came to.
    Came(Result<JsonView, ErrorView>),
    /// The interrupt flag.
    Flag(bool),
    /// Whether a call needs a decision.
    Needed(bool),
    /// The decision about a call.
    Decided(bool),
    /// What a tool that was run came to, and how long it took.
    Ran(Result<OutputView, ToolErrorView>, nat),
    /// How long a call that nothing was run for took.
    Waited(nat),
}

/// Whether this is what a step asks for.
pub open spec fn asked_for<H>(step: StepView<H>, input: Input) -> bool {
    match step {
        StepView::Check(_) => input is Looked,
        StepView::Explore(..) => input is Came,
        StepView::TakeCall(_) => input is Flag,
        StepView::Gate(..) => input is Needed,
        StepView::Approve(..) => input is Decided,
        StepView::RunTool(..) => input is Ran,
        StepView::Settled(..) => input is Waited,
        StepView::Conclude(..) => input is Flag,
        StepView::Synthesize(..) => input is Came,
        StepView::Done(_) => false,
    }
}

/// What follows a step when the host hands back what it asks for.
#[verifier::opaque]
pub open spec fn next<H, A, W: WireFormat>(
    b: BackendView<H, A, W>,
    step: StepView<H>,
    input: Input,
) -> Result<(Seq<EventView>, StepView<H>), ErrorView> {
    match (step, input) {
        (StepView::Check(run), Input::Looked { interrupted, elapsed }) => Ok(
            b.check(run, interrupted, elapsed),
        ),
        (StepView::Explore(run, _), Input::Came(outcome)) => b.explored(run, outcome),
        (StepView::TakeCall(calls), Input::Flag(interrupted)) => Ok(
            b.take_call(calls, interrupted, json_of_text(trim_text(calls.taken().arguments))),
        ),
        (StepView::Gate(call, args), Input::Needed(needed)) => Ok(b.gate(call, args, needed)),
        (StepView::Approve(call, args), Input::Decided(approved)) => Ok(
            (Seq::empty(), b.decide(call, Ok(args), approved)),
        ),
        (StepView::RunTool(call, _, _), Input::Ran(result, elapsed)) => Ok(
            b.completed(call, result, elapsed),
        ),
        (StepView::Settled(call, result), Input::Waited(elapsed)) => Ok(
            b.completed(call, result, elapsed),
        ),
        (StepView::Conclude(run, stop), Input::Flag(interrupted)) => Ok(
            b.conclude(run, stop, interrupted),
        ),
        (StepView::Synthesize(run, stop, _), Input::Came(outcome)) => b.synthesized(
            run,
            stop,
            outcome,
        ),
        _ => Ok((Seq::empty(), step)),
    }
}

/// A request that was sent to a model.
#[verifier::ext_equal]
pub struct Ask {
    /// Whether it is the synthesis request.
    pub synthesis: bool,
    /// How far the run had come.
    pub run: RunView,
    /// What was sent.
    pub sent: ExchangeView,
}

/// The request that a step sends.
pub open spec fn asks_of<H>(step: StepView<H>) -> Seq<Ask> {
    match step {
        StepView::Explore(run, sent) => seq![Ask { synthesis: false, run, sent }],
        StepView::Synthesize(run, _, sent) => seq![Ask { synthesis: true, run, sent }],
        _ => Seq::empty(),
    }
}

/// A run so far.
pub struct Trace<H> {
    /// The events that were reported.
    pub events: Seq<EventView>,
    /// The requests that were sent to models.
    pub asks: Seq<Ask>,
    /// What the run asks for now.
    pub step: StepView<H>,
    /// The error that ended the run without an outcome, if one did.
    pub failed: Option<ErrorView>,
}

/// A run that has just started.
pub open spec fn started<H, A, W: WireFormat>(b: BackendView<H, A, W>, req: RequestView) -> Trace<
    H,
> {
    let (events, step) = b.begin(req);
    Trace { events, asks: Seq::empty(), step, failed: None }
}

/// A run after something was handed back. What was not asked for is let go.
pub open spec fn advanced<H, A, W: WireFormat>(
    b: BackendView<H, A, W>,
    t: Trace<H>,
    input: Input,
) -> Trace<H> {
    if t.failed is Some || !asked_for(t.step, input) {
        t
    } else {
        match next(b, t.step, input) {
            Ok((events, step)) => Trace {
                events: t.events + events,
                asks: t.asks + asks_of(step),
                step,
                failed: None,
            },
            Err(e) => Trace { failed: Some(e), ..t },
        }
    }
}

/// The run that comes of a request and of what a host hands back.
pub open spec fn played<H, A, W: WireFormat>(
    b: BackendView<H, A, W>,
    req: RequestView,
    inputs: Seq<Input>,
) -> Trace<H>
    decreases inputs.len(),
{
    if inputs.len() == 0 {
        started(b, req)
    } else {
        advanced(b, played(b, req, inputs.drop_last()), inputs.last())
    }
}

/// How far a run has come at a step.
pub open spec fn progress<H>(step: StepView<H>) -> RunView {
    match step {
        StepView::Check(run) => run,
        StepView::Explore(run, _) => run,
        StepView::TakeCall(calls) => calls.run,
        StepView::Gate(call, _) => call.calls.run,
        StepView::Approve(call, _) => call.calls.run,
        StepView::RunTool(call, _, _) => call.calls.run,
        StepView::Settled(call, _) => call.calls.run,
        StepView::Conclude(run, _) => run,
        StepView::Synthesize(run, _, _) => run,
        StepView::Done(ending) => RunView {
            tools: Seq::empty(),
            messages: ending.messages,
            turn: ending.turns,
            total_tokens: ending.total_tokens,
            content: ending.content,
        },
    }
}

/// Whether no event says that the run is over.
pub open spec fn unfinished(events: Seq<EventView>) -> bool {
    forall|i: int| 0 <= i < events.len() ==> !(#[trigger] events[i] is Finished)
}

/// The event that says how a run ended.
pub open spec fn end_event(ending: EndingView) -> EventView {
    EventView::Finished {
        turns: ending.turns,
        total_tokens: ending.total_tokens,
        reason: ending.stop_reason,
    }
}

/// Whether the events of a run tell of its end as they should at a step.
pub open spec fn end_told<H>(events: Seq<EventView>, step: StepView<H>) -> bool {
    match step {
        StepView::Done(ending) => {
            &&& events.len() > 0
            &&& events.last() == end_event(ending)
            &&& unfinished(events.drop_last())
        },
        _ => unfinished(events),
    }
}

/// The events of a step tell of the end if and only if the step leads to it.
proof fn lemma_step_end<H, A, W: WireFormat>(
    b: BackendView<H, A, W>,
    step: StepView<H>,
    input: Input,
)
    requires
        asked_for(step, input),
    ensures
        next(b, step, input) matches Ok((events, after)) ==> end_told(events, after),
{
    reveal(next);
}

/// What is told after events that do not tell of the end.
proof fn lemma_told_after<H>(before: Seq<EventView>, events: Seq<EventView>, step: StepView<H>)
    requires
        unfinished(before),
        end_told(events, step),
    ensures
        end_told(before + events, step),
{
    if step is Done {
        assert((before + events).drop_last() =~= before + events.drop_last());
    }
}

/// A run reports its end exactly once, after everything else, and as its outcome
/// says; a run that is still going or that failed has not reported it.
pub proof fn the_end_is_reported_once_and_last<H, A, W: WireFormat>(
    b: BackendView<H, A, W>,
    req: RequestView,
    inputs: Seq<Input>,
)
    ensures
        end_told(played(b, req, inputs).events, played(b, req, inputs).step),
        played(b, req, inputs).failed is Some ==> unfinished(played(b, req, inputs).events),
    decreases inputs.len(),
{
    if inputs.len() > 0 {
        let before = played(b, req, inputs.drop_last());
        the_end_is_reported_once_and_last(b, req, inputs.drop_last());
        if before.failed is None && asked_for(before.step, inputs.last()) {
            lemma_step_end(b, before.step, inputs.last());
            if let Ok((events, after)) = next(b, before.step, inputs.last()) {
                lemma_told_after(before.events, events, after);
            }
        }
    }
}

/// The tokens that events report.
pub open spec fn usage_sum(events: Seq<EventView>) -> nat
    decreases events.len(),
{
    if events.len() == 0 {
        0
    } else {
        usage_sum(events.drop_last()) + match events.last() {
            EventView::Usage { total_tokens, .. } => total_tokens as nat,
            _ => 0,
        }
    }
}

/// Tokens add up over events in a row.
proof fn lemma_usage_sum(a: Seq<EventView>, b: Seq<EventView>)
    ensures
        usage_sum(a + b) == usage_sum(a) + usage_sum(b),
    decreases b.len(),
{
    if b.len() == 0 {
        assert(a + b =~= a);
    } else {
        lemma_usage_sum(a, b.drop_last());
        assert((a + b).drop_last() =~= a + b.drop_last());
    }
}

/// The tokens that a reply reports.
proof fn lemma_reply_usage(turn: u32, message: JsonView, tokens: u32, calls: bool)
    ensures
        usage_sum(reply_events(turn, message, tokens, calls)) == tokens,
{
    reveal_with_fuel(usage_sum, 4);
    let events = reply_events(turn, message, tokens, calls);
    let used = usage_events(tokens);
    let rest = events.skip(used.len() as int);
    assert(events =~= used + rest);
    lemma_usage_sum(used, rest);
    assert(used.len() > 0 ==> used.drop_last() =~= Seq::empty());
    assert(rest.len() <= 2);
}

/// Events none of which reports tokens.
proof fn lemma_no_usage(events: Seq<EventView>)
    requires
        forall|i: int| 0 <= i < events.len() ==> !(#[trigger] events[i] is Usage),
    ensures
        usage_sum(events) == 0,
    decreases events.len(),
{
    if events.len() > 0 {
        lemma_no_usage(events.drop_last());
    }
}

/// Counting on in 32 bits.
proof fn lemma_wrapped(a: int, b: int)
    ensures
        wrapped(wrapped(a) + b) == wrapped(a + b),
{
}

/// The tokens that a run spends in a step are those that its events report.
proof fn lemma_step_usage<H, A, W: WireFormat>(
    b: BackendView<H, A, W>,
    step: StepView<H>,
    input: Input,
)
    requires
        asked_for(step, input),
    ensures
        next(b, step, input) matches Ok((events, after)) ==> progress(after).total_tokens
            == wrapped(progress(step).total_tokens + usage_sum(events)),
{
    reveal(next);
    if let Ok((events, after)) = next(b, step, input) {
        match (step, input) {
            (StepView::Explore(run, _), Input::Came(Ok(data))) => {
                let (message, tokens) = b.wire.turn(data)->Ok_0;
                let calls = message.at("tool_calls"@).elements();
                let reply = reply_events(run.turn, message, tokens, calls.len() > 0);
                lemma_reply_usage(run.turn, message, tokens, calls.len() > 0);
                let rest = events.skip(reply.len() as int);
                assert(events =~= reply + rest);
                lemma_usage_sum(reply, rest);
                lemma_no_usage(rest);
            },
            (StepView::Synthesize(run, _, _), Input::Came(Ok(data))) => {
                let (message, tokens) = b.wire.turn(data)->Ok_0;
                let reply = reply_events(run.turn, message, tokens, false);
                lemma_reply_usage(run.turn, message, tokens, false);
                let rest = events.skip(reply.len() as int);
                assert(events =~= reply + rest);
                lemma_usage_sum(reply, rest);
                lemma_no_usage(rest);
            },
            _ => {
                lemma_no_usage(events);
            },
        }
    }
}

/// The tokens that a run has spent are those that its events report, in 32 bits.
pub proof fn usage_adds_up<H, A, W: WireFormat>(
    b: BackendView<H, A, W>,
    req: RequestView,
    inputs: Seq<Input>,
)
    ensures
        progress(played(b, req, inputs).step).total_tokens == wrapped(
            usage_sum(played(b, req, inputs).events) as int,
        ),
    decreases inputs.len(),
{
    if inputs.len() == 0 {
        lemma_no_usage(played(b, req, inputs).events);
    } else {
        let before = played(b, req, inputs.drop_last());
        usage_adds_up(b, req, inputs.drop_last());
        if before.failed is None && asked_for(before.step, inputs.last()) {
            lemma_step_usage(b, before.step, inputs.last());
            if let Ok((events, after)) = next(b, before.step, inputs.last()) {
                lemma_usage_sum(before.events, events);
                lemma_wrapped(usage_sum(before.events) as int, usage_sum(events) as int);
            }
        }
    }
}

/// Whether no call cost more than this, as events tell it.
pub open spec fn each_within(events: Seq<EventView>, most: u32) -> bool {
    forall|i: int|
        0 <= i < events.len() ==> (#[trigger] events[i] matches EventView::Usage {
            total_tokens,
            ..
        } ==> total_tokens <= most)
}

/// What holds of the cost of every call holds of those of each part.
proof fn lemma_within_parts(a: Seq<EventView>, b: Seq<EventView>, most: u32)
    requires
        each_within(a + b, most),
    ensures
        each_within(a, most),
        each_within(b, most),
{
    assert forall|i: int| 0 <= i < a.len() implies (#[trigger] a[i] matches EventView::Usage {
        total_tokens,
        ..
    } ==> total_tokens <= most) by {
        assert((a + b)[i] == a[i]);
    }
    assert forall|i: int| 0 <= i < b.len() implies (#[trigger] b[i] matches EventView::Usage {
        total_tokens,
        ..
    } ==> total_tokens <= most) by {
        assert((a + b)[a.len() + i] == b[i]);
    }
}

/// What one call cost is what its reply reports.
proof fn lemma_reply_within(turn: u32, message: JsonView, tokens: u32, calls: bool, most: u32)
    requires
        each_within(reply_events(turn, message, tokens, calls), most),
    ensures
        tokens <= most,
{
    let events = reply_events(turn, message, tokens, calls);
    if tokens > 0 {
        assert(events[0] == usage_events(tokens)[0]);
    }
}

/// A step spends no more than one call, and nothing where no reply came in.
proof fn lemma_step_within<H, A, W: WireFormat>(
    b: BackendView<H, A, W>,
    step: StepView<H>,
    input: Input,
    most: u32,
)
    requires
        asked_for(step, input),
    ensures
        next(b, step, input) matches Ok((events, after)) ==> {
            &&& each_within(events, most) ==> usage_sum(events) <= most
            &&& !(step is Explore || step is Synthesize) ==> usage_sum(events) == 0
            &&& after is Explore || after is Synthesize ==> threshold_reached(
                b.policy,
                progress(after),
            ) is None
        },
{
    reveal(next);
    if let Ok((events, after)) = next(b, step, input) {
        match (step, input) {
            (StepView::Explore(run, _), Input::Came(Ok(data))) => {
                let (message, tokens) = b.wire.turn(data)->Ok_0;
                let calls = message.at("tool_calls"@).elements();
                lemma_reply_spent(run.turn, message, tokens, calls.len() > 0, events, most);
            },
            (StepView::Synthesize(run, _, _), Input::Came(Ok(data))) => {
                let (message, tokens) = b.wire.turn(data)->Ok_0;
                lemma_reply_spent(run.turn, message, tokens, false, events, most);
            },
            _ => {
                lemma_no_usage(events);
            },
        }
    }
}

/// What events that start with a reply report is what the reply cost.
proof fn lemma_reply_spent(
    turn: u32,
    message: JsonView,
    tokens: u32,
    calls: bool,
    events: Seq<EventView>,
    most: u32,
)
    requires
        reply_events(turn, message, tokens, calls).is_prefix_of(events),
        forall|i: int|
            reply_events(turn, message, tokens, calls).len() <= i < events.len() ==> !(
            #[trigger] events[i] is Usage),
    ensures
        usage_sum(events) == tokens,
        each_within(events, most) ==> tokens <= most,
{
    let reply = reply_events(turn, message, tokens, calls);
    let rest = events.skip(reply.len() as int);
    assert(events =~= reply + rest);
    lemma_usage_sum(reply, rest);
    lemma_reply_usage(turn, message, tokens, calls);
    lemma_no_usage(rest);
    if each_within(events, most) {
        assert forall|i: int| 0 <= i < reply.len() implies (#[trigger] reply[i]
            matches EventView::Usage { total_tokens, .. } ==> total_tokens <= most) by {
            assert(events[i] == reply[i]);
        }
        lemma_reply_within(turn, message, tokens, calls, most);
    }
}

/// The token threshold is overshot by no more than one call: where every call
/// costs at most the cap that is sent with it, a run never spends more than the
/// threshold and that cap together, with the synthesis or without.
pub proof fn the_threshold_is_overshot_by_one_call_at_most<H, A, W: WireFormat>(
    b: BackendView<H, A, W>,
    req: RequestView,
    inputs: Seq<Input>,
    limit: u32,
)
    requires
        b.policy.stop_after_tokens == Some(limit),
        each_within(played(b, req, inputs).events, b.policy.max_tokens),
    ensures
        progress(played(b, req, inputs).step).total_tokens <= limit + b.policy.max_tokens,
        played(b, req, inputs).step matches StepView::Done(ending) ==> ending.total_tokens <= limit
            + b.policy.max_tokens,
    decreases inputs.len(),
{
    if inputs.len() > 0 {
        let before = played(b, req, inputs.drop_last());
        if before.failed is None && asked_for(before.step, inputs.last()) && next(
            b,
            before.step,
            inputs.last(),
        ) is Ok {
            let (events, step) = next(b, before.step, inputs.last())->Ok_0;
            lemma_within_parts(before.events, events, b.policy.max_tokens);
            lemma_step_usage(b, before.step, inputs.last());
            lemma_step_within(b, before.step, inputs.last(), b.policy.max_tokens);
            if before.step is Explore || before.step is Synthesize {
                lemma_asked_below(b, req, inputs.drop_last());
            } else {
                the_threshold_is_overshot_by_one_call_at_most(
                    b,
                    req,
                    inputs.drop_last(),
                    limit,
                );
            }
        } else {
            the_threshold_is_overshot_by_one_call_at_most(b, req, inputs.drop_last(), limit);
        }
    }
}

/// While a request is under way, the run had not reached the threshold.
proof fn lemma_asked_below<H, A, W: WireFormat>(
    b: BackendView<H, A, W>,
    req: RequestView,
    inputs: Seq<Input>,
)
    ensures
        played(b, req, inputs).step is Explore || played(b, req, inputs).step is Synthesize
            ==> threshold_reached(b.policy, progress(played(b, req, inputs).step)) is None,
    decreases inputs.len(),
{
    if inputs.len() > 0 {
        let before = played(b, req, inputs.drop_last());
        lemma_asked_below(b, req, inputs.drop_last());
        if before.failed is None && asked_for(before.step, inputs.last()) {
            lemma_step_within(b, before.step, inputs.last(), 0);
        }
    }
}

/// What the model said last, as events tell it.
pub open spec fn last_said(events: Seq<EventView>) -> Option<Seq<char>>
    decreases events.len(),
{
    if events.len() == 0 {
        None
    } else {
        match events.last() {
            EventView::ContentToken(text) => Some(text),
            _ => last_said(events.drop_last()),
        }
    }
}

/// Of events in a row, the later ones tell what was said last.
proof fn lemma_last_said(a: Seq<EventView>, b: Seq<EventView>)
    ensures
        last_said(a + b) == match last_said(b) {
            Some(text) => Some(text),
            None => last_said(a),
        },
    decreases b.len(),
{
    if b.len() == 0 {
        assert(a + b =~= a);
    } else {
        lemma_last_said(a, b.drop_last());
        assert((a + b).drop_last() =~= a + b.drop_last());
    }
}

/// Events none of which tells that something was said.
proof fn lemma_nothing_said(events: Seq<EventView>)
    requires
        forall|i: int| 0 <= i < events.len() ==> !(#[trigger] events[i] is ContentToken),
    ensures
        last_said(events) is None,
    decreases events.len(),
{
    if events.len() > 0 {
        lemma_nothing_said(events.drop_last());
    }
}

/// What a reply says, as its events tell it.
proof fn lemma_reply_said(turn: u32, message: JsonView, tokens: u32, calls: bool)
    ensures
        last_said(reply_events(turn, message, tokens, calls)) == said(message),
{
    let events = reply_events(turn, message, tokens, calls);
    if said(message) is None {
        lemma_nothing_said(events);
    }
}

/// What the content of a run becomes in a step is what its events tell.
proof fn lemma_step_said<H, A, W: WireFormat>(
    b: BackendView<H, A, W>,
    step: StepView<H>,
    input: Input,
)
    requires
        asked_for(step, input),
    ensures
        next(b, step, input) matches Ok((events, after)) ==> progress(after).content
            == match last_said(events) {
            Some(text) => Some(text),
            None => progress(step).content,
        },
{
    reveal(next);
    if let Ok((events, after)) = next(b, step, input) {
        match (step, input) {
            (StepView::Explore(run, _), Input::Came(Ok(data))) => {
                let (message, tokens) = b.wire.turn(data)->Ok_0;
                let calls = message.at("tool_calls"@).elements();
                let reply = reply_events(run.turn, message, tokens, calls.len() > 0);
                lemma_reply_said(run.turn, message, tokens, calls.len() > 0);
                let rest = events.skip(reply.len() as int);
                assert(events =~= reply + rest);
                lemma_last_said(reply, rest);
                lemma_nothing_said(rest);
            },
            (StepView::Synthesize(run, _, _), Input::Came(Ok(data))) => {
                let (message, tokens) = b.wire.turn(data)->Ok_0;
                let reply = reply_events(run.turn, message, tokens, false);
                lemma_reply_said(run.turn, message, tokens, false);
                let rest = events.skip(reply.len() as int);
                assert(events =~= reply + rest);
                lemma_last_said(reply, rest);
                lemma_nothing_said(rest);
            },
            _ => {
                lemma_nothing_said(events);
            },
        }
    }
}

/// The content of a run is what the model said last, as the events tell it.
pub proof fn the_content_is_what_was_said_last<H, A, W: WireFormat>(
    b: BackendView<H, A, W>,
    req: RequestView,
    inputs: Seq<Input>,
)
    ensures
        progress(played(b, req, inputs).step).content == last_said(played(b, req, inputs).events),
    decreases inputs.len(),
{
    if inputs.len() == 0 {
        lemma_nothing_said(played(b, req, inputs).events);
    } else {
        let before = played(b, req, inputs.drop_last());
        the_content_is_what_was_said_last(b, req, inputs.drop_last());
        if before.failed is None && asked_for(before.step, inputs.last()) {
            lemma_step_said(b, before.step, inputs.last());
            if let Ok((events, after)) = next(b, before.step, inputs.last()) {
                lemma_last_said(before.events, events);
            }
        }
    }
}

/// Whether exploration came to its end, rather than being cut off.
pub open spec fn done_exploring(stop: StopView) -> bool {
    stop is Complete || stop is MaxTurns
}

/// Whether the last request was the synthesis request.
pub open spec fn synthesis_asked(asks: Seq<Ask>) -> bool {
    asks.len() > 0 && asks.last().synthesis
}

/// Whether the request `i` is what the policy wants.
pub open spec fn follows_policy<H, A, W: WireFormat>(
    b: BackendView<H, A, W>,
    asks: Seq<Ask>,
    i: int,
) -> bool {
    let ask = asks[i];
    &&& threshold_reached(b.policy, ask.run) is None
    &&& exists|whole: Seq<JsonView>|
        ask.run.messages == #[trigger] trimmed(whole, b.policy.max_history_chars as int)
    &&& if ask.synthesis {
        &&& i == asks.len() - 1
        &&& b.policy.final_synthesis
        &&& ask.sent == b.ask(b.policy.synthesize, ask.run.messages, ask.run.tools, "none"@)
    } else {
        &&& i < b.policy.max_turns
        &&& ask.run.turn == i + 1
        &&& ask.sent == b.ask(b.policy.explore, ask.run.messages, ask.run.tools, b.choice(i + 1))
    }
}

/// How many exploration requests were sent.
pub open spec fn explorations(asks: Seq<Ask>) -> int {
    asks.len() - if synthesis_asked(asks) {
        1int
    } else {
        0
    }
}

/// Whether a limit that stopped a run is one that the policy sets and that the
/// run had reached.
pub open spec fn limit_reached<H, A, W: WireFormat>(
    b: BackendView<H, A, W>,
    stop: StopView,
    asks: Seq<Ask>,
    total_tokens: u32,
) -> bool {
    match stop {
        StopView::MaxTurns(cap) => cap == b.policy.max_turns && explorations(asks) == cap,
        StopView::MaxTokens(limit) => b.policy.stop_after_tokens == Some(limit) && total_tokens
            >= limit,
        StopView::Timeout(secs) => b.policy.timeout_secs == Some(secs),
        _ => true,
    }
}

/// How the requests that were sent and the step of a run belong together.
spec fn in_line<H, A, W: WireFormat>(b: BackendView<H, A, W>, t: Trace<H>) -> bool {
    let n = t.asks.len();
    match t.step {
        StepView::Conclude(run, stop) => {
            &&& run.turn == n <= b.policy.max_turns
            &&& !synthesis_asked(t.asks)
            &&& done_exploring(stop)
            &&& b.policy.final_synthesis
            &&& limit_reached(b, stop, t.asks, run.total_tokens)
        },
        StepView::Synthesize(run, stop, _) => {
            &&& run.turn == wrapped(n as int)
            &&& n <= b.policy.max_turns + 1
            &&& synthesis_asked(t.asks)
            &&& done_exploring(stop)
            &&& b.policy.final_synthesis
            &&& limit_reached(b, stop, t.asks, run.total_tokens)
        },
        StepView::Done(ending) => {
            &&& ending.turns == wrapped(n as int)
            &&& synthesis_asked(t.asks) == (done_exploring(ending.stop_reason)
                && b.policy.final_synthesis)
            &&& explorations(t.asks) <= b.policy.max_turns
            &&& limit_reached(b, ending.stop_reason, t.asks, ending.total_tokens)
        },
        _ => {
            &&& progress(t.step).turn == n <= b.policy.max_turns
            &&& !synthesis_asked(t.asks)
        },
    }
}

/// A look at the flag and the clock keeps the requests and the run in line.
proof fn lemma_check_in_line<H, A, W: WireFormat>(
    b: BackendView<H, A, W>,
    t: Trace<H>,
    interrupted: bool,
    elapsed: nat,
)
    requires
        in_line(b, t),
        t.step is Check,
    ensures
        ({
            let step = b.check(t.step->Check_0, interrupted, elapsed).1;
            in_line(b, Trace { asks: t.asks + asks_of(step), step, ..t })
        }),
{
    let step = b.check(t.step->Check_0, interrupted, elapsed).1;
    if asks_of(step).len() == 0 {
        assert(t.asks + asks_of(step) =~= t.asks);
    } else {
        assert(t.asks + asks_of(step) =~= t.asks.push(asks_of(step)[0]));
    }
}

/// The start of the synthesis keeps the requests and the run in line.
proof fn lemma_conclude_in_line<H, A, W: WireFormat>(
    b: BackendView<H, A, W>,
    t: Trace<H>,
    interrupted: bool,
)
    requires
        in_line(b, t),
        t.step is Conclude,
    ensures
        ({
            let step = b.conclude(t.step->Conclude_0, t.step->Conclude_1, interrupted).1;
            in_line(b, Trace { asks: t.asks + asks_of(step), step, ..t })
        }),
{
    let step = b.conclude(t.step->Conclude_0, t.step->Conclude_1, interrupted).1;
    if asks_of(step).len() == 0 {
        assert(t.asks + asks_of(step) =~= t.asks);
    } else {
        assert(t.asks + asks_of(step) =~= t.asks.push(asks_of(step)[0]));
    }
}

/// A step keeps the requests and the run in line.
#[verifier::spinoff_prover]
proof fn lemma_step_in_line<H, A, W: WireFormat>(
    b: BackendView<H, A, W>,
    t: Trace<H>,
    input: Input,
)
    requires
        in_line(b, t),
        t.failed is None,
        asked_for(t.step, input),
    ensures
        in_line(b, advanced(b, t, input)),
{
    reveal(next);
    match (t.step, input) {
        (StepView::Check(_), Input::Looked { interrupted, elapsed }) => {
            lemma_check_in_line(b, t, interrupted, elapsed);
        },
        (StepView::Conclude(..), Input::Flag(interrupted)) => {
            lemma_conclude_in_line(b, t, interrupted);
        },
        _ => {
            if let Ok((events, step)) = next(b, t.step, input) {
                assert(t.asks + asks_of(step) =~= t.asks);
            }
        },
    }
}

/// A step sends no request but one that the policy wants.
#[verifier::spinoff_prover]
proof fn lemma_step_follows<H, A, W: WireFormat>(
    b: BackendView<H, A, W>,
    t: Trace<H>,
    input: Input,
    i: int,
)
    requires
        in_line(b, t),
        t.failed is None,
        asked_for(t.step, input),
        0 <= i < advanced(b, t, input).asks.len(),
        i < t.asks.len() ==> follows_policy(b, t.asks, i),
    ensures
        follows_policy(b, advanced(b, t, input).asks, i),
{
    reveal(next);
    if let Ok((events, step)) = next(b, t.step, input) {
        if asks_of(step).len() == 0 {
            assert(t.asks + asks_of(step) =~= t.asks);
        } else {
            assert(t.asks + asks_of(step) =~= t.asks.push(asks_of(step)[0]));
        }
    }
}

/// The requests and the run are in line at every time.
proof fn lemma_in_line<H, A, W: WireFormat>(
    b: BackendView<H, A, W>,
    req: RequestView,
    inputs: Seq<Input>,
)
    ensures
        in_line(b, played(b, req, inputs)),
        forall|i: int|
            0 <= i < played(b, req, inputs).asks.len() ==> #[trigger] follows_policy(
                b,
                played(b, req, inputs).asks,
                i,
            ),
    decreases inputs.len(),
{
    if inputs.len() > 0 {
        let before = played(b, req, inputs.drop_last());
        let after = played(b, req, inputs);
        lemma_in_line(b, req, inputs.drop_last());
        if before.failed is None && asked_for(before.step, inputs.last()) {
            lemma_step_in_line(b, before, inputs.last());
            assert forall|i: int| 0 <= i < after.asks.len() implies #[trigger] follows_policy(
                b,
                after.asks,
                i,
            ) by {
                lemma_step_follows(b, before, inputs.last(), i);
            }
        }
    }
}

/// Every request follows the policy: exploration asks the exploring model, with
/// the initial choice on the first turn and `"auto"` on later ones, never after
/// the turn cap; a synthesis comes last, asks the synthesizing model and forbids
/// tools. No request is sent once the token threshold is reached. The tool results
/// in every request were kept within the budget.
pub proof fn requests_follow_the_policy<H, A, W: WireFormat>(
    b: BackendView<H, A, W>,
    req: RequestView,
    inputs: Seq<Input>,
)
    ensures
        forall|i: int|
            0 <= i < played(b, req, inputs).asks.len() ==> #[trigger] follows_policy(
                b,
                played(b, req, inputs).asks,
                i,
            ),
{
    lemma_in_line(b, req, inputs);
}

/// A run makes at most as many round-trips as the turn cap, and one more for the
/// synthesis; its outcome counts them all.
pub proof fn turns_are_capped<H, A, W: WireFormat>(
    b: BackendView<H, A, W>,
    req: RequestView,
    inputs: Seq<Input>,
)
    ensures
        played(b, req, inputs).asks.len() <= b.policy.max_turns + 1,
        !synthesis_asked(played(b, req, inputs).asks) ==> played(b, req, inputs).asks.len()
            <= b.policy.max_turns,
        progress(played(b, req, inputs).step).turn == wrapped(
            played(b, req, inputs).asks.len() as int,
        ),
{
    lemma_in_line(b, req, inputs);
}

/// The turns that events report as started.
pub open spec fn turns_started(events: Seq<EventView>) -> Seq<u32>
    decreases events.len(),
{
    if events.len() == 0 {
        Seq::empty()
    } else {
        let before = turns_started(events.drop_last());
        match events.last() {
            EventView::TurnStart { turn } => before.push(turn),
            _ => before,
        }
    }
}

/// Turns follow one another over events in a row.
proof fn lemma_turns_started(a: Seq<EventView>, b: Seq<EventView>)
    ensures
        turns_started(a + b) == turns_started(a) + turns_started(b),
    decreases b.len(),
{
    if b.len() == 0 {
        assert(a + b =~= a);
        assert(turns_started(a) + turns_started(b) =~= turns_started(a));
    } else {
        lemma_turns_started(a, b.drop_last());
        assert((a + b).drop_last() =~= a + b.drop_last());
        assert(turns_started(a + b) =~= turns_started(a) + turns_started(b));
    }
}

/// Events none of which tells of a turn that starts.
proof fn lemma_no_turns(events: Seq<EventView>)
    requires
        forall|i: int| 0 <= i < events.len() ==> !(#[trigger] events[i] is TurnStart),
    ensures
        turns_started(events) == Seq::<u32>::empty(),
    decreases events.len(),
{
    if events.len() > 0 {
        lemma_no_turns(events.drop_last());
    }
}

/// A step tells of a turn that starts if and only if it sends a request.
proof fn lemma_step_turns<H, A, W: WireFormat>(
    b: BackendView<H, A, W>,
    step: StepView<H>,
    input: Input,
)
    requires
        asked_for(step, input),
    ensures
        next(b, step, input) matches Ok((events, after)) ==> turns_started(events) == if asks_of(
            after,
        ).len() > 0 {
            seq![progress(after).turn]
        } else {
            Seq::empty()
        },
{
    reveal(next);
    if let Ok((events, after)) = next(b, step, input) {
        if asks_of(after).len() > 0 {
            assert(events.drop_last() =~= Seq::empty());
            assert(turns_started(events.drop_last()) =~= Seq::empty());
            assert(turns_started(events) =~= seq![progress(after).turn]);
        } else {
            lemma_no_turns(events);
        }
    }
}

/// The turns that a run reports as started are numbered one after another from one
/// to the turns of its outcome, one for each request.
pub proof fn turns_are_numbered_in_order<H, A, W: WireFormat>(
    b: BackendView<H, A, W>,
    req: RequestView,
    inputs: Seq<Input>,
)
    ensures
        turns_started(played(b, req, inputs).events) == Seq::new(
            played(b, req, inputs).asks.len(),
            |i: int| wrapped(i + 1),
        ),
        progress(played(b, req, inputs).step).turn == wrapped(
            turns_started(played(b, req, inputs).events).len() as int,
        ),
    decreases inputs.len(),
{
    let after = played(b, req, inputs);
    lemma_in_line(b, req, inputs);
    if inputs.len() == 0 {
        lemma_no_turns(after.events);
    } else {
        let before = played(b, req, inputs.drop_last());
        turns_are_numbered_in_order(b, req, inputs.drop_last());
        if before.failed is None && asked_for(before.step, inputs.last()) {
            lemma_step_turns(b, before.step, inputs.last());
            if let Ok((events, step)) = next(b, before.step, inputs.last()) {
                lemma_turns_started(before.events, events);
            }
        }
    }
    assert(turns_started(after.events) =~= Seq::new(after.asks.len(), |i: int| wrapped(i + 1)));
}

/// A run synthesizes if and only if the policy wants it and exploration came to
/// its end, be it by itself or at the turn cap. A hard stop — the token
/// threshold, the clock, an interrupt, a failed tool — skips the synthesis.
pub proof fn synthesis_follows_exploration_that_is_done<H, A, W: WireFormat>(
    b: BackendView<H, A, W>,
    req: RequestView,
    inputs: Seq<Input>,
)
    ensures
        played(b, req, inputs).step matches StepView::Done(ending) ==> synthesis_asked(
            played(b, req, inputs).asks,
        ) == (done_exploring(ending.stop_reason) && b.policy.final_synthesis),
{
    lemma_in_line(b, req, inputs);
}

/// A run that reports a limit had reached it, with or without a synthesis after:
/// the turn cap means that exploration took all its turns, the token threshold
/// that so many were spent.
pub proof fn a_reported_limit_was_reached<H, A, W: WireFormat>(
    b: BackendView<H, A, W>,
    req: RequestView,
    inputs: Seq<Input>,
)
    ensures
        played(b, req, inputs).step matches StepView::Done(ending) ==> limit_reached(
            b,
            ending.stop_reason,
            played(b, req, inputs).asks,
            ending.total_tokens,
        ),
{
    lemma_in_line(b, req, inputs);
}

/// A run that is not interrupted and has not reached the token threshold goes on to
/// the synthesis; one that has reached it ends there and says so.
pub proof fn the_threshold_stops_the_synthesis_too<H, A, W: WireFormat>(
    b: BackendView<H, A, W>,
    run: RunView,
    stop: StopView,
)
    ensures
        match threshold_reached(b.policy, run) {
            Some(limit) => b.conclude(run, stop, false) == b.finish(
                run,
                StopView::MaxTokens(limit),
            ),
            None => b.conclude(run, stop, false).1 is Synthesize,
        },
{
}

/// The reason for which exploration stopped is the one that a run with a
/// synthesis reports: the turn cap stays the turn cap.
pub proof fn a_synthesis_keeps_the_reason<H, A, W: WireFormat>(
    b: BackendView<H, A, W>,
    run: RunView,
    stop: StopView,
    outcome: Result<JsonView, ErrorView>,
)
    ensures
        b.conclude(run, stop, false).1 matches StepView::Synthesize(_, kept, _) ==> kept == stop,
        b.synthesized(run, stop, outcome) matches Ok((_, step)) ==> step is Done
            && step->Done_0.stop_reason == stop,
{
}

/// The tool calls that a message makes.
pub open spec fn calls_of(m: JsonView) -> Seq<JsonView> {
    m.at("tool_calls"@).elements()
}

/// Whether a message answers a tool call.
pub open spec fn answers(m: JsonView, call: JsonView) -> bool {
    is_tool_result(m) && m.at("tool_call_id"@) == JsonView::String(call.at("id"@).str_or(""@))
}

/// Whether the tool calls of the message `i` are answered by those after it.
pub open spec fn answered_at(messages: Seq<JsonView>, i: int) -> bool {
    let calls = calls_of(messages[i]);
    &&& i + calls.len() < messages.len()
    &&& forall|j: int|
        0 <= j < calls.len() ==> answers(messages[i + 1 + j], #[trigger] calls[j])
}

/// Whether the tool calls of the messages from `from` on are answered.
spec fn answered_from(messages: Seq<JsonView>, from: int) -> bool {
    &&& 0 <= from <= messages.len()
    &&& forall|i: int| from <= i < messages.len() ==> #[trigger] answered_at(messages, i)
}

/// Whether every tool call of a transcript is answered directly after the message
/// that makes it, in the order of the calls.
pub open spec fn all_answered(messages: Seq<JsonView>) -> bool {
    forall|i: int| 0 <= i < messages.len() ==> #[trigger] answered_at(messages, i)
}

/// Whether some message of a transcript answers a call.
pub open spec fn has_answer(messages: Seq<JsonView>, call: JsonView) -> bool {
    exists|i: int| 0 <= i < messages.len() && answers(#[trigger] messages[i], call)
}

/// Whether every tool call of a transcript has an answer somewhere in it.
pub open spec fn all_matched(messages: Seq<JsonView>) -> bool {
    forall|i: int, j: int|
        0 <= i < messages.len() && 0 <= j < calls_of(messages[i]).len() ==> has_answer(
            messages,
            #[trigger] calls_of(messages[i])[j],
        )
}

/// Whether a transcript is another one with messages added, and with nothing
/// changed but the content of tool results, which was elided.
pub open spec fn grown(from: Seq<JsonView>, to: Seq<JsonView>) -> bool {
    &&& from.len() <= to.len()
    &&& forall|i: int|
        0 <= i < from.len() ==> to[i] == #[trigger] from[i] || (is_tool_result(from[i]) && to[i]
            == elided(from[i]))
}

/// Eliding the content of a message leaves its other members, and doing it again
/// changes nothing.
proof fn lemma_elided(m: JsonView)
    ensures
        elided(elided(m)) == elided(m),
        is_tool_result(elided(m)) == is_tool_result(m),
        elided(m).at("tool_call_id"@) == m.at("tool_call_id"@),
        calls_of(elided(m)) == calls_of(m),
{
    lemma_member_names();
    if let JsonView::Object(map) = m {
        let text = JsonView::String("[earlier tool result elided to save context]"@);
        assert(map.insert("content"@, text).insert("content"@, text) =~= map.insert(
            "content"@,
            text,
        ));
    }
}

/// What a message of a transcript that grew still is.
proof fn lemma_kept_in_growing(from: Seq<JsonView>, to: Seq<JsonView>, i: int)
    requires
        grown(from, to),
        0 <= i < from.len(),
    ensures
        calls_of(to[i]) == calls_of(from[i]),
        forall|call: JsonView| answers(from[i], call) == #[trigger] answers(to[i], call),
{
    lemma_elided(from[i]);
    assert(to[i] == from[i] || to[i] == elided(from[i]));
}

/// Growing on.
proof fn lemma_grown(a: Seq<JsonView>, b: Seq<JsonView>, c: Seq<JsonView>)
    requires
        grown(a, b),
        grown(b, c),
    ensures
        grown(a, c),
{
    assert forall|i: int| 0 <= i < a.len() implies c[i] == #[trigger] a[i] || (is_tool_result(a[i])
        && c[i] == elided(a[i])) by {
        lemma_elided(a[i]);
        assert(b[i] == a[i] || b[i] == elided(a[i]));
        assert(c[i] == b[i] || c[i] == elided(b[i]));
    }
}

/// In a step the transcript grows.
#[verifier::spinoff_prover]
proof fn lemma_step_grown<H, A, W: WireFormat>(
    b: BackendView<H, A, W>,
    step: StepView<H>,
    input: Input,
)
    requires
        asked_for(step, input),
    ensures
        next(b, step, input) matches Ok((_, after)) ==> grown(
            progress(step).messages,
            progress(after).messages,
        ),
{
    reveal(next);
    if let StepView::Conclude(run, _) = step {
        let prompted = run.messages.push(message("user"@, synthesis_prompt()));
        let budget = b.policy.max_history_chars as int;
        assert(grown(prompted, trimmed(prompted, budget)));
        lemma_grown(run.messages, prompted, trimmed(prompted, budget));
    }
}

/// A transcript only grows: as a run goes on, messages are added to it, and
/// nothing that stands in it is changed but that the content of tool results is
/// elided. What the model said is never compacted.
pub proof fn the_transcript_only_grows<H, A, W: WireFormat>(
    b: BackendView<H, A, W>,
    req: RequestView,
    inputs: Seq<Input>,
    more: Seq<Input>,
)
    ensures
        grown(
            progress(played(b, req, inputs).step).messages,
            progress(played(b, req, inputs + more).step).messages,
        ),
    decreases more.len(),
{
    let from = progress(played(b, req, inputs).step).messages;
    if more.len() == 0 {
        assert(inputs + more =~= inputs);
    } else {
        let rest = inputs + more.drop_last();
        the_transcript_only_grows(b, req, inputs, more.drop_last());
        assert((inputs + more).drop_last() =~= rest);
        let before = played(b, req, rest);
        if before.failed is None && asked_for(before.step, more.last()) {
            lemma_step_grown(b, before.step, more.last());
            lemma_grown(
                from,
                progress(before.step).messages,
                progress(played(b, req, inputs + more).step).messages,
            );
        }
    }
}

/// What the messages that the loop adds hold.
proof fn lemma_added_messages(role: Seq<char>, id: Seq<char>, content: Seq<char>)
    ensures
        calls_of(message(role, content)).len() == 0,
        calls_of(tool_message(id, content)).len() == 0,
        is_tool_result(tool_message(id, content)),
        tool_message(id, content).at("tool_call_id"@) == JsonView::String(id),
{
    lemma_member_names();
}

/// Calls that are answered stay so when a transcript grows.
proof fn lemma_still_answered(messages: Seq<JsonView>, after: Seq<JsonView>, i: int)
    requires
        grown(messages, after),
        0 <= i < messages.len(),
        answered_at(messages, i),
    ensures
        answered_at(after, i),
{
    lemma_kept_in_growing(messages, after, i);
    let calls = calls_of(messages[i]);
    assert forall|j: int| 0 <= j < calls.len() implies answers(
        after[i + 1 + j],
        #[trigger] calls[j],
    ) by {
        lemma_kept_in_growing(messages, after, i + 1 + j);
        assert(answers(messages[i + 1 + j], calls[j]));
    }
}

/// A message without calls leaves a transcript answered.
proof fn lemma_push_answered(messages: Seq<JsonView>, m: JsonView, from: int)
    requires
        answered_from(messages, from),
        calls_of(m).len() == 0,
    ensures
        answered_from(messages.push(m), from),
{
    assert forall|i: int| from <= i < messages.push(m).len() implies #[trigger] answered_at(
        messages.push(m),
        i,
    ) by {
        if i < messages.len() {
            assert(answered_at(messages, i));
            lemma_still_answered(messages, messages.push(m), i);
        }
    }
}

/// Trimming leaves a transcript answered.
proof fn lemma_trimmed_answered(messages: Seq<JsonView>, budget: int, from: int)
    requires
        answered_from(messages, from),
    ensures
        answered_from(trimmed(messages, budget), from),
{
    let after = trimmed(messages, budget);
    assert(grown(messages, after));
    assert forall|i: int| from <= i < after.len() implies #[trigger] answered_at(after, i) by {
        assert(answered_at(messages, i));
        lemma_still_answered(messages, after, i);
    }
}

/// Whether a transcript ends with a message that makes these calls and with the
/// answers to the first `n` of them, after calls that are answered from `from` on.
spec fn partly_answered(messages: Seq<JsonView>, calls: Seq<JsonView>, n: int, from: int) -> bool {
    let k = messages.len() - n - 1;
    &&& 0 <= n <= calls.len()
    &&& 0 <= from <= k
    &&& calls_of(messages[k]) == calls
    &&& forall|i: int| from <= i < k ==> #[trigger] answered_at(messages, i)
    &&& forall|i: int|
        k < i < messages.len() ==> calls_of(#[trigger] messages[i]).len() == 0 && answers(
            messages[i],
            calls[i - k - 1],
        )
}

/// One more answer.
proof fn lemma_one_more(
    messages: Seq<JsonView>,
    calls: Seq<JsonView>,
    n: int,
    content: Seq<char>,
    from: int,
)
    requires
        partly_answered(messages, calls, n, from),
        n < calls.len(),
    ensures
        partly_answered(
            messages.push(tool_message(calls[n].at("id"@).str_or(""@), content)),
            calls,
            n + 1,
            from,
        ),
{
    let m = tool_message(calls[n].at("id"@).str_or(""@), content);
    lemma_added_messages(Seq::empty(), calls[n].at("id"@).str_or(""@), content);
    let k = messages.len() - n - 1;
    assert forall|i: int| from <= i < k implies #[trigger] answered_at(messages.push(m), i) by {
        assert(answered_at(messages, i));
        lemma_still_answered(messages, messages.push(m), i);
    }
}

/// The answers that are missing, all at once.
proof fn lemma_sealed(
    messages: Seq<JsonView>,
    calls: Seq<JsonView>,
    n: int,
    reason: Seq<char>,
    from: int,
)
    requires
        partly_answered(messages, calls, n, from),
    ensures
        partly_answered(messages + sealed(calls.skip(n), reason), calls, calls.len() as int, from),
    decreases calls.len() - n,
{
    let rest = sealed(calls.skip(n), reason);
    if n == calls.len() {
        assert(messages + rest =~= messages);
    } else {
        lemma_one_more(messages, calls, n, reason, from);
        let m = tool_message(calls[n].at("id"@).str_or(""@), reason);
        lemma_sealed(messages.push(m), calls, n + 1, reason, from);
        assert(messages + rest =~= messages.push(m) + sealed(calls.skip(n + 1), reason));
    }
}

/// With the last answer, everything is answered.
proof fn lemma_wholly_answered(messages: Seq<JsonView>, calls: Seq<JsonView>, from: int)
    requires
        partly_answered(messages, calls, calls.len() as int, from),
    ensures
        answered_from(messages, from),
{
    let k = messages.len() - calls.len() - 1;
    assert forall|i: int| from <= i < messages.len() implies #[trigger] answered_at(
        messages,
        i,
    ) by {
        if i == k {
            assert forall|j: int| 0 <= j < calls.len() implies answers(
                messages[i + 1 + j],
                #[trigger] calls[j],
            ) by {
                assert(calls_of(messages[i + 1 + j]).len() == 0);
            }
        } else if i > k {
            assert(calls_of(messages[i]).len() == 0);
        }
    }
}

/// Whether a call was taken up as it stands in its turn, and those before it are
/// answered.
spec fn taken_in_turn(call: CallView, from: int) -> bool {
    &&& call == call.calls.taken()
    &&& call.calls.next < call.calls.calls.len()
    &&& partly_answered(call.calls.run.messages, call.calls.calls, call.calls.next, from)
}

/// How far the calls that a transcript makes from `from` on are answered at a step.
spec fn in_order<H>(t: Trace<H>, from: int) -> bool {
    match t.step {
        StepView::TakeCall(calls) => taken_in_turn(calls.taken(), from),
        StepView::Gate(call, _) => taken_in_turn(call, from),
        StepView::Approve(call, _) => taken_in_turn(call, from),
        StepView::RunTool(call, _, _) => taken_in_turn(call, from),
        StepView::Settled(call, _) => taken_in_turn(call, from),
        StepView::Done(ending) => {
            let messages = ending.messages;
            if synthesis_asked(t.asks) && calls_of(messages.last()).len() > 0 {
                messages.len() > 0 && answered_from(messages.drop_last(), from)
            } else {
                answered_from(messages, from)
            }
        },
        _ => answered_from(progress(t.step).messages, from),
    }
}

/// A reply whose calls are still to be answered.
proof fn lemma_reply_with_calls(messages: Seq<JsonView>, m: JsonView, from: int)
    requires
        answered_from(messages, from),
    ensures
        partly_answered(messages.push(m), calls_of(m), 0, from),
{
    assert forall|i: int| from <= i < messages.len() implies #[trigger] answered_at(
        messages.push(m),
        i,
    ) by {
        assert(answered_at(messages, i));
        lemma_still_answered(messages, messages.push(m), i);
    }
}

/// What follows a call keeps its turn in order.
proof fn lemma_completed<H, A, W: WireFormat>(
    b: BackendView<H, A, W>,
    asks: Seq<Ask>,
    call: CallView,
    result: Result<OutputView, ToolErrorView>,
    elapsed: nat,
    from: int,
)
    requires
        taken_in_turn(call, from),
        !synthesis_asked(asks),
    ensures
        in_order(
            (Trace {
                events: Seq::empty(),
                asks,
                step: b.completed(call, result, elapsed).1,
                failed: None,
            }),
            from,
        ),
{
    let calls = call.calls;
    let messages = calls.run.messages;
    let said = match result {
        Ok(output) => output.content,
        Err(e) => e.message(),
    };
    lemma_one_more(messages, calls.calls, calls.next, said, from);
    let answered = messages.push(tool_message(call.id, said));
    if calls.next + 1 == calls.calls.len() {
        lemma_wholly_answered(answered, calls.calls, from);
    }
    let reason = "[not executed: run aborted after a tool failure]"@;
    lemma_sealed(answered, calls.calls, calls.next + 1, reason, from);
    lemma_wholly_answered(
        answered + sealed(calls.calls.skip(calls.next + 1), reason),
        calls.calls,
        from,
    );
}

/// A step keeps the calls of a transcript in order.
#[verifier::spinoff_prover]
proof fn lemma_step_in_order<H, A, W: WireFormat>(
    b: BackendView<H, A, W>,
    t: Trace<H>,
    input: Input,
    from: int,
)
    requires
        in_line(b, t),
        in_order(t, from),
        t.failed is None,
        asked_for(t.step, input),
    ensures
        in_order(advanced(b, t, input), from),
{
    reveal(next);
    let after = advanced(b, t, input);
    let budget = b.policy.max_history_chars as int;
    if let Ok((events, step)) = next(b, t.step, input) {
        if asks_of(step).len() == 0 {
            assert(after.asks =~= t.asks);
        }
        match (t.step, input) {
            (StepView::Check(run), Input::Looked { .. }) => {
                lemma_trimmed_answered(run.messages, budget, from);
            },
            (StepView::Explore(run, _), Input::Came(Ok(data))) => {
                let (m, tokens) = b.wire.turn(data)->Ok_0;
                if calls_of(m).len() == 0 {
                    lemma_push_answered(run.messages, m, from);
                } else {
                    lemma_reply_with_calls(run.messages, m, from);
                }
            },
            (StepView::TakeCall(calls), Input::Flag(_)) => {
                let reason = "[not executed: run interrupted]"@;
                lemma_sealed(calls.run.messages, calls.calls, calls.next, reason, from);
                lemma_wholly_answered(
                    calls.run.messages + sealed(calls.calls.skip(calls.next), reason),
                    calls.calls,
                    from,
                );
            },
            (StepView::RunTool(call, _, _), Input::Ran(result, elapsed)) => {
                lemma_completed(b, t.asks, call, result, elapsed, from);
            },
            (StepView::Settled(call, result), Input::Waited(elapsed)) => {
                lemma_completed(b, t.asks, call, result, elapsed, from);
            },
            (StepView::Conclude(run, stop), Input::Flag(_)) => {
                let prompt = message("user"@, synthesis_prompt());
                lemma_added_messages("user"@, Seq::empty(), synthesis_prompt());
                lemma_push_answered(run.messages, prompt, from);
                lemma_trimmed_answered(run.messages.push(prompt), budget, from);
            },
            (StepView::Synthesize(run, _, _), Input::Came(Ok(data))) => {
                let (m, tokens) = b.wire.turn(data)->Ok_0;
                assert(run.messages.push(m).drop_last() =~= run.messages);
                if calls_of(m).len() == 0 {
                    lemma_push_answered(run.messages, m, from);
                }
            },
            _ => {},
        }
    }
}

/// The calls that a run adds to a transcript are in order at every time, and what
/// it started with has grown.
proof fn lemma_in_order<H, A, W: WireFormat>(
    b: BackendView<H, A, W>,
    req: RequestView,
    inputs: Seq<Input>,
)
    ensures
        in_order(played(b, req, inputs), opening(req).len() as int),
        grown(opening(req), progress(played(b, req, inputs).step).messages),
    decreases inputs.len(),
{
    if inputs.len() > 0 {
        let before = played(b, req, inputs.drop_last());
        lemma_in_order(b, req, inputs.drop_last());
        lemma_in_line(b, req, inputs.drop_last());
        if before.failed is None && asked_for(before.step, inputs.last()) {
            lemma_step_in_order(b, before, inputs.last(), opening(req).len() as int);
        }
    }
    the_transcript_only_grows(b, req, Seq::empty(), inputs);
    assert(Seq::<Input>::empty() + inputs =~= inputs);
}

/// The conversation that a request starts with is answered in place where the
/// prior one is.
proof fn lemma_opening_answered(req: RequestView)
    requires
        all_answered(req.messages),
    ensures
        all_answered(opening(req)),
{
    let system = message("system"@, req.system_prompt);
    let user = message("user"@, req.user_prompt);
    lemma_added_messages("system"@, Seq::empty(), req.system_prompt);
    lemma_added_messages("user"@, Seq::empty(), req.user_prompt);
    let prior = req.messages;
    let start = opening(req).drop_last();
    assert forall|i: int| 0 <= i < start.len() implies #[trigger] answered_at(start, i) by {
        let shift = start.len() - prior.len();
        if start[i] != system {
            assert(start[i] == prior[i - shift]);
            assert(answered_at(prior, i - shift));
            let calls = calls_of(start[i]);
            assert forall|j: int| 0 <= j < calls.len() implies answers(
                start[i + 1 + j],
                #[trigger] calls[j],
            ) by {
                assert(start[i + 1 + j] == prior[i - shift + 1 + j]);
            }
        }
    }
    assert(opening(req) =~= start.push(user));
    lemma_push_answered(start, user, 0);
    assert(answered_from(opening(req), 0));
}

/// The conversation that a request starts with has all its answers where the prior
/// one has.
proof fn lemma_opening_matched(req: RequestView)
    requires
        all_matched(req.messages),
    ensures
        all_matched(opening(req)),
{
    let system = message("system"@, req.system_prompt);
    lemma_added_messages("system"@, Seq::empty(), req.system_prompt);
    lemma_added_messages("user"@, Seq::empty(), req.user_prompt);
    let prior = req.messages;
    let all = opening(req);
    let shift = all.len() - 1 - prior.len();
    assert forall|i: int, j: int|
        0 <= i < all.len() && 0 <= j < calls_of(all[i]).len() implies has_answer(
        all,
        #[trigger] calls_of(all[i])[j],
    ) by {
        assert(all[i] == prior[i - shift]);
        let call = calls_of(prior[i - shift])[j];
        assert(has_answer(prior, call));
        let k = choose|k: int| 0 <= k < prior.len() && answers(#[trigger] prior[k], call);
        reveal_strlit("tool");
        reveal_strlit("system");
        assert("tool"@.len() != "system"@.len());
        assert(all[k + shift] == prior[k]);
    }
}

/// What holds of the calls that a transcript started with and of those that were
/// added holds of all of them.
proof fn lemma_answered_in_all(start: Seq<JsonView>, messages: Seq<JsonView>)
    requires
        grown(start, messages),
        answered_from(messages, start.len() as int),
    ensures
        all_answered(start) ==> all_answered(messages),
        all_matched(start) ==> all_matched(messages),
{
    if all_answered(start) {
        assert forall|i: int| 0 <= i < messages.len() implies #[trigger] answered_at(
            messages,
            i,
        ) by {
            if i < start.len() {
                assert(answered_at(start, i));
                lemma_still_answered(start, messages, i);
            }
        }
    }
    if all_matched(start) {
        assert forall|i: int, j: int|
            0 <= i < messages.len() && 0 <= j < calls_of(messages[i]).len() implies has_answer(
            messages,
            #[trigger] calls_of(messages[i])[j],
        ) by {
            let call = calls_of(messages[i])[j];
            if i < start.len() {
                lemma_kept_in_growing(start, messages, i);
                assert(has_answer(start, calls_of(start[i])[j]));
                let k = choose|k: int| 0 <= k < start.len() && answers(#[trigger] start[k], call);
                lemma_kept_in_growing(start, messages, k);
                assert(answers(messages[k], call));
            } else {
                assert(answered_at(messages, i));
                assert(answers(messages[i + 1 + j], calls_of(messages[i])[j]));
            }
        }
    }
}

/// What holds of the calls of the transcript that a run ends with.
proof fn lemma_ending_answered<H, A, W: WireFormat>(
    b: BackendView<H, A, W>,
    req: RequestView,
    inputs: Seq<Input>,
)
    ensures
        played(b, req, inputs).step matches StepView::Done(ending) ==> {
            let messages = if synthesis_asked(played(b, req, inputs).asks) && calls_of(
                ending.messages.last(),
            ).len() > 0 {
                ending.messages.drop_last()
            } else {
                ending.messages
            };
            &&& all_answered(req.messages) ==> all_answered(messages)
            &&& all_matched(req.messages) ==> all_matched(messages)
        },
{
    lemma_in_order(b, req, inputs);
    if let StepView::Done(ending) = played(b, req, inputs).step {
        let start = opening(req);
        let messages = if synthesis_asked(played(b, req, inputs).asks) && calls_of(
            ending.messages.last(),
        ).len() > 0 {
            ending.messages.drop_last()
        } else {
            ending.messages
        };
        assert(grown(start, messages));
        lemma_answered_in_all(start, messages);
        if all_answered(req.messages) {
            lemma_opening_answered(req);
        }
        if all_matched(req.messages) {
            lemma_opening_matched(req);
        }
    }
}

/// The transcript that a run hands back can be resumed: however the run ended,
/// every tool call in it has an answer, provided that those of the prior
/// transcript had. The one exception is a call in the reply to the synthesis
/// request, which forbids calls.
pub proof fn every_call_is_answered<H, A, W: WireFormat>(
    b: BackendView<H, A, W>,
    req: RequestView,
    inputs: Seq<Input>,
)
    requires
        all_matched(req.messages),
    ensures
        played(b, req, inputs).step matches StepView::Done(ending) ==> all_matched(
            ending.messages,
        ) || (synthesis_asked(played(b, req, inputs).asks) && ending.messages.len() > 0 && calls_of(
            ending.messages.last(),
        ).len() > 0 && all_matched(ending.messages.drop_last())),
{
    lemma_in_order(b, req, inputs);
    lemma_ending_answered(b, req, inputs);
}

/// Where every call of the prior transcript is answered directly after it and in
/// order, so is every call of the transcript that a run hands back, with the same
/// exception.
pub proof fn every_call_is_answered_in_place<H, A, W: WireFormat>(
    b: BackendView<H, A, W>,
    req: RequestView,
    inputs: Seq<Input>,
)
    requires
        all_answered(req.messages),
    ensures
        played(b, req, inputs).step matches StepView::Done(ending) ==> all_answered(
            ending.messages,
        ) || (synthesis_asked(played(b, req, inputs).asks) && ending.messages.len() > 0 && calls_of(
            ending.messages.last(),
        ).len() > 0 && all_answered(ending.messages.drop_last())),
{
    lemma_in_order(b, req, inputs);
    lemma_ending_answered(b, req, inputs);
}

/// Every request carries a transcript in which every tool call has an answer, and
/// has it in place where the prior transcript had.
pub proof fn no_request_has_an_unanswered_call<H, A, W: WireFormat>(
    b: BackendView<H, A, W>,
    req: RequestView,
    inputs: Seq<Input>,
)
    requires
        all_matched(req.messages),
    ensures
        forall|i: int|
            0 <= i < played(b, req, inputs).asks.len() ==> {
                let sent = (#[trigger] played(b, req, inputs).asks[i]).run.messages;
                &&& all_matched(sent)
                &&& all_answered(req.messages) ==> all_answered(sent)
            },
    decreases inputs.len(),
{
    if inputs.len() > 0 {
        let before = played(b, req, inputs.drop_last());
        let after = played(b, req, inputs);
        no_request_has_an_unanswered_call(b, req, inputs.drop_last());
        lemma_in_order(b, req, inputs);
        lemma_opening_matched(req);
        if all_answered(req.messages) {
            lemma_opening_answered(req);
        }
        assert forall|i: int| 0 <= i < after.asks.len() implies {
            let sent = (#[trigger] after.asks[i]).run.messages;
            &&& all_matched(sent)
            &&& all_answered(req.messages) ==> all_answered(sent)
        } by {
            if i < before.asks.len() {
                assert(after.asks[i] == before.asks[i]);
            } else {
                lemma_answered_in_all(opening(req), after.asks[i].run.messages);
            }
        }
    }
}

/// How many more calls events report as started than as complete.
pub open spec fn open_calls(events: Seq<EventView>) -> int
    decreases events.len(),
{
    if events.len() == 0 {
        0
    } else {
        open_calls(events.drop_last()) + match events.last() {
            EventView::ToolStart { .. } => 1int,
            EventView::ToolComplete { .. } => -1int,
            _ => 0int,
        }
    }
}

/// Calls add up over events in a row.
proof fn lemma_open_calls(a: Seq<EventView>, b: Seq<EventView>)
    ensures
        open_calls(a + b) == open_calls(a) + open_calls(b),
    decreases b.len(),
{
    if b.len() == 0 {
        assert(a + b =~= a);
    } else {
        lemma_open_calls(a, b.drop_last());
        assert((a + b).drop_last() =~= a + b.drop_last());
    }
}

/// Events none of which is about a call.
proof fn lemma_no_calls(events: Seq<EventView>)
    requires
        forall|i: int|
            0 <= i < events.len() ==> !(#[trigger] events[i] is ToolStart) && !(events[i]
                is ToolComplete),
    ensures
        open_calls(events) == 0,
    decreases events.len(),
{
    if events.len() > 0 {
        lemma_no_calls(events.drop_last());
    }
}

/// Whether a call has been taken up at a step.
pub open spec fn in_call<H>(step: StepView<H>) -> bool {
    step is Gate || step is Approve || step is RunTool || step is Settled
}

/// A step starts a call, or completes the one that was started, or neither.
#[verifier::spinoff_prover]
proof fn lemma_step_calls<H, A, W: WireFormat>(
    b: BackendView<H, A, W>,
    step: StepView<H>,
    input: Input,
)
    requires
        asked_for(step, input),
    ensures
        next(b, step, input) matches Ok((events, after)) ==> open_calls(events) == (if in_call(
            after,
        ) {
            1int
        } else {
            0
        }) - (if in_call(step) {
            1int
        } else {
            0
        }),
{
    reveal(next);
    if let Ok((events, after)) = next(b, step, input) {
        assert(open_calls(Seq::<EventView>::empty()) == 0);
        match step {
            StepView::TakeCall(_) if in_call(after) => {
                assert(events.drop_last() =~= Seq::empty());
            },
            StepView::RunTool(..) => {
                let first = seq![events[0]];
                let rest = events.skip(1);
                assert(events =~= first + rest);
                lemma_open_calls(first, rest);
                assert(first.drop_last() =~= Seq::empty());
                lemma_no_calls(rest);
            },
            StepView::Settled(..) => {
                let first = seq![events[0]];
                let rest = events.skip(1);
                assert(events =~= first + rest);
                lemma_open_calls(first, rest);
                assert(first.drop_last() =~= Seq::empty());
                lemma_no_calls(rest);
            },
            _ => {
                lemma_no_calls(events);
            },
        }
    }
}

/// Every call that is reported as started is reported as complete before the next
/// one starts and before the run ends, whether it ran, failed or was rejected.
pub proof fn a_started_call_is_completed<H, A, W: WireFormat>(
    b: BackendView<H, A, W>,
    req: RequestView,
    inputs: Seq<Input>,
)
    ensures
        open_calls(played(b, req, inputs).events) == if in_call(played(b, req, inputs).step) {
            1int
        } else {
            0
        },
    decreases inputs.len(),
{
    if inputs.len() == 0 {
        lemma_no_calls(played(b, req, inputs).events);
    } else {
        let before = played(b, req, inputs.drop_last());
        a_started_call_is_completed(b, req, inputs.drop_last());
        if before.failed is None && asked_for(before.step, inputs.last()) {
            lemma_step_calls(b, before.step, inputs.last());
            if let Ok((events, after)) = next(b, before.step, inputs.last()) {
                lemma_open_calls(before.events, events);
            }
        }
    }
}

/// A call that was rejected does not run, and neither does one whose arguments
/// cannot be read or whose tool does not exist. A call that needs a decision
/// waits for it.
pub proof fn a_call_runs_only_when_it_may<H, A, W: WireFormat>(
    b: BackendView<H, A, W>,
    call: CallView,
    args: Result<JsonView, ToolErrorView>,
    raw: JsonView,
    approved: bool,
)
    ensures
        b.decide(call, args, approved) is RunTool ==> approved && args is Ok
            && b.tools.dom().contains(call.name),
        b.gate(call, raw, true).1 == StepView::<H>::Approve(call, raw),
{
}

/// A call is put to the approver where there is one and its arguments can be
/// read; the approver sees the arguments that the tool would be run with.
pub proof fn calls_are_put_to_the_approver<H, A, W: WireFormat>(
    b: BackendView<H, A, W>,
    calls: CallsView,
    parsed: Result<JsonView, Seq<char>>,
)
    ensures
        b.approver is Some ==> b.take_call(calls, false, parsed).1 !is RunTool,
        b.take_call(calls, false, parsed).1 matches StepView::Gate(call, args) ==> {
            &&& b.approver is Some
            &&& call == calls.taken()
            &&& tool_args(call.name, call.arguments, parsed) == Ok::<JsonView, ToolErrorView>(args)
            &&& b.decide(call, Ok(args), true) matches StepView::RunTool(_, _, given) ==> given
                == given_arguments(args)
        },
{
}

/// A turn starts only within the limits: not when the run was interrupted, not
/// after the turn cap, not once the token threshold is reached and not after the
/// time that the policy allows.
pub proof fn a_turn_starts_within_the_limits<H, A, W: WireFormat>(
    b: BackendView<H, A, W>,
    run: RunView,
    interrupted: bool,
    elapsed: nat,
)
    ensures
        b.check(run, interrupted, elapsed).1 is Explore <==> {
            &&& !interrupted
            &&& run.turn < b.policy.max_turns
            &&& b.policy.stop_after_tokens matches Some(limit) ==> run.total_tokens < limit
            &&& b.policy.timeout_secs matches Some(secs) ==> elapsed <= secs * 1_000_000_000
        },
{
}

/// An interrupt ends a run wherever the flag is looked at: before a turn, before
/// a call and before the synthesis.
pub proof fn an_interrupt_ends_the_run<H, A, W: WireFormat>(
    b: BackendView<H, A, W>,
    run: RunView,
    calls: CallsView,
    stop: StopView,
    elapsed: nat,
    parsed: Result<JsonView, Seq<char>>,
)
    ensures
        b.check(run, true, elapsed).1 matches StepView::Done(e) && e.stop_reason
            == StopView::Interrupted,
        b.take_call(calls, true, parsed).1 matches StepView::Done(e) && e.stop_reason
            == StopView::Interrupted,
        b.conclude(run, stop, true).1 matches StepView::Done(e) && e.stop_reason
            == StopView::Interrupted,
{
}

/// A call that fails ends a run if and only if the policy says so; otherwise what
/// went wrong is told to the model as the answer to its call.
pub proof fn a_failure_is_fed_back_unless_it_aborts<H, A, W: WireFormat>(
    b: BackendView<H, A, W>,
    call: CallView,
    result: Result<OutputView, ToolErrorView>,
    elapsed: nat,
)
    ensures
        b.completed(call, result, elapsed).1 is Done <==> result is Err
            && !b.policy.continue_on_tool_error,
        ({
            let told = progress(b.completed(call, result, elapsed).1).messages;
            let before = call.calls.run.messages;
            told.len() > before.len() && told[before.len() as int] == tool_message(
                call.id,
                match result {
                    Ok(output) => output.content,
                    Err(e) => e.message(),
                },
            )
        }),
{
}

/// A system prompt that a request gives is the one that a run starts with, also
/// where it resumes another; without one, the prior transcript keeps its own.
/// What the user says comes last, and the rest of the prior transcript stays.
pub proof fn a_given_system_prompt_takes_effect(req: RequestView)
    ensures
        opening(req).last() == message("user"@, req.user_prompt),
        req.messages.len() == 0 || req.system_prompt.len() > 0 ==> opening(req)[0] == message(
            "system"@,
            req.system_prompt,
        ),
        req.messages.len() > 0 && req.system_prompt.len() == 0 ==> opening(req).drop_last()
            == req.messages,
        ({
            let kept = if req.messages.len() > 0 && req.messages[0].at("role"@) == JsonView::String(
                "system"@,
            ) {
                req.messages.skip(1)
            } else {
                req.messages
            };
            kept.is_suffix_of(opening(req).drop_last())
        }),
{
    let kept = if req.messages.len() > 0 && req.messages[0].at("role"@) == JsonView::String(
        "system"@,
    ) {
        req.messages.skip(1)
    } else {
        req.messages
    };
    let before = opening(req).drop_last();
    assert(kept =~= before.subrange(before.len() - kept.len(), before.len() as int));
    if req.messages.len() > 0 && req.system_prompt.len() == 0 {
        assert(before =~= req.messages);
    }
}

} // verus!
