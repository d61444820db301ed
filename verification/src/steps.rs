//! What each step of a run does, told by what goes in and what comes out.
//!
//! The laws of [`crate::trace`] hold of whole runs. Those here hold of single steps:
//! what is added to the transcript, what is sent, what is reported, and what is left
//! as it was.
use vstd::prelude::*;
use vstd::string::*;

use crate::backend::{structured_ending, RequestView};
use crate::error::ErrorView;
use crate::events::{EventView, StopView};
use crate::extract::extracted;
use crate::history::{message, sealed, tool_message, trimmed};
use crate::json::JsonView;
use crate::loop_runner::{
    opening, reply_events, scoped, BackendView, CallView, CallsView, EndingView, OutputView,
    RunView, StepView,
};
use crate::provider::first_attempt;
use crate::text::{clip_text, is_white, trimming_leaves_what_is_not_white};
use crate::tools::{definitions_of, known, sorted, unknown, ToolErrorView, ToolView};
use crate::trace::{next, played, progress, Input};
use crate::wire::{WireFormat, WireRequestView};

verus! {

/// Whether a run that has come so far ends for this reason: after `before` the end is
/// reported, and the outcome is what the run had come to.
pub open spec fn ends<H>(
    moved: (Seq<EventView>, StepView<H>),
    before: Seq<EventView>,
    run: RunView,
    stop: StopView,
) -> bool {
    &&& moved.0 == before.push(
        EventView::Finished { turns: run.turn, total_tokens: run.total_tokens, reason: stop },
    )
    &&& moved.1 matches StepView::Done(ending) && {
        &&& ending.content == run.content
        &&& ending.turns == run.turn
        &&& ending.total_tokens == run.total_tokens
        &&& ending.stop_reason == stop
        &&& ending.messages == run.messages
    }
}

/// The text that a message says, if it says any.
pub open spec fn words(m: JsonView) -> Option<Seq<char>> {
    match m.at("content"@) {
        JsonView::String(s) => if s.len() > 0 {
            Some(s)
        } else {
            None
        },
        _ => None,
    }
}

/// The calls that a message makes.
pub open spec fn requested(m: JsonView) -> Seq<JsonView> {
    match m.at("tool_calls"@) {
        JsonView::Array(calls) => calls,
        _ => Seq::empty(),
    }
}

/// Whether these events tell of a reply: what it cost if it cost anything, that it
/// came with or without calls and how it begins, and what it says if it says anything.
pub open spec fn tells_of_reply(
    events: Seq<EventView>,
    turn: u32,
    m: JsonView,
    tokens: u32,
    calls: bool,
) -> bool {
    let cost = if tokens > 0 {
        seq![
            EventView::Usage {
                prompt_tokens: None,
                completion_tokens: None,
                total_tokens: tokens,
            },
        ]
    } else {
        Seq::empty()
    };
    let response = EventView::TurnResponse {
        turn,
        has_tool_calls: calls,
        content_preview: match m.at("content"@) {
            JsonView::String(s) => Some(
                if s.len() <= 100 {
                    s
                } else {
                    s.take(100).push('…')
                },
            ),
            _ => None,
        },
    };
    events == match words(m) {
        Some(text) => cost.push(response).push(EventView::ContentToken(text)),
        None => cost.push(response),
    }
}

/// Whether `after` is the run `before` with a reply taken in: the message as it was
/// decoded at the end of the transcript, what it cost, and what it says if it says
/// anything.
pub open spec fn takes_in(before: RunView, after: RunView, m: JsonView, tokens: u32) -> bool {
    &&& after.messages == before.messages.push(m)
    &&& before.total_tokens + tokens <= u32::MAX ==> after.total_tokens == before.total_tokens
        + tokens
    &&& after.content == match words(m) {
        Some(text) => Some(text),
        None => before.content,
    }
    &&& after.turn == before.turn
    &&& after.tools == before.tools
}

/// The preview of a text: its first hundred characters, with an ellipsis where there
/// are more.
proof fn lemma_preview(text: Seq<char>)
    ensures
        clip_text(text, 100) == if text.len() <= 100 {
            text
        } else {
            text.take(100).push('…')
        },
{
    reveal_strlit("…");
    if text.len() > 100 {
        assert(clip_text(text, 100) =~= text.take(100).push('…'));
    }
}

/// A run starts from scratch, with a warning for each name of its scope that is not
/// registered, in the order of the scope.
pub proof fn a_run_starts_from_scratch<H, A, W: WireFormat>(
    b: BackendView<H, A, W>,
    req: RequestView,
    i: int,
)
    ensures
        b.begin(req).1 matches StepView::Check(run) && {
            &&& run.turn == 0
            &&& run.total_tokens == 0
            &&& run.content is None
            &&& run.messages == opening(req)
            &&& run.tools == if req.tool_scope.len() == 0 {
                definitions_of(b.tools, sorted(b.tools.dom()))
            } else {
                definitions_of(b.tools, known(b.tools, req.tool_scope))
            }
        },
        req.tool_scope.len() == 0 ==> b.begin(req).0.len() == 0,
        req.tool_scope.len() > 0 ==> b.begin(req).0.len() == unknown(b.tools, req.tool_scope).len(),
        req.tool_scope.len() > 0 && 0 <= i < b.begin(req).0.len() ==> b.begin(req).0[i] == (
        EventView::Warning {
            turn: 0,
            message: "tool `"@ + unknown(b.tools, req.tool_scope)[i]
                + "` in scope is not registered"@,
        }),
{
}

/// The conversation starts with the prior one, in which a system prompt that was given
/// stands first, in place of the one that stood there, and ends with what the user
/// says.
pub proof fn a_conversation_starts_as_asked(req: RequestView)
    ensures
        ({
            let prior = req.messages;
            let system = message("system"@, req.system_prompt);
            let user = message("user"@, req.user_prompt);
            let replaces = prior.len() > 0 && prior[0].at("role"@) == JsonView::String("system"@);
            &&& prior.len() == 0 ==> opening(req) == seq![system, user]
            &&& prior.len() > 0 && req.system_prompt.len() == 0 ==> opening(req) == prior.push(user)
            &&& req.system_prompt.len() > 0 && replaces ==> opening(req) == seq![system]
                + prior.skip(1) + seq![user]
            &&& prior.len() > 0 && req.system_prompt.len() > 0 && !replaces ==> opening(req)
                == seq![system] + prior + seq![user]
        }),
{
    let prior = req.messages;
    let system = message("system"@, req.system_prompt);
    let user = message("user"@, req.user_prompt);
    if prior.len() == 0 {
        assert(opening(req) =~= seq![system, user]);
    } else if req.system_prompt.len() > 0 {
        if prior[0].at("role"@) == JsonView::String("system"@) {
            assert(opening(req) =~= seq![system] + prior.skip(1) + seq![user]);
        } else {
            assert(opening(req) =~= seq![system] + prior + seq![user]);
        }
    }
}

/// A turn that starts is counted and reported; it sends the transcript, trimmed to its
/// budget, with all the tools to the exploring model, and leaves the rest of the run
/// as it was.
pub proof fn a_turn_sends_the_trimmed_transcript<H, A, W: WireFormat>(
    b: BackendView<H, A, W>,
    run: RunView,
    interrupted: bool,
    elapsed: nat,
)
    ensures
        b.check(run, interrupted, elapsed).1 matches StepView::Explore(after, sent) ==> {
            &&& after.turn == run.turn + 1
            &&& after.messages == trimmed(run.messages, b.policy.max_history_chars as int)
            &&& after.tools == run.tools
            &&& after.total_tokens == run.total_tokens
            &&& after.content == run.content
            &&& b.check(run, interrupted, elapsed).0 == seq![
                EventView::TurnStart { turn: after.turn },
            ]
            &&& sent == first_attempt(
                b.client,
                b.wire.path_text(),
                b.wire.body(
                    WireRequestView {
                        model: b.policy.explore,
                        messages: after.messages,
                        tools: run.tools,
                        tool_choice: if after.turn == 1 {
                            b.policy.initial_tool_choice
                        } else {
                            "auto"@
                        },
                        policy: b.policy,
                    },
                ),
            )
        },
{
}

/// Where no turn starts, the first of these says why: an interrupt, the turn cap, the
/// token threshold, the clock. At the turn cap a run that wants a synthesis goes on to
/// it as it stands; in every other case it ends as it stands.
pub proof fn a_turn_that_does_not_start_says_why<H, A, W: WireFormat>(
    b: BackendView<H, A, W>,
    run: RunView,
    interrupted: bool,
    elapsed: nat,
)
    ensures
        ({
            let moved = b.check(run, interrupted, elapsed);
            let none = Seq::<EventView>::empty();
            let capped = run.turn >= b.policy.max_turns;
            let spent = b.policy.stop_after_tokens matches Some(limit) && run.total_tokens >= limit;
            let late = b.policy.timeout_secs matches Some(secs) && elapsed > secs * 1_000_000_000;
            &&& interrupted ==> ends(moved, none, run, StopView::Interrupted)
            &&& !interrupted && capped && b.policy.final_synthesis ==> moved.0 == none && moved.1
                == StepView::<H>::Conclude(run, StopView::MaxTurns(b.policy.max_turns))
            &&& !interrupted && capped && !b.policy.final_synthesis ==> ends(
                moved,
                none,
                run,
                StopView::MaxTurns(b.policy.max_turns),
            )
            &&& !interrupted && !capped && spent ==> ends(
                moved,
                none,
                run,
                StopView::MaxTokens(b.policy.stop_after_tokens->0),
            )
            &&& !interrupted && !capped && !spent && late ==> ends(
                moved,
                none,
                run,
                StopView::Timeout(b.policy.timeout_secs->0),
            )
            &&& !interrupted && !capped && !spent && !late ==> moved.1 is Explore
        }),
{
    let moved = b.check(run, interrupted, elapsed);
    if moved.1 is Done {
        assert(moved.0 =~= Seq::<EventView>::empty().push(moved.0[0]));
    }
}

/// A request that failed ends the run with its error, and so does a reply without a
/// turn in it.
pub proof fn a_failed_request_fails_the_run<H, A, W: WireFormat>(
    b: BackendView<H, A, W>,
    run: RunView,
    stop: StopView,
    data: JsonView,
    e: ErrorView,
)
    ensures
        b.explored(run, Err(e)) == Err::<(Seq<EventView>, StepView<H>), ErrorView>(e),
        b.synthesized(run, stop, Err(e)) == Err::<(Seq<EventView>, StepView<H>), ErrorView>(e),
        b.wire.turn(data) == Err::<(JsonView, u32), ErrorView>(e) ==> {
            &&& b.explored(run, Ok(data)) == Err::<(Seq<EventView>, StepView<H>), ErrorView>(e)
            &&& b.synthesized(run, stop, Ok(data)) == Err::<
                (Seq<EventView>, StepView<H>),
                ErrorView,
            >(e)
        },
{
}

/// A reply to an exploration request goes into the transcript as it was decoded. If it
/// makes calls, they are taken up in their order from the first; otherwise exploration
/// is complete, and the run goes on to the synthesis or ends.
pub proof fn an_exploration_reply_is_taken_in<H, A, W: WireFormat>(
    b: BackendView<H, A, W>,
    run: RunView,
    data: JsonView,
    m: JsonView,
    tokens: u32,
)
    requires
        b.wire.turn(data) == Ok::<(JsonView, u32), ErrorView>((m, tokens)),
    ensures
        b.explored(run, Ok(data)) matches Ok((events, step)) && {
            let after = progress(step);
            let told = if step is Done {
                events.drop_last()
            } else {
                events
            };
            &&& tells_of_reply(told, run.turn, m, tokens, requested(m).len() > 0)
            &&& match step {
                StepView::TakeCall(calls) => {
                    &&& requested(m).len() > 0
                    &&& takes_in(run, calls.run, m, tokens)
                    &&& calls.calls == requested(m)
                    &&& calls.next == 0
                    &&& calls.executed == 0
                },
                StepView::Conclude(after, stop) => {
                    &&& requested(m).len() == 0
                    &&& b.policy.final_synthesis
                    &&& takes_in(run, after, m, tokens)
                    &&& stop == StopView::Complete
                },
                StepView::Done(ending) => {
                    &&& requested(m).len() == 0
                    &&& !b.policy.final_synthesis
                    &&& takes_in(run, RunView { tools: run.tools, ..after }, m, tokens)
                    &&& ends((events, step), told, after, StopView::Complete)
                },
                _ => false,
            }
        },
{
    if let JsonView::String(s) = m.at("content"@) {
        lemma_preview(s);
    }
    let (events, step) = b.explored(run, Ok(data))->Ok_0;
    let told = if step is Done {
        events.drop_last()
    } else {
        events
    };
    lemma_tells(told, run.turn, m, tokens, requested(m).len() > 0);
    if step is Done {
        assert(events =~= told.push(events.last()));
    }
}

/// Events that are those of a reply tell of it.
proof fn lemma_tells(events: Seq<EventView>, turn: u32, m: JsonView, tokens: u32, calls: bool)
    requires
        events =~= reply_events(turn, m, tokens, calls),
    ensures
        tells_of_reply(events, turn, m, tokens, calls),
{
    if let JsonView::String(s) = m.at("content"@) {
        lemma_preview(s);
    }
    let cost = if tokens > 0 {
        seq![
            EventView::Usage {
                prompt_tokens: None,
                completion_tokens: None,
                total_tokens: tokens,
            },
        ]
    } else {
        Seq::empty()
    };
    let response = events[cost.len() as int];
    match words(m) {
        Some(text) => {
            assert(events =~= cost.push(response).push(EventView::ContentToken(text)));
        },
        None => {
            assert(events =~= cost.push(response));
        },
    }
}

/// A reply to the synthesis request goes into the transcript as it was decoded, after
/// all that was sent, and the run ends with it: for the reason for which exploration
/// stopped, and with what the reply says if it says anything.
pub proof fn a_synthesis_reply_ends_the_transcript<H, A, W: WireFormat>(
    b: BackendView<H, A, W>,
    run: RunView,
    stop: StopView,
    data: JsonView,
    m: JsonView,
    tokens: u32,
)
    requires
        b.wire.turn(data) == Ok::<(JsonView, u32), ErrorView>((m, tokens)),
    ensures
        b.synthesized(run, stop, Ok(data)) matches Ok((events, step)) && {
            &&& step is Done
            &&& takes_in(run, RunView { tools: run.tools, ..progress(step) }, m, tokens)
            &&& ends((events, step), events.drop_last(), progress(step), stop)
            &&& events.drop_last().last() == (EventView::TurnComplete {
                turn: run.turn,
                tools_executed: 0,
            })
            &&& tells_of_reply(events.drop_last().drop_last(), run.turn, m, tokens, false)
        },
{
    let (events, step) = b.synthesized(run, stop, Ok(data))->Ok_0;
    let told = events.drop_last().drop_last();
    assert(told =~= reply_events(run.turn, m, tokens, false));
    lemma_tells(told, run.turn, m, tokens, false);
    assert(events =~= events.drop_last().push(events.last()));
}

/// The transcript that a run with a synthesis hands back is what the synthesis request
/// sent, with the message that was decoded from its reply at the end.
pub proof fn the_final_answer_is_in_the_transcript<H, A, W: WireFormat>(
    b: BackendView<H, A, W>,
    req: RequestView,
    inputs: Seq<Input>,
    data: JsonView,
    m: JsonView,
    tokens: u32,
)
    requires
        played(b, req, inputs).failed is None,
        played(b, req, inputs).step is Synthesize,
        b.wire.turn(data) == Ok::<(JsonView, u32), ErrorView>((m, tokens)),
    ensures
        ({
            let before = played(b, req, inputs);
            let after = played(b, req, inputs.push(Input::Came(Ok(data))));
            &&& after.failed is None
            &&& after.step matches StepView::Done(ending) && {
                &&& ending.messages == before.step->Synthesize_0.messages.push(m)
                &&& words(m) is Some ==> ending.content == words(m)
                &&& ending.stop_reason == before.step->Synthesize_1
                &&& ending.turns == before.step->Synthesize_0.turn
            }
        }),
{
    let more = inputs.push(Input::Came(Ok(data)));
    assert(more.drop_last() =~= inputs);
    reveal(next);
    let run = played(b, req, inputs).step->Synthesize_0;
    let stop = played(b, req, inputs).step->Synthesize_1;
    a_synthesis_reply_ends_the_transcript(b, run, stop, data, m, tokens);
}

/// A reply to an exploration request stands in the transcript as it was decoded,
/// directly after what the request sent.
pub proof fn every_reply_is_in_the_transcript<H, A, W: WireFormat>(
    b: BackendView<H, A, W>,
    req: RequestView,
    inputs: Seq<Input>,
    data: JsonView,
    m: JsonView,
    tokens: u32,
)
    requires
        played(b, req, inputs).failed is None,
        played(b, req, inputs).step is Explore,
        b.wire.turn(data) == Ok::<(JsonView, u32), ErrorView>((m, tokens)),
    ensures
        ({
            let before = played(b, req, inputs);
            let after = played(b, req, inputs.push(Input::Came(Ok(data))));
            &&& after.failed is None
            &&& progress(after.step).messages == before.step->Explore_0.messages.push(m)
            &&& words(m) is Some ==> progress(after.step).content == words(m)
        }),
{
    let more = inputs.push(Input::Came(Ok(data)));
    assert(more.drop_last() =~= inputs);
    reveal(next);
    let run = played(b, req, inputs).step->Explore_0;
    an_exploration_reply_is_taken_in(b, run, data, m, tokens);
}

/// The synthesis asks the synthesizing model for the answer: it is told to stop
/// investigating, sent the transcript with that at its end, trimmed to its budget, and
/// the tools with the use of them forbidden. The rest of the run stays as it was.
pub proof fn a_synthesis_asks_for_the_answer<H, A, W: WireFormat>(
    b: BackendView<H, A, W>,
    run: RunView,
    stop: StopView,
)
    requires
        b.policy.stop_after_tokens matches Some(limit) ==> run.total_tokens < limit,
    ensures
        b.conclude(run, stop, false).1 matches StepView::Synthesize(after, kept, sent) && {
            &&& kept == stop
            &&& run.turn < u32::MAX ==> after.turn == run.turn + 1
            &&& after.tools == run.tools
            &&& after.total_tokens == run.total_tokens
            &&& after.content == run.content
            &&& after.messages == trimmed(
                run.messages.push(
                    message(
                        "user"@,
                        "Stop investigating now. Using only what you've already gathered, produce the final answer — no prose preamble, no tool calls."@,
                    ),
                ),
                b.policy.max_history_chars as int,
            )
            &&& b.conclude(run, stop, false).0 == seq![EventView::TurnStart { turn: after.turn }]
            &&& sent == first_attempt(
                b.client,
                b.wire.path_text(),
                b.wire.body(
                    WireRequestView {
                        model: b.policy.synthesize,
                        messages: after.messages,
                        tools: run.tools,
                        tool_choice: "none"@,
                        policy: b.policy,
                    },
                ),
            )
        },
{
}

/// Where the run is interrupted or has reached the token threshold before the
/// synthesis, it ends as it stands and says so, the interrupt before the threshold.
pub proof fn a_synthesis_that_does_not_start_says_why<H, A, W: WireFormat>(
    b: BackendView<H, A, W>,
    run: RunView,
    stop: StopView,
    limit: u32,
)
    ensures
        ends(b.conclude(run, stop, true), Seq::empty(), run, StopView::Interrupted),
        b.policy.stop_after_tokens == Some(limit) && run.total_tokens >= limit ==> ends(
            b.conclude(run, stop, false),
            Seq::empty(),
            run,
            StopView::MaxTokens(limit),
        ),
{
    let moved = b.conclude(run, stop, true);
    assert(moved.0 =~= Seq::<EventView>::empty().push(moved.0[0]));
    if b.policy.stop_after_tokens == Some(limit) && run.total_tokens >= limit {
        let moved = b.conclude(run, stop, false);
        assert(moved.0 =~= Seq::<EventView>::empty().push(moved.0[0]));
    }
}

/// Whether a call that was taken up is the next one of its turn, as the model made it.
pub open spec fn is_next_call(call: CallView, calls: CallsView) -> bool {
    let made = calls.calls[calls.next];
    let function = made.at("function"@);
    &&& call.calls == calls
    &&& call.id == match made.at("id"@) {
        JsonView::String(id) => id,
        _ => ""@,
    }
    &&& call.name == match function.at("name"@) {
        JsonView::String(name) => name,
        _ => ""@,
    }
    &&& call.arguments == match function.at("arguments"@) {
        JsonView::String(arguments) => arguments,
        _ => "{}"@,
    }
}

/// The call that a step is about.
pub open spec fn call_at<H>(step: StepView<H>) -> Option<CallView> {
    match step {
        StepView::Gate(call, _) => Some(call),
        StepView::Approve(call, _) => Some(call),
        StepView::RunTool(call, _, _) => Some(call),
        StepView::Settled(call, _) => Some(call),
        _ => None,
    }
}

/// A call that is taken up is reported as started, with its tool and its id, and is
/// the next one of its turn. Arguments that cannot be read are the result of it; with
/// an approver the call is put to it; otherwise its tool is run with the arguments
/// that were sent, or the result says that there is no such tool.
pub proof fn a_call_is_taken_up<H, A, W: WireFormat>(
    b: BackendView<H, A, W>,
    calls: CallsView,
    parsed: Result<JsonView, Seq<char>>,
)
    ensures
        ({
            let (events, step) = b.take_call(calls, false, parsed);
            let call = call_at(step)->0;
            let blank = forall|j: int|
                0 <= j < call.arguments.len() ==> is_white(#[trigger] call.arguments[j]);
            let args = if blank {
                Ok(JsonView::Object(Map::empty()))
            } else {
                parsed
            };
            &&& call_at(step) is Some
            &&& is_next_call(call, calls)
            &&& events == seq![
                EventView::ToolStart { turn: calls.run.turn, tool: call.name, call_id: call.id },
            ]
            &&& match args {
                Err(reason) => step == StepView::<H>::Settled(
                    call,
                    Err(ToolErrorView::InvalidArguments { tool: call.name, reason }),
                ),
                Ok(raw) => if b.approver is Some {
                    step == StepView::<H>::Gate(call, raw)
                } else {
                    runs(b, step, call, raw)
                },
            }
        }),
{
    let call = call_at(b.take_call(calls, false, parsed).1)->0;
    trimming_leaves_what_is_not_white(call.arguments);
}

/// Whether a step runs the tool of a call with what was sent, an empty object for
/// nothing, or says that there is no such tool.
pub open spec fn runs<H, A, W: WireFormat>(
    b: BackendView<H, A, W>,
    step: StepView<H>,
    call: CallView,
    raw: JsonView,
) -> bool {
    if b.tools.dom().contains(call.name) {
        step == StepView::<H>::RunTool(
            call,
            b.tools[call.name].handle,
            if raw is Null {
                JsonView::Object(Map::empty())
            } else {
                raw
            },
        )
    } else {
        step == StepView::<H>::Settled(call, Err(ToolErrorView::NotFound(call.name)))
    }
}

/// A call that needs a decision is reported with its arguments as the model sent them
/// and waits; one that needs none runs, and so does one that is approved. One that is
/// rejected does not run: the model is told so, as a result that is an error.
pub proof fn a_decision_decides<H, A, W: WireFormat>(
    b: BackendView<H, A, W>,
    call: CallView,
    raw: JsonView,
)
    ensures
        b.gate(call, raw, true).0 == seq![
            EventView::ToolApprovalRequired {
                turn: call.calls.run.turn,
                tool: call.name,
                call_id: call.id,
                arguments: call.arguments,
            },
        ],
        b.gate(call, raw, true).1 == StepView::<H>::Approve(call, raw),
        b.gate(call, raw, false).0.len() == 0,
        runs(b, b.gate(call, raw, false).1, call, raw),
        runs(b, b.decide(call, Ok(raw), true), call, raw),
        b.decide(call, Ok(raw), false) == StepView::<H>::Settled(
            call,
            Ok(
                OutputView {
                    content: "Tool execution was rejected by the user."@,
                    is_error: true,
                },
            ),
        ),
{
}

/// What came of a call, as the model is told.
pub open spec fn told_of(result: Result<OutputView, ToolErrorView>) -> Seq<char> {
    match result {
        Ok(output) => output.content,
        Err(e) => e.message(),
    }
}

/// Whether this event tells of the end of a call.
pub open spec fn tells_of_call(
    event: EventView,
    call: CallView,
    ok: bool,
    text: Seq<char>,
    elapsed: nat,
) -> bool {
    event matches EventView::ToolComplete {
        turn,
        tool,
        call_id,
        ok: went_well,
        duration_ms,
        output_preview,
    } && {
        &&& turn == call.calls.run.turn
        &&& tool == call.name
        &&& call_id == call.id
        &&& went_well == ok
        &&& elapsed / 1_000_000 <= u64::MAX ==> duration_ms == elapsed / 1_000_000
        &&& output_preview == if text.len() <= 100 {
            text
        } else {
            text.take(100).push('…')
        }
    }
}

/// A call that came to something is answered with it in the transcript and reported as
/// complete, well or not; then the next call of the turn is taken up, or, after the
/// last one, the turn is reported as complete with the calls that were executed, and
/// the next turn may start. A failure is something where the policy is to go on.
pub proof fn a_call_is_answered_and_the_turn_goes_on<H, A, W: WireFormat>(
    b: BackendView<H, A, W>,
    call: CallView,
    result: Result<OutputView, ToolErrorView>,
    elapsed: nat,
)
    requires
        result is Ok || b.policy.continue_on_tool_error,
        0 <= call.calls.next < call.calls.calls.len(),
        call.calls.executed < u32::MAX,
    ensures
        ({
            let (events, step) = b.completed(call, result, elapsed);
            let run = call.calls.run;
            let after = progress(step);
            let last = call.calls.next + 1 == call.calls.calls.len();
            &&& events.len() == if last {
                2int
            } else {
                1
            }
            &&& tells_of_call(
                events[0],
                call,
                result matches Ok(output) && !output.is_error,
                told_of(result),
                elapsed,
            )
            &&& after.messages == run.messages.push(tool_message(call.id, told_of(result)))
            &&& after.turn == run.turn
            &&& after.total_tokens == run.total_tokens
            &&& after.content == run.content
            &&& after.tools == run.tools
            &&& last ==> step is Check && events[1] == (EventView::TurnComplete {
                turn: run.turn,
                tools_executed: (call.calls.executed + 1) as u32,
            })
            &&& !last ==> (step matches StepView::TakeCall(calls) && calls.next == call.calls.next
                + 1 && calls.calls == call.calls.calls && calls.executed == call.calls.executed + 1)
        }),
{
    lemma_preview(told_of(result));
}

/// A failure where the policy is to stop ends the run with it: the call is answered
/// with what went wrong and reported as complete but not well, and each call of the
/// turn after it is answered as one that was never executed.
pub proof fn a_failure_ends_the_run_where_it_should<H, A, W: WireFormat>(
    b: BackendView<H, A, W>,
    call: CallView,
    e: ToolErrorView,
    elapsed: nat,
)
    requires
        !b.policy.continue_on_tool_error,
        0 <= call.calls.next < call.calls.calls.len(),
    ensures
        ({
            let moved = b.completed(call, Err(e), elapsed);
            let run = call.calls.run;
            let pending = call.calls.calls.skip(call.calls.next + 1);
            &&& moved.0.len() == 2
            &&& tells_of_call(moved.0[0], call, false, e.message(), elapsed)
            &&& ends(
                moved,
                seq![moved.0[0]],
                RunView {
                    messages: run.messages.push(tool_message(call.id, e.message())) + sealed(
                        pending,
                        "[not executed: run aborted after a tool failure]"@,
                    ),
                    ..run
                },
                StopView::Error(e.message()),
            )
        }),
{
    lemma_preview(e.message());
    let moved = b.completed(call, Err(e), elapsed);
    assert(moved.0 =~= seq![moved.0[0]].push(moved.0[1]));
}

/// An interrupt among the calls of a turn ends the run: each call that was not taken
/// up is answered as one that was never executed, and none of them runs.
pub proof fn an_interrupt_answers_what_is_left<H, A, W: WireFormat>(
    b: BackendView<H, A, W>,
    calls: CallsView,
    parsed: Result<JsonView, Seq<char>>,
)
    ensures
        ends(
            b.take_call(calls, true, parsed),
            Seq::empty(),
            RunView {
                messages: calls.run.messages + sealed(
                    calls.calls.skip(calls.next),
                    "[not executed: run interrupted]"@,
                ),
                ..calls.run
            },
            StopView::Interrupted,
        ),
{
    let moved = b.take_call(calls, true, parsed);
    assert(moved.0 =~= Seq::<EventView>::empty().push(moved.0[0]));
}

/// However a run ends, its answer is attributed to the model that gave it, and to the
/// exploring model too where that is another.
pub proof fn an_answer_is_attributed_to_both_models<H, A, W: WireFormat>(
    b: BackendView<H, A, W>,
    req: RequestView,
    inputs: Seq<Input>,
)
    ensures
        played(b, req, inputs).step matches StepView::Done(ending) ==> ending.model == if
            b.policy.explore == b.policy.synthesize {
            b.policy.synthesize
        } else {
            b.policy.synthesize + " (explore: "@ + b.policy.explore + ")"@
        },
    decreases inputs.len(),
{
    if inputs.len() > 0 {
        an_answer_is_attributed_to_both_models(b, req, inputs.drop_last());
        reveal(next);
    }
}

/// The outcome of a run is what it ended with, and how long it took in whole
/// milliseconds.
pub proof fn an_outcome_is_how_the_run_ended(ending: EndingView, elapsed: nat)
    ensures
        ({
            let outcome = ending.outcome(elapsed);
            &&& outcome.content == ending.content
            &&& outcome.turns == ending.turns
            &&& outcome.total_tokens == ending.total_tokens
            &&& outcome.stop_reason == ending.stop_reason
            &&& outcome.messages == ending.messages
            &&& outcome.model == ending.model
            &&& elapsed / 1_000_000 <= u64::MAX ==> outcome.duration_ms == elapsed / 1_000_000
        }),
{
}

/// The structured ending of a run is the JSON in its final message; where there is
/// none, the error tells the message, of which no more than 300 characters are told.
pub proof fn a_structured_ending_is_the_json_of_the_answer(text: Seq<char>)
    ensures
        match extracted(text) {
            Some(json) => structured_ending(Some(text)) == Ok::<Seq<char>, ErrorView>(json),
            None => structured_ending(Some(text)) matches Err(ErrorView::Decode(told)) && {
                &&& text.len() <= 300 ==> text.is_suffix_of(told)
                &&& text.len() > 300 ==> text.take(300).push('…').is_suffix_of(told)
            },
        },
        structured_ending(None) == structured_ending(Some(Seq::empty())),
{
    reveal_strlit("…");
    if extracted(text) is None {
        let told = "no JSON object in response: "@ + clip_text(text, 300);
        if text.len() <= 300 {
            assert(text =~= told.subrange(told.len() - text.len(), told.len() as int));
        } else {
            let tail = text.take(300).push('…');
            assert(tail =~= told.subrange(told.len() - tail.len(), told.len() as int));
        }
    }
}

/// What a run asks the provider for takes the tools of its scope and nothing else: a
/// scope that is empty takes them all.
pub proof fn an_empty_scope_exposes_every_tool<H>(
    tools: Map<Seq<char>, ToolView<H>>,
    scope: Seq<Seq<char>>,
)
    ensures
        scope.len() == 0 ==> scoped(tools, scope).0 == definitions_of(tools, sorted(tools.dom()))
            && scoped(tools, scope).1.len() == 0,
        scope.len() > 0 ==> scoped(tools, scope).0 == definitions_of(tools, known(tools, scope))
            && scoped(tools, scope).1 == unknown(tools, scope),
{
}

} // verus!
