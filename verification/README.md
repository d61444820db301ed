# agent-loop-core

A small LLM **agent loop** over any OpenAI-compatible endpoint: resilient
transport, tools, streaming events and an optional two-model cost split. The
decisions are written in Verus and proved; the waiting and the talking are
ordinary Rust around them.

## Layout

- `src/` — the library. It decides and never waits: which request is sent and
  what its reply means, when a failed request is tried again and after how long,
  which tools exist and what a call runs, what the loop does next and what it
  reports.
- `app/` — the host. It sends requests over HTTP, sleeps, runs typed tools, asks
  approvers and hands back what came of it.
- `tests/` — the library from outside, driven by scripted hosts.

## How a run goes

`ChatBackend::begin` takes a `RunRequest` and gives the events to report and the
first `Step`. Each step says what the host has to do — look at the clock, send a
request, ask about a call, run a tool — and names the method that takes the
answer to the next events and the next step, until `Step::Done`.

A request to a provider goes the same way: `ChatClient::post` gives an
`Exchange`, which is told what came of each attempt and says whether to wait and
send again or what the request came to.

## What is proved

Functions say exactly what they return. Over whole runs (`src/trace.rs`):

- the end of a run is reported exactly once, after everything else;
- the tokens of a run are those that its events report;
- no exploration turn starts past the turn cap, the token threshold, the time
  limit or an interrupt, and no synthesis past the threshold or an interrupt, so
  the threshold is overshot by one call at most;
- turns are numbered one after another;
- a run synthesizes if and only if the policy wants it and exploration came to
  its end, and it still reports why exploration stopped;
- every tool call in a transcript is answered, so that it can be resumed;
- a transcript only grows, and nothing but tool results is ever elided;
- a call that was rejected, or whose arguments cannot be read, never runs.

The tool registry, the wire formats, the retry policy and the trimming of
history have laws of their own, beside the functions they are about.
