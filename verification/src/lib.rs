//! A small agent loop over OpenAI-compatible endpoints, as verified decisions.
//!
//! Everything that decides is here: which request is sent and what its reply
//! means, when a failed request is tried again, which tools exist and what a call
//! of one runs, what the loop does next, and what it reports. Nothing here waits
//! or talks to a network. A host performs what the library asks for — send this,
//! wait that long, run this tool, ask about that call — and hands back what came
//! of it.
//!
//! - [`provider`] — one request to a provider, with its retries.
//! - [`tools`] — tools, their definitions and the dispatch of calls.
//! - [`wire`] — how a turn is encoded for an endpoint and its reply decoded.
//! - [`loop_runner`] — the loop, step by step.
//! - [`steps`] — what each step of a run does.
//! - [`trace`] — whole runs, and what holds of every one of them.
//! - [`history`] — the conversation and its budget.
//! - [`backend`] — the policy of a run, its request and its outcome.
//! - [`events`] — what a run reports, and the sink that it reports to.
//! - [`error`] — what can go wrong.
//! - [`extract`] — the JSON in an answer that is wrapped in prose.
//! - [`json`], [`text`], [`span`] — values, texts and lengths of time.
pub mod backend;
pub mod error;
pub mod events;
pub mod extract;
pub mod history;
pub mod json;
pub mod loop_runner;
pub mod provider;
pub mod span;
pub mod steps;
pub mod text;
pub mod tools;
pub mod trace;
pub mod wire;

pub use backend::{ModelPolicy, RunOutcome, RunRequest};
pub use error::AgentError;
pub use events::{AgentEvent, EventSink, StopReason};
pub use extract::extract_json;
pub use history::trim_history;
pub use json::{Json, JsonMap, Number};
pub use loop_runner::{ChatBackend, Step};
pub use provider::{ChatClient, ProviderConfig, RetryPolicy};
pub use tools::{ErasedTool, ToolError, ToolOutput, ToolRegistry};
pub use wire::{ChatCompletions, Responses, WireFormat, WireRequest};
