//! Typed errors for the agent harness.
//!
//! A caller can tell a rate limit from an auth failure from a malformed
//! response, and so can decide on retries of its own. Every variant is here
//! because some caller branches on it.
use std::time::Duration;

use vstd::prelude::*;
use vstd::string::*;

use crate::span::{debug_text, duration_debug, nanos};
use crate::text::{decimal, decimal_text, joined};

verus! {

/// A failure below the HTTP status layer, as the transport reports it.
#[derive(Debug)]
pub struct TransportFailure {
    /// The failure is a timeout.
    pub timeout: bool,
    /// The connection could not be made.
    pub connect: bool,
    /// The request could not be sent.
    pub request: bool,
    /// What the transport says of it.
    pub message: String,
}

/// An error from the provider transport layer.
#[derive(Debug)]
pub enum AgentError {
    /// The request did not complete within the configured time.
    Timeout(Duration),
    /// Network or transport failure below the HTTP status layer.
    Transport(TransportFailure),
    /// The provider rate-limited us and retries were exhausted.
    RateLimited {
        attempts: u32,
        /// Value of the `Retry-After` header on the final response, if any.
        retry_after: Option<Duration>,
    },
    /// The provider returned a non-success status, or a body carrying `error`.
    Api { status: u16, message: String },
    /// The response was not the JSON we expected.
    Decode(String),
    /// Misconfiguration detected before any request was made.
    Config(String),
}

/// What an [`AgentError`] is; a length of time is its nanoseconds.
#[verifier::ext_equal]
pub enum ErrorView {
    Timeout(nat),
    Transport { timeout: bool, connect: bool, request: bool, message: Seq<char> },
    RateLimited { attempts: u32, retry_after: Option<nat> },
    Api { status: u16, message: Seq<char> },
    Decode(Seq<char>),
    Config(Seq<char>),
}

/// The nanoseconds of a length of time that may be absent.
pub open spec fn opt_nanos(d: Option<Duration>) -> Option<nat> {
    match d {
        Some(d) => Some(nanos(d)),
        None => None,
    }
}

impl View for AgentError {
    type V = ErrorView;

    open spec fn view(&self) -> ErrorView {
        match *self {
            AgentError::Timeout(d) => ErrorView::Timeout(nanos(d)),
            AgentError::Transport(e) => ErrorView::Transport {
                timeout: e.timeout,
                connect: e.connect,
                request: e.request,
                message: e.message@,
            },
            AgentError::RateLimited { attempts, retry_after } => ErrorView::RateLimited {
                attempts,
                retry_after: opt_nanos(retry_after),
            },
            AgentError::Api { status, message } => ErrorView::Api { status, message: message@ },
            AgentError::Decode(reason) => ErrorView::Decode(reason@),
            AgentError::Config(reason) => ErrorView::Config(reason@),
        }
    }
}

impl ErrorView {
    /// Whether retrying could plausibly succeed: a timeout, a rate limit, a
    /// transport failure on the way out, a request timeout or a server error.
    pub open spec fn retryable(self) -> bool {
        match self {
            ErrorView::Timeout(_) => true,
            ErrorView::RateLimited { .. } => true,
            ErrorView::Transport { timeout, connect, request, .. } => timeout || connect || request,
            ErrorView::Api { status, .. } => status == 408 || status >= 500,
            ErrorView::Decode(_) => false,
            ErrorView::Config(_) => false,
        }
    }

    /// The delay that the server asked for, in nanoseconds.
    pub open spec fn retry_after(self) -> Option<nat> {
        match self {
            ErrorView::RateLimited { retry_after, .. } => retry_after,
            _ => None,
        }
    }

    /// What the error says.
    pub open spec fn message(self) -> Seq<char> {
        match self {
            ErrorView::Timeout(n) => "request timed out after "@ + debug_text(n),
            ErrorView::Transport { message, .. } => "transport error: "@ + message,
            ErrorView::RateLimited { attempts, .. } => "rate limited after "@ + decimal_text(
                attempts as nat,
            ) + " attempt(s)"@,
            ErrorView::Api { status, message } => "provider returned "@ + decimal_text(
                status as nat,
            ) + ": "@ + message,
            ErrorView::Decode(reason) => "could not decode provider response: "@ + reason,
            ErrorView::Config(reason) => "configuration error: "@ + reason,
        }
    }
}

impl AgentError {
    /// Whether retrying this request could plausibly succeed.
    ///
    /// Deliberately conservative: 4xx other than 408/429 are caller errors and
    /// retrying them only burns quota.
    #[must_use]
    pub fn is_retryable(&self) -> (res: bool)
        ensures
            res == self@.retryable(),
    {
        match self {
            AgentError::Timeout(_) => true,
            AgentError::RateLimited { .. } => true,
            AgentError::Transport(e) => e.timeout || e.connect || e.request,
            AgentError::Api { status, .. } => *status == 408 || *status >= 500,
            AgentError::Decode(_) => false,
            AgentError::Config(_) => false,
        }
    }

    /// The server-suggested delay before retrying, when it gave one.
    #[must_use]
    pub fn retry_after(&self) -> (res: Option<Duration>)
        ensures
            opt_nanos(res) == self@.retry_after(),
    {
        match self {
            AgentError::RateLimited { retry_after, .. } => *retry_after,
            _ => None,
        }
    }

    /// The HTTP status, when the failure carried one.
    #[must_use]
    pub fn status(&self) -> (res: Option<u16>)
        ensures
            res == match self@ {
                ErrorView::Api { status, .. } => Some(status),
                ErrorView::RateLimited { .. } => Some(429u16),
                _ => None,
            },
    {
        match self {
            AgentError::Api { status, .. } => Some(*status),
            AgentError::RateLimited { .. } => Some(429),
            _ => None,
        }
    }

    /// The error in words.
    pub fn to_string(&self) -> (res: String)
        ensures
            res@ == self@.message(),
    {
        match self {
            AgentError::Timeout(d) => joined(
                "request timed out after ",
                duration_debug(*d).as_str(),
            ),
            AgentError::Transport(e) => joined("transport error: ", e.message.as_str()),
            AgentError::RateLimited { attempts, .. } => {
                let head = joined("rate limited after ", decimal(*attempts as u64).as_str());
                joined(head.as_str(), " attempt(s)")
            },
            AgentError::Api { status, message } => {
                let head = joined("provider returned ", decimal(*status as u64).as_str());
                joined(joined(head.as_str(), ": ").as_str(), message.as_str())
            },
            AgentError::Decode(reason) => joined(
                "could not decode provider response: ",
                reason.as_str(),
            ),
            AgentError::Config(reason) => joined("configuration error: ", reason.as_str()),
        }
    }
}

/// Only a rate limit can carry a delay that the server asked for, and it carries it as
/// it was given.
pub proof fn only_a_rate_limit_carries_a_delay(e: ErrorView)
    ensures
        e.retry_after() == match e {
            ErrorView::RateLimited { retry_after: Some(delay), .. } => Some(delay),
            _ => None,
        },
{
}

/// What an error says tells what kind it is, and ends with what is known of it.
pub proof fn an_error_says_what_is_known_of_it(
    n: nat,
    failure: TransportFailure,
    attempts: u32,
    asked: Option<nat>,
    status: u16,
    text: Seq<char>,
)
    ensures
        ErrorView::Timeout(n).message() == "request timed out after "@ + debug_text(n),
        AgentError::Transport(failure)@.message() == "transport error: "@ + failure.message@,
        (ErrorView::RateLimited { attempts, retry_after: asked }).message() == "rate limited after "@
            + decimal_text(attempts as nat) + " attempt(s)"@,
        (ErrorView::Api { status, message: text }).message() == "provider returned "@ + decimal_text(
            status as nat,
        ) + ": "@ + text,
        ErrorView::Decode(text).message() == "could not decode provider response: "@ + text,
        ErrorView::Config(text).message() == "configuration error: "@ + text,
{
}

} // verus!
