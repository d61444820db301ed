//! A resilient chat-completions client.
//!
//! Every request carries a time limit, a rate limit or a server error is tried
//! again after a delay, and a reply is told apart by its status before its body
//! is read. This module decides all of that; the host sends what an
//! [`Exchange`] says and reports back what came of it.
use std::time::Duration;

use vstd::arithmetic::power::*;
use vstd::prelude::*;
use vstd::string::*;

use crate::error::{opt_nanos, AgentError, ErrorView, TransportFailure};
use crate::json::{json_of_text, parse_json, parsed_view, Json, JsonView};
use crate::span::{max_nanos, nanos};
use crate::text::{
    a_decimal_number_is_read_back, a_text_with_another_character_is_no_number, clip, clip_text,
    decimal_digits_stand_for_their_number, decimal_text, is_digit, is_white, joined, lemma_trim,
    parse_u64, strip_slashes, trim_text, trimming_leaves_what_is_not_white, u64_of,
    without_trailing_slashes,
};

verus! {

/// How hard to retry a failed request.
#[derive(Debug)]
pub struct RetryPolicy {
    /// Retries *after* the first attempt. `0` disables retrying.
    pub max_retries: u32,
    /// Delay before the first retry; doubles each attempt.
    pub initial_backoff: Duration,
    /// Ceiling for the doubling.
    pub max_backoff: Duration,
}

/// The lesser of two lengths.
pub open spec fn lesser(a: nat, b: nat) -> nat {
    if a <= b {
        a
    } else {
        b
    }
}

impl RetryPolicy {
    /// The delay before retry `attempt`, counted from zero, in nanoseconds: the
    /// first delay, doubled for each attempt, up to the ceiling.
    pub open spec fn backoff(self, attempt: u32) -> nat {
        lesser(
            lesser(
                nanos(self.initial_backoff) * pow(2, attempt as nat) as nat,
                max_nanos(),
            ),
            nanos(self.max_backoff),
        )
    }

    /// No retries — useful in tests and for callers that own their own policy.
    #[must_use]
    pub fn none() -> (res: Self)
        ensures
            res.max_retries == 0,
            nanos(res.initial_backoff) == 500_000_000,
            nanos(res.max_backoff) == 8_000_000_000,
    {
        let policy = Self::default();
        RetryPolicy { max_retries: 0, ..policy }
    }

    /// The delay before retry `attempt`, counted from zero.
    #[must_use]
    pub fn backoff_for(&self, attempt: u32) -> (res: Duration)
        ensures
            nanos(res) == self.backoff(attempt),
    {
        let ghost first = nanos(self.initial_backoff);
        let ceiling: u128 = self.max_backoff.as_nanos();
        let mut delay = self.initial_backoff;
        let mut length: u128 = delay.as_nanos();
        let mut doubled: u32 = 0;
        proof {
            lemma_pow0(2);
            assert(first * pow(2, 0) as nat == first) by (nonlinear_arith)
                requires
                    pow(2, 0) == 1,
            ;
        }
        while doubled < attempt && 0 < length && length < ceiling
            invariant
                doubled <= attempt,
                first == nanos(self.initial_backoff),
                ceiling == nanos(self.max_backoff) <= max_nanos(),
                length == nanos(delay),
                length == lesser(first * pow(2, doubled as nat) as nat, max_nanos()),
            decreases attempt - doubled,
        {
            proof {
                lemma_doubled(first, doubled as nat);
            }
            delay = delay.saturating_mul(2);
            length = delay.as_nanos();
            doubled += 1;
        }
        proof {
            lemma_not_shorter(first, doubled as nat, attempt as nat);
        }
        if length < ceiling {
            delay
        } else {
            self.max_backoff
        }
    }
}

/// One more attempt doubles.
proof fn lemma_doubled(first: nat, attempt: nat)
    ensures
        first * pow(2, attempt + 1) as nat == 2 * (first * pow(2, attempt) as nat),
{
    lemma_pow_positive(2, attempt);
    reveal(pow);
    let a = pow(2, attempt);
    assert(first * (2 * a) == 2 * (first * a)) by (nonlinear_arith);
}

/// A later attempt does not wait for less, and where nothing is doubled nothing
/// comes of it.
proof fn lemma_not_shorter(first: nat, earlier: nat, later: nat)
    requires
        earlier <= later,
    ensures
        first * pow(2, earlier) as nat <= first * pow(2, later) as nat,
        first * pow(2, earlier) as nat == 0 ==> first * pow(2, later) as nat == 0,
{
    lemma_pow_positive(2, earlier);
    lemma_pow_positive(2, later);
    lemma_pow_increases(2, earlier, later);
    let (a, b) = (pow(2, earlier) as nat, pow(2, later) as nat);
    assert(first * a <= first * b) by (nonlinear_arith)
        requires
            a <= b,
    ;
    assert(first * a == 0 ==> first * b == 0) by (nonlinear_arith)
        requires
            a > 0,
    ;
}

impl Clone for RetryPolicy {
    fn clone(&self) -> (res: Self)
        ensures
            res == *self,
    {
        RetryPolicy {
            max_retries: self.max_retries,
            initial_backoff: self.initial_backoff,
            max_backoff: self.max_backoff,
        }
    }
}

impl Default for RetryPolicy {
    fn default() -> (res: Self)
        ensures
            res.max_retries == 3,
            nanos(res.initial_backoff) == 500_000_000,
            nanos(res.max_backoff) == 8_000_000_000,
    {
        RetryPolicy {
            max_retries: 3,
            initial_backoff: Duration::from_millis(500),
            max_backoff: Duration::from_secs(8),
        }
    }
}

/// No delay is longer than the ceiling, and a later one is never shorter.
pub proof fn backoff_grows_up_to_the_ceiling(policy: RetryPolicy, earlier: u32, later: u32)
    requires
        earlier <= later,
    ensures
        policy.backoff(earlier) <= policy.backoff(later) <= nanos(policy.max_backoff),
{
    lemma_not_shorter(nanos(policy.initial_backoff), earlier as nat, later as nat);
}

/// Each delay is twice the one before it, up to the ceiling and to the longest
/// `Duration`.
pub proof fn backoff_doubles_up_to_the_ceiling(policy: RetryPolicy, attempt: u32)
    requires
        attempt < u32::MAX,
    ensures
        policy.backoff((attempt + 1) as u32) == lesser(
            lesser(2 * policy.backoff(attempt), max_nanos()),
            nanos(policy.max_backoff),
        ),
{
    lemma_doubled(nanos(policy.initial_backoff), attempt as nat);
}

/// A ceiling is reached once the first delay was doubled often enough, and is kept
/// from then on.
pub proof fn the_ceiling_is_reached(policy: RetryPolicy, attempt: u32, later: u32)
    requires
        attempt <= later,
        nanos(policy.max_backoff) <= max_nanos(),
        nanos(policy.max_backoff) <= nanos(policy.initial_backoff) * pow(2, attempt as nat),
    ensures
        policy.backoff(later) == nanos(policy.max_backoff),
{
    lemma_pow_positive(2, attempt as nat);
    lemma_not_shorter(nanos(policy.initial_backoff), attempt as nat, later as nat);
}

/// Everything needed to talk to one OpenAI-compatible endpoint.
#[derive(Debug)]
pub struct ProviderConfig {
    /// For example `https://openrouter.ai/api/v1`.
    pub base_url: String,
    /// Bearer token. **Empty means keyless**: no `Authorization` header is
    /// sent. Local providers have no key, and callers legitimately pass an empty
    /// string for them.
    pub api_key: String,
    /// Whole-request budget.
    pub timeout: Duration,
    pub connect_timeout: Duration,
    pub retry: RetryPolicy,
    /// Provider-specific extras, such as `HTTP-Referer` and `X-Title`.
    pub extra_headers: Vec<(String, String)>,
}

impl Default for ProviderConfig {
    fn default() -> (res: Self)
        ensures
            res.base_url@.len() == 0,
            res.api_key@.len() == 0,
            nanos(res.timeout) == 120_000_000_000,
            nanos(res.connect_timeout) == 10_000_000_000,
            res.retry.max_retries == 3,
            nanos(res.retry.initial_backoff) == 500_000_000,
            nanos(res.retry.max_backoff) == 8_000_000_000,
            res.extra_headers@.len() == 0,
    {
        ProviderConfig {
            base_url: String::new(),
            api_key: String::new(),
            timeout: Duration::from_secs(120),
            connect_timeout: Duration::from_secs(10),
            retry: RetryPolicy::default(),
            extra_headers: Vec::new(),
        }
    }
}

/// What a [`ProviderConfig`] is.
#[verifier::ext_equal]
pub struct ConfigView {
    pub base_url: Seq<char>,
    pub api_key: Seq<char>,
    /// In nanoseconds.
    pub timeout: nat,
    /// In nanoseconds.
    pub connect_timeout: nat,
    pub retry: RetryPolicy,
    pub extra_headers: Seq<(Seq<char>, Seq<char>)>,
}

impl View for ProviderConfig {
    type V = ConfigView;

    open spec fn view(&self) -> ConfigView {
        ConfigView {
            base_url: self.base_url@,
            api_key: self.api_key@,
            timeout: nanos(self.timeout),
            connect_timeout: nanos(self.connect_timeout),
            retry: self.retry,
            extra_headers: header_views(self.extra_headers@),
        }
    }
}

impl Clone for ProviderConfig {
    fn clone(&self) -> (res: Self)
        ensures
            res@ == self@,
    {
        ProviderConfig {
            base_url: self.base_url.clone(),
            api_key: self.api_key.clone(),
            timeout: self.timeout,
            connect_timeout: self.connect_timeout,
            retry: self.retry.clone(),
            extra_headers: copied_headers(&self.extra_headers),
        }
    }
}

/// Names and values of headers.
pub open spec fn header_views(headers: Seq<(String, String)>) -> Seq<(Seq<char>, Seq<char>)> {
    headers.map_values(|h: (String, String)| (h.0@, h.1@))
}

/// Copies of headers.
fn copied_headers(headers: &Vec<(String, String)>) -> (res: Vec<(String, String)>)
    ensures
        header_views(res@) == header_views(headers@),
{
    let mut res: Vec<(String, String)> = Vec::new();
    for i in 0..headers.len()
        invariant
            res@.len() == i,
            forall|j: int|
                0 <= j < i ==> (#[trigger] res@[j]).0@ == headers@[j].0@ && res@[j].1@
                    == headers@[j].1@,
    {
        res.push((headers[i].0.clone(), headers[i].1.clone()));
    }
    assert(header_views(res@) =~= header_views(headers@));
    res
}

/// The address of `path` under a base that may end in slashes.
pub open spec fn url_of(base: Seq<char>, path: Seq<char>) -> Seq<char> {
    without_trailing_slashes(base) + "/"@ + path
}

/// The token that is sent for a key: none for one that is blank.
pub open spec fn bearer_of(api_key: Seq<char>) -> Option<Seq<char>> {
    if trim_text(api_key).len() == 0 {
        None
    } else {
        Some(api_key)
    }
}

/// A base with a slash at its end leads to the same addresses as one without.
pub proof fn a_trailing_slash_is_tolerated(base: Seq<char>, path: Seq<char>)
    ensures
        url_of(base + seq!['/'], path) == url_of(base, path),
{
    assert((base + seq!['/']).drop_last() == base);
}

/// One POST request, ready to be sent.
#[derive(Debug)]
pub struct HttpRequest {
    pub url: String,
    /// The token of the `Authorization` header; without one no such header is sent.
    pub bearer: Option<String>,
    pub headers: Vec<(String, String)>,
    pub body: Json,
}

/// What an [`HttpRequest`] is.
#[verifier::ext_equal]
pub struct HttpRequestView {
    pub url: Seq<char>,
    pub bearer: Option<Seq<char>>,
    pub headers: Seq<(Seq<char>, Seq<char>)>,
    pub body: JsonView,
}

impl View for HttpRequest {
    type V = HttpRequestView;

    open spec fn view(&self) -> HttpRequestView {
        HttpRequestView {
            url: self.url@,
            bearer: match self.bearer {
                Some(key) => Some(key@),
                None => None,
            },
            headers: header_views(self.headers@),
            body: self.body@,
        }
    }
}

/// The request for `path` and `body` under a configuration.
pub open spec fn request_of(cfg: ConfigView, path: Seq<char>, body: JsonView) -> HttpRequestView {
    HttpRequestView {
        url: url_of(cfg.base_url, path),
        bearer: bearer_of(cfg.api_key),
        headers: cfg.extra_headers,
        body,
    }
}

/// A client for one endpoint, with a time limit and a retry policy attached.
///
/// Construct this **once** and share it.
#[derive(Debug)]
pub struct ChatClient {
    cfg: ProviderConfig,
}

impl ChatClient {
    /// The configuration that the client was made with.
    pub closed spec fn cfg(&self) -> ConfigView {
        self.cfg@
    }

    /// A client for this configuration.
    ///
    /// # Errors
    /// If `base_url` is blank. A blank `api_key` is **not** an error — see
    /// [`ProviderConfig::api_key`].
    pub fn new(cfg: ProviderConfig) -> (res: Result<Self, AgentError>)
        ensures
            match res {
                Ok(client) => trim_text(cfg.base_url@).len() > 0 && client.cfg() == cfg@,
                Err(e) => trim_text(cfg.base_url@).len() == 0 && e@ == ErrorView::Config(
                    "base_url is empty"@,
                ),
            },
    {
        if cfg.base_url.as_str().trim().is_empty() {
            return Err(AgentError::Config("base_url is empty".to_owned()));
        }
        Ok(ChatClient { cfg })
    }

    /// The configuration that the client was made with.
    pub fn config(&self) -> (res: &ProviderConfig)
        ensures
            res@ == self.cfg(),
    {
        &self.cfg
    }

    /// POST to `{base_url}/chat/completions`, retrying transient failures.
    pub fn post_chat(&self, body: &Json) -> (res: Exchange)
        ensures
            res@ == first_attempt(self.cfg(), "chat/completions"@, body@),
    {
        self.post("chat/completions", body)
    }

    /// POST to an arbitrary path under `base_url`, retrying transient failures.
    pub fn post(&self, path: &str, body: &Json) -> (res: Exchange)
        ensures
            res@ == first_attempt(self.cfg(), path@, body@),
    {
        let url = joined(joined(strip_slashes(self.cfg.base_url.as_str()), "/").as_str(), path);
        let bearer = if self.cfg.api_key.as_str().trim().is_empty() {
            None
        } else {
            Some(self.cfg.api_key.clone())
        };
        let headers = copied_headers(&self.cfg.extra_headers);
        let request = HttpRequest { url, bearer, headers, body: body.clone() };
        assert(request@ =~= request_of(self.cfg@, path@, body@));
        Exchange {
            request,
            timeout: self.cfg.timeout,
            retry: self.cfg.retry.clone(),
            attempt: 0,
        }
    }
}

impl Clone for ChatClient {
    fn clone(&self) -> (res: Self)
        ensures
            res.cfg() == self.cfg(),
    {
        ChatClient { cfg: self.cfg.clone() }
    }
}

/// One request on its way through the retry policy.
///
/// The host sends [`Exchange::request`], tells what came of it, and does what
/// it is told: hand the result on, or wait and send the same request again.
#[derive(Debug)]
pub struct Exchange {
    request: HttpRequest,
    timeout: Duration,
    retry: RetryPolicy,
    attempt: u32,
}

/// What an [`Exchange`] is.
#[verifier::ext_equal]
pub struct ExchangeView {
    pub request: HttpRequestView,
    /// The time limit of one attempt, in nanoseconds.
    pub timeout: nat,
    pub retry: RetryPolicy,
    /// How many attempts have failed.
    pub attempt: u32,
}

impl View for Exchange {
    type V = ExchangeView;

    closed spec fn view(&self) -> ExchangeView {
        ExchangeView {
            request: self.request@,
            timeout: nanos(self.timeout),
            retry: self.retry,
            attempt: self.attempt,
        }
    }
}

/// A request of which no attempt has been made.
pub open spec fn first_attempt(
    cfg: ConfigView,
    path: Seq<char>,
    body: JsonView,
) -> ExchangeView {
    ExchangeView {
        request: request_of(cfg, path, body),
        timeout: cfg.timeout,
        retry: cfg.retry,
        attempt: 0,
    }
}

/// What to do next about a request.
#[derive(Debug)]
pub enum Next {
    /// Nothing: this is what the request came to.
    Done(Result<Json, AgentError>),
    /// Wait this long and send it again; this is what the attempt failed with.
    RetryAfter(Duration, AgentError),
}

/// What a [`Next`] is.
#[verifier::ext_equal]
pub enum NextView {
    Done(Result<JsonView, ErrorView>),
    RetryAfter(nat, ErrorView),
}

/// What a result of a request is.
pub open spec fn result_view(res: Result<Json, AgentError>) -> Result<JsonView, ErrorView> {
    match res {
        Ok(json) => Ok(json@),
        Err(e) => Err(e@),
    }
}

impl View for Next {
    type V = NextView;

    open spec fn view(&self) -> NextView {
        match *self {
            Next::Done(res) => NextView::Done(result_view(res)),
            Next::RetryAfter(d, e) => NextView::RetryAfter(nanos(d), e@),
        }
    }
}

/// A count in 32 bits, which starts over after the greatest.
pub open spec fn wrapped(n: int) -> u32 {
    (n % 0x1_0000_0000) as u32
}

impl ExchangeView {
    /// What becomes of the request when an attempt fails with `e`: the failure
    /// is final if retrying cannot help or the retries are used up, and then a
    /// rate limit tells how many attempts were made. Otherwise the request is
    /// sent again after the delay that the server asked for, or the backoff.
    pub open spec fn after_failure(self, e: ErrorView) -> (ExchangeView, NextView) {
        if !e.retryable() || self.attempt >= self.retry.max_retries {
            let last = match e {
                ErrorView::RateLimited { retry_after, .. } => ErrorView::RateLimited {
                    attempts: wrapped(self.attempt + 1),
                    retry_after,
                },
                _ => e,
            };
            (self, NextView::Done(Err(last)))
        } else {
            let delay = match e.retry_after() {
                Some(d) => d,
                None => self.retry.backoff(self.attempt),
            };
            (
                ExchangeView { attempt: (self.attempt + 1) as u32, ..self },
                NextView::RetryAfter(delay, e),
            )
        }
    }

    /// What becomes of the request when an attempt comes to `outcome`.
    pub open spec fn after(self, outcome: Result<JsonView, ErrorView>) -> (ExchangeView, NextView) {
        match outcome {
            Ok(json) => (self, NextView::Done(Ok(json))),
            Err(e) => self.after_failure(e),
        }
    }

    /// What an attempt that the transport could not carry out failed with.
    pub open spec fn transport_error(self, failure: TransportFailure) -> ErrorView {
        if failure.timeout {
            ErrorView::Timeout(self.timeout)
        } else {
            AgentError::Transport(failure)@
        }
    }
}

impl Exchange {
    /// What to send.
    pub fn request(&self) -> (res: &HttpRequest)
        ensures
            res@ == self@.request,
    {
        &self.request
    }

    /// How many attempts have failed.
    pub fn attempts(&self) -> (res: u32)
        ensures
            res == self@.attempt,
    {
        self.attempt
    }

    /// An attempt failed.
    pub fn failed(&mut self, err: AgentError) -> (res: Next)
        ensures
            (final(self)@, res@) == old(self)@.after_failure(err@),
    {
        let attempts_made = self.attempt.wrapping_add(1);
        if !err.is_retryable() || self.attempt >= self.retry.max_retries {
            if let AgentError::RateLimited { retry_after, .. } = err {
                return Next::Done(
                    Err(AgentError::RateLimited { attempts: attempts_made, retry_after }),
                );
            }
            return Next::Done(Err(err));
        }
        let delay = match err.retry_after() {
            Some(d) => d,
            None => self.retry.backoff_for(self.attempt),
        };
        self.attempt += 1;
        Next::RetryAfter(delay, err)
    }

    /// The transport could not carry an attempt out.
    pub fn not_carried_out(&mut self, failure: TransportFailure) -> (res: Next)
        ensures
            (final(self)@, res@) == old(self)@.after_failure(
                old(self)@.transport_error(failure),
            ),
    {
        if failure.timeout {
            let timeout = self.timeout;
            self.failed(AgentError::Timeout(timeout))
        } else {
            self.failed(AgentError::Transport(failure))
        }
    }

    /// A reply arrived: its status, its `Retry-After` header and its body.
    pub fn replied(&mut self, status: u16, retry_after: Option<&str>, text: &str) -> (res: Next)
        ensures
            (final(self)@, res@) == old(self)@.after(
                reply_outcome(status, header_text(retry_after), text@, json_of_text(text@)),
            ),
    {
        match read_reply(status, retry_after, text) {
            Ok(data) => Next::Done(Ok(data)),
            Err(e) => self.failed(e),
        }
    }
}

/// The text of a header that may be absent.
pub open spec fn header_text(header: Option<&str>) -> Option<Seq<char>> {
    match header {
        Some(s) => Some(s@),
        None => None,
    }
}

/// The delay that a `Retry-After` header in seconds asks for, in nanoseconds.
pub open spec fn retry_delay(header: Option<Seq<char>>) -> Option<nat> {
    match header {
        Some(s) => match u64_of(trim_text(s)) {
            Some(secs) => Some((secs * 1_000_000_000) as nat),
            None => None,
        },
        None => None,
    }
}

/// `Retry-After` in delta-seconds form. The HTTP-date form is ignored on
/// purpose — honouring it needs a date parser, and providers send seconds.
pub fn parse_retry_after(header: Option<&str>) -> (res: Option<Duration>)
    ensures
        opt_nanos(res) == retry_delay(header_text(header)),
{
    match header {
        Some(s) => match parse_u64(s.trim()) {
            Some(secs) => Some(Duration::from_secs(secs)),
            None => None,
        },
        None => None,
    }
}

/// What an error body says: the provider's own `error.message` when the body
/// is JSON that has one, otherwise the clipped body itself.
pub open spec fn error_text(text: Seq<char>, parsed: Result<JsonView, Seq<char>>) -> Seq<char> {
    match parsed {
        Ok(data) => data.at("error"@).at("message"@).str_or(clip_text(text, 400)),
        Err(_) => clip_text(text, 400),
    }
}

/// Best-effort human message from an error body that `parsed` was read from.
pub fn error_message_of(text: &str, parsed: &Result<Json, String>) -> (res: String)
    ensures
        res@ == error_text(text@, parsed_view(*parsed)),
{
    if let Ok(data) = parsed {
        if let Some(message) = data.at("error").at("message").as_str() {
            return message.to_owned();
        }
    }
    clip(text, 400)
}

/// Best-effort human message from an error body.
pub fn error_message(text: &str) -> (res: String)
    ensures
        res@ == error_text(text@, json_of_text(text@)),
{
    error_message_of(text, &parse_json(text))
}

/// What a reply comes to: a rate limit or a status that is no success is told
/// by the status alone, whatever the body is; the body of a success has to be
/// JSON without a member `error`.
pub open spec fn reply_outcome(
    status: u16,
    retry_after: Option<Seq<char>>,
    text: Seq<char>,
    parsed: Result<JsonView, Seq<char>>,
) -> Result<JsonView, ErrorView> {
    if status == 429 {
        Err(ErrorView::RateLimited { attempts: 1, retry_after: retry_delay(retry_after) })
    } else if !(200 <= status < 300) {
        Err(ErrorView::Api { status, message: error_text(text, parsed) })
    } else {
        match parsed {
            Err(reason) => Err(ErrorView::Decode(reason + ": "@ + clip_text(text, 300))),
            Ok(data) => if data.get("error"@) is Some {
                Err(ErrorView::Api { status, message: error_text(text, parsed) })
            } else {
                Ok(data)
            },
        }
    }
}

/// What a reply comes to whose body `parsed` was read from.
pub fn read_reply_of(
    status: u16,
    retry_after: Option<&str>,
    text: &str,
    parsed: Result<Json, String>,
) -> (res: Result<Json, AgentError>)
    ensures
        result_view(res) == reply_outcome(
            status,
            header_text(retry_after),
            text@,
            parsed_view(parsed),
        ),
{
    if status == 429 {
        return Err(
            AgentError::RateLimited { attempts: 1, retry_after: parse_retry_after(retry_after) },
        );
    }
    // Classify by status before decoding: an error page of a proxy is no JSON,
    // and has to stay retryable.
    if status < 200 || status >= 300 {
        return Err(AgentError::Api { status, message: error_message_of(text, &parsed) });
    }
    let message = error_message_of(text, &parsed);
    match parsed {
        Err(reason) => Err(
            AgentError::Decode(
                joined(joined(reason.as_str(), ": ").as_str(), clip(text, 300).as_str()),
            ),
        ),
        Ok(data) => {
            // Some providers return 200 with an `error` member.
            if data.get("error").is_some() {
                Err(AgentError::Api { status, message })
            } else {
                Ok(data)
            }
        },
    }
}

/// What a reply comes to.
pub fn read_reply(status: u16, retry_after: Option<&str>, text: &str) -> (res: Result<
    Json,
    AgentError,
>)
    ensures
        result_view(res) == reply_outcome(
            status,
            header_text(retry_after),
            text@,
            json_of_text(text@),
        ),
{
    read_reply_of(status, retry_after, text, parse_json(text))
}

/// How many attempts are made of a request when the attempts fail, in this
/// order, and the one after the last of these succeeds.
pub open spec fn attempts_made(x: ExchangeView, failures: Seq<ErrorView>) -> nat
    decreases failures.len(),
{
    if failures.len() == 0 {
        1
    } else {
        match x.after_failure(failures[0]) {
            (_, NextView::Done(_)) => 1,
            (again, NextView::RetryAfter(..)) => 1 + attempts_made(again, failures.drop_first()),
        }
    }
}

/// However a request fails, no more than one attempt and the retries of the
/// policy are made.
pub proof fn attempts_are_bounded(x: ExchangeView, failures: Seq<ErrorView>)
    requires
        x.attempt <= x.retry.max_retries,
    ensures
        attempts_made(x, failures) <= x.retry.max_retries - x.attempt + 1,
    decreases failures.len(),
{
    if failures.len() > 0 {
        let (again, next) = x.after_failure(failures[0]);
        if next is RetryAfter {
            attempts_are_bounded(again, failures.drop_first());
        }
    }
}

/// Failures that retrying could help are tried again until the policy is used
/// up, or one attempt succeeds.
pub proof fn retryable_failures_use_up_the_policy(x: ExchangeView, failures: Seq<ErrorView>)
    requires
        x.attempt <= x.retry.max_retries,
        forall|i: int| 0 <= i < failures.len() ==> (#[trigger] failures[i]).retryable(),
    ensures
        attempts_made(x, failures) == lesser(
            failures.len() + 1,
            (x.retry.max_retries - x.attempt + 1) as nat,
        ),
    decreases failures.len(),
{
    if failures.len() > 0 {
        let (again, next) = x.after_failure(failures[0]);
        if next is RetryAfter {
            let rest = failures.drop_first();
            assert forall|i: int| 0 <= i < rest.len() implies (#[trigger] rest[i]).retryable() by {
                assert(rest[i] == failures[i + 1]);
            }
            retryable_failures_use_up_the_policy(again, rest);
        }
    }
}

/// A delay that the server asks for is the one that is waited before the next
/// attempt, in place of the backoff.
pub proof fn a_requested_delay_is_honoured(x: ExchangeView, e: ErrorView)
    requires
        x.attempt < x.retry.max_retries,
        e.retry_after() is Some,
    ensures
        x.after_failure(e).1 == NextView::RetryAfter(e.retry_after()->Some_0, e),
        x.after_failure(e).0 == (ExchangeView { attempt: (x.attempt + 1) as u32, ..x }),
{
}

/// A failure that retrying cannot help is final on the first attempt.
pub proof fn other_failures_are_final(x: ExchangeView, failures: Seq<ErrorView>)
    requires
        failures.len() > 0,
        !failures[0].retryable(),
    ensures
        attempts_made(x, failures) == 1,
        x.after_failure(failures[0]).1 == NextView::Done(Err::<JsonView, ErrorView>(failures[0])),
{
}

/// A reply without success is told by its status: whatever its body holds, a
/// server error stays retryable and a client error does not become so.
pub proof fn status_comes_before_body(
    status: u16,
    retry_after: Option<Seq<char>>,
    text: Seq<char>,
    parsed: Result<JsonView, Seq<char>>,
)
    requires
        !(200 <= status < 300),
    ensures
        reply_outcome(status, retry_after, text, parsed) matches Err(e) && e.retryable() == (status
            == 408 || status == 429 || status >= 500),
{
}

/// Whether a failure is one that goes away by itself: no reply in time, a rate
/// limit, a connection that failed on the way out, a request timeout or an error of
/// the server.
pub open spec fn passing(e: ErrorView) -> bool {
    match e {
        ErrorView::Timeout(_) => true,
        ErrorView::RateLimited { .. } => true,
        ErrorView::Transport { timeout, connect, request, .. } => timeout || connect || request,
        ErrorView::Api { status, .. } => status == 408 || 500 <= status,
        _ => false,
    }
}

/// After any failure that may pass, while retries are left and the server asked for
/// no delay, the wait is the first delay doubled for each attempt that failed
/// before, up to the ceiling, whatever the kind of the failure. Then the same
/// request is sent again.
pub proof fn every_passing_failure_is_retried_after_the_backoff(x: ExchangeView, e: ErrorView)
    requires
        passing(e),
        e matches ErrorView::RateLimited { retry_after, .. } ==> retry_after is None,
        x.attempt < x.retry.max_retries,
        nanos(x.retry.max_backoff) <= max_nanos(),
    ensures
        x.after_failure(e).1 matches NextView::RetryAfter(wait, failed) && failed == e && wait == ({
            let doubled = nanos(x.retry.initial_backoff) * pow(2, x.attempt as nat);
            if doubled <= nanos(x.retry.max_backoff) {
                doubled
            } else {
                nanos(x.retry.max_backoff) as int
            }
        }),
        x.after_failure(e).0.attempt == x.attempt + 1,
        x.after_failure(e).0.request == x.request,
        x.after_failure(e).0.timeout == x.timeout,
        x.after_failure(e).0.retry == x.retry,
{
    lemma_pow_positive(2, x.attempt as nat);
}

/// The waits before the retries of a request that keeps failing: what was asked for
/// each time.
pub open spec fn waits(x: ExchangeView, failures: Seq<ErrorView>) -> Seq<nat>
    decreases failures.len(),
{
    if failures.len() == 0 {
        Seq::empty()
    } else {
        match x.after_failure(failures[0]) {
            (_, NextView::Done(_)) => Seq::empty(),
            (again, NextView::RetryAfter(wait, _)) => seq![wait] + waits(
                again,
                failures.drop_first(),
            ),
        }
    }
}

/// Over a row of failures that may pass and that ask for no delay, each retry waits
/// for the first delay doubled once more than the one before it, up to the ceiling,
/// until the retries are used up.
pub proof fn waits_double_from_retry_to_retry(
    x: ExchangeView,
    failures: Seq<ErrorView>,
    k: int,
)
    requires
        forall|i: int|
            0 <= i < failures.len() ==> passing(#[trigger] failures[i]) && (failures[i]
                matches ErrorView::RateLimited { retry_after, .. } ==> retry_after is None),
        x.attempt + failures.len() <= x.retry.max_retries,
        nanos(x.retry.max_backoff) <= max_nanos(),
        0 <= k < failures.len(),
    ensures
        waits(x, failures).len() == failures.len(),
        waits(x, failures)[k] == ({
            let doubled = nanos(x.retry.initial_backoff) * pow(2, (x.attempt + k) as nat);
            if doubled <= nanos(x.retry.max_backoff) {
                doubled
            } else {
                nanos(x.retry.max_backoff) as int
            }
        }),
    decreases failures.len(),
{
    assert(passing(failures[0]));
    every_passing_failure_is_retried_after_the_backoff(x, failures[0]);
    let again = x.after_failure(failures[0]).0;
    let rest = failures.drop_first();
    assert forall|i: int| 0 <= i < rest.len() implies passing(#[trigger] rest[i]) && (rest[i]
        matches ErrorView::RateLimited { retry_after, .. } ==> retry_after is None) by {
        assert(rest[i] == failures[i + 1]);
    }
    if rest.len() > 0 {
        let j = if k > 0 {
            k - 1
        } else {
            0
        };
        waits_double_from_retry_to_retry(again, rest, j);
    } else {
        assert(waits(again, rest).len() == 0);
    }
}

/// A rate limit that asks for a delay is waited out for exactly as long, however
/// long the backoff would be.
pub proof fn a_rate_limit_is_waited_out(x: ExchangeView, attempts: u32, delay: nat)
    requires
        x.attempt < x.retry.max_retries,
    ensures
        ({
            let e = ErrorView::RateLimited { attempts, retry_after: Some(delay) };
            &&& x.after_failure(e).1 == NextView::RetryAfter(delay, e)
            &&& x.after_failure(e).0.attempt == x.attempt + 1
            &&& x.after_failure(e).0.request == x.request
            &&& x.after_failure(e).0.timeout == x.timeout
            &&& x.after_failure(e).0.retry == x.retry
        }),
{
}

/// A failure that does not pass by itself, or for which no retry is left, is what
/// the request comes to. A rate limit then tells how many attempts were made and what
/// the server asked for last; anything else is told as it is.
pub proof fn a_last_failure_is_told_as_it_is(x: ExchangeView, e: ErrorView)
    requires
        !passing(e) || x.attempt >= x.retry.max_retries,
    ensures
        x.after_failure(e).0 == x,
        e !is RateLimited ==> x.after_failure(e).1 == NextView::Done(
            Err::<JsonView, ErrorView>(e),
        ),
        e matches ErrorView::RateLimited { retry_after, .. } ==> x.attempt < u32::MAX ==> (
        x.after_failure(e).1 matches NextView::Done(Err(ErrorView::RateLimited {
            attempts: made,
            retry_after: asked,
        })) && made == x.attempt + 1 && asked == retry_after),
{
}

/// A failure counts as one to retry if and only if it may pass.
pub proof fn what_may_pass_is_retryable(e: ErrorView)
    ensures
        e.retryable() == passing(e),
{
}

/// The backoff is the first delay doubled for each attempt that failed before, up to
/// the ceiling.
pub proof fn the_backoff_is_the_doubled_first_delay(policy: RetryPolicy, attempt: u32)
    requires
        nanos(policy.max_backoff) <= max_nanos(),
    ensures
        policy.backoff(attempt) == ({
            let doubled = nanos(policy.initial_backoff) * pow(2, attempt as nat);
            if doubled <= nanos(policy.max_backoff) {
                doubled
            } else {
                nanos(policy.max_backoff) as int
            }
        }),
{
    lemma_pow_positive(2, attempt as nat);
}

/// A success ends a request with what was sent, on whichever attempt it comes.
pub proof fn a_success_is_handed_on(x: ExchangeView, json: JsonView)
    ensures
        x.after(Ok(json)).1 == NextView::Done(Ok::<JsonView, ErrorView>(json)),
{
}

/// A failure that a reply tells of is treated as any other.
pub proof fn a_failed_reply_is_a_failure(x: ExchangeView, e: ErrorView)
    ensures
        x.after(Err(e)) == x.after_failure(e),
{
}

/// An attempt that ran out of time failed with the time that it was given; any other
/// failure of the transport is told with all that the transport said of it.
pub proof fn a_transport_failure_is_told_apart(x: ExchangeView, failure: TransportFailure)
    ensures
        failure.timeout ==> x.transport_error(failure) == ErrorView::Timeout(x.timeout),
        !failure.timeout ==> x.transport_error(failure) == (ErrorView::Transport {
            timeout: false,
            connect: failure.connect,
            request: failure.request,
            message: failure.message@,
        }),
{
}

/// The first attempt sends the body as it is to the path under the base, with the
/// headers, the time limit and the retries of the configuration.
pub proof fn a_request_is_sent_as_configured(cfg: ConfigView, path: Seq<char>, body: JsonView)
    ensures
        first_attempt(cfg, path, body).attempt == 0,
        first_attempt(cfg, path, body).timeout == cfg.timeout,
        first_attempt(cfg, path, body).retry == cfg.retry,
        first_attempt(cfg, path, body).request.body == body,
        first_attempt(cfg, path, body).request.headers == cfg.extra_headers,
        cfg.base_url.len() > 0 && cfg.base_url.last() != '/' ==> first_attempt(
            cfg,
            path,
            body,
        ).request.url == cfg.base_url + seq!['/'] + path,
{
    reveal_strlit("/");
    assert("/"@ =~= seq!['/']);
}

/// A key with something in it is sent as it is; one that is blank is not sent, so
/// that a provider without keys can be used.
pub proof fn only_a_blank_key_is_left_out(cfg: ConfigView, path: Seq<char>, body: JsonView)
    ensures
        (forall|i: int| 0 <= i < cfg.api_key.len() ==> is_white(#[trigger] cfg.api_key[i]))
            ==> first_attempt(cfg, path, body).request.bearer is None,
        (exists|i: int| 0 <= i < cfg.api_key.len() && !is_white(#[trigger] cfg.api_key[i]))
            ==> first_attempt(cfg, path, body).request.bearer == Some(cfg.api_key),
{
    trimming_leaves_what_is_not_white(cfg.api_key);
}

/// A reply of success whose body is JSON without a member `error` is what the request
/// came to, as it is.
pub proof fn a_success_is_read_as_it_is(
    status: u16,
    retry_after: Option<Seq<char>>,
    text: Seq<char>,
    data: JsonView,
)
    requires
        200 <= status < 300,
        data.get("error"@) is None,
    ensures
        reply_outcome(status, retry_after, text, Ok(data)) == Ok::<JsonView, ErrorView>(data),
{
}

/// A rate limit is told by its status alone and carries the delay of its header; any
/// other status without success is an error that carries the status.
pub proof fn a_status_without_success_is_told(
    status: u16,
    retry_after: Option<Seq<char>>,
    text: Seq<char>,
    parsed: Result<JsonView, Seq<char>>,
)
    requires
        status < 200 || 300 <= status,
    ensures
        status == 429 ==> (reply_outcome(status, retry_after, text, parsed) matches Err(
            ErrorView::RateLimited { attempts, retry_after: asked },
        ) && attempts == 1 && asked == retry_delay(retry_after)),
        status != 429 ==> (reply_outcome(status, retry_after, text, parsed) matches Err(
            ErrorView::Api { status: told, .. },
        ) && told == status),
{
}

/// A success whose body is no JSON, or has a member `error`, is an error that is not
/// retried: one that says why it could not be read, or one with the status.
pub proof fn a_success_that_is_none_is_an_error(
    status: u16,
    retry_after: Option<Seq<char>>,
    text: Seq<char>,
    reason: Seq<char>,
    data: JsonView,
)
    requires
        200 <= status < 300,
        data.get("error"@) is Some,
    ensures
        reply_outcome(status, retry_after, text, Err(reason)) matches Err(ErrorView::Decode(told))
            && reason.is_prefix_of(told) && (text.len() <= 300 ==> text.is_suffix_of(told)) && (
        text.len() > 300 ==> text.take(300).push('…').is_suffix_of(told)),
        reply_outcome(status, retry_after, text, Ok(data)) matches Err(
            ErrorView::Api { status: told, .. },
        ) && told == status,
{
    let told = reason + ": "@ + clip_text(text, 300);
    assert(reason =~= told.take(reason.len() as int));
    reveal_strlit("…");
    if text.len() <= 300 {
        assert(text =~= told.subrange(told.len() - text.len(), told.len() as int));
    } else {
        let tail = text.take(300).push('…');
        assert(tail =~= told.subrange(told.len() - tail.len(), told.len() as int));
    }
}

/// An error says what the provider says of it under `error.message`; where it says
/// nothing there, what it says is the body, of which no more than the first 400
/// characters are told.
pub proof fn an_error_says_what_the_provider_says(
    status: u16,
    retry_after: Option<Seq<char>>,
    text: Seq<char>,
    parsed: Result<JsonView, Seq<char>>,
)
    requires
        reply_outcome(status, retry_after, text, parsed) is Err,
    ensures
        reply_outcome(status, retry_after, text, parsed)->Err_0 matches ErrorView::Api {
            message,
            ..
        } ==> {
            let said = match parsed {
                Ok(data) => data.at("error"@).at("message"@),
                Err(_) => JsonView::Null,
            };
            &&& said matches JsonView::String(words) ==> message == words
            &&& said !is String && text.len() <= 400 ==> message == text
            &&& said !is String && text.len() > 400 ==> message == text.take(400).push('…')
        },
{
    reveal_strlit("…");
    assert(text.len() > 400 ==> text.take(400) + "…"@ =~= text.take(400).push('…'));
}

/// A delay in seconds that a header gives in decimal, with white space around it or
/// without, is the delay in nanoseconds.
pub proof fn a_delay_in_seconds_is_read(before: Seq<char>, secs: u64, after: Seq<char>)
    requires
        forall|i: int| 0 <= i < before.len() ==> is_white(#[trigger] before[i]),
        forall|i: int| 0 <= i < after.len() ==> is_white(#[trigger] after[i]),
    ensures
        retry_delay(Some(before + decimal_text(secs as nat) + after)) == Some(
            (secs * 1_000_000_000) as nat,
        ),
{
    decimal_digits_stand_for_their_number(secs as nat);
    let digits = decimal_text(secs as nat);
    assert(!is_white(digits[0]) && !is_white(digits.last())) by {
        assert(is_digit(digits[0]));
        assert(is_digit(digits[digits.len() - 1]));
    }
    lemma_trim(before, digits, after);
    a_decimal_number_is_read_back(secs);
}

/// No header, or one that is no number, asks for no delay.
pub proof fn what_is_no_number_asks_for_nothing(header: Seq<char>, i: int)
    requires
        0 <= i < trim_text(header).len(),
        !is_digit(trim_text(header)[i]),
        i > 0 || trim_text(header)[i] != '+',
    ensures
        retry_delay(None) is None,
        retry_delay(Some(header)) is None,
{
    a_text_with_another_character_is_no_number(trim_text(header), i);
}

} // verus!
