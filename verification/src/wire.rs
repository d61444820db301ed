//! Wire formats: how a turn is put on the network and read back off it.
//!
//! The loop speaks one canonical dialect internally — OpenAI Chat Completions
//! message shape — because that is what a run hands back for persistence and
//! resume. This module stands at the boundary, so a different endpoint schema
//! does not leak into the loop, the transcript, or anyone's database.
//!
//! Two formats ship:
//!
//! - [`ChatCompletions`] — `POST {base}/chat/completions`. The default.
//! - [`Responses`] — `POST {base}/responses`. It replaces `messages` with
//!   `input`, flattens function tools out of their `{"function": {...}}`
//!   nesting, splits an assistant turn into separate `function_call` items
//!   correlated by `call_id`, and returns a typed `output` array instead of
//!   `choices[0].message`.
use vstd::prelude::*;
use vstd::string::*;

use crate::backend::{ModelPolicy, PolicyView};
use crate::error::{AgentError, ErrorView};
use crate::history::lemma_member_names;
use crate::json::{
    json_text, lemma_array_view, text_of_json, views, Json, JsonMap, JsonView, Number, NumberView,
};
use crate::provider::wrapped;
use crate::text::{joined, same_text};

verus! {

/// One turn, in canonical form, ready to be encoded for some endpoint.
#[derive(Debug, Clone, Copy)]
pub struct WireRequest<'a> {
    pub model: &'a str,
    /// Transcript in Chat Completions message shape.
    pub messages: &'a [Json],
    /// Tool definitions in Chat Completions shape (nested under `function`).
    pub tools: &'a [Json],
    pub tool_choice: &'a str,
    pub policy: &'a ModelPolicy,
}

/// What a [`WireRequest`] is.
#[verifier::ext_equal]
pub struct WireRequestView {
    pub model: Seq<char>,
    pub messages: Seq<JsonView>,
    pub tools: Seq<JsonView>,
    pub tool_choice: Seq<char>,
    pub policy: PolicyView,
}

impl<'a> View for WireRequest<'a> {
    type V = WireRequestView;

    open spec fn view(&self) -> WireRequestView {
        WireRequestView {
            model: self.model@,
            messages: views(self.messages@),
            tools: views(self.tools@),
            tool_choice: self.tool_choice@,
            policy: self.policy@,
        }
    }
}

/// What was read from a reply: the assistant turn and the tokens it cost.
pub open spec fn turn_view(res: Result<(Json, u32), AgentError>) -> Result<
    (JsonView, u32),
    ErrorView,
> {
    match res {
        Ok((message, tokens)) => Ok((message@, tokens)),
        Err(e) => Err(e@),
    }
}

/// Encodes a turn for one endpoint schema and decodes its reply.
///
/// `parse_response` returns the assistant turn **in canonical Chat Completions
/// shape** regardless of what came off the wire, which is what keeps the loop
/// and the persisted transcript schema-independent.
pub trait WireFormat {
    /// The path that requests are posted to.
    spec fn path_text(&self) -> Seq<char>;

    /// The body of a request.
    spec fn body(&self, req: WireRequestView) -> JsonView;

    /// What a reply says.
    spec fn turn(&self, resp: JsonView) -> Result<(JsonView, u32), ErrorView>;

    /// Path under `base_url`, without a leading slash.
    fn path(&self) -> (res: &str)
        ensures
            res@ == self.path_text(),
    ;

    /// The body of a request.
    fn build_request(&self, req: WireRequest<'_>) -> (res: Json)
        ensures
            res@ == self.body(req@),
    ;

    /// # Errors
    /// [`AgentError::Decode`] when the reply has no assistant turn in it.
    fn parse_response(&self, resp: &Json) -> (res: Result<(Json, u32), AgentError>)
        ensures
            turn_view(res) == self.turn(resp@),
    ;
}

/// Merge caller-supplied body fields. Applied last, so a caller can override
/// anything the format chose — including `model` or `tools` — deliberately.
pub fn apply_extra(body: &mut Json, extra: &JsonMap)
    ensures
        final(body)@ == match old(body)@ {
            JsonView::Object(map) => JsonView::Object(map.union_prefer_right(extra@)),
            other => other,
        },
{
    match body {
        Json::Object(map) => {
            map.extend_from(extra);
        },
        _ => {},
    }
}

/// The count that a reply reports under one of two names, or none.
pub open spec fn count_of(usage: JsonView, name: Seq<char>, other: Seq<char>) -> nat {
    match usage.at(name).as_u64() {
        Some(n) => n as nat,
        None => match usage.at(other).as_u64() {
            Some(n) => n as nat,
            None => 0,
        },
    }
}

/// The tokens that a reply reports: the total where it is given, otherwise what
/// went in and what came out together.
pub open spec fn tokens_of(resp: JsonView) -> u32 {
    let usage = resp.at("usage"@);
    match usage.at("total_tokens"@).as_u64() {
        Some(n) => wrapped(n as int),
        None => wrapped(
            (count_of(usage, "input_tokens"@, "prompt_tokens"@) + count_of(
                usage,
                "output_tokens"@,
                "completion_tokens"@,
            )) as int,
        ),
    }
}

/// The count that a reply reports under one of two names, or none.
fn usage_count(usage: &Json, name: &str, other: &str) -> (res: u64)
    ensures
        res == count_of(usage@, name@, other@),
{
    match usage.at(name).as_u64() {
        Some(n) => n,
        None => match usage.at(other).as_u64() {
            Some(n) => n,
            None => 0,
        },
    }
}

/// The lower 32 bits of a count.
fn low_bits(n: u64) -> (res: u32)
    ensures
        res == wrapped(n as int),
{
    assert(n as u32 == n % 0x1_0000_0000) by (bit_vector);
    #[verifier::truncate]
    (n as u32)
}

/// Token usage, read tolerantly.
///
/// Chat Completions reports `prompt_tokens`/`completion_tokens`/`total_tokens`;
/// Responses reports `input_tokens`/`output_tokens`/`total_tokens`. A provider
/// that reports neither is not an error — usage is telemetry, and a run must
/// not fail because a proxy omitted it.
pub fn total_tokens(resp: &Json) -> (res: u32)
    ensures
        res == tokens_of(resp@),
{
    let usage = resp.at("usage");
    if let Some(t) = usage.at("total_tokens").as_u64() {
        return low_bits(t);
    }
    let a = usage_count(usage, "input_tokens", "prompt_tokens");
    let b = usage_count(usage, "output_tokens", "completion_tokens");
    low_bits(a.wrapping_add(b))
}

/// A number that is sent.
pub open spec fn count_json(n: u32) -> JsonView {
    JsonView::Number(NumberView::PosInt(n as u64))
}

/// The body of a request, before what the caller adds: with the tools and the
/// choice among them where there are tools.
pub open spec fn with_tools(
    body: Map<Seq<char>, JsonView>,
    tools: Seq<JsonView>,
    tool_choice: Seq<char>,
) -> Map<Seq<char>, JsonView> {
    if tools.len() > 0 {
        body.insert("tools"@, JsonView::Array(tools)).insert(
            "tool_choice"@,
            JsonView::String(tool_choice),
        )
    } else {
        body
    }
}

/// `POST {base_url}/chat/completions` — the default.
#[derive(Debug, Clone, Copy)]
pub struct ChatCompletions;

impl Default for ChatCompletions {
    fn default() -> (res: Self) {
        ChatCompletions
    }
}

/// The error of a reply without an assistant turn where Chat Completions has it.
pub open spec fn no_message() -> ErrorView {
    ErrorView::Decode("response had no choices[0].message"@)
}

impl WireFormat for ChatCompletions {
    open spec fn path_text(&self) -> Seq<char> {
        "chat/completions"@
    }

    open spec fn body(&self, req: WireRequestView) -> JsonView {
        JsonView::Object(
            with_tools(
                Map::empty().insert("model"@, JsonView::String(req.model)).insert(
                    "messages"@,
                    JsonView::Array(req.messages),
                ).insert("max_tokens"@, count_json(req.policy.max_tokens)).insert(
                    "temperature"@,
                    JsonView::Number(req.policy.temperature),
                ),
                req.tools,
                req.tool_choice,
            ).union_prefer_right(req.policy.extra_body),
        )
    }

    open spec fn turn(&self, resp: JsonView) -> Result<(JsonView, u32), ErrorView> {
        match resp.at("choices"@).first() {
            Some(choice) => match choice.get("message"@) {
                Some(message) => Ok((message, tokens_of(resp))),
                None => Err(no_message()),
            },
            None => Err(no_message()),
        }
    }

    fn path(&self) -> (res: &str) {
        "chat/completions"
    }

    fn build_request(&self, req: WireRequest<'_>) -> (res: Json) {
        let mut map = JsonMap::new();
        map.set("model", Json::text(req.model));
        map.set("messages", Json::array(req.messages));
        map.set("max_tokens", Json::Number(Number::PosInt(req.policy.max_tokens as u64)));
        map.set("temperature", Json::Number(req.policy.temperature.clone()));
        if req.tools.len() > 0 {
            map.set("tools", Json::array(req.tools));
            map.set("tool_choice", Json::text(req.tool_choice));
        }
        let mut body = Json::Object(map);
        apply_extra(&mut body, &req.policy.extra_body);
        body
    }

    fn parse_response(&self, resp: &Json) -> (res: Result<(Json, u32), AgentError>) {
        if let Some(choice) = resp.at("choices").first() {
            if let Some(message) = choice.get("message") {
                return Ok((message.clone(), total_tokens(resp)));
            }
        }
        Err(AgentError::Decode("response had no choices[0].message".to_owned()))
    }
}

/// Whether every part of a content is a text part.
pub open spec fn all_text(parts: Seq<JsonView>) -> bool {
    forall|i: int|
        0 <= i < parts.len() ==> (#[trigger] parts[i]).at("type"@) == JsonView::String("text"@)
            && parts[i].at("text"@) is String
}

/// The texts of text parts in a row.
pub open spec fn parts_text(parts: Seq<JsonView>) -> Seq<char>
    decreases parts.len(),
{
    if parts.len() == 0 {
        Seq::empty()
    } else {
        parts_text(parts.drop_last()) + parts.last().at("text"@).str_or(Seq::empty())
    }
}

/// A text that is some content, if it is not empty.
pub open spec fn some_text(s: Seq<char>) -> Option<JsonView> {
    if s.len() == 0 {
        None
    } else {
        Some(JsonView::String(s))
    }
}

/// The content of a Responses item for a message with this content.
pub open spec fn item_content(content: JsonView) -> Option<JsonView> {
    match content {
        JsonView::Null => None,
        JsonView::String(s) => some_text(s),
        JsonView::Array(parts) => if all_text(parts) {
            some_text(parts_text(parts))
        } else {
            Some(content)
        },
        _ => Some(content),
    }
}

/// What a value that may be absent is.
pub open spec fn opt_json(value: Option<Json>) -> Option<JsonView> {
    match value {
        Some(v) => Some(v@),
        None => None,
    }
}

/// The text of the parts, if all are text parts.
fn folded_text(parts: &Vec<Json>) -> (res: Option<String>)
    ensures
        match res {
            Some(s) => all_text(views(parts@)) && s@ == parts_text(views(parts@)),
            None => !all_text(views(parts@)),
        },
{
    let mut text = String::new();
    let ghost all = views(parts@);
    assert(all.take(0) =~= Seq::empty());
    for i in 0..parts.len()
        invariant
            all == views(parts@),
            all_text(all.take(i as int)),
            text@ == parts_text(all.take(i as int)),
    {
        let part = &parts[i];
        assert(all.take(i + 1).drop_last() =~= all.take(i as int));
        assert(all.take(i + 1).last() == part@);
        assert(all[i as int] == part@);
        if !part.at("type").is_str("text") {
            return None;
        }
        match part.at("text").as_str() {
            Some(t) => {
                text.append(t);
            },
            None => {
                return None;
            },
        }
        assert forall|j: int| 0 <= j < i + 1 implies (#[trigger] all.take(i + 1)[j]).at("type"@)
            == JsonView::String("text"@) && all.take(i + 1)[j].at("text"@) is String by {
            if j < i {
                assert(all.take(i as int)[j] == all[j]);
            }
        }
    }
    assert(all.take(parts@.len() as int) =~= all);
    Some(text)
}

/// Message content for a Responses `input` item, or `None` to emit no item.
///
/// The rule that matters: **never drop content**. Absent and empty content is
/// the only thing that legitimately produces no item.
///
/// A pure-text parts array is folded into a string, which is a shape both
/// schemas agree on. Anything else (images, audio, provider extensions) is
/// passed through as it is: Chat Completions names its parts `text`/`image_url`
/// while Responses wants `input_text`/`input_image`, so a faithful rendering
/// needs per-part rules this crate cannot verify for every provider. A visible
/// 400 from the API is recoverable; a silently truncated conversation is not.
pub fn message_content(content: &Json) -> (res: Option<Json>)
    ensures
        opt_json(res) == item_content(content@),
{
    match content {
        Json::Null => None,
        Json::String(s) => if s.as_str().unicode_len() == 0 {
            None
        } else {
            Some(Json::text(s.as_str()))
        },
        Json::Array(parts) => {
            proof {
                lemma_array_view(*parts);
            }
            match folded_text(parts) {
                Some(text) => if text.as_str().unicode_len() == 0 {
                    None
                } else {
                    Some(Json::String(text))
                },
                None => Some(content.clone()),
            }
        },
        _ => Some(content.clone()),
    }
}

/// The text of a tool result.
pub open spec fn output_text(content: JsonView) -> Seq<char> {
    match content {
        JsonView::String(s) => s,
        JsonView::Null => Seq::empty(),
        other => text_of_json(other),
    }
}

/// A `function_call_output.output` value.
///
/// The field takes a string. A tool result that is structured JSON is serialised
/// rather than flattened to `""`, since a tool result is the entire reason the
/// turn happened.
pub fn tool_output_text(content: &Json) -> (res: String)
    ensures
        res@ == output_text(content@),
        res@.len() == 0 ==> content@ is Null || content@ == JsonView::String(Seq::empty()),
{
    match content {
        Json::String(s) => s.clone(),
        Json::Null => String::new(),
        _ => json_text(content),
    }
}

/// The item for a tool result.
pub open spec fn output_item(call_id: Seq<char>, output: Seq<char>) -> JsonView {
    JsonView::Object(
        Map::empty().insert("type"@, JsonView::String("function_call_output"@)).insert(
            "call_id"@,
            JsonView::String(call_id),
        ).insert("output"@, JsonView::String(output)),
    )
}

/// The item for a tool result whose text is `output`.
pub fn function_call_output(call_id: &str, output: String) -> (res: Json)
    ensures
        res@ == output_item(call_id@, output@),
{
    let mut map = JsonMap::new();
    map.set("type", Json::text("function_call_output"));
    map.set("call_id", Json::text(call_id));
    map.set("output", Json::String(output));
    Json::Object(map)
}

/// The item for a call of a tool.
pub open spec fn call_item(
    call_id: Seq<char>,
    name: Seq<char>,
    arguments: Seq<char>,
) -> JsonView {
    JsonView::Object(
        Map::empty().insert("type"@, JsonView::String("function_call"@)).insert(
            "call_id"@,
            JsonView::String(call_id),
        ).insert("name"@, JsonView::String(name)).insert(
            "arguments"@,
            JsonView::String(arguments),
        ),
    )
}

/// The item for a call as a message holds it.
pub open spec fn item_of_call(call: JsonView) -> JsonView {
    call_item(
        call.at("id"@).str_or(""@),
        call.at("function"@).at("name"@).str_or(""@),
        call.at("function"@).at("arguments"@).str_or("{}"@),
    )
}

/// The item for what a message says.
pub open spec fn spoken_item(role: Seq<char>, content: JsonView) -> JsonView {
    JsonView::Object(
        Map::empty().insert("role"@, JsonView::String(role)).insert("content"@, content),
    )
}

/// The Responses items for a message.
pub open spec fn items_of(m: JsonView) -> Seq<JsonView> {
    let role = m.at("role"@).str_or(""@);
    if role == "tool"@ {
        seq![output_item(m.at("tool_call_id"@).str_or(""@), output_text(m.at("content"@)))]
    } else {
        let calls = m.at("tool_calls"@).elements().map_values(|c: JsonView| item_of_call(c));
        match item_content(m.at("content"@)) {
            Some(content) => seq![spoken_item(role, content)] + calls,
            None => calls,
        }
    }
}

/// The Responses items for a transcript.
pub open spec fn input_of(messages: Seq<JsonView>) -> Seq<JsonView>
    decreases messages.len(),
{
    if messages.len() == 0 {
        Seq::empty()
    } else {
        input_of(messages.drop_last()) + items_of(messages.last())
    }
}

/// A function tool with its members at the top level.
pub open spec fn flat_tool(tool: JsonView) -> JsonView {
    let f = tool.at("function"@);
    JsonView::Object(
        Map::empty().insert("type"@, JsonView::String("function"@)).insert(
            "name"@,
            f.at("name"@),
        ).insert("description"@, f.at("description"@)).insert("parameters"@, f.at("parameters"@)),
    )
}

/// Function tools with their members at the top level.
pub open spec fn flat_tools(tools: Seq<JsonView>) -> Seq<JsonView> {
    tools.map_values(|t: JsonView| flat_tool(t))
}

/// `POST {base_url}/responses` — OpenAI's typed-item endpoint.
///
/// Reasoning models reject `temperature`, so it is omitted by default. Call
/// [`Responses::with_temperature`] for a non-reasoning model on this endpoint.
#[derive(Debug, Clone, Copy)]
pub struct Responses {
    send_temperature: bool,
}

impl Default for Responses {
    fn default() -> (res: Self)
        ensures
            !res.sends_temperature(),
    {
        Self::new()
    }
}

impl Responses {
    /// Whether `temperature` is sent.
    pub closed spec fn sends_temperature(&self) -> bool {
        self.send_temperature
    }

    /// The format that sends no `temperature`.
    #[must_use]
    pub fn new() -> (res: Self)
        ensures
            !res.sends_temperature(),
    {
        Responses { send_temperature: false }
    }

    /// Send `temperature`. Only for non-reasoning models — the reasoning
    /// families 400 on it.
    #[must_use]
    pub fn with_temperature(self) -> (res: Self)
        ensures
            res.sends_temperature(),
    {
        Responses { send_temperature: true }
    }

    /// Canonical transcript → Responses `input` items.
    ///
    /// An assistant turn that both spoke and called tools becomes *several*
    /// items: Responses models a turn as typed items, not one message with a
    /// `tool_calls` array hanging off it.
    pub fn to_input(messages: &[Json]) -> (res: Vec<Json>)
        ensures
            views(res@) == input_of(views(messages@)),
    {
        let mut input: Vec<Json> = Vec::new();
        let ghost all = views(messages@);
        assert(all.take(0) =~= Seq::empty());
        assert(views(input@) =~= Seq::empty());
        for i in 0..messages.len()
            invariant
                all == views(messages@),
                views(input@) == input_of(all.take(i as int)),
        {
            let m = &messages[i];
            assert(all.take(i + 1).drop_last() =~= all.take(i as int));
            assert(all.take(i + 1).last() == m@);
            push_items(&mut input, m);
        }
        assert(all.take(messages@.len() as int) =~= all);
        input
    }

    /// Chat-shaped tool defs → Responses tool defs (flat, not nested).
    pub fn to_tools(tools: &[Json]) -> (res: Vec<Json>)
        ensures
            views(res@) == flat_tools(views(tools@)),
    {
        let mut flat: Vec<Json> = Vec::new();
        for i in 0..tools.len()
            invariant
                flat@.len() == i,
                forall|j: int| 0 <= j < i ==> (#[trigger] flat@[j])@ == flat_tool(tools@[j]@),
        {
            let f = tools[i].at("function");
            let mut map = JsonMap::new();
            map.set("type", Json::text("function"));
            map.set("name", f.at("name").clone());
            map.set("description", f.at("description").clone());
            map.set("parameters", f.at("parameters").clone());
            flat.push(Json::Object(map));
        }
        assert(views(flat@) =~= flat_tools(views(tools@)));
        flat
    }
}

/// The item for a call as a message holds it.
fn function_call(call: &Json) -> (res: Json)
    ensures
        res@ == item_of_call(call@),
{
    let mut map = JsonMap::new();
    map.set("type", Json::text("function_call"));
    // `call_id` correlates with function_call_output; the item's own `id` is a
    // different identifier and is not echoed back.
    map.set("call_id", Json::text(call.at("id").str_or("")));
    map.set("name", Json::text(call.at("function").at("name").str_or("")));
    map.set("arguments", Json::text(call.at("function").at("arguments").str_or("{}")));
    Json::Object(map)
}

/// Add the items for a message.
fn push_items(input: &mut Vec<Json>, m: &Json)
    ensures
        views(final(input)@) == views(old(input)@) + items_of(m@),
{
    let ghost before = views(input@);
    let role = m.at("role").str_or("");
    if same_text(role, "tool") {
        let call_id = m.at("tool_call_id").str_or("");
        input.push(function_call_output(call_id, tool_output_text(m.at("content"))));
        assert(views(input@) =~= before + items_of(m@));
        return ;
    }
    if let Some(content) = message_content(m.at("content")) {
        let mut map = JsonMap::new();
        map.set("role", Json::text(role));
        map.set("content", content);
        input.push(Json::Object(map));
    }
    let ghost spoken = views(input@);
    let ghost calls = m@.at("tool_calls"@).elements();
    let ghost items = calls.map_values(|c: JsonView| item_of_call(c));
    assert(spoken =~= before + match item_content(m@.at("content"@)) {
        Some(content) => seq![spoken_item(role@, content)],
        None => Seq::empty(),
    });
    match m.at("tool_calls").as_array() {
        Some(list) => {
            for i in 0..list.len()
                invariant
                    views(list@) == calls,
                    items == calls.map_values(|c: JsonView| item_of_call(c)),
                    views(input@) == spoken + items.take(i as int),
            {
                let ghost so_far = views(input@);
                let item = function_call(&list[i]);
                input.push(item);
                assert(views(input@) =~= so_far.push(item@));
                assert(calls[i as int] == list@[i as int]@);
                assert(items.take(i + 1) =~= items.take(i as int).push(items[i as int]));
            }
            assert(items.take(list@.len() as int) =~= items);
        },
        None => {
            assert(items =~= Seq::empty());
        },
    }
    assert(views(input@) =~= before + items_of(m@));
}

/// The text that an item of a reply says.
pub open spec fn said_in_parts(parts: Seq<JsonView>) -> Seq<char>
    decreases parts.len(),
{
    if parts.len() == 0 {
        Seq::empty()
    } else {
        let part = parts.last();
        said_in_parts(parts.drop_last()) + if part.at("type"@) == JsonView::String("output_text"@) {
            part.at("text"@).str_or(Seq::empty())
        } else {
            Seq::empty()
        }
    }
}

/// The text that a reply says.
pub open spec fn said_in(output: Seq<JsonView>) -> Seq<char>
    decreases output.len(),
{
    if output.len() == 0 {
        Seq::empty()
    } else {
        let item = output.last();
        said_in(output.drop_last()) + if item.at("type"@).str_or(""@) == "message"@ {
            said_in_parts(item.at("content"@).elements())
        } else {
            Seq::empty()
        }
    }
}

/// A call as a message holds it.
pub open spec fn chat_call(id: Seq<char>, name: Seq<char>, arguments: Seq<char>) -> JsonView {
    JsonView::Object(
        Map::empty().insert("id"@, JsonView::String(id)).insert(
            "type"@,
            JsonView::String("function"@),
        ).insert(
            "function"@,
            JsonView::Object(
                Map::empty().insert("name"@, JsonView::String(name)).insert(
                    "arguments"@,
                    JsonView::String(arguments),
                ),
            ),
        ),
    )
}

/// The items of a reply that call tools.
pub open spec fn call_items(output: Seq<JsonView>) -> Seq<JsonView> {
    output.filter(|item: JsonView| item.at("type"@).str_or(""@) == "function_call"@)
}

/// The call that an item of a reply makes.
pub open spec fn call_of_item(item: JsonView) -> JsonView {
    chat_call(
        item.at("call_id"@).str_or(""@),
        item.at("name"@).str_or(""@),
        item.at("arguments"@).str_or("{}"@),
    )
}

/// The calls that a reply makes.
pub open spec fn calls_in(output: Seq<JsonView>) -> Seq<JsonView> {
    call_items(output).map_values(|item: JsonView| call_of_item(item))
}

/// The assistant turn that says this text and makes these calls.
pub open spec fn assistant_turn(text: Seq<char>, calls: Seq<JsonView>) -> JsonView {
    let content = if text.len() == 0 {
        JsonView::Null
    } else {
        JsonView::String(text)
    };
    let spoken = Map::empty().insert("role"@, JsonView::String("assistant"@)).insert(
        "content"@,
        content,
    );
    JsonView::Object(
        if calls.len() == 0 {
            spoken
        } else {
            spoken.insert("tool_calls"@, JsonView::Array(calls))
        },
    )
}

/// Add the text that the parts of a message item say.
fn push_said(text: &mut String, content: &Json)
    ensures
        final(text)@ == old(text)@ + said_in_parts(content@.elements()),
{
    let ghost before = text@;
    match content.as_array() {
        Some(parts) => {
            let ghost all = views(parts@);
            assert(all.take(0) =~= Seq::empty());
            assert(text@ =~= before + said_in_parts(all.take(0)));
            for i in 0..parts.len()
                invariant
                    all == views(parts@),
                    text@ == before + said_in_parts(all.take(i as int)),
            {
                let part = &parts[i];
                let ghost so_far = text@;
                proof {
                    assert(all.take(i + 1).drop_last() =~= all.take(i as int));
                    assert(all.take(i + 1).last() == part@);
                }
                if part.at("type").is_str("output_text") {
                    if let Some(t) = part.at("text").as_str() {
                        text.append(t);
                    }
                }
                assert(text@ =~= before + said_in_parts(all.take(i + 1)));
            }
            assert(all.take(parts@.len() as int) =~= all);
        },
        None => {
            assert(text@ =~= before + said_in_parts(Seq::empty()));
        },
    }
}

/// The call that an item of a reply makes.
fn tool_call(item: &Json) -> (res: Json)
    ensures
        res@ == call_of_item(item@),
{
    let mut function = JsonMap::new();
    function.set("name", Json::text(item.at("name").str_or("")));
    function.set("arguments", Json::text(item.at("arguments").str_or("{}")));
    let mut map = JsonMap::new();
    map.set("id", Json::text(item.at("call_id").str_or("")));
    map.set("type", Json::text("function"));
    map.set("function", Json::Object(function));
    Json::Object(map)
}

impl WireFormat for Responses {
    open spec fn path_text(&self) -> Seq<char> {
        "responses"@
    }

    open spec fn body(&self, req: WireRequestView) -> JsonView {
        let spoken = Map::empty().insert("model"@, JsonView::String(req.model)).insert(
            "input"@,
            JsonView::Array(input_of(req.messages)),
        ).insert("max_output_tokens"@, count_json(req.policy.max_tokens));
        let warm = if self.sends_temperature() {
            spoken.insert("temperature"@, JsonView::Number(req.policy.temperature))
        } else {
            spoken
        };
        JsonView::Object(
            with_tools(warm, flat_tools(req.tools), req.tool_choice).union_prefer_right(
                req.policy.extra_body,
            ),
        )
    }

    open spec fn turn(&self, resp: JsonView) -> Result<(JsonView, u32), ErrorView> {
        match resp.at("output"@).as_array() {
            Some(output) => Ok(
                (assistant_turn(said_in(output), calls_in(output)), tokens_of(resp)),
            ),
            None => Err(ErrorView::Decode("response had no output array"@)),
        }
    }

    fn path(&self) -> (res: &str) {
        "responses"
    }

    fn build_request(&self, req: WireRequest<'_>) -> (res: Json) {
        let mut map = JsonMap::new();
        map.set("model", Json::text(req.model));
        let input = Self::to_input(req.messages);
        proof {
            lemma_array_view(input);
        }
        map.set("input", Json::Array(input));
        map.set("max_output_tokens", Json::Number(Number::PosInt(req.policy.max_tokens as u64)));
        if self.send_temperature {
            map.set("temperature", Json::Number(req.policy.temperature.clone()));
        }
        if req.tools.len() > 0 {
            let tools = Self::to_tools(req.tools);
            proof {
                lemma_array_view(tools);
            }
            map.set("tools", Json::Array(tools));
            map.set("tool_choice", Json::text(req.tool_choice));
        }
        let mut body = Json::Object(map);
        apply_extra(&mut body, &req.policy.extra_body);
        body
    }

    fn parse_response(&self, resp: &Json) -> (res: Result<(Json, u32), AgentError>) {
        let output = match resp.at("output").as_array() {
            Some(items) => items,
            None => {
                return Err(AgentError::Decode("response had no output array".to_owned()));
            },
        };
        let mut text = String::new();
        let mut tool_calls: Vec<Json> = Vec::new();
        let ghost all = views(output@);
        proof {
            reveal(Seq::filter);
            assert(all.take(0) =~= Seq::empty());
            assert(views(tool_calls@) =~= calls_in(all.take(0)));
        }
        for i in 0..output.len()
            invariant
                all == views(output@),
                text@ == said_in(all.take(i as int)),
                views(tool_calls@) == calls_in(all.take(i as int)),
        {
            let item = &output[i];
            let ghost (said, called) = (text@, views(tool_calls@));
            let ghost (seen, next) = (all.take(i as int), all.take(i + 1));
            proof {
                reveal(Seq::filter);
                assert(next.drop_last() =~= seen);
                assert(next.last() == item@);
                reveal_strlit("message");
                reveal_strlit("function_call");
                assert("message"@.len() != "function_call"@.len());
            }
            let kind = item.at("type").str_or("");
            if same_text(kind, "message") {
                push_said(&mut text, item.at("content"));
                assert(call_items(next) == call_items(seen));
            } else if same_text(kind, "function_call") {
                let call = tool_call(item);
                tool_calls.push(call);
                assert(call_items(next) == call_items(seen).push(item@));
                assert(views(tool_calls@) =~= called.push(call@));
                assert(calls_in(next) =~= calls_in(seen).push(call@));
                assert(said_in(next) =~= said);
            } else {
                // `reasoning` items and anything else the API grows are ignored
                // rather than rejected: an unknown item type must not fail a run.
                assert(call_items(next) == call_items(seen));
                assert(said_in(next) =~= said);
            }
        }
        assert(all.take(output@.len() as int) =~= all);

        let mut message = JsonMap::new();
        message.set("role", Json::text("assistant"));
        if text.as_str().unicode_len() == 0 {
            message.set("content", Json::Null);
        } else {
            message.set("content", Json::String(text));
        }
        if tool_calls.len() > 0 {
            proof {
                lemma_array_view(tool_calls);
            }
            message.set("tool_calls", Json::Array(tool_calls));
        }
        Ok((Json::Object(message), total_tokens(resp)))
    }
}

/// The members of request bodies have different names.
proof fn lemma_body_names()
    ensures
        "messages"@ != "max_tokens"@,
        "messages"@ != "temperature"@,
        "messages"@ != "tools"@,
        "messages"@ != "tool_choice"@,
        "temperature"@ != "model"@,
        "temperature"@ != "input"@,
        "temperature"@ != "max_output_tokens"@,
        "temperature"@ != "tools"@,
        "temperature"@ != "tool_choice"@,
        "tools"@ != "model"@,
        "tools"@ != "input"@,
        "tools"@ != "max_tokens"@,
        "tools"@ != "max_output_tokens"@,
        "tools"@ != "tool_choice"@,
        "tool_choice"@ != "model"@,
        "tool_choice"@ != "input"@,
        "tool_choice"@ != "max_tokens"@,
        "tool_choice"@ != "max_output_tokens"@,
{
    reveal_strlit("model");
    reveal_strlit("messages");
    reveal_strlit("input");
    reveal_strlit("max_tokens");
    reveal_strlit("max_output_tokens");
    reveal_strlit("temperature");
    reveal_strlit("tools");
    reveal_strlit("tool_choice");
    assert("model"@[0] != "tools"@[0] && "input"@[0] != "tools"@[0]);
    assert("temperature"@[1] != "tool_choice"@[1]);
    assert("model"@.len() == 5 && "input"@.len() == 5 && "messages"@.len() == 8
        && "max_tokens"@.len() == 10 && "temperature"@.len() == 11 && "tools"@.len() == 5
        && "tool_choice"@.len() == 11 && "max_output_tokens"@.len() == 17);
}

/// The members of tool calls have different names.
proof fn lemma_call_names()
    ensures
        "id"@ != "type"@,
        "id"@ != "function"@,
        "type"@ != "function"@,
        "name"@ != "arguments"@,
{
    reveal_strlit("id");
    reveal_strlit("type");
    reveal_strlit("function");
    reveal_strlit("name");
    reveal_strlit("arguments");
    assert("id"@.len() == 2 && "type"@.len() == 4 && "function"@.len() == 8 && "name"@.len() == 4
        && "arguments"@.len() == 9);
}

/// What a caller puts in the extra fields is what is sent, whatever the format
/// chose: it is applied last.
pub proof fn extra_fields_win(format: Responses, req: WireRequestView, key: Seq<char>)
    requires
        req.policy.extra_body.dom().contains(key),
    ensures
        ChatCompletions.body(req).get(key) == Some(req.policy.extra_body[key]),
        format.body(req).get(key) == Some(req.policy.extra_body[key]),
{
}

/// Chat Completions sends the transcript and the tool definitions as they are.
pub proof fn the_transcript_passes_through(req: WireRequestView)
    requires
        !req.policy.extra_body.dom().contains("messages"@),
        !req.policy.extra_body.dom().contains("tools"@),
    ensures
        ChatCompletions.body(req).at("messages"@) == JsonView::Array(req.messages),
        req.tools.len() > 0 ==> ChatCompletions.body(req).at("tools"@) == JsonView::Array(
            req.tools,
        ),
{
    lemma_body_names();
}

/// Without tools, no format sends a list of them or a choice among them.
pub proof fn without_tools_no_choice_is_sent(format: Responses, req: WireRequestView)
    requires
        req.tools.len() == 0,
        !req.policy.extra_body.dom().contains("tools"@),
        !req.policy.extra_body.dom().contains("tool_choice"@),
    ensures
        ChatCompletions.body(req).get("tools"@) is None,
        ChatCompletions.body(req).get("tool_choice"@) is None,
        format.body(req).get("tools"@) is None,
        format.body(req).get("tool_choice"@) is None,
{
    lemma_body_names();
}

/// The Responses format sends no temperature unless it was asked to, and Chat
/// Completions always does.
pub proof fn temperature_is_sent_where_it_is_wanted(format: Responses, req: WireRequestView)
    requires
        !req.policy.extra_body.dom().contains("temperature"@),
    ensures
        format.body(req).get("temperature"@) == if format.sends_temperature() {
            Some(JsonView::Number(req.policy.temperature))
        } else {
            None
        },
        ChatCompletions.body(req).get("temperature"@) == Some(
            JsonView::Number(req.policy.temperature),
        ),
{
    lemma_body_names();
}

/// Whether a content has nothing in it.
pub open spec fn says_nothing(content: JsonView) -> bool {
    match content {
        JsonView::Null => true,
        JsonView::String(s) => s.len() == 0,
        JsonView::Array(parts) => all_text(parts) && parts_text(parts).len() == 0,
        _ => false,
    }
}

/// A message that says something is never dropped on its way to the Responses
/// format: its first item carries its role, and its content as text or as it is.
pub proof fn content_is_never_dropped(m: JsonView)
    requires
        m.at("role"@).str_or(""@) != "tool"@,
        !says_nothing(m.at("content"@)),
    ensures
        items_of(m).len() == 1 + m.at("tool_calls"@).elements().len(),
        items_of(m)[0].at("role"@) == JsonView::String(m.at("role"@).str_or(""@)),
        items_of(m)[0].at("content"@) == match m.at("content"@) {
            JsonView::Array(parts) => if all_text(parts) {
                JsonView::String(parts_text(parts))
            } else {
                m.at("content"@)
            },
            content => content,
        },
{
    lemma_member_names();
}

/// A tool result is sent with the id of the call that it answers and with all
/// that the tool said.
pub proof fn a_tool_result_keeps_its_call(m: JsonView)
    requires
        m.at("role"@).str_or(""@) == "tool"@,
    ensures
        items_of(m).len() == 1,
        items_of(m)[0].at("call_id"@) == JsonView::String(m.at("tool_call_id"@).str_or(""@)),
        items_of(m)[0].at("output"@) == JsonView::String(output_text(m.at("content"@))),
{
    reveal_strlit("type");
    reveal_strlit("call_id");
    reveal_strlit("output");
    assert("type"@.len() == 4 && "call_id"@.len() == 7 && "output"@.len() == 6);
}

/// The item that stands for the call that an item of a reply made.
pub open spec fn item_again(item: JsonView) -> JsonView {
    call_item(
        item.at("call_id"@).str_or(""@),
        item.at("name"@).str_or(""@),
        item.at("arguments"@).str_or("{}"@),
    )
}

/// A call keeps its id, its name and its arguments from the reply that made it,
/// through the transcript, to the request that sends it back.
proof fn lemma_call_comes_back(item: JsonView)
    ensures
        item_of_call(call_of_item(item)) == item_again(item),
{
    lemma_call_names();
    assert(call_of_item(item).at("id"@) == JsonView::String(item.at("call_id"@).str_or(""@)));
    assert(call_of_item(item).at("function"@).at("name"@) == JsonView::String(
        item.at("name"@).str_or(""@),
    ));
    assert(call_of_item(item).at("function"@).at("arguments"@) == JsonView::String(
        item.at("arguments"@).str_or("{}"@),
    ));
}

/// A transcript is sent message by message: what is appended to it only appends
/// items, and leaves those before as they are.
pub proof fn a_longer_transcript_appends_items(a: Seq<JsonView>, b: Seq<JsonView>)
    ensures
        input_of(a + b) == input_of(a) + input_of(b),
    decreases b.len(),
{
    if b.len() == 0 {
        assert(a + b =~= a);
        assert(input_of(a) + input_of(b) =~= input_of(a));
    } else {
        a_longer_transcript_appends_items(a, b.drop_last());
        assert((a + b).drop_last() =~= a + b.drop_last());
        assert(input_of(a + b) =~= input_of(a) + input_of(b));
    }
}

/// A turn that was read from a Responses reply goes back as it came: the text
/// that was said, then each call with the id, the name and the arguments that the
/// reply gave it.
pub proof fn a_turn_goes_back_as_it_came(format: Responses, resp: JsonView)
    ensures
        format.turn(resp) matches Ok((message, _)) ==> {
            let output = resp.at("output"@).elements();
            let calls = call_items(output).map_values(|item: JsonView| item_again(item));
            input_of(seq![message]) == if said_in(output).len() == 0 {
                calls
            } else {
                seq![spoken_item("assistant"@, JsonView::String(said_in(output)))] + calls
            }
        },
{
    if let Ok((message, tokens)) = format.turn(resp) {
        let output = resp.at("output"@).elements();
        let calls = call_items(output).map_values(|item: JsonView| item_again(item));
        lemma_member_names();
        reveal_strlit("assistant");
        reveal_strlit("tool");
        assert("assistant"@.len() != "tool"@.len());
        assert(message.at("role"@) == JsonView::String("assistant"@));
        assert(message.at("tool_calls"@).elements() =~= calls_in(output));
        assert(message.at("tool_calls"@).elements().map_values(|c: JsonView| item_of_call(c))
            =~= calls) by {
            assert forall|i: int| 0 <= i < calls.len() implies item_of_call(
                #[trigger] calls_in(output)[i],
            ) == calls[i] by {
                lemma_call_comes_back(call_items(output)[i]);
            }
        }
        let messages = seq![message];
        assert(messages.drop_last() =~= Seq::empty());
        assert(input_of(messages.drop_last()) =~= Seq::empty());
        assert(input_of(messages) =~= items_of(message));
    }
}

/// Whether a call has the shape that Chat Completions gives it.
pub open spec fn is_chat_call(call: JsonView) -> bool {
    &&& call.at("id"@) is String
    &&& call.at("type"@) == JsonView::String("function"@)
    &&& call.at("function"@).at("name"@) is String
    &&& call.at("function"@).at("arguments"@) is String
}

/// A turn that was read from a Responses reply has the shape that Chat Completions
/// gives it, so that a transcript does not tell which format it came through.
pub proof fn every_turn_has_chat_shape(format: Responses, resp: JsonView)
    ensures
        format.turn(resp) matches Ok((message, _)) ==> {
            &&& message.at("role"@) == JsonView::String("assistant"@)
            &&& message.get("content"@) == Some(JsonView::Null) || (message.at("content"@) is String
                && message.at("content"@)->String_0.len() > 0)
            &&& message.get("tool_calls"@) matches Some(calls) ==> calls.elements().len() > 0
            &&& forall|i: int|
                0 <= i < message.at("tool_calls"@).elements().len() ==> is_chat_call(
                    #[trigger] message.at("tool_calls"@).elements()[i],
                )
        },
{
    if let Ok((message, tokens)) = format.turn(resp) {
        let output = resp.at("output"@).elements();
        let calls = calls_in(output);
        lemma_member_names();
        assert(message.at("tool_calls"@).elements() =~= calls);
        assert forall|i: int| 0 <= i < calls.len() implies is_chat_call(#[trigger] calls[i]) by {
            lemma_call_names();
            assert(calls[i] == call_of_item(call_items(output)[i]));
        }
    }
}

/// A total that a reply reports counts as it is; a reply that reports no usage
/// costs nothing, which is no error.
pub proof fn usage_is_read_tolerantly(resp: JsonView)
    ensures
        resp.at("usage"@).at("total_tokens"@).as_u64() matches Some(n) ==> n <= u32::MAX
            ==> tokens_of(resp) == n,
        resp.get("usage"@) is None ==> tokens_of(resp) == 0,
{
}

/// How many of the first `n` items of a reply call a tool.
pub open spec fn calls_before(output: Seq<JsonView>, n: int) -> nat
    decreases n,
{
    if n <= 0 {
        0
    } else {
        calls_before(output, n - 1) + if output[n - 1].at("type"@) == JsonView::String(
            "function_call"@,
        ) {
            1nat
        } else {
            0
        }
    }
}

/// Which call of a reply an item of it makes.
proof fn lemma_call_places(output: Seq<JsonView>, n: int)
    requires
        0 <= n <= output.len(),
    ensures
        call_items(output.take(n)).len() == calls_before(output, n),
        forall|i: int|
            0 <= i < n && (#[trigger] output[i]).at("type"@) == JsonView::String("function_call"@)
                ==> calls_before(output, i) < calls_before(output, n) && call_items(
                output.take(n),
            )[calls_before(output, i) as int] == output[i],
    decreases n,
{
    reveal(Seq::filter);
    reveal_strlit("");
    reveal_strlit("function_call");
    assert(""@.len() == 0 && "function_call"@.len() == 13);
    if n > 0 {
        lemma_call_places(output, n - 1);
        assert(output.take(n).drop_last() =~= output.take(n - 1));
        assert(output.take(n).last() == output[n - 1]);
    } else {
        assert(output.take(0) =~= Seq::empty());
    }
}

/// Every item of a Responses reply that calls a tool has its call in the turn, in the
/// order of the items, and nothing else has: the call has the id, the name and the
/// arguments that the item gives.
pub proof fn every_call_of_a_reply_is_in_the_turn(
    format: Responses,
    resp: JsonView,
    output: Seq<JsonView>,
    i: int,
)
    requires
        resp.at("output"@) == JsonView::Array(output),
    ensures
        format.turn(resp) matches Ok((message, _)) && {
            let calls = message.at("tool_calls"@).elements();
            &&& calls.len() == calls_before(output, output.len() as int)
            &&& message.get("tool_calls"@) is Some <==> calls.len() > 0
            &&& 0 <= i < output.len() && output[i].at("type"@) == JsonView::String(
                "function_call"@,
            ) ==> {
                let call = calls[calls_before(output, i) as int];
                &&& calls_before(output, i) < calls.len()
                &&& call.get("type"@) == Some(JsonView::String("function"@))
                &&& output[i].at("call_id"@) matches JsonView::String(id) ==> call.get("id"@)
                    == Some(JsonView::String(id))
                &&& output[i].at("name"@) matches JsonView::String(name) ==> call.at(
                    "function"@,
                ).get("name"@) == Some(JsonView::String(name))
                &&& output[i].at("arguments"@) matches JsonView::String(args) ==> call.at(
                    "function"@,
                ).get("arguments"@) == Some(JsonView::String(args))
                &&& output[i].at("call_id"@) !is String ==> call.get("id"@) == Some(
                    JsonView::String(""@),
                )
                &&& output[i].at("name"@) !is String ==> call.at("function"@).get("name"@) == Some(
                    JsonView::String(""@),
                )
                &&& output[i].at("arguments"@) !is String ==> call.at("function"@).get(
                    "arguments"@,
                ) == Some(JsonView::String("{}"@))
            }
        },
{
    lemma_member_names();
    lemma_call_names();
    lemma_call_places(output, output.len() as int);
    assert(output.take(output.len() as int) =~= output);
    let message = format.turn(resp)->Ok_0.0;
    assert(message.at("tool_calls"@).elements() =~= calls_in(output));
}

/// The text that a turn says, none where it says nothing.
pub open spec fn turn_text(message: JsonView) -> Seq<char> {
    match message.at("content"@) {
        JsonView::String(s) => s,
        _ => Seq::empty(),
    }
}

/// A Responses reply of nothing says nothing and calls nothing.
pub proof fn an_empty_reply_is_an_empty_turn(format: Responses, resp: JsonView)
    requires
        resp.at("output"@) == JsonView::Array(Seq::empty()),
    ensures
        format.turn(resp) matches Ok((message, _)) && {
            &&& message.get("role"@) == Some(JsonView::String("assistant"@))
            &&& message.get("content"@) == Some(JsonView::Null)
            &&& message.get("tool_calls"@) is None
        },
{
    lemma_member_names();
    lemma_call_places(Seq::empty(), 0);
    assert(Seq::<JsonView>::empty().take(0) =~= Seq::empty());
}

/// One more item at the end of a Responses reply adds to the turn what the item
/// says or calls: an item that is neither a message nor a call adds nothing, one
/// that calls a tool adds no text, and one that is a message adds no call and adds,
/// after the text so far, what it would say alone.
pub proof fn one_more_item_adds_to_the_turn(
    format: Responses,
    before: JsonView,
    after: JsonView,
    alone: JsonView,
    output: Seq<JsonView>,
    item: JsonView,
)
    requires
        before.at("output"@) == JsonView::Array(output),
        after.at("output"@) == JsonView::Array(output.push(item)),
        alone.at("output"@) == JsonView::Array(seq![item]),
    ensures
        format.turn(before) is Ok,
        format.turn(after) is Ok,
        format.turn(alone) is Ok,
        ({
            let (a, b, c) = (
                format.turn(before)->Ok_0.0,
                format.turn(after)->Ok_0.0,
                format.turn(alone)->Ok_0.0,
            );
            let kind = item.at("type"@);
            &&& turn_text(b) == turn_text(a) + turn_text(c)
            &&& b.at("tool_calls"@).elements() == a.at("tool_calls"@).elements() + c.at(
                "tool_calls"@,
            ).elements()
            &&& kind != JsonView::String("message"@) ==> turn_text(c).len() == 0
            &&& kind != JsonView::String("function_call"@) ==> c.at("tool_calls"@).elements().len()
                == 0
            &&& kind == JsonView::String("function_call"@) ==> c.at("tool_calls"@).elements().len()
                == 1
            &&& b.get("content"@) == Some(
                if turn_text(b).len() > 0 {
                    JsonView::String(turn_text(b))
                } else {
                    JsonView::Null
                },
            )
            &&& b.get("role"@) == Some(JsonView::String("assistant"@))
        }),
{
    lemma_member_names();
    reveal(Seq::filter);
    reveal_strlit("");
    reveal_strlit("message");
    reveal_strlit("function_call");
    assert(""@.len() == 0 && "message"@.len() == 7 && "function_call"@.len() == 13);
    let next = output.push(item);
    assert(next.drop_last() =~= output);
    assert(seq![item].drop_last() =~= Seq::empty());
    assert(said_in(seq![item].drop_last()) =~= Seq::empty());
    assert(call_items(seq![item].drop_last()) =~= Seq::empty());
    assert(said_in(next) =~= said_in(output) + said_in(seq![item]));
    assert(call_items(next) =~= call_items(output) + call_items(seq![item]));
    assert(calls_in(next) =~= calls_in(output) + calls_in(seq![item]));
    let (a, b, c) = (
        format.turn(before)->Ok_0.0,
        format.turn(after)->Ok_0.0,
        format.turn(alone)->Ok_0.0,
    );
    assert(turn_text(a) =~= said_in(output));
    assert(turn_text(b) =~= said_in(next));
    assert(turn_text(c) =~= said_in(seq![item]));
    assert(a.at("tool_calls"@).elements() =~= calls_in(output));
    assert(b.at("tool_calls"@).elements() =~= calls_in(next));
    assert(c.at("tool_calls"@).elements() =~= calls_in(seq![item]));
}

/// A message item says the texts of its parts of output text in a row: without parts
/// it says nothing, and one more part adds its text at the end where it is a part of
/// output text, and nothing otherwise.
pub proof fn a_message_item_says_its_parts(
    format: Responses,
    none: JsonView,
    before: JsonView,
    after: JsonView,
    items: (JsonView, JsonView, JsonView),
    parts: Seq<JsonView>,
    part: JsonView,
)
    requires
        items.0.at("type"@) == JsonView::String("message"@),
        items.1.at("type"@) == JsonView::String("message"@),
        items.2.at("type"@) == JsonView::String("message"@),
        items.0.at("content"@) matches JsonView::Array(p) ==> p.len() == 0,
        items.1.at("content"@) == JsonView::Array(parts),
        items.2.at("content"@) == JsonView::Array(parts.push(part)),
        none.at("output"@) == JsonView::Array(seq![items.0]),
        before.at("output"@) == JsonView::Array(seq![items.1]),
        after.at("output"@) == JsonView::Array(seq![items.2]),
    ensures
        format.turn(none) is Ok,
        format.turn(before) is Ok,
        format.turn(after) is Ok,
        turn_text(format.turn(none)->Ok_0.0).len() == 0,
        turn_text(format.turn(after)->Ok_0.0) == turn_text(format.turn(before)->Ok_0.0) + (
        match (part.at("type"@), part.at("text"@)) {
            (JsonView::String(kind), JsonView::String(text)) if kind == "output_text"@ => text,
            _ => Seq::empty(),
        }),
{
    lemma_member_names();
    lemma_said_alone(items.0);
    lemma_said_alone(items.1);
    lemma_said_alone(items.2);
    assert(parts.push(part).drop_last() =~= parts);
    assert(turn_text(format.turn(none)->Ok_0.0) =~= said_in(seq![items.0]));
    assert(turn_text(format.turn(before)->Ok_0.0) =~= said_in(seq![items.1]));
    assert(turn_text(format.turn(after)->Ok_0.0) =~= said_in(seq![items.2]));
    assert(said_in_parts(parts.push(part)) =~= said_in_parts(parts) + (match (
        part.at("type"@),
        part.at("text"@),
    ) {
        (JsonView::String(kind), JsonView::String(text)) if kind == "output_text"@ => text,
        _ => Seq::empty(),
    }));
}

/// What a message item alone says.
proof fn lemma_said_alone(item: JsonView)
    requires
        item.at("type"@) == JsonView::String("message"@),
    ensures
        said_in(seq![item]) == said_in_parts(item.at("content"@).elements()),
{
    assert(seq![item].drop_last() =~= Seq::empty());
    assert(said_in(seq![item].drop_last()) =~= Seq::empty());
    assert(said_in(seq![item]) =~= said_in_parts(item.at("content"@).elements()));
}

/// Each format posts to the path of its endpoint.
pub proof fn each_format_has_its_endpoint(format: Responses)
    ensures
        ChatCompletions.path_text() == "chat/completions"@,
        format.path_text() == "responses"@,
{
}

/// A Responses reply has a turn in it if and only if it has a list of output items.
pub proof fn a_reply_without_output_is_an_error(format: Responses, resp: JsonView)
    ensures
        format.turn(resp) is Ok <==> resp.at("output"@) is Array,
        format.turn(resp) matches Err(e) ==> e is Decode,
{
}

/// The turn of a Chat Completions reply is the message of its first choice, as it
/// is; a reply without one is an error.
pub proof fn the_first_choice_is_the_turn(resp: JsonView)
    ensures
        resp.at("choices"@) matches JsonView::Array(choices) ==> match (if choices.len() > 0 {
            choices[0].get("message"@)
        } else {
            None
        }) {
            Some(message) => ChatCompletions.turn(resp) matches Ok((turn, _)) && turn == message,
            None => ChatCompletions.turn(resp) is Err,
        },
        resp.at("choices"@) !is Array && resp.at("choices"@) !is Object ==> ChatCompletions.turn(
            resp,
        ) is Err,
        ChatCompletions.turn(resp) matches Err(e) ==> e is Decode,
{
}

/// What a reply cost is the total that it reports; without one, it is what it reports
/// as read and as written together, each under the name of either format. It is
/// counted in 32 bits.
pub proof fn usage_is_the_total_or_the_sum(format: Responses, resp: JsonView)
    ensures
        ({
            let usage = resp.at("usage"@);
            let total = usage.at("total_tokens"@).as_u64();
            let (r, w) = (usage.at("input_tokens"@).as_u64(), usage.at("output_tokens"@).as_u64());
            let (p, c) = (
                usage.at("prompt_tokens"@).as_u64(),
                usage.at("completion_tokens"@).as_u64(),
            );
            let cost = tokens_of(resp);
            let read = match (r, p) {
                (Some(n), _) => n as int,
                (None, Some(n)) => n as int,
                _ => 0,
            };
            let written = match (w, c) {
                (Some(n), _) => n as int,
                (None, Some(n)) => n as int,
                _ => 0,
            };
            &&& total matches Some(n) ==> cost == n % 0x1_0000_0000
            &&& total is None ==> cost == (read + written) % 0x1_0000_0000
            &&& format.turn(resp) matches Ok((_, tokens)) ==> tokens == cost
            &&& ChatCompletions.turn(resp) matches Ok((_, tokens)) ==> tokens == cost
        }),
{
}

/// What a Chat Completions request holds: the model, the transcript as it is, the cap
/// on output, the temperature, and the tools with the choice among them where there
/// are tools; then what the caller adds, which wins. Nothing else is sent.
pub proof fn a_chat_request_holds_what_was_asked(req: WireRequestView, key: Seq<char>)
    ensures
        ({
            let sent = ChatCompletions.body(req);
            let extra = req.policy.extra_body;
            let tools = req.tools.len() > 0;
            &&& extra.dom().contains(key) ==> sent.get(key) == Some(extra[key])
            &&& !extra.dom().contains(key) ==> {
                &&& key == "model"@ ==> sent.get(key) == Some(JsonView::String(req.model))
                &&& key == "messages"@ ==> sent.get(key) == Some(JsonView::Array(req.messages))
                &&& key == "max_tokens"@ ==> sent.get(key) == Some(
                    JsonView::Number(NumberView::PosInt(req.policy.max_tokens as u64)),
                )
                &&& key == "temperature"@ ==> sent.get(key) == Some(
                    JsonView::Number(req.policy.temperature),
                )
                &&& key == "tools"@ && tools ==> sent.get(key) == Some(JsonView::Array(req.tools))
                &&& key == "tool_choice"@ && tools ==> sent.get(key) == Some(
                    JsonView::String(req.tool_choice),
                )
                &&& !(key == "model"@ || key == "messages"@ || key == "max_tokens"@ || key
                    == "temperature"@ || (tools && (key == "tools"@ || key == "tool_choice"@)))
                    ==> sent.get(key) is None
            }
        }),
{
    lemma_body_names();
    lemma_more_body_names();
}

/// What a Responses request holds: the model, the items of the transcript, the cap on
/// output, the temperature only where it is wanted, and the tools with the choice
/// among them where there are tools; then what the caller adds, which wins. Nothing
/// else is sent.
pub proof fn a_responses_request_holds_what_was_asked(
    format: Responses,
    req: WireRequestView,
    key: Seq<char>,
)
    ensures
        ({
            let sent = format.body(req);
            let extra = req.policy.extra_body;
            let tools = req.tools.len() > 0;
            &&& extra.dom().contains(key) ==> sent.get(key) == Some(extra[key])
            &&& !extra.dom().contains(key) ==> {
                &&& key == "model"@ ==> sent.get(key) == Some(JsonView::String(req.model))
                &&& key == "input"@ ==> sent.get(key) == Some(
                    JsonView::Array(input_of(req.messages)),
                )
                &&& key == "max_output_tokens"@ ==> sent.get(key) == Some(
                    JsonView::Number(NumberView::PosInt(req.policy.max_tokens as u64)),
                )
                &&& key == "temperature"@ ==> sent.get(key) == if format.sends_temperature() {
                    Some(JsonView::Number(req.policy.temperature))
                } else {
                    None
                }
                &&& key == "tools"@ && tools ==> sent.get(key) == Some(
                    JsonView::Array(flat_tools(req.tools)),
                )
                &&& key == "tool_choice"@ && tools ==> sent.get(key) == Some(
                    JsonView::String(req.tool_choice),
                )
                &&& !(key == "model"@ || key == "input"@ || key == "max_output_tokens"@ || key
                    == "temperature"@ || (tools && (key == "tools"@ || key == "tool_choice"@)))
                    ==> sent.get(key) is None
            }
        }),
{
    lemma_body_names();
    lemma_more_body_names();
}

/// The rest of what makes the members of request bodies different.
proof fn lemma_more_body_names()
    ensures
        "model"@ != "messages"@,
        "model"@ != "max_tokens"@,
        "model"@ != "max_output_tokens"@,
        "model"@ != "input"@,
        "input"@ != "max_output_tokens"@,
        "max_tokens"@ != "temperature"@,
{
    reveal_strlit("model");
    reveal_strlit("messages");
    reveal_strlit("input");
    reveal_strlit("max_tokens");
    reveal_strlit("max_output_tokens");
    reveal_strlit("temperature");
    assert("model"@[0] != "input"@[0]);
    assert("model"@.len() == 5 && "input"@.len() == 5 && "messages"@.len() == 8
        && "max_tokens"@.len() == 10 && "temperature"@.len() == 11 && "max_output_tokens"@.len()
        == 17);
}

/// A function tool keeps its name, its description and its parameters when it is
/// written without nesting, and the tools keep their order.
pub proof fn a_flat_tool_keeps_its_members(tools: Seq<JsonView>, i: int)
    requires
        0 <= i < tools.len(),
    ensures
        flat_tools(tools).len() == tools.len(),
        flat_tools(tools)[i].get("type"@) == Some(JsonView::String("function"@)),
        flat_tools(tools)[i].get("name"@) == Some(tools[i].at("function"@).at("name"@)),
        flat_tools(tools)[i].get("description"@) == Some(
            tools[i].at("function"@).at("description"@),
        ),
        flat_tools(tools)[i].get("parameters"@) == Some(tools[i].at("function"@).at("parameters"@)),
        flat_tools(tools)[i].get("function"@) is None,
{
    reveal_strlit("type");
    reveal_strlit("name");
    reveal_strlit("description");
    reveal_strlit("parameters");
    reveal_strlit("function");
    assert("type"@[0] != "name"@[0]);
    assert("type"@.len() == 4 && "name"@.len() == 4 && "description"@.len() == 11
        && "parameters"@.len() == 10 && "function"@.len() == 8);
}

/// The members of Responses items have different names.
proof fn lemma_item_names()
    ensures
        "type"@ != "call_id"@,
        "type"@ != "name"@,
        "type"@ != "arguments"@,
        "type"@ != "output"@,
        "call_id"@ != "name"@,
        "call_id"@ != "arguments"@,
        "call_id"@ != "output"@,
        "name"@ != "arguments"@,
        "type"@ != "role"@,
        "type"@ != "content"@,
{
    reveal_strlit("type");
    reveal_strlit("call_id");
    reveal_strlit("name");
    reveal_strlit("arguments");
    reveal_strlit("output");
    reveal_strlit("role");
    reveal_strlit("content");
    assert("type"@[0] != "name"@[0] && "type"@[0] != "role"@[0]);
    assert("type"@.len() == 4 && "name"@.len() == 4 && "call_id"@.len() == 7 && "arguments"@.len()
        == 9 && "output"@.len() == 6 && "role"@.len() == 4 && "content"@.len() == 7);
}

/// Each call of a message that is no tool result is an item of its own, after what the
/// message says and in the order of the calls, with the id, the name and the arguments
/// of the call.
pub proof fn every_call_of_a_message_is_an_item(m: JsonView, j: int)
    requires
        m.at("role"@) != JsonView::String("tool"@),
        0 <= j < m.at("tool_calls"@).elements().len(),
    ensures
        ({
            let calls = m.at("tool_calls"@).elements();
            let items = input_of(seq![m]);
            let item = items[items.len() - calls.len() + j];
            &&& calls.len() <= items.len() <= calls.len() + 1
            &&& item.get("type"@) == Some(JsonView::String("function_call"@))
            &&& calls[j].at("id"@) matches JsonView::String(id) ==> item.get("call_id"@) == Some(
                JsonView::String(id),
            )
            &&& calls[j].at("function"@).at("name"@) matches JsonView::String(name) ==> item.get(
                "name"@,
            ) == Some(JsonView::String(name))
            &&& calls[j].at("function"@).at("arguments"@) matches JsonView::String(args)
                ==> item.get("arguments"@) == Some(JsonView::String(args))
            &&& calls[j].at("id"@) !is String ==> item.get("call_id"@) == Some(
                JsonView::String(""@),
            )
            &&& calls[j].at("function"@).at("name"@) !is String ==> item.get("name"@) == Some(
                JsonView::String(""@),
            )
            &&& calls[j].at("function"@).at("arguments"@) !is String ==> item.get("arguments"@)
                == Some(JsonView::String("{}"@))
        }),
{
    lemma_item_names();
    lemma_input_of_one(m);
    lemma_not_tool(m);
}

/// The items of one message alone.
proof fn lemma_input_of_one(m: JsonView)
    ensures
        input_of(seq![m]) == items_of(m),
{
    assert(seq![m].drop_last() =~= Seq::empty());
    assert(input_of(seq![m].drop_last()) =~= Seq::empty());
    assert(input_of(seq![m]) =~= items_of(m));
}

/// A role that is not that of a tool.
proof fn lemma_not_tool(m: JsonView)
    requires
        m.at("role"@) != JsonView::String("tool"@),
    ensures
        m.at("role"@).str_or(""@) != "tool"@,
{
    reveal_strlit("");
    reveal_strlit("tool");
    assert(""@.len() == 0 && "tool"@.len() == 4);
}

/// A message that is no tool result says as much through the Responses format as it
/// says: nothing where it has no content, or an empty one, its text where it has one,
/// and whatever it has where that is no text. A list of parts one of which is no text
/// is passed on as it is.
pub proof fn what_a_message_says_is_passed_on(m: JsonView, i: int)
    requires
        m.at("role"@) != JsonView::String("tool"@),
    ensures
        ({
            let calls = m.at("tool_calls"@).elements();
            let items = input_of(seq![m]);
            let as_it_is = items.len() == calls.len() + 1 && items[0].get("content"@) == Some(
                m.at("content"@),
            );
            &&& items.len() == calls.len() + 1 ==> items[0].get("role"@) == Some(
                JsonView::String(
                    match m.at("role"@) {
                        JsonView::String(role) => role,
                        _ => ""@,
                    },
                ),
            ) && items[0].get("type"@) is None
            &&& match m.at("content"@) {
                JsonView::Null => items.len() == calls.len(),
                JsonView::String(s) => if s.len() == 0 {
                    items.len() == calls.len()
                } else {
                    as_it_is
                },
                JsonView::Array(parts) => 0 <= i < parts.len() && !(parts[i].at("type"@)
                    == JsonView::String("text"@) && parts[i].at("text"@) is String) ==> as_it_is,
                _ => as_it_is,
            }
        }),
{
    lemma_item_names();
    lemma_member_names();
    lemma_input_of_one(m);
    lemma_not_tool(m);
}

/// The text that the content of a message becomes, none where no item is sent.
pub open spec fn passed_text(content: JsonView) -> Seq<char> {
    match item_content(content) {
        Some(JsonView::String(s)) => s,
        _ => Seq::empty(),
    }
}

/// A list of text parts becomes their texts in a row: one more part adds its text at
/// the end. Where there is no text nothing is sent.
pub proof fn text_parts_are_folded_in_order(parts: Seq<JsonView>, part: JsonView)
    requires
        forall|i: int|
            0 <= i < parts.len() ==> (#[trigger] parts[i]).at("type"@) == JsonView::String(
                "text"@,
            ) && parts[i].at("text"@) is String,
        part.at("type"@) == JsonView::String("text"@),
        part.at("text"@) is String,
    ensures
        passed_text(JsonView::Array(parts.push(part))) == passed_text(JsonView::Array(parts))
            + part.at("text"@)->String_0,
        item_content(JsonView::Array(parts.push(part))) is Some <==> passed_text(
            JsonView::Array(parts.push(part)),
        ).len() > 0,
        item_content(JsonView::Array(Seq::empty())) is None,
{
    let more = parts.push(part);
    assert(more.drop_last() =~= parts);
    assert(all_text(parts));
    assert(all_text(more));
    assert(all_text(Seq::empty()));
    assert(parts_text(more) =~= parts_text(parts) + part.at("text"@)->String_0);
    assert(passed_text(JsonView::Array(parts)) =~= parts_text(parts));
    assert(passed_text(JsonView::Array(more)) =~= parts_text(more));
}

/// A tool result is one item: it names the call that it answers, and holds the result
/// as the tool said it, or as the text of its JSON.
pub proof fn a_tool_result_is_one_item(m: JsonView)
    requires
        m.at("role"@) == JsonView::String("tool"@),
    ensures
        ({
            let items = input_of(seq![m]);
            &&& items.len() == 1
            &&& items[0].get("type"@) == Some(JsonView::String("function_call_output"@))
            &&& m.at("tool_call_id"@) matches JsonView::String(id) ==> items[0].get("call_id"@)
                == Some(JsonView::String(id))
            &&& m.at("tool_call_id"@) !is String ==> items[0].get("call_id"@) == Some(
                JsonView::String(""@),
            )
            &&& items[0].get("output"@) == Some(
                JsonView::String(
                    match m.at("content"@) {
                        JsonView::String(s) => s,
                        JsonView::Null => Seq::empty(),
                        other => text_of_json(other),
                    },
                ),
            )
        }),
{
    lemma_item_names();
    lemma_input_of_one(m);
}

} // verus!
