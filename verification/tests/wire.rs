use agent_loop_core::wire::{
    apply_extra, function_call_output, message_content, tool_output_text, total_tokens,
};
use agent_loop_core::{
    AgentError, ChatCompletions, Json, JsonMap, ModelPolicy, Responses, WireFormat, WireRequest,
};

fn json(text: &str) -> Json {
    Json::parse(text).unwrap()
}

fn list(text: &str) -> Vec<Json> {
    json(text).as_array().unwrap().clone()
}

fn policy() -> ModelPolicy {
    ModelPolicy::single("m")
}

fn chat_tools() -> Vec<Json> {
    list(
        r#"[{
            "type": "function",
            "function": {
                "name": "grep",
                "description": "Search.",
                "parameters": {"type": "object", "properties": {"q": {"type": "string"}}, "required": ["q"]}
            }
        }]"#,
    )
}

/// A transcript that has been through a full tool round-trip: system, user,
/// assistant-with-tool-call, tool result.
fn transcript() -> Vec<Json> {
    list(
        r#"[
            {"role": "system", "content": "sys"},
            {"role": "user", "content": "hi"},
            {
                "role": "assistant",
                "content": null,
                "tool_calls": [{
                    "id": "call_1",
                    "type": "function",
                    "function": {"name": "grep", "arguments": "{\"q\":\"x\"}"}
                }]
            },
            {"role": "tool", "tool_call_id": "call_1", "content": "found"}
        ]"#,
    )
}

fn request<'a>(messages: &'a [Json], tools: &'a [Json], policy: &'a ModelPolicy) -> WireRequest<'a> {
    WireRequest {
        model: "m",
        messages,
        tools,
        tool_choice: "auto",
        policy,
    }
}

/// The text of the temperature that a policy sends.
fn temperature(p: &ModelPolicy) -> Json {
    Json::Number(p.temperature.clone())
}

#[test]
fn chat_completions_body_is_what_the_crate_always_sent() {
    let msgs = transcript();
    let tools = chat_tools();
    let p = policy();
    let body = ChatCompletions.build_request(request(&msgs, &tools, &p));
    assert_eq!(body.at("model").as_str(), Some("m"));
    assert_eq!(body.at("messages"), &Json::Array(msgs), "transcript passes through");
    assert_eq!(body.at("max_tokens").as_u64(), Some(p.max_tokens.into()));
    assert_eq!(body.at("temperature"), &temperature(&p));
    assert_eq!(
        body.at("tools").first().unwrap().at("function").at("name").as_str(),
        Some("grep")
    );
    assert_eq!(body.at("tool_choice").as_str(), Some("auto"));
    assert_eq!(ChatCompletions.path(), "chat/completions");
}

#[test]
fn chat_completions_omits_tools_when_there_are_none() {
    let p = policy();
    let body = ChatCompletions::default().build_request(request(&[], &[], &p));
    assert!(body.get("tools").is_none());
    assert!(body.get("tool_choice").is_none());
}

#[test]
fn responses_flattens_tool_definitions() {
    let tools = chat_tools();
    let p = policy();
    let body = Responses::new().build_request(request(&[], &tools, &p));
    let t = body.at("tools").first().unwrap();
    assert_eq!(t.at("type").as_str(), Some("function"));
    assert_eq!(t.at("name").as_str(), Some("grep"), "name must be flat, not under .function");
    assert_eq!(t.at("parameters").at("required").first().unwrap().as_str(), Some("q"));
    assert_eq!(t.at("description").as_str(), Some("Search."));
    assert!(t.get("function").is_none(), "no nested function object");
    assert_eq!(body.at("tool_choice").as_str(), Some("auto"));
}

#[test]
fn responses_splits_an_assistant_turn_into_typed_items() {
    let msgs = transcript();
    let p = policy();
    let body = Responses::new().build_request(request(&msgs, &[], &p));
    let input = body.at("input").as_array().unwrap();

    assert_eq!(input[0], json(r#"{"role": "system", "content": "sys"}"#));
    assert_eq!(input[1], json(r#"{"role": "user", "content": "hi"}"#));
    // The assistant turn had null content, so it contributes only the call.
    assert_eq!(
        input[2],
        json(
            r#"{
                "type": "function_call",
                "call_id": "call_1",
                "name": "grep",
                "arguments": "{\"q\":\"x\"}"
            }"#
        )
    );
    assert_eq!(
        input[3],
        json(
            r#"{
                "type": "function_call_output",
                "call_id": "call_1",
                "output": "found"
            }"#
        )
    );
    assert_eq!(input.len(), 4);
    assert!(body.get("messages").is_none(), "Responses has no `messages`");
    assert_eq!(body.at("max_output_tokens").as_u64(), Some(p.max_tokens.into()));
    assert_eq!(Responses::new().path(), "responses");
}

#[test]
fn an_assistant_turn_that_both_spoke_and_called_yields_two_items() {
    let msgs = list(
        r#"[{
            "role": "assistant",
            "content": "let me check",
            "tool_calls": [{
                "id": "call_9",
                "type": "function",
                "function": {"name": "grep", "arguments": "{}"}
            }]
        }]"#,
    );
    let p = policy();
    let body = Responses::new().build_request(request(&msgs, &[], &p));
    let input = body.at("input").as_array().unwrap();
    assert_eq!(input.len(), 2, "one message item + one function_call item");
    assert_eq!(input[0].at("content").as_str(), Some("let me check"));
    assert_eq!(input[1].at("type").as_str(), Some("function_call"));
}

#[test]
fn temperature_is_omitted_by_default_because_reasoning_models_reject_it() {
    let p = policy();
    let req = request(&[], &[], &p);
    assert!(Responses::new().build_request(req).get("temperature").is_none());
    assert!(Responses::default().build_request(req).get("temperature").is_none());
    assert_eq!(
        Responses::new().with_temperature().build_request(req).at("temperature"),
        &temperature(&p)
    );
}

#[test]
fn extra_body_reaches_both_formats() {
    let mut p = policy();
    p.extra_body.insert("parallel_tool_calls".into(), Json::Bool(false));
    let req = request(&[], &[], &p);
    assert_eq!(
        ChatCompletions.build_request(req).at("parallel_tool_calls"),
        &Json::Bool(false)
    );
    assert_eq!(
        Responses::new().build_request(req).at("parallel_tool_calls"),
        &Json::Bool(false)
    );
}

#[test]
fn extra_body_wins_over_what_the_format_chose() {
    let mut p = policy();
    p.extra_body.insert("model".into(), Json::text("other"));
    p.extra_body.insert("tools".into(), Json::Null);
    let tools = chat_tools();
    let req = request(&[], &tools, &p);
    for body in [ChatCompletions.build_request(req), Responses::new().build_request(req)] {
        assert_eq!(body.at("model").as_str(), Some("other"));
        assert_eq!(body.get("tools"), Some(&Json::Null));
        assert_eq!(body.at("tool_choice").as_str(), Some("auto"));
    }
    let mut no_object = Json::Bool(true);
    apply_extra(&mut no_object, &p.extra_body);
    assert_eq!(no_object, Json::Bool(true));
    let mut object = Json::Object(JsonMap::new());
    apply_extra(&mut object, &p.extra_body);
    assert_eq!(object, json(r#"{"model": "other", "tools": null}"#));
}

#[test]
fn responses_output_becomes_a_canonical_assistant_message() {
    let resp = json(
        r#"{
            "output": [
                {"type": "reasoning", "summary": []},
                {"type": "message", "role": "assistant",
                 "content": [{"type": "output_text", "text": "the answer"}]},
                {"type": "function_call", "id": "fc_1", "call_id": "call_1",
                 "name": "grep", "arguments": "{\"q\":\"x\"}"}
            ],
            "usage": {"input_tokens": 10, "output_tokens": 5, "total_tokens": 15}
        }"#,
    );
    let (message, tokens) = Responses::new().parse_response(&resp).unwrap();

    assert_eq!(tokens, 15);
    assert_eq!(message.at("role").as_str(), Some("assistant"));
    assert_eq!(message.at("content").as_str(), Some("the answer"));
    let call = message.at("tool_calls").first().unwrap();
    assert_eq!(call.at("id").as_str(), Some("call_1"));
    assert_eq!(call.at("function").at("name").as_str(), Some("grep"));
    assert_eq!(call.at("function").at("arguments").as_str(), Some("{\"q\":\"x\"}"));
    assert_eq!(call.at("type").as_str(), Some("function"));
}

#[test]
fn a_text_only_response_has_no_tool_calls_key() {
    let resp = json(
        r#"{
            "output": [{"type": "message", "role": "assistant",
                        "content": [{"type": "output_text", "text": "done"}]}],
            "usage": {"total_tokens": 3}
        }"#,
    );
    let (message, _) = Responses::new().parse_response(&resp).unwrap();
    assert_eq!(message.at("content").as_str(), Some("done"));
    assert!(message.get("tool_calls").is_none());
}

#[test]
fn a_tool_only_response_has_null_content() {
    let resp = json(
        r#"{
            "output": [{"type": "function_call", "call_id": "c", "name": "grep", "arguments": "{}"}],
            "usage": {"total_tokens": 1}
        }"#,
    );
    let (message, _) = Responses::new().parse_response(&resp).unwrap();
    assert!(message.at("content").is_null());
    assert_eq!(message.get("content"), Some(&Json::Null));
    assert_eq!(message.at("tool_calls").as_array().unwrap().len(), 1);
}

#[test]
fn unknown_output_item_types_are_ignored_not_fatal() {
    let resp = json(
        r#"{
            "output": [
                {"type": "something_openai_added_last_tuesday"},
                {"type": "message", "role": "assistant",
                 "content": [{"type": "output_text", "text": "ok"}]}
            ]
        }"#,
    );
    let (message, tokens) = Responses::new().parse_response(&resp).unwrap();
    assert_eq!(message.at("content").as_str(), Some("ok"));
    assert_eq!(tokens, 0, "absent usage is telemetry loss, not a failure");
}

#[test]
fn texts_of_a_reply_are_put_together_and_other_parts_left_out() {
    let resp = json(
        r#"{"output": [
            {"type": "message", "content": [
                {"type": "output_text", "text": "one "},
                {"type": "refusal", "text": "no"},
                {"type": "output_text"},
                {"type": "output_text", "text": "two"}]},
            {"content": [{"type": "output_text", "text": "lost"}]},
            {"type": "message", "content": [{"type": "output_text", "text": " three"}]},
            {"type": "function_call"}
        ]}"#,
    );
    let (message, _) = Responses::new().parse_response(&resp).unwrap();
    assert_eq!(message.at("content").as_str(), Some("one two three"));
    assert_eq!(
        message.at("tool_calls"),
        &json(r#"[{"id": "", "type": "function", "function": {"name": "", "arguments": "{}"}}]"#)
    );
}

#[test]
fn a_reply_with_no_output_array_is_a_decode_error() {
    let err = Responses::new()
        .parse_response(&json(r#"{"error": {"message": "boom"}}"#))
        .unwrap_err();
    assert!(matches!(err, AgentError::Decode(_)), "got {err:?}");
}

#[test]
fn a_reply_with_no_message_is_a_decode_error() {
    for reply in ["{}", r#"{"choices": []}"#, r#"{"choices": [{}]}"#, r#"{"choices": "x"}"#] {
        let err = ChatCompletions.parse_response(&json(reply)).unwrap_err();
        assert!(matches!(err, AgentError::Decode(m) if m == "response had no choices[0].message"));
    }
    let odd = json(r#"{"choices": {"0": {"message": null}}}"#);
    assert_eq!(ChatCompletions.parse_response(&odd).unwrap(), (Json::Null, 0));
}

#[test]
fn usage_is_read_from_either_schemas_key_names() {
    assert_eq!(total_tokens(&json(r#"{"usage": {"total_tokens": 42}}"#)), 42);
    assert_eq!(
        total_tokens(&json(r#"{"usage": {"input_tokens": 10, "output_tokens": 5}}"#)),
        15,
        "Responses names"
    );
    assert_eq!(
        total_tokens(&json(r#"{"usage": {"prompt_tokens": 7, "completion_tokens": 3}}"#)),
        10,
        "Chat Completions names"
    );
    assert_eq!(total_tokens(&json("{}")), 0, "no usage is not an error");
}

#[test]
fn usage_that_is_no_count_is_left_out() {
    assert_eq!(
        total_tokens(&json(r#"{"usage": {"total_tokens": "9", "prompt_tokens": 4, "output_tokens": -1}}"#)),
        4
    );
    assert_eq!(total_tokens(&json(r#"{"usage": {"total_tokens": 4294967298}}"#)), 2);
    assert_eq!(
        total_tokens(&json(
            r#"{"usage": {"input_tokens": 18446744073709551615, "output_tokens": 2}}"#
        )),
        1
    );
}

#[test]
fn a_parsed_responses_turn_re_encodes_to_the_same_call_id() {
    let resp = json(
        r#"{
            "output": [{"type": "function_call", "call_id": "call_abc",
                        "name": "grep", "arguments": "{}"}]
        }"#,
    );
    let (message, _) = Responses::new().parse_response(&resp).unwrap();

    let transcript = vec![
        message,
        json(r#"{"role": "tool", "tool_call_id": "call_abc", "content": "result"}"#),
    ];
    let input = Responses::to_input(&transcript);
    assert_eq!(input[0].at("call_id").as_str(), Some("call_abc"));
    assert_eq!(input[1].at("call_id").as_str(), Some("call_abc"));
    assert_eq!(input[1].at("output").as_str(), Some("result"));
}

#[test]
fn a_text_parts_array_is_folded_not_dropped() {
    let msgs = list(
        r#"[{
            "role": "user",
            "content": [{"type": "text", "text": "look at "}, {"type": "text", "text": "this"}]
        }]"#,
    );
    let input = Responses::to_input(&msgs);
    assert_eq!(input.len(), 1, "the user's question must not vanish");
    assert_eq!(input[0].at("content").as_str(), Some("look at this"));
    assert_eq!(input[0].at("role").as_str(), Some("user"));
}

#[test]
fn non_text_parts_are_passed_through_rather_than_deleted() {
    let msgs = list(
        r#"[{
            "role": "user",
            "content": [{"type": "image_url", "image_url": {"url": "http://x/y.png"}}]
        }]"#,
    );
    let input = Responses::to_input(&msgs);
    assert_eq!(input.len(), 1);
    assert!(input[0].at("content").as_array().is_some());
    assert_eq!(input[0].at("content"), msgs[0].at("content"));
}

#[test]
fn a_structured_tool_result_is_serialised_not_emptied() {
    let msgs = list(r#"[{"role": "tool", "tool_call_id": "c1", "content": {"rows": 3}}]"#);
    let input = Responses::to_input(&msgs);
    assert_eq!(input.len(), 1);
    assert_eq!(
        input[0].at("output").as_str(),
        Some(r#"{"rows":3}"#),
        "a tool result is why the turn happened; it must survive"
    );
}

#[test]
fn absent_and_empty_content_still_emit_no_item() {
    let msgs = list(
        r#"[
            {"role": "assistant", "content": null},
            {"role": "assistant", "content": ""}
        ]"#,
    );
    assert!(Responses::to_input(&msgs).is_empty());
}

#[test]
fn an_assistant_turn_with_null_content_still_emits_its_call() {
    let msgs = list(
        r#"[{
            "role": "assistant",
            "content": null,
            "tool_calls": [{"id": "c1", "type": "function",
                            "function": {"name": "grep", "arguments": "{}"}}]
        }]"#,
    );
    let input = Responses::to_input(&msgs);
    assert_eq!(input.len(), 1);
    assert_eq!(input[0].at("type").as_str(), Some("function_call"));
}

#[test]
fn chat_completions_usage_now_falls_back_to_component_counts() {
    let resp = json(
        r#"{
            "choices": [{"message": {"role": "assistant", "content": "hi"}}],
            "usage": {"prompt_tokens": 100, "completion_tokens": 50}
        }"#,
    );
    let (_, tokens) = ChatCompletions.parse_response(&resp).unwrap();
    assert_eq!(tokens, 150);

    // An explicit total still wins, so the common path is untouched.
    let resp = json(
        r#"{
            "choices": [{"message": {"role": "assistant", "content": "hi"}}],
            "usage": {"prompt_tokens": 100, "completion_tokens": 50, "total_tokens": 999}
        }"#,
    );
    let (_, tokens) = ChatCompletions.parse_response(&resp).unwrap();
    assert_eq!(tokens, 999);
}

#[test]
fn content_of_any_kind_is_kept() {
    assert_eq!(message_content(&json("{\"a\": 1}")), Some(json("{\"a\": 1}")));
    assert_eq!(message_content(&json("false")), Some(json("false")));
    assert_eq!(message_content(&json("[]")), None);
    assert_eq!(message_content(&json(r#"[{"type": "text", "text": ""}]"#)), None);
    let mixed = json(r#"[{"type": "text", "text": "a"}, {"type": "text", "text": 1}]"#);
    assert_eq!(message_content(&mixed), Some(mixed.clone()));
    assert_eq!(message_content(&json("\"x\"")), Some(json("\"x\"")));
}

#[test]
fn a_tool_result_of_any_kind_is_text() {
    assert_eq!(tool_output_text(&json("null")), "");
    assert_eq!(tool_output_text(&json("\"plain\"")), "plain");
    assert_eq!(tool_output_text(&json("[1, 2.5, -3]")), "[1,2.5,-3]");
    assert_eq!(tool_output_text(&json("true")), "true");
    assert_eq!(
        function_call_output("c", "text".into()),
        json(r#"{"type": "function_call_output", "call_id": "c", "output": "text"}"#)
    );
}

#[test]
fn tools_without_members_are_sent_with_nulls() {
    assert_eq!(
        Responses::to_tools(&[Json::Null]),
        vec![json(r#"{"type": "function", "name": null, "description": null, "parameters": null}"#)]
    );
}

#[test]
fn a_longer_transcript_only_appends_items() {
    let mut transcript = list(
        r#"[
            {"role": "user", "content": "look"},
            {"role": "assistant", "content": "sure",
             "tool_calls": [{"id": "c1", "type": "function",
                             "function": {"name": "grep", "arguments": "{}"}}]}
        ]"#,
    );
    let more = list(
        r#"[
            {"role": "tool", "tool_call_id": "c1", "content": "found"},
            {"role": "assistant", "content": null},
            {"role": "user", "content": "thanks"}
        ]"#,
    );
    let mut items = Responses::to_input(&transcript);
    let rest = Responses::to_input(&more);
    assert_eq!((items.len(), rest.len()), (3, 2));
    items.extend(rest);
    transcript.extend(more);
    assert_eq!(Responses::to_input(&transcript), items);
}
