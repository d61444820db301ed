use agent_loop_core::tools::{parse_tool_args_of, sanitize_schema};
use agent_loop_core::{ErasedTool, Json, ToolError, ToolOutput, ToolRegistry};

type Handle = fn(&Json) -> Result<ToolOutput, ToolError>;

fn json(text: &str) -> Json {
    Json::parse(text).unwrap()
}

fn invalid(tool: &str, reason: &str) -> ToolError {
    ToolError::InvalidArguments {
        tool: tool.into(),
        reason: reason.into(),
    }
}

fn run_grep(args: &Json) -> Result<ToolOutput, ToolError> {
    let pattern = match args.get("pattern") {
        None => return Err(invalid("grep", "missing field `pattern`")),
        Some(v) => v.as_str().ok_or_else(|| invalid("grep", "pattern: expected a string"))?,
    };
    let limit = args.at("limit").as_u64();
    Ok(ToolOutput::ok(format!("grep {pattern} limit={limit:?}")))
}

fn run_lenient(args: &Json) -> Result<ToolOutput, ToolError> {
    let pattern = match args.get("pattern") {
        None => "",
        Some(v) => v.as_str().ok_or_else(|| invalid("lenient", "expected a string"))?,
    };
    Ok(ToolOutput::ok(format!("lenient pattern={pattern:?}")))
}

fn run_ping(args: &Json) -> Result<ToolOutput, ToolError> {
    match args {
        Json::Object(_) => Ok(ToolOutput::ok("pong")),
        _ => Err(invalid("ping", "expected an object")),
    }
}

fn run_boom(_: &Json) -> Result<ToolOutput, ToolError> {
    Err(ToolError::Execution {
        tool: "boom".into(),
        reason: "exploded".into(),
    })
}

fn no_args() -> Option<Json> {
    Some(json(
        r#"{"$schema": "https://json-schema.org/draft/2020-12/schema", "title": "NoArgs",
            "type": "object", "properties": {}}"#,
    ))
}

fn grep() -> ErasedTool<Handle> {
    let schema = json(
        r#"{"$schema": "https://json-schema.org/draft/2020-12/schema", "title": "GrepArgs",
            "type": "object",
            "properties": {"pattern": {"type": "string"}, "limit": {"type": ["integer", "null"]}},
            "required": ["pattern"]}"#,
    );
    ErasedTool::derived("grep", "Regex search across the repository.", Some(schema), run_grep)
}

fn ping() -> ErasedTool<Handle> {
    ErasedTool::derived("ping", "Returns pong.", no_args(), run_ping)
}

fn registry() -> ToolRegistry<Handle> {
    ToolRegistry::new()
        .with(grep())
        .with(ping())
        .with(ErasedTool::derived("boom", "Always fails.", no_args(), run_boom))
        .with(ErasedTool::derived(
            "lenient",
            "Search; pattern defaults to empty.",
            Some(json(r#"{"type": "object", "properties": {"pattern": {"type": "string"}}}"#)),
            run_lenient,
        ))
}

fn call(r: &ToolRegistry<Handle>, name: &str, raw: Json) -> Result<ToolOutput, ToolError> {
    let (handle, args) = r.call(name, raw)?;
    handle(&args)
}

fn call_raw_args(r: &ToolRegistry<Handle>, name: &str, raw: &str) -> Result<ToolOutput, ToolError> {
    let (handle, args) = r.call_raw_args(name, raw)?;
    handle(&args)
}

#[test]
fn malformed_arguments_are_an_error_not_a_silent_empty_object() {
    let err = call_raw_args(&registry(), "grep", "{not json").unwrap_err();
    match err {
        ToolError::InvalidArguments { tool, .. } => assert_eq!(tool, "grep"),
        other => panic!("expected InvalidArguments, got {other:?}"),
    }
}

#[test]
fn bad_arguments_never_fall_back_to_defaults() {
    let err = call(&registry(), "lenient", json(r#"{"pattern": 42}"#)).unwrap_err();
    assert!(
        matches!(err, ToolError::InvalidArguments { .. }),
        "must not silently become pattern=\"\"; got {err:?}"
    );
    let out = call(&registry(), "lenient", json("{}")).unwrap();
    assert_eq!(out.content, r#"lenient pattern="""#);
}

#[test]
fn arguments_missing_a_required_field_are_rejected() {
    let err = call(&registry(), "grep", json(r#"{"limit": 5}"#)).unwrap_err();
    assert!(matches!(err, ToolError::InvalidArguments { .. }), "got {err:?}");
    let text = err.to_string();
    assert!(text.contains("pattern"), "names the field: {text}");
}

#[test]
fn arguments_of_the_wrong_type_are_rejected() {
    let err = call(&registry(), "grep", json(r#"{"pattern": 42}"#)).unwrap_err();
    assert!(matches!(err, ToolError::InvalidArguments { .. }));
}

#[test]
fn an_unknown_tool_is_a_distinct_error() {
    let err = call(&registry(), "nope", json("{}")).unwrap_err();
    assert!(matches!(err, ToolError::NotFound(n) if n == "nope"));
}

#[test]
fn unreadable_arguments_of_an_unknown_tool_are_invalid_arguments() {
    let err = call_raw_args(&registry(), "nope", "{").unwrap_err();
    assert!(matches!(err, ToolError::InvalidArguments { tool, .. } if tool == "nope"));
    let err = call_raw_args(&registry(), "nope", "{}").unwrap_err();
    assert_eq!(err.to_string(), "unknown tool `nope`");
}

#[test]
fn every_advertised_tool_is_dispatchable_by_construction() {
    let r = registry();
    for def in r.definitions() {
        let name = def.at("function").at("name").as_str().unwrap();
        assert!(
            r.contains(name),
            "{name} is advertised but not registered — impossible by design"
        );
        assert!(r.call(name, Json::Null).is_ok());
    }
    assert_eq!(r.names(), vec!["boom", "grep", "lenient", "ping"]);
}

#[test]
fn the_schema_is_derived_from_the_args_type() {
    let defs = registry().definitions();
    let grep = defs
        .iter()
        .find(|d| d.at("function").at("name").as_str() == Some("grep"))
        .unwrap();
    let params = grep.at("function").at("parameters");

    assert_eq!(params.at("type").as_str(), Some("object"));
    assert!(matches!(params.at("properties").at("pattern"), Json::Object(_)));
    assert!(matches!(params.at("properties").at("limit"), Json::Object(_)));
    let required: Vec<_> = params
        .at("required")
        .as_array()
        .unwrap()
        .iter()
        .map(|v| v.as_str().unwrap())
        .collect();
    assert_eq!(required, vec!["pattern"]);
    assert_eq!(
        grep.at("function").at("description").as_str(),
        Some("Regex search across the repository.")
    );
}

#[test]
fn schema_metadata_providers_reject_is_stripped() {
    let defs = registry().definitions();
    let params = defs[0].at("function").at("parameters");
    assert!(params.get("$schema").is_none());
    assert!(params.get("title").is_none());
    assert_eq!(params, &json(r#"{"type": "object", "properties": {}}"#));
    assert_eq!(sanitize_schema(Json::Bool(true)), Json::Bool(true));
}

#[test]
fn a_type_without_a_schema_takes_an_object() {
    let tool: ErasedTool<Handle> = ErasedTool::derived("ping", "Returns pong.", None, run_ping);
    assert_eq!(tool.schema, json(r#"{"type": "object", "properties": {}}"#));
}

#[test]
fn a_definition_is_a_function_of_the_tool() {
    assert_eq!(
        ping().definition(),
        json(
            r#"{"type": "function", "function": {"name": "ping", "description": "Returns pong.",
                "parameters": {"type": "object", "properties": {}}}}"#
        )
    );
}

#[test]
fn a_valid_call_reaches_the_typed_tool() {
    let out = call(&registry(), "grep", json(r#"{"pattern": "fn main", "limit": 5}"#)).unwrap();
    assert_eq!(out, ToolOutput::ok("grep fn main limit=Some(5)"));
}

#[test]
fn optional_fields_may_be_omitted() {
    let out = call(&registry(), "grep", json(r#"{"pattern": "x"}"#)).unwrap();
    assert_eq!(out.content, "grep x limit=None");
}

#[test]
fn zero_argument_tools_accept_empty_null_and_absent_arguments() {
    let r = registry();
    for raw in ["", "{}", "null", " \n\t"] {
        let out = call_raw_args(&r, "ping", raw).unwrap();
        assert_eq!(out.content, "pong", "failed for {raw:?}");
    }
}

#[test]
fn execution_failures_are_distinguishable_from_bad_arguments() {
    let err = call(&registry(), "boom", json("{}")).unwrap_err();
    assert!(matches!(err, ToolError::Execution { .. }), "got {err:?}");
    assert!(err.to_tool_output().is_error);
    assert_eq!(err.to_tool_output(), ToolOutput::error("`boom` failed: exploded"));
    assert_eq!(err.clone().to_string(), err.to_string());
}

#[test]
fn scoping_exposes_a_subset_and_surfaces_typos() {
    let r = registry();
    let (defs, missing) = r.definitions_for(&["grep", "ping"]);
    assert_eq!(defs.len(), 2);
    assert!(missing.is_empty());

    let (defs, missing) = r.definitions_for(&["grep", "grpe"]);
    assert_eq!(defs.len(), 1);
    assert_eq!(missing, vec!["grpe"]);
}

#[test]
fn a_scope_keeps_its_order_and_drops_no_name() {
    let (defs, missing) = registry().definitions_for(&["x", "ping", "y", "boom", "ping"]);
    let names: Vec<_> = defs.iter().map(|d| d.at("function").at("name").as_str().unwrap()).collect();
    assert_eq!(names, vec!["ping", "boom", "ping"]);
    assert_eq!(missing, vec!["x", "y"]);
}

#[test]
fn registering_the_same_name_twice_replaces_rather_than_duplicates() {
    let r = ToolRegistry::new().with(ping()).with(ping());
    assert_eq!(r.len(), 1);
    assert_eq!(r.definitions().len(), 1);

    let mut r = r;
    r.register(ErasedTool::derived("ping", "Other.", None, run_boom as Handle));
    assert_eq!(r.len(), 1);
    assert_eq!(r.get("ping").unwrap().description, "Other.");
}

#[test]
fn definitions_are_deterministic() {
    assert_eq!(registry().definitions(), registry().definitions());
    let turned = ToolRegistry::new().with(ping()).with(grep());
    let straight = ToolRegistry::new().with(grep()).with(ping());
    assert_eq!(turned.definitions(), straight.definitions());
    assert_eq!(turned.clone().names(), vec!["grep", "ping"]);
}

#[test]
fn an_empty_registry_has_no_tools() {
    let r: ToolRegistry<Handle> = ToolRegistry::default();
    assert!(r.is_empty());
    assert_eq!(r.len(), 0);
    assert!(r.definitions().is_empty());
    assert!(!r.contains("grep"));
    assert!(!registry().is_empty());
}

#[test]
fn names_are_ordered_by_their_characters() {
    let named = |name: &'static str| ErasedTool::derived(name, "", None, run_ping as Handle);
    let r = ToolRegistry::new()
        .with(named("é"))
        .with(named("b"))
        .with(named("ab"))
        .with(named("Z"))
        .with(named(""))
        .with(named("a"));
    let mut sorted = vec!["é", "b", "ab", "Z", "", "a"];
    sorted.sort_unstable();
    assert_eq!(r.names(), sorted);
}

#[test]
fn the_reason_is_told_when_arguments_cannot_be_read() {
    let text = call_raw_args(&registry(), "grep", "[1, 2").unwrap_err().to_string();
    let reason = serde_json::from_str::<serde_json::Value>("[1, 2").unwrap_err().to_string();
    assert_eq!(text, format!("invalid arguments for `grep`: {reason}"));
    let err = parse_tool_args_of("t", "x", Err("why".into())).unwrap_err();
    assert!(matches!(err, ToolError::InvalidArguments { tool, reason } if tool == "t" && reason == "why"));
    assert_eq!(parse_tool_args_of("t", " ", Err("why".into())).unwrap(), json("{}"));
    assert_eq!(parse_tool_args_of("t", "1", Ok(json("1"))).unwrap(), json("1"));
}
