use std::sync::{Arc, Mutex};

use rllm_graph::{
    FunctionNode, HttpTransport, JsonVal, LLMNode, RllmError, State, StateError, Tool,
    ToolRegistry,
};

fn canned(response: &str) -> HttpTransport {
    let response = response.to_string();
    HttpTransport::new(move |_endpoint, _key, _body| Ok(response.clone()))
}

#[test]
fn content_response_is_stored_verbatim() {
    let mut node = LLMNode::new("http://example.test/v1".to_string(), "token".to_string());
    node.set_model("m1".to_string());
    node.set_prompt("say hi".to_string(), Vec::new());
    node.set_transport(canned(r#"{"choices":[{"message":{"content":"hi there"}}]}"#));
    let mut state = State::new();
    assert!(node.execute(&mut state).is_ok());
    assert_eq!(state.get_llm_response(), Ok("hi there".to_string()));
}

#[test]
fn matched_tool_runs_once_and_last_entry_wins() {
    let runs = Arc::new(Mutex::new(0));
    let runs_inner = Arc::clone(&runs);
    let mut registry = ToolRegistry::new();
    registry.register(Tool::new(
        "adder".to_string(),
        FunctionNode::new(move |_state| {
            *runs_inner.lock().unwrap() += 1;
            Ok(())
        }),
    ));
    let mut node = LLMNode::new("http://example.test".to_string(), "token".to_string());
    node.set_model("m1".to_string());
    node.set_prompt("go".to_string(), Vec::new());
    node.set_tools(registry.get_tool_list(), registry.get_tools());
    node.set_transport(canned(
        r#"{"choices":[{"message":{"tool_calls":[
            {"function":{"name":"adder"}},
            {"function":{"name":"unknown"}}
        ]}}]}"#,
    ));
    let mut state = State::new();
    assert!(node.execute(&mut state).is_ok());
    assert_eq!(*runs.lock().unwrap(), 1);
    let expected_last = JsonVal::Obj(vec![(
        "function".to_string(),
        JsonVal::Obj(vec![("name".to_string(), JsonVal::Str("unknown".to_string()))]),
    )]);
    assert_eq!(state.get_llm_response_json(), Ok(expected_last));
}

#[test]
fn tool_failure_aborts_the_call() {
    let mut registry = ToolRegistry::new();
    registry.register(Tool::new(
        "bomb".to_string(),
        FunctionNode::new(|_state| Err(RllmError::Custom("tool failed".to_string()))),
    ));
    let mut node = LLMNode::new("http://example.test".to_string(), "token".to_string());
    node.set_model("m1".to_string());
    node.set_prompt("go".to_string(), Vec::new());
    node.set_tools(registry.get_tool_list(), registry.get_tools());
    node.set_transport(canned(
        r#"{"choices":[{"message":{"tool_calls":[{"function":{"name":"bomb"}}]}}]}"#,
    ));
    let mut state = State::new();
    let outcome = node.execute(&mut state);
    assert!(matches!(outcome, Err(RllmError::Custom(msg)) if msg == "tool failed"));
}

#[test]
fn missing_substitution_key_fails_lookup() {
    let mut node = LLMNode::new("http://example.test".to_string(), "token".to_string());
    node.set_model("m1".to_string());
    node.set_prompt("value: {}".to_string(), vec!["absent".to_string()]);
    node.set_transport(canned(r#"{"choices":[]}"#));
    let mut state = State::new();
    let outcome = node.execute(&mut state);
    assert!(matches!(outcome, Err(RllmError::State(StateError::NotFound))));
}

#[test]
fn non_string_substitution_key_fails_kind() {
    let mut node = LLMNode::new("http://example.test".to_string(), "token".to_string());
    node.set_model("m1".to_string());
    node.set_prompt("value: {}".to_string(), vec!["num".to_string()]);
    node.set_transport(canned(r#"{"choices":[]}"#));
    let mut state = State::new();
    state.set_rllm_number("num", 3).unwrap();
    let outcome = node.execute(&mut state);
    assert!(matches!(outcome, Err(RllmError::State(StateError::TypeMismatch))));
}

#[test]
fn missing_transport_is_reported() {
    let mut node = LLMNode::new("http://example.test".to_string(), "token".to_string());
    node.set_model("m1".to_string());
    node.set_prompt("go".to_string(), Vec::new());
    let mut state = State::new();
    assert!(matches!(node.execute(&mut state), Err(RllmError::NoTransport)));
}

#[test]
fn transport_failure_is_reported() {
    let mut node = LLMNode::new("http://example.test".to_string(), "token".to_string());
    node.set_model("m1".to_string());
    node.set_prompt("go".to_string(), Vec::new());
    node.set_transport(HttpTransport::new(|_e, _k, _b| Err("connection refused".to_string())));
    let mut state = State::new();
    let outcome = node.execute(&mut state);
    assert!(matches!(outcome, Err(RllmError::Transport(msg)) if msg == "connection refused"));
}

#[test]
fn unparsable_response_is_reported() {
    let mut node = LLMNode::new("http://example.test".to_string(), "token".to_string());
    node.set_model("m1".to_string());
    node.set_prompt("go".to_string(), Vec::new());
    node.set_transport(canned("this is not json"));
    let mut state = State::new();
    assert!(matches!(node.execute(&mut state), Err(RllmError::MalformedResponse)));
}

#[test]
fn request_carries_substituted_prompt_and_model() {
    let captured = Arc::new(Mutex::new((String::new(), String::new(), String::new())));
    let captured_inner = Arc::clone(&captured);
    let transport = HttpTransport::new(move |endpoint: &str, key: &str, body: &str| {
        *captured_inner.lock().unwrap() =
            (endpoint.to_string(), key.to_string(), body.to_string());
        Ok(r#"{"choices":[{"message":{"content":"ok"}}]}"#.to_string())
    });
    let mut node = LLMNode::new("http://example.test/v1".to_string(), "Bearer tk".to_string());
    node.set_model("m1".to_string());
    node.set_prompt("Hello {}!".to_string(), vec!["name".to_string()]);
    node.set_transport(transport);
    let mut state = State::new();
    state.set_rllm_string("name", "World".to_string()).unwrap();
    assert!(node.execute(&mut state).is_ok());
    let (endpoint, key, body) = captured.lock().unwrap().clone();
    assert_eq!(endpoint, "http://example.test/v1");
    assert_eq!(key, "Bearer tk");
    assert_eq!(
        body,
        r#"{"messages":[{"content":"Hello World!","role":"user"}],"model":"m1"}"#
    );
}

#[test]
fn request_includes_tools_only_when_configured() {
    let captured = Arc::new(Mutex::new(String::new()));
    let captured_inner = Arc::clone(&captured);
    let transport = HttpTransport::new(move |_e: &str, _k: &str, body: &str| {
        *captured_inner.lock().unwrap() = body.to_string();
        Ok(r#"{"choices":[{"message":{"content":"ok"}}]}"#.to_string())
    });
    let mut registry = ToolRegistry::new();
    registry.register(
        Tool::new("t1".to_string(), FunctionNode::new(|_s| Ok(()))).add_tool_details(
            JsonVal::Obj(vec![("name".to_string(), JsonVal::Str("t1".to_string()))]),
        ),
    );
    let mut node = LLMNode::new("http://example.test".to_string(), "token".to_string());
    node.set_model("m1".to_string());
    node.set_prompt("go".to_string(), Vec::new());
    node.set_tools(registry.get_tool_list(), registry.get_tools());
    node.set_transport(transport);
    let mut state = State::new();
    assert!(node.execute(&mut state).is_ok());
    let body = captured.lock().unwrap().clone();
    assert_eq!(
        body,
        r#"{"messages":[{"content":"go","role":"user"}],"model":"m1","tools":[{"name":"t1"}]}"#
    );
}

#[test]
fn empty_tool_call_array_changes_nothing() {
    let mut node = LLMNode::new("http://example.test".to_string(), "token".to_string());
    node.set_model("m1".to_string());
    node.set_prompt("go".to_string(), Vec::new());
    node.set_transport(canned(r#"{"choices":[{"message":{"tool_calls":[]}}]}"#));
    let mut state = State::new();
    assert!(node.execute(&mut state).is_ok());
    assert_eq!(state.get_llm_response_json(), Err(StateError::NotFound));
}

#[test]
fn unknown_tools_only_still_record_last_entry() {
    let mut node = LLMNode::new("http://example.test".to_string(), "token".to_string());
    node.set_model("m1".to_string());
    node.set_prompt("go".to_string(), Vec::new());
    node.set_transport(canned(
        r#"{"choices":[{"message":{"tool_calls":[
            {"function":{"name":"nope"}},
            {"id":7}
        ]}}]}"#,
    ));
    let mut state = State::new();
    assert!(node.execute(&mut state).is_ok());
    let expected = JsonVal::Obj(vec![("id".to_string(), JsonVal::Int(7))]);
    assert_eq!(state.get_llm_response_json(), Ok(expected));
}

#[test]
fn registry_keeps_descriptors_in_order_and_last_tool_wins() {
    let first_runs = Arc::new(Mutex::new(0));
    let second_runs = Arc::new(Mutex::new(0));
    let first_inner = Arc::clone(&first_runs);
    let second_inner = Arc::clone(&second_runs);
    let mut registry = ToolRegistry::new();
    registry.register(
        Tool::new(
            "dup".to_string(),
            FunctionNode::new(move |_s| {
                *first_inner.lock().unwrap() += 1;
                Ok(())
            }),
        )
        .add_tool_details(JsonVal::Int(1)),
    );
    registry.register(
        Tool::new(
            "dup".to_string(),
            FunctionNode::new(move |_s| {
                *second_inner.lock().unwrap() += 1;
                Ok(())
            }),
        )
        .add_tool_details(JsonVal::Int(2)),
    );
    assert_eq!(registry.get_tool_list(), vec![JsonVal::Int(1), JsonVal::Int(2)]);
    let mut node = LLMNode::new("http://example.test".to_string(), "token".to_string());
    node.set_model("m1".to_string());
    node.set_prompt("go".to_string(), Vec::new());
    node.set_tools(registry.get_tool_list(), registry.get_tools());
    node.set_transport(canned(
        r#"{"choices":[{"message":{"tool_calls":[{"function":{"name":"dup"}}]}}]}"#,
    ));
    let mut state = State::new();
    assert!(node.execute(&mut state).is_ok());
    assert_eq!(*first_runs.lock().unwrap(), 0);
    assert_eq!(*second_runs.lock().unwrap(), 1);
}

#[test]
fn message_without_content_records_null() {
    let mut node = LLMNode::new("http://example.test".to_string(), "token".to_string());
    node.set_model("m1".to_string());
    node.set_prompt("go".to_string(), Vec::new());
    node.set_transport(canned(r#"{"choices":[{"message":{}}]}"#));
    let mut state = State::new();
    assert!(node.execute(&mut state).is_ok());
    assert_eq!(state.get_llm_response_json(), Ok(JsonVal::Null));
    assert_eq!(state.get_llm_response(), Err(StateError::TypeMismatch));
}

#[test]
fn placeholders_fill_in_key_order() {
    let captured = Arc::new(Mutex::new(String::new()));
    let captured_inner = Arc::clone(&captured);
    let transport = HttpTransport::new(move |_e: &str, _k: &str, body: &str| {
        *captured_inner.lock().unwrap() = body.to_string();
        Ok(r#"{"choices":[{"message":{"content":"ok"}}]}"#.to_string())
    });
    let mut node = LLMNode::new("http://example.test".to_string(), "token".to_string());
    node.set_model("m1".to_string());
    node.set_prompt(
        "A={} B={}".to_string(),
        vec!["first".to_string(), "second".to_string()],
    );
    node.set_transport(transport);
    let mut state = State::new();
    state.set_rllm_string("first", "1".to_string()).unwrap();
    state.set_rllm_string("second", "2".to_string()).unwrap();
    assert!(node.execute(&mut state).is_ok());
    let body = captured.lock().unwrap().clone();
    assert_eq!(body, r#"{"messages":[{"content":"A=1 B=2","role":"user"}],"model":"m1"}"#);
}
