use rllm_graph::{JsonVal, State, StateBuilder, StateError};

#[test]
fn set_get_string_round_trip() {
    let mut state = State::new();
    assert_eq!(state.set_rllm_string("greeting", "hello".to_string()), Ok(()));
    assert_eq!(state.get_rllm_string("greeting"), Ok("hello".to_string()));
}

#[test]
fn set_get_number_round_trip() {
    let mut state = State::new();
    assert_eq!(state.set_rllm_number("answer", 42), Ok(()));
    assert_eq!(state.get_rllm_number("answer"), Ok(42));
}

#[test]
fn set_get_bool_round_trip() {
    let mut state = State::new();
    assert_eq!(state.set_rllm_bool("flag", true), Ok(()));
    assert_eq!(state.get_rllm_bool("flag"), Ok(true));
}

#[test]
fn set_get_json_round_trip() {
    let mut state = State::new();
    let value = JsonVal::Obj(vec![
        ("inner".to_string(), JsonVal::Arr(vec![JsonVal::Int(1), JsonVal::Null])),
        ("flag".to_string(), JsonVal::Bool(false)),
    ]);
    let copy = JsonVal::Obj(vec![
        ("inner".to_string(), JsonVal::Arr(vec![JsonVal::Int(1), JsonVal::Null])),
        ("flag".to_string(), JsonVal::Bool(false)),
    ]);
    assert_eq!(state.set_rllm_json("tree", value), Ok(()));
    assert_eq!(state.get_rllm_json("tree"), Ok(copy));
}

#[test]
fn setters_reject_reserved_key() {
    let mut state = State::new();
    assert_eq!(
        state.set_rllm_string("rllm_response", "x".to_string()),
        Err(StateError::RestrictedKey)
    );
    assert_eq!(state.set_rllm_number("rllm_response", 1), Err(StateError::RestrictedKey));
    assert_eq!(state.set_rllm_bool("rllm_response", true), Err(StateError::RestrictedKey));
    assert_eq!(
        state.set_rllm_json("rllm_response", JsonVal::Null),
        Err(StateError::RestrictedKey)
    );
    assert_eq!(state.get_llm_response(), Err(StateError::NotFound));
}

#[test]
fn get_absent_key_reports_not_found() {
    let state = State::new();
    assert_eq!(state.get_rllm_string("missing"), Err(StateError::NotFound));
    assert_eq!(state.get_rllm_number("missing"), Err(StateError::NotFound));
    assert_eq!(state.get_rllm_bool("missing"), Err(StateError::NotFound));
    assert_eq!(state.get_rllm_json("missing"), Err(StateError::NotFound));
    assert_eq!(state.get_llm_response(), Err(StateError::NotFound));
    assert_eq!(state.get_llm_response_json(), Err(StateError::NotFound));
}

#[test]
fn get_wrong_kind_reports_type_mismatch() {
    let mut state = State::new();
    state.set_rllm_string("text", "abc".to_string()).unwrap();
    state.set_rllm_number("num", 5).unwrap();
    assert_eq!(state.get_rllm_number("text"), Err(StateError::TypeMismatch));
    assert_eq!(state.get_rllm_bool("text"), Err(StateError::TypeMismatch));
    assert_eq!(state.get_rllm_string("num"), Err(StateError::TypeMismatch));
    assert_eq!(state.get_rllm_bool("num"), Err(StateError::TypeMismatch));
    assert_eq!(state.get_rllm_json("num"), Ok(JsonVal::Int(5)));
}

#[test]
fn inexact_number_is_not_an_integer() {
    let mut state = State::new();
    state.set_rllm_json("big", JsonVal::InexactNum).unwrap();
    assert_eq!(state.get_rllm_number("big"), Err(StateError::TypeMismatch));
}

#[test]
fn later_set_shadows_earlier() {
    let mut state = State::new();
    state.set_rllm_number("k", 1).unwrap();
    state.set_rllm_number("k", 2).unwrap();
    assert_eq!(state.get_rllm_number("k"), Ok(2));
    state.set_rllm_string("k", "now a string".to_string()).unwrap();
    assert_eq!(state.get_rllm_number("k"), Err(StateError::TypeMismatch));
    assert_eq!(state.get_rllm_string("k"), Ok("now a string".to_string()));
}

#[test]
fn state_builder_hands_out_empty_state() {
    let builder = StateBuilder::new();
    let state = builder.state();
    assert_eq!(state.get_rllm_string("anything"), Err(StateError::NotFound));
}

#[test]
fn error_messages() {
    assert_eq!(StateError::NotFound.message(), "No Entry Found");
    assert_eq!(StateError::TypeMismatch.message(), "Wrong Kind");
    assert_eq!(StateError::RestrictedKey.message(), "Restricted key");
}

#[test]
fn empty_key_is_an_ordinary_key() {
    let mut state = State::new();
    assert_eq!(state.set_rllm_bool("", false), Ok(()));
    assert_eq!(state.get_rllm_bool(""), Ok(false));
}
