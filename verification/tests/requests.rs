use chatstream::request::{model_targets_code_api, ChatRequest, RequestMessage};

#[test]
fn codestral_models_route_to_the_code_api() {
    assert!(model_targets_code_api("codestral-latest"));
    assert!(model_targets_code_api("my-codestral"));
    assert!(!model_targets_code_api("mistral-large-latest"));
    assert!(!model_targets_code_api(""));
    assert!(!model_targets_code_api("codestra"));
}

#[test]
fn a_request_keeps_what_it_was_given() {
    let messages = vec![RequestMessage::new("user".to_string(), "Test".to_string())];
    let request = ChatRequest::new("mistral-large-latest".to_string(), messages, false, Some(1));
    assert_eq!(request.model, "mistral-large-latest");
    assert_eq!(request.messages.len(), 1);
    assert_eq!(request.messages[0].role, "user");
    assert_eq!(request.messages[0].content, "Test");
    assert!(!request.stream);
    assert_eq!(request.max_tokens, Some(1));
}

#[test]
fn a_streaming_request_may_leave_the_token_bound_absent() {
    let messages = vec![RequestMessage::new("user".to_string(), "hi".to_string())];
    let request = ChatRequest::new("codestral-latest".to_string(), messages, true, None);
    assert!(request.stream);
    assert_eq!(request.max_tokens, None);
}
