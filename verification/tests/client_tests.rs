use chatgpt::client::{parse_full_response, ChatGPT, ClientOptions};
use chatgpt::err::Error;
use chatgpt::types::{ConversationChoice, ConversationResponse, Message, Usage};

fn msg(content: Option<&str>, role: &str) -> Message {
    Message { content: content.map(|s| s.to_owned()), role: role.to_owned(), function_call: None }
}

fn response_with_choices(choices: Vec<ConversationChoice>) -> ConversationResponse {
    ConversationResponse {
        id: "r".to_owned(),
        object: "chat.completion".to_owned(),
        created: 0,
        choices,
        usage: Usage { prompt_tokens: 0, completion_tokens: 0, total_tokens: 0 },
    }
}

#[test]
fn client_keeps_its_token_and_url() {
    let client = ChatGPT::new("sk-test".to_owned()).unwrap();
    assert_eq!(client.api_key, "sk-test");
    assert_eq!(
        client.options.backend_api_url,
        "https://api.openai.com/v1/chat/completions"
    );
    assert_eq!(client.auth_header(), "Bearer sk-test");
    let moved = ClientOptions::default().with_backend_api_url("https://example.test/v1".to_owned());
    let client2 = ChatGPT::with_options("k".to_owned(), moved).unwrap();
    assert_eq!(client2.options.backend_api_url, "https://example.test/v1");
}

#[test]
fn request_texts_differ_only_in_streaming() {
    let client = ChatGPT::new("sk".to_owned()).unwrap();
    let messages = vec![msg(Some("hi"), "user")];
    let full = client.full_request_text(&messages, Default::default());
    let streaming = client.streaming_request_text(&messages, Default::default());
    assert!(full.contains("\"model\":\"gpt-3.5-turbo\""));
    assert!(!full.contains("\"stream\""));
    assert!(streaming.contains("\"model\":\"gpt-4\""));
    assert!(streaming.contains("\"stream\":true"));
}

#[test]
fn full_response_parses() {
    let t = "{\"id\":\"r\",\"object\":\"o\",\"created\":2,\
             \"choices\":[{\"index\":0,\"message\":{\"role\":\"assistant\",\"content\":\"ok\"}}],\
             \"usage\":{\"prompt_tokens\":1,\"completion_tokens\":1,\"total_tokens\":2}}";
    let resp = parse_full_response(t).expect("must parse");
    assert_eq!(resp.id, "r");
    assert_eq!(resp.choices[0].message.content.as_deref(), Some("ok"));
}

#[test]
fn mismatched_json_reports_api_error_with_raw_text() {
    let raw = "{\"kind\": \"error\", \"detail\": [1, 2, 3]}";
    match parse_full_response(raw) {
        Err(Error::ApiError(got, _detail)) => assert_eq!(got, raw),
        other => panic!("expected an ApiError, got {:?}", other),
    }
}

#[test]
fn invalid_json_reports_api_error_with_raw_text() {
    let raw = "halt and catch fire";
    match parse_full_response(raw) {
        Err(Error::ApiError(got, _detail)) => assert_eq!(got, raw),
        other => panic!("expected an ApiError, got {:?}", other),
    }
}

#[test]
fn first_content_reads_the_first_choice() {
    let resp = response_with_choices(vec![
        ConversationChoice { index: 0, message: msg(Some("first"), "assistant") },
        ConversationChoice { index: 1, message: msg(Some("second"), "assistant") },
    ]);
    assert_eq!(resp.first_content().unwrap(), "first");
}

#[test]
fn first_content_substitutes_empty_for_absent_content() {
    let resp = response_with_choices(vec![ConversationChoice {
        index: 0,
        message: msg(None, "assistant"),
    }]);
    assert_eq!(resp.first_content().unwrap(), "");
}

#[test]
fn empty_choices_give_a_recoverable_error() {
    let resp = response_with_choices(vec![]);
    match resp.first_content() {
        Err(Error::EmptyChoices) => {},
        other => panic!("expected EmptyChoices, got {:?}", other),
    }
}
