use chatgpt::codec::{message_from_json, message_to_json, chunk_from_json, response_from_json,
    request_body};
use chatgpt::json::{parse_json, render_json, Json, JsonNum};
use chatgpt::types::{CompletionOptions, Message};

fn chars(s: &str) -> Vec<char> {
    s.chars().collect()
}

fn text(j: &Json) -> String {
    render_json(j).into_iter().collect()
}

fn msg(content: Option<&str>, role: &str, function_call: Option<&str>) -> Message {
    Message {
        content: content.map(|s| s.to_owned()),
        role: role.to_owned(),
        function_call: function_call.map(|s| s.to_owned()),
    }
}

#[test]
fn message_encoding_is_exact() {
    let m = msg(Some("hi"), "user", None);
    assert_eq!(text(&message_to_json(&m)), "{\"content\":\"hi\",\"role\":\"user\"}");
    let m2 = msg(None, "assistant", Some("f"));
    assert_eq!(
        text(&message_to_json(&m2)),
        "{\"role\":\"assistant\",\"function_call\":\"f\"}"
    );
}

#[test]
fn message_round_trips_for_every_field_combination() {
    let cases = vec![
        msg(Some("a"), "user", Some("f")),
        msg(Some("a"), "user", None),
        msg(None, "assistant", Some("f")),
        msg(None, "assistant", None),
    ];
    for m in cases {
        let encoded = message_to_json(&m);
        let t = text(&encoded);
        let parsed = parse_json(&chars(&t)).expect("encoded message must parse");
        assert_eq!(message_from_json(&parsed), Some(m));
    }
}

#[test]
fn message_decoding_ignores_unknown_fields_and_reads_null_as_absent() {
    let t = "{\"role\":\"user\",\"content\":null,\"extra\":[1,2]}";
    let parsed = parse_json(&chars(t)).unwrap();
    assert_eq!(message_from_json(&parsed), Some(msg(None, "user", None)));
    let bad = "{\"content\":\"x\"}";
    let parsed = parse_json(&chars(bad)).unwrap();
    assert_eq!(message_from_json(&parsed), None);
}

#[test]
fn body_holds_exactly_the_set_fields() {
    let messages = vec![msg(Some("q"), "user", None)];
    let mut options = CompletionOptions::default();
    options.temperature = Some(JsonNum { neg: false, mantissa: 7, scale: 1 });
    options.max_tokens = Some(128);
    let body = request_body(&messages, options, false);
    assert_eq!(
        text(&body),
        "{\"model\":\"gpt-3.5-turbo\",\"temperature\":0.7,\"max_tokens\":128,\
         \"messages\":[{\"content\":\"q\",\"role\":\"user\"}]}"
    );
}

#[test]
fn streaming_body_forces_stream_true_and_its_own_default_model() {
    let messages = vec![msg(Some("q"), "user", None)];
    let options = CompletionOptions::default();
    let body = request_body(&messages, options, true);
    assert_eq!(
        text(&body),
        "{\"model\":\"gpt-4\",\"stream\":true,\
         \"messages\":[{\"content\":\"q\",\"role\":\"user\"}]}"
    );
}

#[test]
fn body_keeps_a_chosen_model_and_stream_flag() {
    let messages = vec![msg(Some("q"), "user", None)];
    let mut options = CompletionOptions::default();
    options.model = Some("gpt-4-turbo".to_owned());
    options.stream = Some(false);
    options.user = Some(-3);
    let body = request_body(&messages, options, false);
    assert_eq!(
        text(&body),
        "{\"model\":\"gpt-4-turbo\",\"stream\":false,\"user\":-3,\
         \"messages\":[{\"content\":\"q\",\"role\":\"user\"}]}"
    );
}

#[test]
fn chunk_decoding_reads_the_delta() {
    let t = "{\"id\":\"c1\",\"created\":5,\"model\":\"m\",\
             \"choices\":[{\"delta\":{\"content\":\"He\"},\"index\":0}],\"extra\":0}";
    let parsed = parse_json(&chars(t)).unwrap();
    let chunk = chunk_from_json(&parsed).expect("chunk must decode");
    assert_eq!(chunk.id, "c1");
    assert_eq!(chunk.created, 5);
    assert_eq!(chunk.model, "m");
    assert_eq!(chunk.choices.len(), 1);
    assert_eq!(chunk.choices[0].index, 0);
    assert_eq!(chunk.choices[0].delta.content.as_deref(), Some("He"));
    assert_eq!(chunk.choices[0].delta.role, None);
}

#[test]
fn chunk_decoding_fails_without_required_fields() {
    let t = "{\"id\":\"c1\",\"model\":\"m\",\"choices\":[]}";
    let parsed = parse_json(&chars(t)).unwrap();
    assert_eq!(chunk_from_json(&parsed), None);
    let t2 = "{\"id\":\"c1\",\"created\":-1,\"model\":\"m\",\"choices\":[]}";
    let parsed2 = parse_json(&chars(t2)).unwrap();
    assert_eq!(chunk_from_json(&parsed2), None);
}

#[test]
fn response_decoding_reads_every_field() {
    let t = "{\"id\":\"r\",\"object\":\"chat.completion\",\"created\":1677652288,\
             \"choices\":[{\"index\":0,\"message\":{\"role\":\"assistant\",\"content\":\"Hello\"},\
             \"finish_reason\":\"stop\"}],\
             \"usage\":{\"prompt_tokens\":9,\"completion_tokens\":12,\"total_tokens\":21}}";
    let parsed = parse_json(&chars(t)).unwrap();
    let resp = response_from_json(&parsed).expect("response must decode");
    assert_eq!(resp.id, "r");
    assert_eq!(resp.object, "chat.completion");
    assert_eq!(resp.created, 1677652288);
    assert_eq!(resp.choices.len(), 1);
    assert_eq!(resp.choices[0].index, 0);
    assert_eq!(resp.choices[0].message.content.as_deref(), Some("Hello"));
    assert_eq!(resp.usage.prompt_tokens, 9);
    assert_eq!(resp.usage.completion_tokens, 12);
    assert_eq!(resp.usage.total_tokens, 21);
}
