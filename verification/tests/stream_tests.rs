use chatgpt::err::Error;
use chatgpt::sse::SseDecoder;
use chatgpt::stream::{decode_frame, StreamDecoder};
use chatgpt::types::ResponsePart;

fn chars(s: &str) -> Vec<char> {
    s.chars().collect()
}

fn string_of(v: &[char]) -> String {
    v.iter().collect()
}

fn chunk_frame(id: &str, content: &str) -> String {
    format!(
        "{{\"id\":\"{}\",\"created\":1,\"model\":\"m\",\
         \"choices\":[{{\"delta\":{{\"content\":\"{}\"}},\"index\":0}}]}}",
        id, content
    )
}

fn first_delta_content(part: &ResponsePart) -> String {
    match part {
        ResponsePart::Chunk(c) => c.choices[0].delta.content.clone().unwrap_or_default(),
        ResponsePart::Done => panic!("expected a chunk"),
    }
}

#[test]
fn sse_decoder_splits_events() {
    let mut d = SseDecoder::new();
    let evs = d.push_chars(&chars("data: one\n\ndata: two\n\n"));
    assert_eq!(evs.len(), 2);
    assert_eq!(string_of(&evs[0]), "one");
    assert_eq!(string_of(&evs[1]), "two");
}

#[test]
fn sse_decoder_joins_data_lines_and_skips_comments() {
    let mut d = SseDecoder::new();
    let evs = d.push_chars(&chars(": comment\ndata: a\ndata:b\nevent: x\n\n"));
    assert_eq!(evs.len(), 1);
    assert_eq!(string_of(&evs[0]), "a\nb");
}

#[test]
fn sse_decoder_handles_crlf_split_across_pushes() {
    let mut d = SseDecoder::new();
    assert_eq!(d.push_chars(&chars("data: he")).len(), 0);
    assert_eq!(d.push_chars(&chars("llo\r")).len(), 0);
    let evs = d.push_chars(&chars("\n\r\n"));
    assert_eq!(evs.len(), 1);
    assert_eq!(string_of(&evs[0]), "hello");
}

#[test]
fn sse_decoder_ignores_blank_lines_without_data() {
    let mut d = SseDecoder::new();
    let evs = d.push_chars(&chars("\n\nevent: tick\n\n: hi\n\n"));
    assert_eq!(evs.len(), 0);
}

#[test]
fn frame_decoding_recognizes_the_sentinel_and_chunks() {
    assert_eq!(decode_frame(&chars("[DONE]")), Ok(ResponsePart::Done));
    let part = decode_frame(&chars(&chunk_frame("c", "hi"))).unwrap();
    assert_eq!(first_delta_content(&part), "hi");
    match decode_frame(&chars("not json")) {
        Err(Error::ApiError(raw, _)) => assert_eq!(raw, "not json"),
        other => panic!("expected ApiError, got {:?}", other),
    }
}

#[test]
fn stream_yields_chunks_then_done_and_nothing_after() {
    let mut d = StreamDecoder::new();
    let text = format!(
        "data: {}\n\ndata: {}\n\ndata: [DONE]\n\n",
        chunk_frame("c1", "He"),
        chunk_frame("c2", "llo")
    );
    let parts = d.push_str(&text);
    assert_eq!(parts.len(), 3);
    assert_eq!(first_delta_content(parts[0].as_ref().unwrap()), "He");
    assert_eq!(first_delta_content(parts[1].as_ref().unwrap()), "llo");
    assert_eq!(parts[2], Ok(ResponsePart::Done));
    // a frame after the sentinel is not produced
    let after = d.push_str(&format!("data: {}\n\n", chunk_frame("c3", "!")));
    assert_eq!(after.len(), 0);
}

#[test]
fn stream_without_sentinel_ends_without_done() {
    let mut d = StreamDecoder::new();
    let text = format!(
        "data: {}\n\ndata: {}\n\n",
        chunk_frame("c1", "a"),
        chunk_frame("c2", "b")
    );
    let parts = d.push_str(&text);
    assert_eq!(parts.len(), 2);
    for p in &parts {
        assert!(!matches!(p, Ok(ResponsePart::Done)));
    }
}

#[test]
fn malformed_frame_is_an_error_value_and_the_stream_goes_on() {
    let mut d = StreamDecoder::new();
    let text = format!(
        "data: {}\n\ndata: {{broken\n\ndata: {}\n\ndata: [DONE]\n\n",
        chunk_frame("c1", "a"),
        chunk_frame("c2", "b")
    );
    let parts = d.push_str(&text);
    assert_eq!(parts.len(), 4);
    assert!(parts[0].is_ok());
    match &parts[1] {
        Err(Error::ApiError(raw, _)) => assert_eq!(raw, "{broken"),
        other => panic!("expected ApiError, got {:?}", other),
    }
    assert!(parts[2].is_ok());
    assert_eq!(parts[3], Ok(ResponsePart::Done));
}

#[test]
fn frames_split_across_pushes_are_reassembled() {
    let mut d = StreamDecoder::new();
    let frame = chunk_frame("c1", "xy");
    let text = format!("data: {}\n\ndata: [DONE]\n\n", frame);
    let mut all = Vec::new();
    for piece in text.as_bytes().chunks(7) {
        let s = std::str::from_utf8(piece).unwrap();
        all.extend(d.push_str(s));
    }
    assert_eq!(all.len(), 2);
    assert_eq!(first_delta_content(all[0].as_ref().unwrap()), "xy");
    assert_eq!(all[1], Ok(ResponsePart::Done));
}
