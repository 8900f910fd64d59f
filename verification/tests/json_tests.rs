use chatgpt::json::{parse_json, render_json, Json, JsonMember, JsonNum};

fn chars(s: &str) -> Vec<char> {
    s.chars().collect()
}

fn text(j: &Json) -> String {
    render_json(j).into_iter().collect()
}

fn num(neg: bool, mantissa: u64, scale: usize) -> Json {
    Json::Num(JsonNum { neg, mantissa, scale })
}

fn member(key: &str, value: Json) -> JsonMember {
    JsonMember { key: chars(key), value }
}

#[test]
fn renders_scalars() {
    assert_eq!(text(&Json::Null), "null");
    assert_eq!(text(&Json::Bool(true)), "true");
    assert_eq!(text(&Json::Bool(false)), "false");
    assert_eq!(text(&num(false, 0, 0)), "0");
    assert_eq!(text(&num(false, 42, 0)), "42");
    assert_eq!(text(&num(true, 5, 0)), "-5");
    assert_eq!(text(&num(false, 80, 2)), "0.80");
    assert_eq!(text(&num(false, 8, 1)), "0.8");
    assert_eq!(text(&num(false, 1234, 2)), "12.34");
    assert_eq!(text(&num(false, 7, 3)), "0.007");
}

#[test]
fn renders_strings_with_escapes() {
    assert_eq!(text(&Json::Str(chars("hi"))), "\"hi\"");
    assert_eq!(text(&Json::Str(chars("a\"b"))), "\"a\\\"b\"");
    assert_eq!(text(&Json::Str(chars("a\\b"))), "\"a\\\\b\"");
    assert_eq!(text(&Json::Str(chars("a\nb"))), "\"a\\u000ab\"");
}

#[test]
fn renders_containers() {
    let arr = Json::Arr(vec![num(false, 1, 0), num(false, 2, 0), Json::Null]);
    assert_eq!(text(&arr), "[1,2,null]");
    let obj = Json::Obj(vec![
        member("a", Json::Bool(true)),
        member("b", Json::Arr(vec![])),
    ]);
    assert_eq!(text(&obj), "{\"a\":true,\"b\":[]}");
}

#[test]
fn parses_scalars() {
    assert_eq!(parse_json(&chars("null")), Some(Json::Null));
    assert_eq!(parse_json(&chars("  true ")), Some(Json::Bool(true)));
    assert_eq!(parse_json(&chars("false")), Some(Json::Bool(false)));
    assert_eq!(parse_json(&chars("42")), Some(num(false, 42, 0)));
    assert_eq!(parse_json(&chars("-7")), Some(num(true, 7, 0)));
    assert_eq!(parse_json(&chars("0.80")), Some(num(false, 80, 2)));
    assert_eq!(parse_json(&chars("12.34")), Some(num(false, 1234, 2)));
}

#[test]
fn parses_strings() {
    assert_eq!(parse_json(&chars("\"hi\"")), Some(Json::Str(chars("hi"))));
    assert_eq!(parse_json(&chars("\"a\\nb\"")), Some(Json::Str(chars("a\nb"))));
    assert_eq!(parse_json(&chars("\"a\\u0041b\"")), Some(Json::Str(chars("aAb"))));
    assert_eq!(parse_json(&chars("\"\\\"\\\\\\/\"")), Some(Json::Str(chars("\"\\/"))));
}

#[test]
fn parses_containers_with_whitespace() {
    let t = "{ \"a\" : [ 1 , 2 ] , \"b\" : { \"c\" : null } }";
    let expected = Json::Obj(vec![
        member("a", Json::Arr(vec![num(false, 1, 0), num(false, 2, 0)])),
        member("b", Json::Obj(vec![member("c", Json::Null)])),
    ]);
    assert_eq!(parse_json(&chars(t)), Some(expected));
}

#[test]
fn rejects_malformed_documents() {
    assert_eq!(parse_json(&chars("")), None);
    assert_eq!(parse_json(&chars("tru")), None);
    assert_eq!(parse_json(&chars("01")), None);
    assert_eq!(parse_json(&chars("1.")), None);
    assert_eq!(parse_json(&chars("{\"a\":}")), None);
    assert_eq!(parse_json(&chars("[1,]")), None);
    assert_eq!(parse_json(&chars("\"unterminated")), None);
    assert_eq!(parse_json(&chars("null trailing")), None);
    assert_eq!(parse_json(&chars("[DONE]")), None);
}

#[test]
fn round_trips_documents_through_text() {
    let docs = vec![
        Json::Null,
        Json::Bool(false),
        num(true, 250, 1),
        Json::Str(chars("line\none \"two\" \\three\\ \u{1F600}")),
        Json::Arr(vec![
            num(false, 1, 0),
            Json::Str(chars("x")),
            Json::Obj(vec![member("k", Json::Bool(true))]),
        ]),
        Json::Obj(vec![
            member("empty", Json::Arr(vec![])),
            member("nested", Json::Obj(vec![])),
        ]),
    ];
    for d in docs {
        let t = text(&d);
        assert_eq!(parse_json(&chars(&t)), Some(d));
    }
}
