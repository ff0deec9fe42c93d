use process_wrapper_worker::framing::{read_json_value, ByteReader, ReadError};
use process_wrapper_worker::json::Json;
use process_wrapper_worker::protocol::{
    parse_work_request, run_step, write_response, Refusal, RunStep, WorkRequest,
};
use tinyjson::JsonValue;

fn text(s: &str) -> Json {
    Json::String(s.to_string())
}

fn object(members: Vec<(&str, Json)>) -> Json {
    Json::Object(members.into_iter().map(|(k, v)| (k.to_string(), v)).collect())
}

fn pair(p: &str, d: &str) -> (String, String) {
    (p.to_string(), d.to_string())
}

fn error(json: Json) -> String {
    parse_work_request(&json).unwrap_err()
}

fn request(json: Json) -> WorkRequest {
    parse_work_request(&json).unwrap()
}

fn handled(s: &str) -> WorkRequest {
    match run_step(Ok(Some(s.to_string()))) {
        RunStep::Handle(req) => req,
        other => panic!("not handled: {:?}", other),
    }
}

#[test]
fn full_request() {
    let req = request(object(vec![
        ("arguments", Json::Array(vec![text("a"), text("b")])),
        (
            "inputs",
            Json::Array(vec![
                object(vec![("path", text("p")), ("digest", text("d"))]),
                object(vec![("path", text("q"))]),
                object(vec![("digest", Json::Null), ("path", text("r"))]),
            ]),
        ),
        ("requestId", Json::Number(42)),
        ("cancel", Json::Boolean(true)),
        ("verbosity", Json::Number(10)),
    ]));
    assert_eq!(req.arguments, vec!["a".to_string(), "b".to_string()]);
    assert_eq!(req.inputs, vec![pair("p", "d"), pair("q", ""), pair("r", "")]);
    assert_eq!(req.request_id, 42);
    assert!(req.cancel);
    assert_eq!(req.verbosity, 10);
    assert!(req.is_verbose());
}

#[test]
fn empty_object_is_a_request() {
    let req = request(object(vec![]));
    assert!(req.arguments.is_empty());
    assert!(req.inputs.is_empty());
    assert_eq!(req.request_id, 0);
    assert!(!req.cancel);
    assert_eq!(req.verbosity, 0);
    assert!(!req.is_verbose());
}

#[test]
fn members_of_another_kind_count_as_missing() {
    let req = request(object(vec![
        ("arguments", text("a")),
        ("inputs", Json::Null),
        ("requestId", text("1")),
        ("cancel", text("true")),
        ("verbosity", Json::Boolean(true)),
        ("unknown", Json::Array(vec![])),
    ]));
    assert!(req.arguments.is_empty());
    assert!(req.inputs.is_empty());
    assert_eq!(req.request_id, 0);
    assert!(!req.cancel);
    assert_eq!(req.verbosity, 0);
}

#[test]
fn only_true_cancels() {
    assert!(!request(object(vec![("cancel", Json::Boolean(false))])).cancel);
    assert!(!request(object(vec![("cancel", Json::Number(1))])).cancel);
    assert!(request(object(vec![("cancel", Json::Boolean(true))])).cancel);
}

#[test]
fn what_is_not_an_object_is_refused() {
    for json in [Json::Null, Json::Array(vec![]), text("x"), Json::Number(1), Json::Boolean(true)] {
        assert_eq!(error(json), "WorkRequest is not a JSON object");
    }
}

#[test]
fn arguments_must_be_strings() {
    let json = object(vec![("arguments", Json::Array(vec![text("a"), Json::Number(1)]))]);
    assert_eq!(error(json), "argument is not a string");
}

#[test]
fn inputs_must_be_objects_with_a_path() {
    let inputs = |items: Vec<Json>| object(vec![("inputs", Json::Array(items))]);
    assert_eq!(error(inputs(vec![text("p")])), "input is not an object");
    assert_eq!(error(inputs(vec![object(vec![])])), "input.path missing");
    assert_eq!(
        error(inputs(vec![object(vec![("path", Json::Number(1))])])),
        "input.path missing"
    );
    let ok = || object(vec![("path", text("p"))]);
    assert_eq!(
        error(inputs(vec![ok(), object(vec![]), Json::Null])),
        "input.path missing"
    );
    assert_eq!(
        error(inputs(vec![ok(), Json::Null, object(vec![])])),
        "input is not an object"
    );
}

#[test]
fn arguments_are_looked_at_before_inputs() {
    let json = object(vec![
        ("inputs", Json::Array(vec![Json::Null])),
        ("arguments", Json::Array(vec![Json::Null])),
    ]);
    assert_eq!(error(json), "argument is not a string");
}

#[test]
fn last_member_of_a_name_counts() {
    let json = object(vec![("requestId", Json::Number(1)), ("requestId", Json::Number(2))]);
    assert_eq!(request(json).request_id, 2);
    assert_eq!(handled(r#"{"requestId":1,"requestId":2}"#).request_id, 2);
}

#[test]
fn request_is_read_from_its_text() {
    let req = handled(
        r#"{"arguments":["--crate-name=foo","\u00e9\n"],
            "inputs":[{"path":"src/lib.rs","digest":"abc"},{"path":"x"}],
            "requestId":7,"cancel":false,"verbosity":10,"sandboxDir":null}"#,
    );
    assert_eq!(req.arguments, vec!["--crate-name=foo".to_string(), "\u{e9}\n".to_string()]);
    assert_eq!(req.inputs, vec![pair("src/lib.rs", "abc"), pair("x", "")]);
    assert_eq!(req.request_id, 7);
    assert!(!req.cancel);
    assert!(req.is_verbose());
}

#[test]
fn numbers_are_cut_down_to_integers() {
    let id = |n: &str| handled(&format!("{{\"requestId\":{}}}", n)).request_id;
    assert_eq!(id("0"), 0);
    assert_eq!(id("-3"), -3);
    assert_eq!(id("1.9"), 1);
    assert_eq!(id("-1.9"), -1);
    assert_eq!(id("1e300"), i64::MAX);
    assert_eq!(id("-1e300"), i64::MIN);
    assert_eq!(id("1e999"), i64::MAX);
}

#[test]
fn steps_of_the_worker() {
    assert!(matches!(run_step(Ok(None)), RunStep::Stop));
    assert!(matches!(
        run_step(Err(ReadError::UnexpectedEof)),
        RunStep::Fail(ReadError::UnexpectedEof)
    ));
    assert!(matches!(
        run_step(Err(ReadError::InvalidData('x'))),
        RunStep::Fail(ReadError::InvalidData('x'))
    ));
    match run_step(Ok(Some("{]}".to_string()))) {
        RunStep::Skip(Refusal::NotJson(e)) => {
            let expected = "{]}".parse::<JsonValue>().unwrap_err().to_string();
            assert_eq!(e, expected);
        }
        other => panic!("{:?}", other),
    }
    match run_step(Ok(Some(r#"{"arguments":[1]}"#.to_string()))) {
        RunStep::Skip(Refusal::BadRequest(e)) => assert_eq!(e, "argument is not a string"),
        other => panic!("{:?}", other),
    }
    match run_step(Ok(Some("[{}]".to_string()))) {
        RunStep::Skip(Refusal::BadRequest(e)) => {
            assert_eq!(e, "WorkRequest is not a JSON object")
        }
        other => panic!("{:?}", other),
    }
}

#[test]
fn parse_error_says_where() {
    for (text, head) in [
        ("{]}", "Parse error at line:1, col:1: "),
        ("{\n  \"a\" 1}", "Parse error at line:2, col:7: "),
        ("{\n\n{\"a\":1,\"b\":2}:3}", "Parse error at line:3, col:13: "),
    ] {
        match run_step(Ok(Some(text.to_string()))) {
            RunStep::Skip(Refusal::NotJson(e)) => assert!(e.starts_with(head), "{}", e),
            other => panic!("{:?}", other),
        }
    }
}

#[test]
fn response_bytes() {
    assert_eq!(
        write_response(7, 0, "").as_slice(),
        b"{\"requestId\":7,\"exitCode\":0,\"output\":\"\"}\n"
    );
    assert_eq!(
        write_response(i64::MIN, i32::MIN, "a").as_slice(),
        b"{\"requestId\":-9223372036854775808,\"exitCode\":-2147483648,\"output\":\"a\"}\n"
    );
    assert_eq!(
        write_response(1234567890, 10, "\"\\\x08\t\n\x0c\r\x00\x1f\x7f/").as_slice(),
        b"{\"requestId\":1234567890,\"exitCode\":10,\"output\":\"\\\"\\\\\\b\\t\\n\\f\\r\\u0000\\u001f\x7f/\"}\n"
    );
    assert_eq!(
        String::from_utf8(write_response(0, 1, "\u{e9}\u{4e2d}\u{1f600}\u{85}")).unwrap(),
        "{\"requestId\":0,\"exitCode\":1,\"output\":\"\u{e9}\u{4e2d}\u{1f600}\u{85}\"}\n"
    );
}

#[test]
fn response_is_one_frame_and_one_line() {
    for output in ["", "}", "{{{", "\"}\\", "\\\"", "line\nline\n", "\u{e9}}\u{1f600}{"] {
        let bytes = write_response(-1, 1, output);
        let (line, end) = bytes.split_at(bytes.len() - 1);
        assert_eq!(end, b"\n");
        assert!(!line.contains(&b'\n'));
        let mut r = ByteReader::new(&bytes);
        let frame = read_json_value(&mut r).unwrap().unwrap();
        assert_eq!(frame.chars().map(|c| c as u8).collect::<Vec<u8>>(), line);
        assert_eq!(read_json_value(&mut r), Ok(None));
        let json: JsonValue = std::str::from_utf8(line).unwrap().parse().unwrap();
        assert_eq!(json["output"], JsonValue::String(output.to_string()));
        assert_eq!(json["exitCode"], JsonValue::Number(1.0));
        assert_eq!(json["requestId"], JsonValue::Number(-1.0));
    }
}
