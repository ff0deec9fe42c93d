use process_wrapper_worker::framing::{
    is_space_byte, read_json_value, ByteReader, Feed, JsonFramer, ReadError,
};

fn read_once(bytes: &[u8]) -> Result<Option<String>, ReadError> {
    read_json_value(&mut ByteReader::new(bytes))
}

#[test]
fn white_space_is_that_of_latin1() {
    for b in 0..=255u8 {
        assert_eq!(is_space_byte(b), (b as char).is_whitespace(), "{:#x}", b);
    }
}

#[test]
fn nothing_or_white_space_is_the_end() {
    assert_eq!(read_once(b""), Ok(None));
    assert_eq!(read_once(b" \t\r\n\x0b\x0c\x85\xa0"), Ok(None));
}

#[test]
fn white_space_before_a_frame_is_passed_over() {
    assert_eq!(read_once(b"\n  {}"), Ok(Some("{}".to_string())));
}

#[test]
fn only_a_brace_begins_a_frame() {
    let mut r = ByteReader::new(b" [1]{}");
    assert_eq!(read_json_value(&mut r), Err(ReadError::InvalidData('[')));
    assert_eq!(read_json_value(&mut r), Err(ReadError::InvalidData('1')));
    assert_eq!(read_json_value(&mut r), Err(ReadError::InvalidData(']')));
    assert_eq!(read_json_value(&mut r), Ok(Some("{}".to_string())));
    assert_eq!(read_once(b"\xe9"), Err(ReadError::InvalidData('\u{e9}')));
    assert_eq!(read_once(b"}"), Err(ReadError::InvalidData('}')));
}

#[test]
fn errors_in_words() {
    assert_eq!(ReadError::UnexpectedEof.message(), "EOF mid-JSON");
    assert_eq!(ReadError::InvalidData('x').message(), "expected '{' got 'x'");
    assert_eq!(ReadError::InvalidData('\n').message(), "expected '{' got '\\n'");
}

#[test]
fn braces_in_strings_do_not_count() {
    let text = r#"{"a":"}}{","b":{"c":"\"}"},"d":"\\"}"#;
    let mut r = ByteReader::new(text.as_bytes());
    assert_eq!(read_json_value(&mut r), Ok(Some(text.to_string())));
    assert_eq!(read_json_value(&mut r), Ok(None));
}

#[test]
fn brackets_and_quotes_outside_strings() {
    assert_eq!(read_once(b"{]]\\}"), Ok(Some("{]]\\}".to_string())));
}

#[test]
fn bytes_become_characters_of_the_same_number() {
    assert_eq!(read_once(b"{\"\xc3\xa9\"}"), Ok(Some("{\"\u{c3}\u{a9}\"}".to_string())));
}

#[test]
fn cut_frame_is_refused_wherever_it_is_cut() {
    let text = br#" {"a":"\"}","b":{"c":[1,{}]}}"#;
    for n in 2..text.len() {
        assert_eq!(read_once(&text[..n]), Err(ReadError::UnexpectedEof), "{}", n);
    }
    assert!(matches!(read_once(text), Ok(Some(_))));
}

#[test]
fn packed_frames_come_out_in_order() {
    let frames = ["{}", r#"{"a":{"b":"{"}}"#, "{ }", r#"{"x":"\\\""}"#];
    let all = frames.concat();
    let mut r = ByteReader::new(all.as_bytes());
    for frame in frames {
        assert_eq!(read_json_value(&mut r), Ok(Some(frame.to_string())));
    }
    assert_eq!(read_json_value(&mut r), Ok(None));
    assert_eq!(read_json_value(&mut r), Ok(None));
}

#[test]
fn spaced_frames_come_out_in_order() {
    let mut r = ByteReader::new(b" {}\r\n\t{\"a\":\" } \"}{ }\n\xa0\x85");
    assert_eq!(read_json_value(&mut r), Ok(Some("{}".to_string())));
    assert_eq!(read_json_value(&mut r), Ok(Some("{\"a\":\" } \"}".to_string())));
    assert_eq!(read_json_value(&mut r), Ok(Some("{ }".to_string())));
    assert_eq!(read_json_value(&mut r), Ok(None));
    assert_eq!(read_json_value(&mut r), Ok(None));
}

#[test]
fn deep_nesting_is_counted() {
    let text = "{".repeat(5000) + &"}".repeat(5000);
    assert_eq!(read_once(text.as_bytes()), Ok(Some(text.clone())));
    assert_eq!(read_once(&text.as_bytes()[..9999]), Err(ReadError::UnexpectedEof));
}

#[test]
fn framer_takes_one_byte_at_a_time() {
    let mut framer = JsonFramer::new();
    assert!(matches!(framer.feed(b' '), Feed::More));
    assert_eq!(framer.finish(), Ok(()));
    assert!(matches!(framer.feed(b'x'), Feed::Reject('x')));
    for b in b"{\"k\":\"}" {
        assert!(matches!(framer.feed(*b), Feed::More));
        assert_eq!(framer.finish(), Err(ReadError::UnexpectedEof));
    }
    assert!(matches!(framer.feed(b'"'), Feed::More));
    match framer.feed(b'}') {
        Feed::Done(text) => assert_eq!(text, "{\"k\":\"}\"}"),
        _ => panic!("the frame is not closed"),
    }
    assert_eq!(framer.finish(), Ok(()));
    assert!(matches!(framer.feed(b'{'), Feed::More));
    assert!(matches!(framer.feed(b'}'), Feed::Done(_)));
}
