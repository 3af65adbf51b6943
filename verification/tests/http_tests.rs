use wagner_host::cli::{parse_chat_response, parse_models_response, NO_CHAT_CONTENT};
use wagner_host::transmissions::read_permission_call;
use wagner_host::http::{
    content_length, find_subslice, header_value, is_authentic, parse_usize, response_head, Poll,
    RequestReader, MAX_BODY,
};

fn read_all(chunks: &[&[u8]]) -> Option<(String, Vec<u8>)> {
    let mut r = RequestReader::new();
    let mut next = 0;
    loop {
        match r.poll() {
            Poll::Done(res) => return res,
            Poll::NeedRead => {
                let c: &[u8] = if next < chunks.len() { chunks[next] } else { &[] };
                next += 1;
                r.feed(c);
            }
        }
    }
}

#[test]
fn reads_a_request_split_across_reads() {
    let r = read_all(&[b"POST /permission HTTP/1.1\r\nContent-Le", b"ngth: 5\r\n\r\nhe", b"llo and more"]);
    let (headers, body) = r.expect("request");
    assert!(headers.ends_with("\r\n\r\n"));
    assert_eq!(body, b"hello".to_vec());
}

#[test]
fn end_of_stream_before_the_headers_end_is_refused() {
    assert_eq!(read_all(&[b"POST / HTTP/1.1\r\n"]), None);
}

#[test]
fn a_short_body_ends_at_end_of_stream() {
    let (_, body) = read_all(&[b"POST / HTTP/1.1\r\ncontent-length: 10\r\n\r\nabc"]).unwrap();
    assert_eq!(body, b"abc".to_vec());
}

#[test]
fn a_forged_content_length_is_refused_before_buffering() {
    let head = format!("POST / HTTP/1.1\r\nContent-Length: {}\r\n\r\n", MAX_BODY + 1);
    assert_eq!(read_all(&[head.as_bytes()]), None);
}

#[test]
fn an_oversized_header_block_is_refused() {
    let big = vec![b'a'; MAX_BODY + 1];
    assert_eq!(read_all(&[&big]), None);
}

#[test]
fn headers_are_found_case_insensitively_and_trimmed() {
    let h = "POST / HTTP/1.1\r\nX-Gate-Token:  abc \r\nContent-Length: 2\r\n\r\n";
    assert_eq!(header_value(h, "x-gate-token").as_deref(), Some("abc"));
    assert_eq!(header_value(h, "missing"), None);
    assert!(is_authentic(h, "abc"));
    assert!(!is_authentic(h, "abd"));
    assert_eq!(content_length(h), 2);
    assert_eq!(content_length("Content-Length: nope\r\ncontent-length: 7\r\n"), 7);
    assert_eq!(content_length("no length here"), 0);
}

#[test]
fn decimal_parsing_matches_std() {
    let p = |s: &str| parse_usize(&s.chars().collect::<Vec<char>>());
    assert_eq!(p("42"), Some(42));
    assert_eq!(p("+7"), Some(7));
    assert_eq!(p(""), None);
    assert_eq!(p("+"), None);
    assert_eq!(p("-1"), None);
    assert_eq!(p("1a"), None);
    assert_eq!(p("99999999999999999999999"), None);
    assert_eq!(p(&usize::MAX.to_string()), Some(usize::MAX));
}

#[test]
fn finds_the_first_window() {
    assert_eq!(find_subslice(b"ab\r\n\r\ncd\r\n\r\n", b"\r\n\r\n"), Some(2));
    assert_eq!(find_subslice(b"abc", b"x"), None);
}

#[test]
fn response_heads_carry_status_reason_and_length() {
    assert_eq!(
        response_head(401, 17),
        "HTTP/1.1 401 Unauthorized\r\nContent-Type: application/json\r\nContent-Length: 17\r\nConnection: close\r\n\r\n"
    );
    assert!(response_head(200, 0).starts_with("HTTP/1.1 200 OK\r\n"));
    assert!(response_head(400, 0).starts_with("HTTP/1.1 400 Bad Request\r\n"));
}

#[test]
fn invalid_utf8_headers_are_decoded_lossily() {
    let (headers, _) = read_all(&[b"GET / HTTP/1.1\r\nX: \xff\r\n\r\n"]).unwrap();
    assert!(headers.contains('\u{FFFD}'));
}

#[test]
fn decimal_rendering_matches_to_string() {
    for n in [0usize, 7, 10, 99, 100, 1234567890, usize::MAX] {
        assert_eq!(wagner_host::text::usize_decimal(n), n.to_string());
    }
}

fn json(text: &str) -> serde_json::Value {
    serde_json::from_str(text).unwrap()
}

#[test]
fn chat_reply_is_the_first_choice_content() {
    assert_eq!(parse_chat_response(&json(r#"{"choices":[{"message":{"content":"hi"}},{"message":{"content":"no"}}]}"#)), Ok("hi".to_string()));
    assert_eq!(parse_chat_response(&json(r#"{"choices":[]}"#)), Err(NO_CHAT_CONTENT.to_string()));
    assert_eq!(parse_chat_response(&json(r#"{"choices":{"0":{"message":{"content":"x"}}}}"#)), Err(NO_CHAT_CONTENT.to_string()));
    assert_eq!(parse_chat_response(&json(r#"{"choices":[{"message":{"content":7}}]}"#)), Err(NO_CHAT_CONTENT.to_string()));
}

#[test]
fn model_ids_skip_entries_without_a_string_id() {
    assert_eq!(
        parse_models_response(&json(r#"{"data":[{"id":"llama3"},{"name":"x"},{"id":9},{"id":"qwen"}]}"#)),
        vec!["llama3".to_string(), "qwen".to_string()]
    );
    assert!(parse_models_response(&json(r#"{"data":{"id":"x"}}"#)).is_empty());
    assert!(parse_models_response(&json(r#"[1,2]"#)).is_empty());
}

#[test]
fn permission_arguments_take_the_first_present_alias() {
    let c = read_permission_call(&json(r#"{"toolName":"Bash","tool_input":{"command":"ls"},"toolUseId":"t1"}"#)).unwrap();
    assert_eq!(c.tool_name, "Bash");
    assert_eq!(c.input, Some(json(r#"{"command":"ls"}"#)));
    assert_eq!(c.tool_use_id, Some("t1".to_string()));
    let d = read_permission_call(&json(r#"{"tool_name":"Edit"}"#)).unwrap();
    assert_eq!((d.input, d.tool_use_id), (None, None));
    assert!(read_permission_call(&json(r#"{"tool_name":5,"toolName":"Bash"}"#)).is_none());
    assert!(read_permission_call(&json(r#"{"input":{}}"#)).is_none());
}
