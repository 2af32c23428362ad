use minihttp::{HTTPRequest, HttpError, StringMap, Verb};

#[test]
fn request_try_from_ok() {
    let buffer = "POST rappel/1?moi=toi&toi=moi HTTP/1.1\r\nContent-Length: 10\r\n\r\ntoto\r\ntata";

    let mut expected_query_params = StringMap::new();
    expected_query_params.insert("moi".to_string(), "toi".to_string());
    expected_query_params.insert("toi".to_string(), "moi".to_string());

    let request = HTTPRequest::try_from(buffer);

    let http_request = request.unwrap();
    assert_eq!(http_request.verb, Verb::POST);
    assert_eq!(http_request.resource, "rappel/1");
    assert_eq!(http_request.query_params, Some(expected_query_params));
    assert_eq!(http_request.body, Some("toto\r\ntata".to_string()));
    assert_eq!(
        http_request.headers,
        Some(vec![("content-length".to_string(), "10".to_string())])
    );
}

#[test]
fn request_try_from_ko() {
    let buffer = "POST rappel/1 HTTP/1.1\r\nContent-Length: 4\r\n\r\ntoto";

    let request = HTTPRequest::try_from(buffer);

    assert!(request.is_ok());
}

#[test]
fn extract_headers_ok() {
    let request = vec![
        "ressource".to_string(),
        "Content-Length: 1".to_string(),
        "Content-type: x and y".to_string(),
        "".to_string(),
    ];

    let request = minihttp::request::extract_headers(request);

    assert_eq!(
        request,
        vec![
            ("content-length".to_string(), "1".to_string()),
            ("content-type".to_string(), "x and y".to_string())
        ]
    );
}

#[test]
fn content_length_not_a_number_is_rejected() {
    let buffer = "GET / HTTP/1.1\r\nContent-Length: abc\r\n\r\n";
    let request = HTTPRequest::try_from(buffer);
    assert_eq!(
        request.unwrap_err(),
        HttpError::BadRequest("Content-Length is not a valid integer".to_string())
    );
}

#[test]
fn unknown_verb_is_rejected_with_its_name() {
    let buffer = "FOO / HTTP/1.1\r\n\r\n";
    let request = HTTPRequest::try_from(buffer);
    assert_eq!(
        request.unwrap_err(),
        HttpError::BadRequest("Unknown verb: FOO".to_string())
    );
}

#[test]
fn missing_protocol_is_rejected() {
    let buffer = "GET /only-two-tokens";
    let request = HTTPRequest::try_from(buffer);
    assert_eq!(
        request.unwrap_err(),
        HttpError::BadRequest("Missing protocol".to_string())
    );
}

#[test]
fn short_body_is_rejected() {
    let buffer = "POST / HTTP/1.1\r\nContent-Length: 10\r\n\r\ntoto";
    let request = HTTPRequest::try_from(buffer);
    assert_eq!(
        request.unwrap_err(),
        HttpError::BadRequest("Content-Length exceeds the available body".to_string())
    );
}

#[test]
fn content_length_zero_gives_empty_body() {
    let buffer = "POST / HTTP/1.1\r\nContent-Length: 0\r\n\r\n";
    let request = HTTPRequest::try_from(buffer).unwrap();
    assert_eq!(request.body, Some("".to_string()));
}

#[test]
fn empty_query_chunk_gives_empty_map() {
    let buffer = "GET /x? HTTP/1.1\r\n\r\n";
    let request = HTTPRequest::try_from(buffer).unwrap();
    assert_eq!(request.query_params, Some(StringMap::new()));
}

#[test]
fn query_pair_without_equals_gets_empty_value() {
    let buffer = "GET /x?flag&a=1 HTTP/1.1\r\n\r\n";
    let request = HTTPRequest::try_from(buffer).unwrap();
    let qp = request.query_params.unwrap();
    assert_eq!(qp.get("flag"), Some(&"".to_string()));
    assert_eq!(qp.get("a"), Some(&"1".to_string()));
}

#[test]
fn duplicate_query_keys_keep_the_last_value() {
    let buffer = "GET /x?a=1&a=2 HTTP/1.1\r\n\r\n";
    let request = HTTPRequest::try_from(buffer).unwrap();
    let qp = request.query_params.unwrap();
    assert_eq!(qp.get("a"), Some(&"2".to_string()));
    assert_eq!(qp.len(), 1);
}

#[test]
fn get_header_is_case_insensitive() {
    let buffer = "GET / HTTP/1.1\r\nX-Custom: hello\r\n\r\n";
    let request = HTTPRequest::try_from(buffer).unwrap();
    let header = request.get_header("x-CuStOm").unwrap();
    assert_eq!(header.1, "hello");
    assert!(request.get_header("absent").is_none());
}

#[test]
fn from_bytes_strips_trailing_nul_padding() {
    let mut buffer = b"GET /pad HTTP/1.1\r\n\r\n".to_vec();
    buffer.extend_from_slice(&[0u8; 16]);
    let request = HTTPRequest::from_bytes(&buffer).unwrap();
    assert_eq!(request.resource, "/pad");
}

#[test]
fn from_bytes_rejects_invalid_utf8() {
    let buffer = [0xffu8, 0xfe, 0x00];
    let request = HTTPRequest::from_bytes(&buffer);
    assert_eq!(
        request.unwrap_err(),
        HttpError::BadRequest("invalid utf-8".to_string())
    );
}

#[test]
fn header_line_without_colon_is_skipped() {
    let buffer = "GET / HTTP/1.1\r\nnocolonhere\r\nGood: yes\r\n\r\n";
    let request = HTTPRequest::try_from(buffer).unwrap();
    assert_eq!(
        request.headers,
        Some(vec![("good".to_string(), "yes".to_string())])
    );
}

#[test]
fn only_the_second_question_mark_piece_feeds_the_query_map() {
    let buffer = "GET /p?x=1?y=2 HTTP/1.1\r\n\r\n";
    let request = HTTPRequest::try_from(buffer).unwrap();
    assert_eq!(request.resource, "/p");
    let qp = request.query_params.unwrap();
    assert_eq!(qp.get("x"), Some(&"1".to_string()));
    assert_eq!(qp.len(), 1);
}
