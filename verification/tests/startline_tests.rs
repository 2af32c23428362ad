use minihttp::{HttpError, StartLine, Verb};

#[test]
fn start_line_try_from_ok() {
    let result = StartLine::try_from("GET /test HTTP/1.1".to_string()).unwrap();
    assert_eq!(result.resource, "/test");
    assert_eq!(result.verb, Verb::GET)
}

#[test]
fn start_line_try_from_malformed_verb() {
    let result = StartLine::try_from("TOTO / HTTP/1.1".to_string());
    assert_eq!(
        result.err().unwrap(),
        HttpError::BadRequest("Unknown verb: TOTO".to_string())
    );
}

#[test]
fn start_line_try_from_default() {
    let result = StartLine::try_from("GET / HTTP/1.1".to_string()).unwrap();
    assert_eq!(result.resource, "/");
}

#[test]
fn start_line_new_keeps_default_protocol() {
    let sl = StartLine::new(Verb::POST, "/abc".to_string());
    assert_eq!(sl.protocol, "HTTP/1.1");
    assert_eq!(sl.verb(), Verb::POST);
    assert_eq!(sl.resource(), "/abc");
}
