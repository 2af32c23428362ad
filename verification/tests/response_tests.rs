use minihttp::{Config, HTTPResponse, HttpError, ResponseBuilder};

type Validator = fn((String, String)) -> bool;

#[test]
fn build_with_body_serializes_content_length_and_body() {
    let response = ResponseBuilder::new(200, Some("X".to_string())).build();
    let text = response.render();
    assert!(text.contains("Content-Length: 1\r\n"));
    assert!(text.ends_with("\r\nX"));
    assert_eq!(
        text,
        "HTTP/1.1 200 OK\r\nAccess-Control-Allow-Origin: *\r\nContent-Type: application/json\r\nContent-Length: 1\r\n\r\nX"
    );
}

#[test]
fn content_length_counts_bytes_not_characters() {
    let response = ResponseBuilder::new(200, Some("é".to_string())).build();
    let text = response.render();
    assert!(text.contains("Content-Length: 2\r\n"));
}

#[test]
fn reason_phrases_follow_the_fixed_table() {
    assert!(ResponseBuilder::new(200, None).build().render().starts_with("HTTP/1.1 200 OK\r\n"));
    assert!(ResponseBuilder::new(400, None)
        .build()
        .render()
        .starts_with("HTTP/1.1 400 BAD REQUEST\r\n"));
    assert!(ResponseBuilder::new(404, None)
        .build()
        .render()
        .starts_with("HTTP/1.1 404 NOT FOUND\r\n"));
    assert!(ResponseBuilder::new(500, None)
        .build()
        .render()
        .starts_with("HTTP/1.1 500 INTERNAL\r\n"));
    assert!(ResponseBuilder::new(401, None).build().render().starts_with("HTTP/1.1 401 \r\n"));
}

#[test]
fn builder_accumulates_headers_and_body() {
    let response = ResponseBuilder::new(200, None)
        .put_header("X-One".to_string(), "1".to_string())
        .content_type("text/plain".to_string())
        .body("hello".to_string())
        .build();
    assert_eq!(response.code(), 200);
    let text = response.render();
    assert!(text.contains("X-One: 1\r\n"));
    assert!(text.contains("Content-Type: text/plain\r\n"));
    assert!(text.ends_with("\r\nhello"));
}

#[test]
fn errors_map_to_their_status_codes() {
    assert_eq!(HTTPResponse::from_error(&HttpError::DefaultError).code(), 0);
    assert_eq!(
        HTTPResponse::from_error(&HttpError::NotFoundError("x".to_string())).code(),
        404
    );
    assert_eq!(
        HTTPResponse::from_error(&HttpError::UnauthorizedError("x".to_string())).code(),
        401
    );
    assert_eq!(
        HTTPResponse::from_error(&HttpError::BadRequest("x".to_string())).code(),
        400
    );
}

#[test]
fn not_found_response_carries_a_body() {
    let response = HTTPResponse::from_error(&HttpError::NotFoundError("gone".to_string()));
    let text = response.render();
    assert!(text.starts_with("HTTP/1.1 404 NOT FOUND\r\n"));
    assert!(text.ends_with("\r\nNot found"));
}

#[test]
fn internal_error_response_is_a_plain_500() {
    let response =
        HTTPResponse::from_internal(&minihttp::InternalError::from_detail("boom".to_string()));
    assert_eq!(response.code(), 500);
    assert!(response.render().ends_with("\r\nInternal Server Error"));
}

#[test]
fn negative_status_codes_are_written_with_their_sign() {
    let response = ResponseBuilder::new(-5, None).build();
    assert!(response.render().starts_with("HTTP/1.1 -5 \r\n"));
}

#[test]
fn config_default_address_and_builders() {
    let config: Config<Validator> = Config::default();
    assert_eq!(config.adresse(), "0.0.0.0:7878");
    assert_eq!(config.request_size(), 10485760);

    let config = config.with_adresse("127.0.0.1", &8080).with_request_size(&1024);
    assert_eq!(config.adresse(), "127.0.0.1:8080");
    assert_eq!(config.request_size(), 1024);
}
