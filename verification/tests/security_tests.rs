use minihttp::security::apply_security;
use minihttp::server::handle_request;
use minihttp::{
    Config, HTTPRequest, HTTPResponse, HttpError, RequestHandler, ResponseBuilder, Route,
    SecurityProtocol, Verb,
};

type Handler = fn(&RequestHandler) -> HTTPResponse;
type AuthMethod = fn((String, String)) -> bool;

fn default_method(_: &RequestHandler) -> HTTPResponse {
    ResponseBuilder::new(200, Some("default".to_string())).build()
}

fn default_route() -> Route<Handler> {
    Route::new(&Verb::GET, "/", default_method, false)
}

#[test]
fn apply_basic_security_with_good_creds() {
    let buffer = "GET rappel/1 HTTP/1.1\r\nAuthorization: Basic dG90bzp0YXRh\r\n\r\ntoto";

    let request = HTTPRequest::try_from(buffer).unwrap();
    let validate: AuthMethod = |_| true;

    let result = apply_security(&request, default_route(), SecurityProtocol::Basic(validate))
        .unwrap();
    assert_eq!(result, default_route())
}

#[test]
fn apply_basic_security_with_bad_creds() {
    let buffer = "GET rappel/1 HTTP/1.1\r\nAuthorization: Basic dG90bzp0YXR1YWE=\r\n\r\ntoto";

    let request = HTTPRequest::try_from(buffer).unwrap();

    let validate: AuthMethod = |_| false;

    let result = apply_security(&request, default_route(), SecurityProtocol::Basic(validate))
        .unwrap_err();
    assert_eq!(
        result,
        HttpError::UnauthorizedError("invalid credentials".to_string())
    )
}

#[test]
fn apply_basic_security_with_bad_protocol() {
    let buffer = "GET rappel/1 HTTP/1.1\r\nAuthorization: Basics dG90bzp0YXR1YWE=\r\n\r\ntoto";

    let request = HTTPRequest::try_from(buffer).unwrap();

    let validate: AuthMethod = |_| false;

    let result = apply_security(&request, default_route(), SecurityProtocol::Basic(validate))
        .unwrap_err();
    assert_eq!(
        result,
        HttpError::UnauthorizedError("wrong protocol".to_string())
    )
}

fn accept_toto_tata(creds: (String, String)) -> bool {
    creds.0 == "toto" && creds.1 == "tata"
}

fn reject_all(_: (String, String)) -> bool {
    false
}

#[test]
fn basic_auth_decodes_credentials_for_the_validator() {
    let buffer = "GET rappel/1 HTTP/1.1\r\nAuthorization: Basic dG90bzp0YXRh\r\n\r\ntoto";
    let request = HTTPRequest::try_from(buffer).unwrap();

    let result = apply_security(
        &request,
        default_route(),
        SecurityProtocol::Basic(accept_toto_tata as AuthMethod),
    );
    assert!(result.is_ok());
}

#[test]
fn rejected_credentials_give_401_with_detail() {
    let buffer = "GET / HTTP/1.1\r\nAuthorization: Basic dG90bzp0YXRh\r\n\r\n";
    let request = HTTPRequest::try_from(buffer).unwrap();
    let routes: Vec<Route<Handler>> =
        vec![Route::new(&Verb::GET, "/", default_method, true)];
    let config: Config<AuthMethod> =
        Config::default().with_security(&SecurityProtocol::Basic(reject_all as AuthMethod));

    let response = handle_request(&request, routes, config);
    assert_eq!(response.code(), 401);
}

#[test]
fn missing_authorization_header_is_refused() {
    let buffer = "GET / HTTP/1.1\r\n\r\n";
    let request = HTTPRequest::try_from(buffer).unwrap();

    let result = apply_security(
        &request,
        default_route(),
        SecurityProtocol::Basic(reject_all as AuthMethod),
    );
    assert_eq!(
        result.unwrap_err(),
        HttpError::UnauthorizedError("Missing header".to_string())
    );
}

#[test]
fn credentials_that_are_not_base64_are_refused() {
    let buffer = "GET / HTTP/1.1\r\nAuthorization: Basic !!!\r\n\r\n";
    let request = HTTPRequest::try_from(buffer).unwrap();

    let result = apply_security(
        &request,
        default_route(),
        SecurityProtocol::Basic(reject_all as AuthMethod),
    );
    assert_eq!(
        result.unwrap_err(),
        HttpError::UnauthorizedError("Authentication parameter is not base64 encrypted".to_string())
    );
}

#[test]
fn credentials_that_are_not_utf8_are_refused() {
    let buffer = "GET / HTTP/1.1\r\nAuthorization: Basic _w==\r\n\r\n";
    let request = HTTPRequest::try_from(buffer).unwrap();

    let result = apply_security(
        &request,
        default_route(),
        SecurityProtocol::Basic(reject_all as AuthMethod),
    );
    assert_eq!(
        result.unwrap_err(),
        HttpError::UnauthorizedError("Could not parse from utf8".to_string())
    );
}

#[test]
fn missing_credential_token_is_refused() {
    let buffer = "GET / HTTP/1.1\r\nAuthorization: Basic\r\n\r\n";
    let request = HTTPRequest::try_from(buffer).unwrap();

    let result = apply_security(
        &request,
        default_route(),
        SecurityProtocol::Basic(reject_all as AuthMethod),
    );
    assert_eq!(
        result.unwrap_err(),
        HttpError::UnauthorizedError("No user password provided".to_string())
    );
}

#[test]
fn validating_the_same_header_twice_gives_the_same_result() {
    let buffer = "GET / HTTP/1.1\r\nAuthorization: Basic dG90bzp0YXRh\r\n\r\n";
    let request = HTTPRequest::try_from(buffer).unwrap();
    let validate: AuthMethod = accept_toto_tata;

    let first = apply_security(&request, default_route(), SecurityProtocol::Basic(validate))
        .is_ok();
    let second = apply_security(&request, default_route(), SecurityProtocol::Basic(validate))
        .is_ok();
    assert_eq!(first, second);

    let first_rejecting = apply_security(
        &request,
        default_route(),
        SecurityProtocol::Basic(reject_all as AuthMethod),
    )
    .is_ok();
    let second_rejecting = apply_security(
        &request,
        default_route(),
        SecurityProtocol::Basic(reject_all as AuthMethod),
    )
    .is_ok();
    assert_eq!(first_rejecting, second_rejecting);
}
