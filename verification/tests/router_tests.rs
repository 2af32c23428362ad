use minihttp::router::{compare, extract_path_params, valid_against};
use minihttp::server::handle_request;
use minihttp::{
    Config, HTTPRequest, HTTPResponse, ParamsHandler, RequestHandler, ResponseBuilder, Route,
    StringMap, Verb,
};

type Handler = fn(&RequestHandler) -> HTTPResponse;
type Validator = fn((String, String)) -> bool;

fn default_method(_: &RequestHandler) -> HTTPResponse {
    ResponseBuilder::new(200, Some("default".to_string())).build()
}

fn default_route() -> Route<Handler> {
    Route::new(&Verb::GET, "/", default_method, false)
}

#[test]
fn compare_ressource_ok() {
    let reference = "route";
    let incoming = "route";
    let result = compare(incoming, Some(&reference));
    assert!(result);
}

#[test]
fn compare_ressource_nok() {
    let reference: &str = "route";
    let incoming = "routes";
    let result = compare(incoming, Some(&reference));
    assert!(!result);
}

#[test]
fn compare_param_ok() {
    let reference = "{id}";
    let incoming = "2";
    let result = compare(incoming, Some(&reference));
    assert!(result);
}

#[test]
fn test_valid_against_combinations() {
    let combinations: Vec<((String, String), bool)> = vec![
        (
            (
                "ressource/1/toto/2".to_string(),
                "ressource/id/toto/{dd}".to_string(),
            ),
            false,
        ),
        (
            (
                "ressource/1/toto/2".to_string(),
                "ressource/{id}/toto/{dd}".to_string(),
            ),
            true,
        ),
        (
            (
                "ressource/1/toto/2?test=12".to_string(),
                "ressource/{id}/toto/{dd}".to_string(),
            ),
            true,
        ),
    ];

    combinations.iter().for_each(|combinaisons| {
        assert_eq!(
            valid_against(combinaisons.0 .0.clone(), combinaisons.0 .1.clone()),
            combinaisons.1
        )
    });
}

#[test]
fn handle_request_without_security_should_return_200() {
    let request = HTTPRequest::default();
    let routes = vec![default_route()];
    let config: Config<Validator> = Config::default();

    let responses_code = handle_request(&request, routes, config)
        .render()
        .split("\r\n")
        .map(|s| s.to_string())
        .collect::<Vec<String>>();
    assert_eq!(responses_code.first().unwrap(), &"HTTP/1.1 200 OK");
}

fn route_mock(_: &RequestHandler) -> HTTPResponse {
    ResponseBuilder::new(200, None).build()
}

#[test]
fn params_handler_request_try_from_ok() {
    let buffer = "POST rappel/1/att/57 HTTP/1.1\r\nContent-Length: 6\r\n\r\ntoto\r\nNN";
    let request = HTTPRequest::try_from(buffer).unwrap();
    let route: Route<Handler> = Route::new(&Verb::GET, "rappel/{id}/att/{att}", route_mock, false);
    let result = ParamsHandler::try_from((&request, route));

    assert!(result.is_ok());
    let params = result.unwrap();

    assert_eq!(params.params.get("id"), Some(&"1".to_string()));
    assert_eq!(params.params.get("att"), Some(&"57".to_string()));
    assert_eq!(params.body.unwrap(), "toto\r\n");
}

#[test]
fn extract_path_params_multiple_params() {
    let request = "base/3/another/tata";
    let template = "base/{id}/another/{name}";
    let mut expected = StringMap::new();
    expected.insert("id".to_string(), "3".to_string());
    expected.insert("name".to_string(), "tata".to_string());

    let result = extract_path_params(&request.to_string(), &template.to_string());
    assert_eq!(result, expected)
}

fn echo_id(h: &RequestHandler) -> HTTPResponse {
    let params = h.path_params();
    let id = params.get("id").cloned().unwrap_or_default();
    ResponseBuilder::new(200, Some(id)).build()
}

#[test]
fn matched_route_binds_params_and_keeps_handler_status() {
    let request = HTTPRequest::try_from("GET /items/42 HTTP/1.1\r\n\r\n").unwrap();
    let routes: Vec<Route<Handler>> = vec![Route::new(&Verb::GET, "/items/{id}", echo_id, false)];
    let config: Config<Validator> = Config::default();

    let response = handle_request(&request, routes, config);
    assert_eq!(response.code(), 200);
    let text = response.render();
    assert!(text.ends_with("\r\n42"));
}

#[test]
fn options_bypasses_table_and_lists_verbs() {
    let request = HTTPRequest::try_from("OPTIONS /anything HTTP/1.1\r\n\r\n").unwrap();
    let routes: Vec<Route<Handler>> = vec![];
    let config: Config<Validator> = Config::default();

    let response = handle_request(&request, routes, config);
    assert_eq!(response.code(), 200);
    let text = response.render();
    assert!(text.contains("Access-Control-Allow-Methods: POST, GET, DELETE, PATCH, OPTIONS\r\n"));
}

#[test]
fn unmatched_path_gives_404() {
    let request = HTTPRequest::try_from("GET /absent HTTP/1.1\r\n\r\n").unwrap();
    let routes: Vec<Route<Handler>> = vec![default_route()];
    let config: Config<Validator> = Config::default();

    let response = handle_request(&request, routes, config);
    assert_eq!(response.code(), 404);
    let lines = response.render();
    assert!(lines.starts_with("HTTP/1.1 404 NOT FOUND\r\n"));
}

fn first_handler(_: &RequestHandler) -> HTTPResponse {
    ResponseBuilder::new(200, Some("first".to_string())).build()
}

fn second_handler(_: &RequestHandler) -> HTTPResponse {
    ResponseBuilder::new(500, Some("second".to_string())).build()
}

#[test]
fn first_matching_route_wins() {
    let request = HTTPRequest::try_from("GET /same/1 HTTP/1.1\r\n\r\n").unwrap();
    let routes: Vec<Route<Handler>> = vec![
        Route::new(&Verb::GET, "/same/{a}", first_handler, false),
        Route::new(&Verb::GET, "/same/{b}", second_handler, false),
    ];
    let config: Config<Validator> = Config::default();

    let response = handle_request(&request, routes, config);
    assert_eq!(response.code(), 200);
    assert!(response.render().ends_with("first"));
}

#[test]
fn verb_must_match_for_a_route_to_be_taken() {
    let request = HTTPRequest::try_from("POST /same HTTP/1.1\r\n\r\n").unwrap();
    let routes: Vec<Route<Handler>> = vec![Route::new(&Verb::GET, "/same", first_handler, false)];
    let config: Config<Validator> = Config::default();

    let response = handle_request(&request, routes, config);
    assert_eq!(response.code(), 404);
}
