use ic_http::{next_step, not_found_response, CallMode, Params, Request, Response, RouteError, Server, Step};
use ic_http::http::canonical_method;
use ic_http_certification::HttpRequest;

type Handler = fn(&Request, &Params) -> Response;

fn request(method: &str, url: &str) -> Request {
    Request {
        method: method.to_string(),
        url: url.to_string(),
        headers: vec![],
        body: vec![],
        certificate_version: None,
    }
}

fn text_response(status_code: u16, body: &[u8]) -> Response {
    Response {
        status_code,
        headers: vec![("Content-Type".to_string(), "text/plain".to_string())],
        body: body.to_vec(),
        upgrade: false,
    }
}

fn query_param(url: &str, name: &str) -> Option<String> {
    let query = HttpRequest::get(url.to_string()).build().get_query().unwrap_or_default()?;
    let prefix = format!("{}=", name);
    query
        .split('&')
        .find_map(|pair| pair.strip_prefix(prefix.as_str()).map(|v| v.to_string()))
}

fn hello_handler(req: &Request, _params: &Params) -> Response {
    let name = query_param(&req.url, "name").unwrap_or("World".to_string());
    text_response(200, format!("Hello, {}!", name).as_bytes())
}

fn update_handler(_req: &Request, _params: &Params) -> Response {
    text_response(200, b"Processed Update")
}

fn custom_fallback_handler(_req: &Request, _params: &Params) -> Response {
    text_response(404, b"Custom Not Found")
}

fn echo_id(_req: &Request, params: &Params) -> Response {
    text_response(200, params.get("id").unwrap_or("-").as_bytes())
}

fn fixed(_req: &Request, _params: &Params) -> Response {
    text_response(200, b"fixed")
}

fn setup_server() -> Server<Handler> {
    let mut server: Server<Handler> = Server::new();
    server.route("GET", "/hello", hello_handler).unwrap();
    server.route("POST", "/update", update_handler).unwrap();
    server.with_fallback(custom_fallback_handler);
    server
}

#[test]
fn test_server_route_and_handle() {
    let mut server: Server<Handler> = Server::new();
    assert!(server.route("GET", "/hello", hello_handler).is_ok());
    let req = Request {
        method: "GET".to_string(),
        url: "/hello".to_string(),
        headers: vec![("X-Custom-Foo".to_string(), "Bar".to_string())],
        body: vec![1, 2, 3],
        certificate_version: Some(2),
    };
    let resp = server.handle(&req);
    assert_eq!(resp.status_code, 200);
    assert_eq!(resp.body, b"Hello, World!");
}

#[test]
fn test_server_get_route_and_handle() {
    let server = setup_server();
    let res = server.handle(&request("GET", "/hello"));
    assert_eq!(res.status_code, 200);
    assert_eq!(res.body, b"Hello, World!");
}

#[test]
fn test_server_post_route_and_handle() {
    let server = setup_server();
    let res = server.handle(&request("POST", "/update"));
    assert_eq!(res.status_code, 200);
    assert_eq!(res.body, b"Processed Update");
}

#[test]
fn test_server_route_not_found() {
    let server = setup_server();
    let res = server.handle(&request("GET", "/not-exist"));
    assert_eq!(res.status_code, 404);
    assert_eq!(res.body, b"Custom Not Found");
}

#[test]
fn test_server_custom_fallback() {
    let mut server = setup_server();
    server.with_fallback(custom_fallback_handler);
    let res = server.handle(&request("GET", "/not-exist"));
    assert_eq!(res.status_code, 404);
    assert_eq!(res.body, b"Custom Not Found");
}

fn ping(_req: &Request, _params: &Params) -> Response {
    Response {
        status_code: 200,
        headers: vec![("content-type".to_string(), "application/json".to_string())],
        body: br#"{"response":"pong"}"#.to_vec(),
        upgrade: false,
    }
}

#[test]
fn ping_query_scenario() {
    let mut server: Server<Handler> = Server::new();
    server.query_route("GET", "/ping", ping).unwrap();
    let res = server.query_handle(&request("GET", "/ping"));
    assert_eq!(res.status_code, 200);
    assert_eq!(res.body, br#"{"response":"pong"}"#);
}

#[test]
fn hello_update_scenario() {
    let mut server: Server<Handler> = Server::new();
    server.update_route("POST", "/hello", hello_handler).unwrap();
    let res = server.update_handle(&request("POST", "/hello?name=Alice"));
    assert_eq!(res.status_code, 200);
    assert_eq!(res.body, b"Hello, Alice!");
    let res = server.update_handle(&request("POST", "/hello"));
    assert_eq!(res.body, b"Hello, World!");
}

#[test]
fn missing_route_gets_default_fallback() {
    let server: Server<Handler> = Server::new();
    let res = server.query_handle(&request("GET", "/missing"));
    assert_eq!(res.status_code, 404);
    assert_eq!(res.body, b"Not Found!");
    assert_eq!(res.headers, vec![("Content-Type".to_string(), "text/plain".to_string())]);
    assert!(!res.upgrade);
}

#[test]
fn custom_fallback_answers_all_unmatched() {
    let mut server: Server<Handler> = Server::new();
    server.route("GET", "/ping", ping).unwrap();
    server.with_fallback(custom_fallback_handler);
    for (method, url) in [("GET", "/missing"), ("POST", "/ping"), ("GET", "/ping/x"), ("DELETE", "/")] {
        let res = server.query_handle(&request(method, url));
        assert_eq!(res.status_code, 404);
        assert_eq!(res.body, b"Custom Not Found");
    }
    assert_eq!(server.query_handle(&request("GET", "/ping")).status_code, 200);
}

#[test]
fn literal_pattern_wins_over_dynamic() {
    let mut server: Server<Handler> = Server::new();
    server.route("GET", "/a/:id", echo_id).unwrap();
    server.route("GET", "/a/fixed", fixed).unwrap();
    assert_eq!(server.handle(&request("GET", "/a/fixed")).body, b"fixed");
    assert_eq!(server.handle(&request("GET", "/a/9")).body, b"9");
}

#[test]
fn duplicate_registration_keeps_first_handler() {
    let mut server: Server<Handler> = Server::new();
    assert_eq!(server.query_route("GET", "/x", fixed), Ok(()));
    assert_eq!(server.query_route("GET", "/x", echo_id), Err(RouteError::DuplicateRoute));
    assert_eq!(server.query_route("get", "/x", echo_id), Err(RouteError::DuplicateRoute));
    assert_eq!(server.query_handle(&request("GET", "/x")).body, b"fixed");
    assert_eq!(server.update_route("GET", "/x", echo_id), Ok(()));
    assert_eq!(server.route("GET", "/x", echo_id), Err(RouteError::DuplicateRoute));
}

#[test]
fn update_only_route_is_unreachable_from_query() {
    let mut server: Server<Handler> = Server::new();
    server.update_route("POST", "/update", update_handler).unwrap();
    let res = server.query_handle(&request("POST", "/update"));
    assert_eq!(res.status_code, 404);
    assert_eq!(res.body, b"Not Found!");
    let res = server.update_handle(&request("POST", "/update"));
    assert_eq!(res.body, b"Processed Update");
}

fn provisional(_req: &Request, _params: &Params) -> Response {
    let mut r = text_response(200, b"provisional");
    r.upgrade = true;
    r
}

fn committed(_req: &Request, _params: &Params) -> Response {
    text_response(200, b"committed")
}

fn stubborn(_req: &Request, _params: &Params) -> Response {
    let mut r = text_response(200, b"stubborn");
    r.upgrade = true;
    r
}

#[test]
fn escalation_round_trip() {
    let mut server: Server<Handler> = Server::new();
    server.query_route("POST", "/counter", provisional).unwrap();
    server.update_route("POST", "/counter", committed).unwrap();
    let req = request("POST", "/counter");
    let first = server.query_handle(&req);
    assert!(first.upgrade);
    assert_eq!(next_step(CallMode::Query, &first), Step::Escalate);
    let final_response = server.handle(&req);
    assert_eq!(final_response.body, b"committed");
    let again = server.update_handle(&req);
    assert_eq!(again.body, final_response.body);
    assert_eq!(again.status_code, final_response.status_code);
}

#[test]
fn update_response_is_never_escalated_again() {
    let mut server: Server<Handler> = Server::new();
    server.route("POST", "/loop", stubborn).unwrap();
    let res = server.handle(&request("POST", "/loop"));
    assert_eq!(res.body, b"stubborn");
    assert_eq!(next_step(CallMode::Update, &res), Step::Deliver);
}

#[test]
fn next_step_decisions() {
    let plain = text_response(200, b"x");
    let mut flagged = text_response(200, b"x");
    flagged.upgrade = true;
    assert_eq!(next_step(CallMode::Query, &plain), Step::Deliver);
    assert_eq!(next_step(CallMode::Query, &flagged), Step::Escalate);
    assert_eq!(next_step(CallMode::Update, &plain), Step::Deliver);
    assert_eq!(next_step(CallMode::Update, &flagged), Step::Deliver);
}

#[test]
fn method_case_is_ignored() {
    let mut server: Server<Handler> = Server::new();
    server.route("get", "/a", fixed).unwrap();
    assert_eq!(server.handle(&request("GET", "/a")).body, b"fixed");
    assert_eq!(server.handle(&request("Get", "/a")).body, b"fixed");
}

#[test]
fn invalid_method_is_refused() {
    let mut server: Server<Handler> = Server::new();
    assert_eq!(server.route("FETCH", "/a", fixed), Err(RouteError::InvalidMethod));
    assert_eq!(server.query_route("", "/a", fixed), Err(RouteError::InvalidMethod));
    assert_eq!(server.handle(&request("GET", "/a")).status_code, 404);
}

#[test]
fn invalid_pattern_is_refused() {
    let mut server: Server<Handler> = Server::new();
    assert_eq!(
        server.route("GET", "/a//b", fixed),
        Err(RouteError::InvalidPattern(ic_http::PatternError::EmptySegment))
    );
}

#[test]
fn is_http_method_cases() {
    for m in ["GET", "post", "Put", "DELETE", "patch", "OPTIONS", "head", "TRACE", "connect"] {
        assert!(Server::<Handler>::is_http_method(m));
    }
    for m in ["", "FETCH", "GETS", " GET"] {
        assert!(!Server::<Handler>::is_http_method(m));
    }
}

#[test]
fn canonical_method_takes_upper_case_only() {
    for m in ["GET", "POST", "PUT", "DELETE", "PATCH", "OPTIONS", "HEAD", "TRACE", "CONNECT"] {
        assert!(canonical_method(m));
    }
    assert!(!canonical_method("get"));
    assert!(!canonical_method("GETX"));
    assert!(!canonical_method(""));
}

#[test]
fn percent_encoded_path_is_decoded() {
    let mut server: Server<Handler> = Server::new();
    server.route("GET", "/café/:id", echo_id).unwrap();
    assert_eq!(server.handle(&request("GET", "/caf%C3%A9/a%20b")).body, b"a b");
}

#[test]
fn absolute_url_and_query_are_handled() {
    let mut server: Server<Handler> = Server::new();
    server.route("GET", "/items/:id", echo_id).unwrap();
    assert_eq!(server.handle(&request("GET", "https://example.com/items/5?x=1")).body, b"5");
    assert_eq!(server.handle(&request("GET", "/items/5?x=1")).body, b"5");
}

#[test]
fn unparseable_url_goes_to_fallback() {
    let mut server: Server<Handler> = Server::new();
    server.route("GET", "/", fixed).unwrap();
    let res = server.handle(&request("GET", "http://[::1"));
    assert_eq!(res.status_code, 404);
    assert_eq!(res.body, b"Not Found!");
}

#[test]
fn route_serves_both_modes() {
    let mut server: Server<Handler> = Server::new();
    server.route("PUT", "/both", fixed).unwrap();
    assert_eq!(server.query_handle(&request("PUT", "/both")).body, b"fixed");
    assert_eq!(server.update_handle(&request("PUT", "/both")).body, b"fixed");
}

#[test]
fn default_not_found_response_is_exact() {
    let r = not_found_response();
    assert_eq!(r.status_code, 404);
    assert_eq!(r.body, b"Not Found!");
    assert_eq!(r.headers, vec![("Content-Type".to_string(), "text/plain".to_string())]);
    assert!(!r.upgrade);
}

#[test]
fn dispatch_with_resolved_method_and_path() {
    let mut server: Server<Handler> = Server::new();
    server.route("GET", "/a/:id", echo_id).unwrap();
    let req = request("ignored", "ignored");
    assert_eq!(server.route_request(CallMode::Query, "GET", Some("/a/3"), &req).body, b"3");
    assert_eq!(server.route_request(CallMode::Query, "get", Some("/a/3"), &req).status_code, 404);
    assert_eq!(server.route_request(CallMode::Update, "GET", None, &req).status_code, 404);
    assert_eq!(server.dispatch(CallMode::Update, &request("GET", "/a/4")).body, b"4");
}
