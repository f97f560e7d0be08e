use ic_http::{Params, PatternError, Request, Response, RouteError, Router};

type Handler = fn(&Request, &Params) -> Response;

fn test_handler(_req: &Request, _params: &Params) -> Response {
    Response {
        status_code: 200,
        headers: vec![("Content-Type".to_string(), "text/plain".to_string())],
        body: b"Hello, World!".to_vec(),
        upgrade: false,
    }
}

#[test]
fn test_router_route_and_find() {
    let mut router: Router<Handler> = Router::new();
    assert!(router.route("/test", "GET", test_handler).is_ok());
    assert!(router.find("/test", "GET").is_some());
    assert!(router.find("/notfound", "GET").is_none());
    assert!(router.find("/test", "POST").is_none());
}

#[test]
fn literal_beats_parameter() {
    let mut router: Router<u32> = Router::new();
    router.route("/a/:id", "GET", 1).unwrap();
    router.route("/a/fixed", "GET", 2).unwrap();
    let (v, params) = router.find("/a/fixed", "GET").unwrap();
    assert_eq!(*v, 2);
    assert_eq!(params.len(), 0);
    let (v, params) = router.find("/a/42", "GET").unwrap();
    assert_eq!(*v, 1);
    assert_eq!(params.get("id"), Some("42"));
}

#[test]
fn literal_beats_parameter_whatever_the_order() {
    let mut router: Router<u32> = Router::new();
    router.route("/a/fixed", "GET", 2).unwrap();
    router.route("/a/:id", "GET", 1).unwrap();
    assert_eq!(*router.find("/a/fixed", "GET").unwrap().0, 2);
}

#[test]
fn parameter_beats_catch_all() {
    let mut router: Router<u32> = Router::new();
    router.route("/files/*rest", "GET", 1).unwrap();
    router.route("/files/:name", "GET", 2).unwrap();
    let (v, params) = router.find("/files/x", "GET").unwrap();
    assert_eq!(*v, 2);
    assert_eq!(params.get("name"), Some("x"));
    let (v, params) = router.find("/files/x/y.css", "GET").unwrap();
    assert_eq!(*v, 1);
    assert_eq!(params.get("rest"), Some("x/y.css"));
    assert!(router.find("/files", "GET").is_none());
    assert!(router.find("/files/", "GET").is_none());
}

#[test]
fn equal_specificity_goes_to_first_registered() {
    let mut router: Router<u32> = Router::new();
    router.route("/users/:id", "GET", 1).unwrap();
    router.route("/users/:name", "GET", 2).unwrap();
    let (v, params) = router.find("/users/ann", "GET").unwrap();
    assert_eq!(*v, 1);
    assert_eq!(params.get("id"), Some("ann"));
    assert_eq!(params.get("name"), None);
}

#[test]
fn earlier_segment_decides_specificity() {
    let mut router: Router<u32> = Router::new();
    router.route("/:a/b/c", "GET", 1).unwrap();
    router.route("/x/:b/:c", "GET", 2).unwrap();
    assert_eq!(*router.find("/x/b/c", "GET").unwrap().0, 2);
    assert_eq!(*router.find("/y/b/c", "GET").unwrap().0, 1);
}

#[test]
fn duplicate_route_is_refused_and_first_stays() {
    let mut router: Router<u32> = Router::new();
    assert_eq!(router.route("/x", "GET", 1), Ok(()));
    assert_eq!(router.route("/x", "GET", 2), Err(RouteError::DuplicateRoute));
    assert_eq!(router.len(), 1);
    assert_eq!(*router.find("/x", "GET").unwrap().0, 1);
    assert_eq!(router.route("/x", "POST", 3), Ok(()));
    assert!(router.contains("/x", "POST"));
}

#[test]
fn malformed_pattern_is_refused() {
    let mut router: Router<u32> = Router::new();
    assert_eq!(
        router.route("x", "GET", 1),
        Err(RouteError::InvalidPattern(PatternError::MissingLeadingSlash))
    );
    assert_eq!(router.len(), 0);
}

#[test]
fn root_and_trailing_slash() {
    let mut router: Router<u32> = Router::new();
    router.route("/", "GET", 1).unwrap();
    router.route("/a", "GET", 2).unwrap();
    assert_eq!(*router.find("/", "GET").unwrap().0, 1);
    assert_eq!(*router.find("/a", "GET").unwrap().0, 2);
    assert!(router.find("/a/", "GET").is_none());
    assert!(router.find("", "GET").is_none());
    assert!(router.find("a", "GET").is_none());
}

#[test]
fn parameters_come_in_pattern_order() {
    let mut router: Router<u32> = Router::new();
    router.route("/users/:user/posts/:post", "GET", 7).unwrap();
    let (v, params) = router.find("/users/ann/posts/12", "GET").unwrap();
    assert_eq!(*v, 7);
    assert_eq!(params.len(), 2);
    assert_eq!(params.get("user"), Some("ann"));
    assert_eq!(params.get("post"), Some("12"));
    assert!(router.find("/users//posts/12", "GET").is_none());
}
