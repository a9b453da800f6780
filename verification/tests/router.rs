use cree::api::{RoutePattern, Router};
use cree::http::protocol::{Method, Request};

#[test]
fn a_route_is_normalized() {
    assert_eq!(RoutePattern::from("users").unwrap().full_route, b"/users".to_vec());
    assert_eq!(RoutePattern::from("/users/").unwrap().full_route, b"/users".to_vec());
    assert_eq!(RoutePattern::from("users/").unwrap().full_route, b"/users".to_vec());
    assert_eq!(RoutePattern::from("/").unwrap().full_route, b"/".to_vec());
    assert_eq!(RoutePattern::from("/a/b").unwrap().full_route, b"/a/b".to_vec());
}

#[test]
fn an_empty_route_is_refused() {
    assert_eq!(RoutePattern::from("").unwrap_err().code, 2001);
}

#[test]
fn captures_are_found_with_their_index() {
    let pattern = RoutePattern::from("/games/{year}/{month}").unwrap();
    assert_eq!(pattern.replacements, vec![(2, b"year".to_vec()), (3, b"month".to_vec())]);
    let plain = RoutePattern::from("/contact").unwrap();
    assert!(plain.replacements.is_empty());
}

#[test]
fn a_route_without_captures_matches_itself_and_binds_nothing() {
    for route in ["/", "/contact", "/a/b/c"] {
        let pattern = RoutePattern::from(route).unwrap();
        let params = pattern.match_str(route).unwrap();
        assert_eq!(params.len(), 0);
    }
}

#[test]
fn another_segment_count_does_not_match() {
    let pattern = RoutePattern::from("/users/{user_id}").unwrap();
    assert!(pattern.match_str("/users").is_none());
    assert!(pattern.match_str("/users/john/posts").is_none());
    assert!(pattern.match_str("/users/john/").is_none());
    assert!(pattern.match_str("").is_none());
}

#[test]
fn a_capture_binds_its_segment() {
    let pattern = RoutePattern::from("/users/{user_id}").unwrap();
    let params = pattern.match_str("/users/john").unwrap();
    assert_eq!(params.get(b"user_id"), Some(&b"john".to_vec()));
    assert_eq!(params.len(), 1);
    assert!(pattern.match_str("/games/john").is_none());
}

#[test]
fn two_captures_bind_two_segments() {
    let pattern = RoutePattern::from("/games/{year}/{month}").unwrap();
    let params = pattern.match_str("/games/2021/07").unwrap();
    assert_eq!(params.get(b"year"), Some(&b"2021".to_vec()));
    assert_eq!(params.get(b"month"), Some(&b"07".to_vec()));
}

#[test]
fn a_route_is_registered_once_per_method() {
    let mut router = Router::new();
    assert_eq!(router.add(Method::GET, "/a").unwrap(), 0);
    assert_eq!(router.add(Method::POST, "/a").unwrap(), 1);
    assert_eq!(router.add(Method::GET, "a/").unwrap_err().code, 2001);
    assert_eq!(router.add(Method::GET, "").unwrap_err().code, 2001);
    assert_eq!(router.routes.len(), 2);
}

#[test]
fn dispatch_takes_the_first_route_that_serves() {
    let mut router = Router::new();
    router.add(Method::GET, "/").unwrap();
    router.add(Method::GET, "/contact").unwrap();
    router.add(Method::POST, "/login").unwrap();
    assert_eq!(router.dispatch(Method::GET, b"/contact").unwrap().0, 1);
    assert_eq!(router.dispatch(Method::POST, b"/login").unwrap().0, 2);
    assert!(router.dispatch(Method::GET, b"/login").is_none());
    assert!(router.dispatch(Method::GET, b"/nothing").is_none());
}

#[test]
fn url_parameter_capture() {
    let mut router = Router::new();
    router.add(Method::GET, "/users/{user_id}").unwrap();
    let req = Request::new(b"GET /users/john?x=1 HTTP/1.1\r\n\r\n".to_vec(), b"127.0.0.1".to_vec(), 0)
        .unwrap();
    let (req, index) = router.route(req);
    assert_eq!(index, Some(0));
    assert_eq!(req.params.get(b"user_id"), Some(&b"john".to_vec()));
    assert_eq!(req.query.get(b"x"), Some(&b"1".to_vec()));
    assert_eq!(req.path, b"/users/john".to_vec());
}

#[test]
fn a_request_that_no_route_serves_keeps_no_params() {
    let mut router = Router::new();
    router.add(Method::GET, "/users/{user_id}").unwrap();
    let req = Request::new(b"GET /games HTTP/1.1\r\n\r\n".to_vec(), Vec::new(), 0).unwrap();
    let (req, index) = router.route(req);
    assert_eq!(index, None);
    assert_eq!(req.params.len(), 0);
}

#[test]
fn patterns_are_one_where_their_normalized_forms_are() {
    let a = RoutePattern::from("users/").unwrap();
    let b = RoutePattern::from("/users").unwrap();
    let c = RoutePattern::from("/user").unwrap();
    assert!(a.same_route(&b));
    assert!(!a.same_route(&c));
}

#[test]
fn a_request_is_decided_by_its_method_and_the_routes() {
    let mut router = Router::new();
    router.add(Method::GET, "/users/{user_id}").unwrap();
    let put = Request::new(b"PUT /users/john HTTP/1.1\r\n\r\n".to_vec(), Vec::new(), 0).unwrap();
    assert!(matches!(router.decide(put), cree::api::Decision::MethodNotAllowed(_)));
    let get = Request::new(b"GET /users/john HTTP/1.1\r\n\r\n".to_vec(), Vec::new(), 0).unwrap();
    match router.decide(get) {
        cree::api::Decision::Handler(index, req) => {
            assert_eq!(index, 0);
            assert_eq!(req.params.get(b"user_id"), Some(&b"john".to_vec()));
        }
        other => panic!("not routed: {:?}", other),
    }
    let post = Request::new(b"POST /users/john HTTP/1.1\r\n\r\n".to_vec(), Vec::new(), 0).unwrap();
    assert!(matches!(router.decide(post), cree::api::Decision::FallThrough(_)));
}
