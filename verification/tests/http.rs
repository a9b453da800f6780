use cree::http::codes::{get_phrase_from_code, HTTPStatus, NOT_FOUND, SERVER_ERROR};
use cree::http::protocol::{choose_encoding, Method, Request, Response};
use cree::http::{Encoding, Range, TextMap};
use cree::service::{method_not_allowed, not_found, settle_status};

fn holds(hay: &[u8], needle: &[u8]) -> bool {
    hay.windows(needle.len()).any(|w| w == needle)
}

fn request(raw: &[u8]) -> Request {
    Request::new(raw.to_vec(), b"10.0.0.1:4000".to_vec(), 1000).unwrap()
}

#[test]
fn every_status_has_its_code_and_phrase() {
    let table = [
        (HTTPStatus::OK, 200, "OK"),
        (HTTPStatus::Accepted, 202, "ACCEPTED"),
        (HTTPStatus::NoContent, 204, "NO_CONTENT"),
        (HTTPStatus::PartialContent, 206, "PARTIAL_CONTENT"),
        (HTTPStatus::BadRequest, 400, "BAD_REQUEST"),
        (HTTPStatus::Unauthorized, 401, "UNAUTHORIZED"),
        (HTTPStatus::Forbidden, 403, "FORBIDDEN"),
        (HTTPStatus::NotFound, 404, "NOT_FOUND"),
        (HTTPStatus::MethodNotAllowed, 405, "METHOD_NOT_ALLOWED"),
        (HTTPStatus::RangeNotSatisfiable, 416, "RANGE_NOT_SATISFIABLE"),
        (HTTPStatus::ServerError, 500, "SERVER_ERROR"),
    ];
    for (status, code, phrase) in table {
        assert_eq!(get_phrase_from_code(&status), Some((code, phrase.to_string())));
    }
}

#[test]
fn error_bodies_are_short_texts() {
    assert_eq!(NOT_FOUND, "404 - Page not found");
    assert_eq!(SERVER_ERROR, "500 - Server error");
}

#[test]
fn a_method_has_its_name_unless_unknown() {
    assert_eq!(Method::GET.to_string(), Some("GET".to_string()));
    assert_eq!(Method::HEAD.to_string(), Some("HEAD".to_string()));
    assert_eq!(Method::POST.to_string(), Some("POST".to_string()));
    assert_eq!(Method::Unknown.to_string(), None);
    assert_eq!(Method::from_token(b"GET"), Method::GET);
    assert_eq!(Method::from_token(b"get"), Method::Unknown);
    assert_eq!(Method::from_token(b"PUT"), Method::Unknown);
}

#[test]
fn range_new_keeps_both_ends() {
    let range = Range::new(Some(2), None);
    assert_eq!(range.from, Some(2));
    assert_eq!(range.to, None);
}

#[test]
fn a_text_map_overwrites_and_keeps_order() {
    let mut map = TextMap::new();
    map.insert(b"a".to_vec(), b"1".to_vec());
    map.insert(b"b".to_vec(), b"2".to_vec());
    map.insert(b"a".to_vec(), b"3".to_vec());
    assert_eq!(map.len(), 2);
    assert_eq!(map.get(b"a"), Some(&b"3".to_vec()));
    assert_eq!(map.get(b"b"), Some(&b"2".to_vec()));
    assert_eq!(map.get(b"c"), None);
    assert_eq!(map.entries[0].0, b"a".to_vec());
    map.remove(b"a");
    assert_eq!(map.get(b"a"), None);
    assert_eq!(map.len(), 1);
    map.remove(b"zzz");
    assert_eq!(map.len(), 1);
}

#[test]
fn a_request_is_split_into_its_parts() {
    let req = request(b"POST /a/b?x=1&y=2 HTTP/1.1\r\nHost: example.org\r\nContent-Type: text/plain\r\n\r\nhello");
    assert_eq!(req.method, Method::POST);
    assert_eq!(req.uri, b"/a/b?x=1&y=2".to_vec());
    assert_eq!(req.path, b"/a/b".to_vec());
    assert_eq!(req.query_string, b"x=1&y=2".to_vec());
    assert_eq!(req.query.get(b"x"), Some(&b"1".to_vec()));
    assert_eq!(req.query.get(b"y"), Some(&b"2".to_vec()));
    assert_eq!(req.http_info, b"HTTP/1.1".to_vec());
    assert_eq!(req.headers.get(b"host"), Some(&b"example.org".to_vec()));
    assert_eq!(req.headers.get(b"content-type"), Some(&b"text/plain".to_vec()));
    assert_eq!(req.body, b"hello".to_vec());
    assert_eq!(req.params.len(), 0);
    assert_eq!(req.remote_addr(), &b"10.0.0.1:4000".to_vec());
    assert_eq!(req.time_received(), 1000);
    assert_eq!(req.duration(1060), 60);
}

#[test]
fn a_header_is_split_at_its_first_colon() {
    let req = request(b"GET / HTTP/1.1\nHost: example.org:8080\nbroken line\nX-Empty:\n\n");
    assert_eq!(req.headers.get(b"host"), Some(&b"example.org:8080".to_vec()));
    assert_eq!(req.headers.get(b"x-empty"), Some(&Vec::new()));
    assert_eq!(req.headers.len(), 2);
}

#[test]
fn of_two_headers_with_one_name_the_later_wins() {
    let req = request(b"GET / HTTP/1.1\nA: 1\nB: 2\na: 3\n\n");
    assert_eq!(req.headers.get(b"a"), Some(&b"3".to_vec()));
    assert_eq!(req.headers.len(), 2);
}

#[test]
fn a_query_piece_without_a_value_has_an_empty_one() {
    let req = request(b"GET /s?flag&k=v&&k=w HTTP/1.1\n\n");
    assert_eq!(req.query.get(b"flag"), Some(&Vec::new()));
    assert_eq!(req.query.get(b"k"), Some(&b"w".to_vec()));
    assert_eq!(req.query.len(), 2);
}

#[test]
fn the_body_is_what_follows_the_first_empty_line() {
    let req = request(b"POST / HTTP/1.1\r\n\r\na\r\n\r\nb");
    assert_eq!(req.body, b"a\n\nb".to_vec());
}

#[test]
fn an_unknown_method_is_no_parse_failure() {
    let req = request(b"PUT / HTTP/1.1\r\n\r\n");
    assert_eq!(req.method, Method::Unknown);
}

#[test]
fn a_request_line_needs_three_words() {
    for raw in [&b""[..], b"   \r\n", b"GET", b"GET /", b"GET /\nHTTP/1.1"] {
        let err = Request::new(raw.to_vec(), Vec::new(), 0).unwrap_err();
        assert_eq!(err.code, 2001);
    }
}

#[test]
fn a_new_response_is_accepted_and_empty() {
    let res = Response::new(request(b"GET / HTTP/1.1\n\n"));
    assert_eq!(res.get_status(), HTTPStatus::Accepted);
    assert!(!res.is_fulfilled());
    assert!(res.get_body().is_empty());
    assert!(res.read_body().is_empty());
    assert!(res.get_headers().is_empty());
}

#[test]
fn headers_are_written_a_line_each() {
    let mut res = Response::new(request(b"GET / HTTP/1.1\n\n"));
    res.set_header(b"X-One", b"1");
    res.set_header(b"X-Bare", b"");
    res.set_header(b"X-One", b"2");
    assert_eq!(res.get_headers(), b"X-One: 2\nX-Bare\n".to_vec());
    assert_eq!(res.get_header(b"X-One"), Some(&b"2".to_vec()));
    res.remove_header(b"X-One");
    assert_eq!(res.get_header(b"X-One"), None);
    assert_eq!(res.get_headers(), b"X-Bare\n".to_vec());
}

#[test]
fn plain_http_echo() {
    let mut res = Response::new(request(b"GET / HTTP/1.1\r\nHost: x\r\n\r\n"));
    res.write(b"Hello").unwrap();
    settle_status(&mut res);
    let (bytes, used) = res.send(b"Tue, 27 Oct 2026 10:00:00 UTC", false, true).unwrap();
    assert_eq!(used, None);
    assert!(bytes.starts_with(b"HTTP/1.1 200 OK\n"));
    assert!(holds(&bytes, b"\nContent-Length: 5\n"));
    assert!(holds(&bytes, b"\nConnection: keep-alive\n"));
    assert!(holds(&bytes, b"\nDate: Tue, 27 Oct 2026 10:00:00 UTC\n"));
    assert!(bytes.ends_with(b"\n\nHello"));
    assert_eq!(
        bytes,
        b"HTTP/1.1 200 OK\nDate: Tue, 27 Oct 2026 10:00:00 UTC\nConnection: keep-alive\nContent-Length: 5\n\nHello"
            .to_vec()
    );
}

#[test]
fn a_response_is_sent_once() {
    let mut res = Response::new(request(b"GET / HTTP/1.1\n\n"));
    res.write(b"a").unwrap();
    assert!(res.send(b"now", false, false).is_ok());
    assert!(res.is_fulfilled());
    assert_eq!(res.send(b"now", false, false).unwrap_err().code, 2000);
    assert_eq!(res.finish(b"now", false, None).unwrap_err().code, 2000);
    assert_eq!(res.write(b"b").unwrap_err().code, 2000);
    assert_eq!(res.get_body(), &b"a".to_vec());
}

#[test]
fn the_last_response_closes_the_connection() {
    let mut res = Response::new(request(b"GET / HTTP/1.1\n\n"));
    let (bytes, _) = res.send(b"now", true, true).unwrap();
    assert!(holds(&bytes, b"\nConnection: close\n"));
    assert!(!holds(&bytes, b"keep-alive"));
}

#[test]
fn the_answer_to_head_has_no_body() {
    let mut res = Response::new(request(b"HEAD / HTTP/1.1\n\n"));
    res.write(b"Hello").unwrap();
    let (bytes, _) = res.send(b"now", false, true).unwrap();
    assert!(holds(&bytes, b"\nContent-Length: 5\n"));
    assert!(bytes.ends_with(b"\n\n"));
    assert!(!holds(&bytes, b"Hello"));
}

#[test]
fn content_length_is_the_length_of_the_body_that_is_sent() {
    for len in [0usize, 1, 999, 1000, 1001, 5000] {
        let mut res = Response::new(request(b"GET / HTTP/1.1\nAccept-Encoding: gzip, deflate\n\n"));
        res.write(&vec![b'a'; len]).unwrap();
        let (bytes, _) = res.send(b"now", false, true).unwrap();
        let sent = res.get_body().clone();
        assert!(bytes.ends_with(&sent));
        let line = format!("\nContent-Length: {}\n", sent.len());
        assert!(holds(&bytes, line.as_bytes()));
        let head = &bytes[..bytes.len() - sent.len()];
        assert!(head.ends_with(b"\n\n"));
    }
}

#[test]
fn gzip_negotiation() {
    let mut res = Response::new(request(b"GET / HTTP/1.1\r\nAccept-Encoding: gzip, deflate\r\n\r\n"));
    let plain = vec![b'x'; 2000];
    res.write(&plain).unwrap();
    let (bytes, used) = res.send(b"now", false, true).unwrap();
    assert_eq!(used, Some(Encoding::Gzip));
    assert!(holds(&bytes, b"\nContent-Encoding: gzip\n"));
    let body = res.get_body().clone();
    assert!(body.len() < 2000);
    assert!(bytes.ends_with(&body));
    let mut decoder = libflate::gzip::Decoder::new(&body[..]).unwrap();
    let mut decoded = Vec::new();
    std::io::Read::read_to_end(&mut decoder, &mut decoded).unwrap();
    assert_eq!(decoded, plain);
}

#[test]
fn deflate_is_used_for_a_short_body() {
    let mut res = Response::new(request(b"GET / HTTP/1.1\nAccept-Encoding: gzip, DEFLATE \n\n"));
    let plain = vec![b'y'; 500];
    res.write(&plain).unwrap();
    let (bytes, used) = res.send(b"now", false, true).unwrap();
    assert_eq!(used, Some(Encoding::Deflate));
    assert!(holds(&bytes, b"\nContent-Encoding: deflate\n"));
    let body = res.get_body().clone();
    assert_ne!(body, plain);
    let mut decoder = libflate::deflate::Decoder::new(&body[..]);
    let mut decoded = Vec::new();
    std::io::Read::read_to_end(&mut decoder, &mut decoded).unwrap();
    assert_eq!(decoded, plain);
}

#[test]
fn the_encoding_is_chosen_by_length_and_acceptance() {
    let both = b"gzip, deflate".to_vec();
    let gzip = b"GZip".to_vec();
    let deflate = b" deflate ,br".to_vec();
    let other = b"br".to_vec();
    assert_eq!(choose_encoding(Some(&both), 1001, true), Some(Encoding::Gzip));
    assert_eq!(choose_encoding(Some(&both), 1000, true), Some(Encoding::Deflate));
    assert_eq!(choose_encoding(Some(&gzip), 1001, true), Some(Encoding::Gzip));
    assert_eq!(choose_encoding(Some(&gzip), 1000, true), None);
    assert_eq!(choose_encoding(Some(&deflate), 5000, true), Some(Encoding::Deflate));
    assert_eq!(choose_encoding(Some(&other), 5000, true), None);
    assert_eq!(choose_encoding(None, 5000, true), None);
    assert_eq!(choose_encoding(Some(&both), 5000, false), None);
}

#[test]
fn finish_takes_an_encoded_body_as_it_is_given() {
    let mut res = Response::new(request(b"GET / HTTP/1.1\n\n"));
    res.write(b"Hello").unwrap();
    res.set_status(HTTPStatus::OK);
    let bytes = res.finish(b"now", true, Some((Encoding::Deflate, vec![1, 2, 3]))).unwrap();
    assert_eq!(
        bytes,
        [
            &b"HTTP/1.1 200 OK\nDate: now\nConnection: close\nContent-Encoding: deflate\nContent-Length: 3\n\n"[..],
            &[1, 2, 3][..]
        ]
        .concat()
    );
}

#[test]
fn method_not_allowed_scenario() {
    let req = request(b"PUT / HTTP/1.1\r\n\r\n");
    assert_eq!(req.method, Method::Unknown);
    let mut res = method_not_allowed(req);
    assert_eq!(res.get_status(), HTTPStatus::MethodNotAllowed);
    let (bytes, _) = res.send(b"now", false, true).unwrap();
    assert!(bytes.starts_with(b"HTTP/1.1 405 METHOD_NOT_ALLOWED\n"));
    assert!(holds(&bytes, b"\nAllow: GET,HEAD,POST\n"));
    assert!(holds(&bytes, b"\nContent-Length: 0\n"));
    assert!(bytes.ends_with(b"\n\n"));
    assert!(res.get_body().is_empty());
}

#[test]
fn not_found_has_a_short_body() {
    let res = not_found(request(b"GET /x HTTP/1.1\n\n"), "Not found");
    assert_eq!(res.get_status(), HTTPStatus::NotFound);
    assert_eq!(res.get_body(), &b"Not found".to_vec());
    let res = not_found(request(b"GET /x HTTP/1.1\n\n"), NOT_FOUND);
    assert_eq!(res.get_body(), &b"404 - Page not found".to_vec());
}

#[test]
fn settle_status_turns_accepted_into_ok_only() {
    let mut res = Response::new(request(b"GET / HTTP/1.1\n\n"));
    settle_status(&mut res);
    assert_eq!(res.get_status(), HTTPStatus::OK);
    res.set_status(HTTPStatus::Forbidden);
    settle_status(&mut res);
    assert_eq!(res.get_status(), HTTPStatus::Forbidden);
}

#[test]
fn duration_saturates() {
    let req = Request::new(b"GET / HTTP/1.1\n\n".to_vec(), Vec::new(), i64::MIN).unwrap();
    assert_eq!(req.duration(1), i64::MAX);
    let req = Request::new(b"GET / HTTP/1.1\n\n".to_vec(), Vec::new(), i64::MAX).unwrap();
    assert_eq!(req.duration(-2), i64::MIN);
    assert_eq!(req.duration(i64::MAX), 0);
}

#[test]
fn a_server_error_tells_nothing_of_the_failure() {
    let res = cree::service::server_error(request(b"GET /x HTTP/1.1\n\n"));
    assert_eq!(res.get_status(), HTTPStatus::ServerError);
    assert_eq!(res.get_body(), &b"500 - Server error".to_vec());
    assert!(res.get_headers().is_empty());
}
