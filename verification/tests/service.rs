use cree::http::codes::HTTPStatus;
use cree::http::protocol::{Request, Response};
use cree::http::Range;
use cree::php::{PHPOptions, PHPVariables, PHP};
use cree::server::{CreeOptions, CreeService, HeaderOptions};
use cree::service::{
    apply_plan, apply_script_output, content_range, is_index_file, parse_range, plan_range,
    served_window, unsatisfied_range, RangePlan, M_BYTE,
};

fn response(raw: &[u8]) -> Response {
    Response::new(Request::new(raw.to_vec(), Vec::new(), 0).unwrap())
}

#[test]
fn a_range_header_gives_its_ends() {
    assert_eq!(parse_range(b"bytes=2-5"), Some(Range::new(Some(2), Some(5))));
    assert_eq!(parse_range(b"bytes=2-"), Some(Range::new(Some(2), None)));
    assert_eq!(parse_range(b"bytes=-5"), Some(Range::new(None, Some(5))));
    assert_eq!(parse_range(b"bytes=-"), Some(Range::new(None, None)));
    assert_eq!(parse_range(b"bytes=a-b"), Some(Range::new(None, None)));
}

#[test]
fn a_header_of_another_form_gives_no_range() {
    assert_eq!(parse_range(b"items=2-5"), None);
    assert_eq!(parse_range(b"bytes"), None);
    assert_eq!(parse_range(b"bytes=5"), None);
    assert_eq!(parse_range(b"bytes=1-2=3"), None);
    assert_eq!(parse_range(b""), None);
}

#[test]
fn both_ends_give_the_window_through_the_last_byte() {
    assert_eq!(
        plan_range(Some(Range::new(Some(2), Some(5))), 10, M_BYTE),
        RangePlan::Partial { start: 2, end: 6 }
    );
}

#[test]
fn a_start_alone_gives_at_most_a_chunk() {
    assert_eq!(
        plan_range(Some(Range::new(Some(2), None)), 10, M_BYTE),
        RangePlan::Partial { start: 2, end: 10 }
    );
    assert_eq!(
        plan_range(Some(Range::new(Some(2), None)), 10, 3),
        RangePlan::Partial { start: 2, end: 5 }
    );
    assert_eq!(
        plan_range(Some(Range::new(Some(2), None)), 10, usize::MAX),
        RangePlan::Partial { start: 2, end: 10 }
    );
}

#[test]
fn an_end_alone_gives_the_last_bytes() {
    assert_eq!(
        plan_range(Some(Range::new(None, Some(3))), 10, M_BYTE),
        RangePlan::Partial { start: 7, end: 10 }
    );
}

#[test]
fn a_suffix_longer_than_the_resource_is_clamped_to_its_start() {
    assert_eq!(
        plan_range(Some(Range::new(None, Some(11))), 10, M_BYTE),
        RangePlan::Partial { start: 0, end: 10 }
    );
}

#[test]
fn a_range_without_ends_cannot_be_served() {
    assert_eq!(plan_range(Some(Range::new(None, None)), 10, M_BYTE), RangePlan::Unsatisfiable);
    let mut res = response(b"GET /a.bin HTTP/1.1\nRange: bytes=-\n\n");
    apply_plan(&mut res, RangePlan::Unsatisfiable, 10);
    assert_eq!(res.get_status(), HTTPStatus::RangeNotSatisfiable);
    assert_eq!(res.get_header(b"Content-Range"), Some(&b"*/10".to_vec()));
    assert!(res.get_body().is_empty());
}

#[test]
fn a_window_beyond_the_resource_cannot_be_served() {
    assert_eq!(plan_range(Some(Range::new(Some(2), Some(10))), 10, M_BYTE), RangePlan::Unsatisfiable);
    assert_eq!(plan_range(Some(Range::new(Some(5), Some(2))), 10, M_BYTE), RangePlan::Unsatisfiable);
    assert_eq!(plan_range(Some(Range::new(Some(10), None)), 10, M_BYTE), RangePlan::Unsatisfiable);
    assert_eq!(plan_range(Some(Range::new(Some(0), None)), 10, 0), RangePlan::Unsatisfiable);
    assert_eq!(plan_range(Some(Range::new(None, Some(0))), 10, M_BYTE), RangePlan::Unsatisfiable);
    assert_eq!(
        plan_range(Some(Range::new(Some(0), Some(usize::MAX))), 10, M_BYTE),
        RangePlan::Unsatisfiable
    );
    assert_eq!(plan_range(Some(Range::new(None, Some(3))), 0, M_BYTE), RangePlan::Unsatisfiable);
}

#[test]
fn no_range_serves_the_whole() {
    assert_eq!(plan_range(None, 10, M_BYTE), RangePlan::Whole);
    assert_eq!(served_window(RangePlan::Whole, 10), (0, 10));
    let mut res = response(b"GET /a.bin HTTP/1.1\n\n");
    apply_plan(&mut res, RangePlan::Whole, 10);
    assert_eq!(res.get_status(), HTTPStatus::Accepted);
    assert_eq!(res.get_header(b"Content-Range"), None);
}

#[test]
fn content_range_names_the_last_byte() {
    assert_eq!(content_range(2, 6, 10), b"bytes 2-5/10".to_vec());
    assert_eq!(content_range(0, 1, 1), b"bytes 0-0/1".to_vec());
    assert_eq!(unsatisfied_range(10), b"*/10".to_vec());
}

#[test]
fn range_request() {
    let resource: Vec<u8> = (0u8..=9).collect();
    let req = Request::new(b"GET /a.bin HTTP/1.1\r\nRange: bytes=2-5\r\n\r\n".to_vec(), Vec::new(), 0)
        .unwrap();
    let range = parse_range(req.headers.get(b"range").unwrap());
    let plan = plan_range(range, resource.len(), M_BYTE);
    let (start, len) = served_window(plan, resource.len());
    let mut res = Response::new(req);
    apply_plan(&mut res, plan, resource.len());
    res.write(&resource[start..start + len]).unwrap();
    assert_eq!(res.get_status(), HTTPStatus::PartialContent);
    assert_eq!(res.get_header(b"Content-Range"), Some(&b"bytes 2-5/10".to_vec()));
    assert_eq!(res.get_body(), &vec![2, 3, 4, 5]);
    let (bytes, _) = res.send(b"now", false, true).unwrap();
    assert!(bytes.starts_with(b"HTTP/1.1 206 PARTIAL_CONTENT\n"));
}

#[test]
fn the_range_of_the_whole_resource_serves_all_of_it() {
    for size in [1usize, 2, 10, 4096] {
        let header = format!("bytes=0-{}", size - 1);
        let plan = plan_range(parse_range(header.as_bytes()), size, M_BYTE);
        assert_eq!(plan, RangePlan::Partial { start: 0, end: size });
        assert_eq!(served_window(plan, size), (0, size));
        let expected = format!("bytes 0-{}/{}", size - 1, size);
        assert_eq!(content_range(0, size, size), expected.into_bytes());
    }
}

#[test]
fn an_index_file_has_the_stem_index_and_a_known_extension() {
    assert!(is_index_file(b"index", Some(b"html")));
    assert!(is_index_file(b"index", Some(b"htm")));
    assert!(is_index_file(b"index", Some(b"php")));
    assert!(!is_index_file(b"index", Some(b"txt")));
    assert!(!is_index_file(b"index", None));
    assert!(!is_index_file(b"home", Some(b"html")));
}

#[test]
fn the_headers_of_a_script_are_taken_from_its_output() {
    let mut res = response(b"GET /a.php HTTP/1.1\n\n");
    apply_script_output(&mut res, b"X-Powered-By: PHP\r\nContent-type: text/plain\r\n\r\nhello\n\nworld");
    assert_eq!(res.get_header(b"X-Powered-By"), Some(&b"PHP".to_vec()));
    assert_eq!(res.get_header(b"Content-type"), Some(&b"text/plain".to_vec()));
    assert_eq!(res.get_header(b"Content-Type"), None);
    assert_eq!(res.get_body(), &b"hello\n\nworld".to_vec());
}

#[test]
fn a_script_that_sets_no_content_type_gets_html() {
    let mut res = response(b"GET /a.php HTTP/1.1\n\n");
    apply_script_output(&mut res, b"X-A: 1\n\n<p>hi</p>");
    assert_eq!(res.get_header(b"Content-Type"), Some(&b"text/html".to_vec()));
    assert_eq!(res.get_header(b"X-A"), Some(&b"1".to_vec()));
    assert_eq!(res.get_body(), &b"<p>hi</p>".to_vec());
}

#[test]
fn output_without_headers_is_taken_as_it_is() {
    let mut res = response(b"GET /a.php HTTP/1.1\n\n");
    apply_script_output(&mut res, b"just\r\ntext");
    assert_eq!(res.get_header(b"Content-Type"), Some(&b"text/html".to_vec()));
    assert_eq!(res.get_body(), &b"just\r\ntext".to_vec());
}

#[test]
fn the_interpreter_needs_a_path() {
    assert_eq!(PHP::setup(&PHPOptions { php_path: None }).unwrap_err().code, 3000);
    let php = PHP::setup(&PHPOptions { php_path: Some(b"/usr/bin/php-cgi".to_vec()) }).unwrap();
    assert_eq!(php.interpreter_path, b"/usr/bin/php-cgi".to_vec());
}

fn variables(method: &[u8], post_data: Option<Vec<u8>>) -> PHPVariables {
    PHPVariables {
        request_method: method.to_vec(),
        post_data,
        content_type: Some(b"text/plain".to_vec()),
        content_length: Some(5),
        remote_addr: b"10.0.0.1".to_vec(),
        query_string: b"x=1".to_vec(),
        document_root: b"/srv".to_vec(),
        http_host: b"example.org".to_vec(),
        request_protocol: b"HTTP/1.1".to_vec(),
        request_uri: b"/a.php?x=1".to_vec(),
    }
}

#[test]
fn the_environment_of_a_script_lists_the_request() {
    let php = PHP::setup(&PHPOptions { php_path: Some(b"php-cgi".to_vec()) }).unwrap();
    let env = php.environment(b"/srv/a.php", b"a.php", &variables(b"POST", Some(b"hello".to_vec())));
    let expected: Vec<(&[u8], &[u8])> = vec![
        (b"REDIRECT_STATUS", b"true"),
        (b"REQUEST_METHOD", b"POST"),
        (b"SCRIPT_FILENAME", b"/srv/a.php"),
        (b"SCRIPT_NAME", b"a.php"),
        (b"SERVER_NAME", b"example.org"),
        (b"SERVER_PROTOCOL", b"HTTP/1.1"),
        (b"REQUEST_URI", b"/a.php?x=1"),
        (b"SERVER_SOFTWARE", b"Cree"),
        (b"REMOTE_ADDR", b"10.0.0.1"),
        (b"DOCUMENT_ROOT", b"/srv"),
        (b"QUERY_STRING", b"x=1"),
        (b"CONTENT_LENGTH", b"5"),
        (b"CONTENT_TYPE", b"text/plain"),
        (b"HTTP_HOST", b"example.org"),
    ];
    assert_eq!(env.len(), expected.len());
    for (got, want) in env.iter().zip(expected.iter()) {
        assert_eq!(got.0.as_slice(), want.0);
        assert_eq!(got.1.as_slice(), want.1);
    }
}

#[test]
fn the_environment_leaves_out_what_the_request_lacks() {
    let php = PHP::setup(&PHPOptions { php_path: Some(b"php-cgi".to_vec()) }).unwrap();
    let mut v = variables(b"GET", None);
    v.content_length = None;
    v.content_type = None;
    let env = php.environment(b"/srv/a.php", b"a.php", &v);
    assert_eq!(env.len(), 12);
    assert!(env.iter().all(|e| e.0 != b"CONTENT_LENGTH".to_vec() && e.0 != b"CONTENT_TYPE".to_vec()));
}

#[test]
fn only_a_post_body_goes_to_standard_input() {
    assert_eq!(
        PHP::standard_input(&variables(b"POST", Some(b"hello".to_vec()))).unwrap(),
        Some(b"hello".to_vec())
    );
    assert_eq!(PHP::standard_input(&variables(b"GET", Some(b"hello".to_vec()))).unwrap(), None);
    assert_eq!(PHP::standard_input(&variables(b"POST", None)).unwrap_err().code, 2001);
}

#[test]
fn the_configuration_has_its_defaults() {
    let options = CreeOptions::get_default();
    assert_eq!(options.effective_port(None), 80);
    assert_eq!(options.effective_port(Some(8080)), 8080);
    assert!(options.compression());
    assert_eq!(options.chunk_size(), 1048576);
    let mut options = CreeOptions::get_default();
    options.port = Some(81);
    options.use_compression = Some(false);
    options.pc_chunk_size = Some(7);
    assert_eq!(options.effective_port(None), 81);
    assert_eq!(options.effective_port(Some(82)), 82);
    assert!(!options.compression());
    assert_eq!(options.chunk_size(), 7);
}

#[test]
fn the_service_needs_an_interpreter_where_scripts_are_on() {
    let mut options = CreeOptions::get_default();
    options.enable_php = Some(true);
    assert_eq!(CreeService::new(b"/srv", options).unwrap_err().code, 3000);
    let mut options = CreeOptions::get_default();
    options.enable_php = Some(true);
    options.php_path = Some(b"php-cgi".to_vec());
    let service = CreeService::new(b"/srv", options).unwrap();
    assert_eq!(service.php_handle.unwrap().interpreter_path, b"php-cgi".to_vec());
    let service = CreeService::new(b"/srv", CreeOptions::get_default()).unwrap();
    assert!(service.php_handle.is_none());
    assert_eq!(service.root_dir, b"/srv".to_vec());
}

#[test]
fn a_blank_response_names_the_server() {
    let mut options = CreeOptions::get_default();
    options.headers = Some(HeaderOptions { content_security_policy: Some(b"default-src 'self'".to_vec()) });
    let service = CreeService::new(b"/srv", options).unwrap();
    let res = service.blank_response(Request::new(b"GET / HTTP/1.1\n\n".to_vec(), Vec::new(), 0).unwrap());
    assert_eq!(res.get_header(b"Server"), Some(&b"Cree".to_vec()));
    assert_eq!(res.get_header(b"Content-Security-Policy"), Some(&b"default-src 'self'".to_vec()));
    assert_eq!(res.get_status(), HTTPStatus::Accepted);
}

#[test]
fn the_media_type_goes_by_the_extension() {
    assert_eq!(cree::mime::get_mime_type(b"html"), "text/html");
    assert_eq!(cree::mime::get_mime_type(b"htm"), "text/html");
    assert_eq!(cree::mime::get_mime_type(b"css"), "text/css");
    assert_eq!(cree::mime::get_mime_type(b"jpeg"), "image/jpeg");
    assert_eq!(cree::mime::get_mime_type(b"bin"), "application/octet-stream");
    assert_eq!(cree::mime::get_mime_type(b""), "application/octet-stream");
    assert_eq!(cree::mime::get_mime_type(b"HTML"), "application/octet-stream");
}
