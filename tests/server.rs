use fake_rest::content_type::mime_type;
use fake_rest::error::Error;
use fake_rest::method::Method;
use fake_rest::request::{split_target, Request};
use fake_rest::response::{FileRequest, Response, RouteEntry};
use fake_rest::status::Status;
use fake_rest::string_map::StringMap;
use fake_rest::text::get_key_value;

fn route(path: &str, method: Method, result_type: &str, result: &str) -> RouteEntry {
    RouteEntry {
        path: path.to_string(),
        method,
        headers: None,
        queries: None,
        status_code: None,
        result_type: result_type.to_string(),
        result: result.to_string(),
        result_headers: None,
    }
}

fn parse(text: &str) -> Request {
    Request::new(text.as_bytes()).expect("request parses")
}

fn header(r: &Response, key: &str) -> Option<String> {
    r.headers.get(key)
}

#[test]
fn direct_route_answers_with_body_and_headers() {
    let req = parse("GET /hello HTTP/1.1\r\nHost: localhost\r\n\r\n");
    let routes = vec![route("/hello", Method::GET, "direct", "{\"ok\":true}")];
    let resp = Response::new(&req, &routes, None).unwrap();
    assert_eq!(resp.status.code, 200);
    assert_eq!(resp.status.message, "OK");
    assert_eq!(resp.body, b"{\"ok\":true}".to_vec());
    assert_eq!(header(&resp, "Content-Length"), Some("11".to_string()));
    assert_eq!(header(&resp, "Host"), Some("localhost".to_string()));
}

#[test]
fn method_mismatch_gives_405() {
    let req = parse("POST /hello HTTP/1.1\r\nHost: localhost\r\n\r\n");
    let routes = vec![route("/hello", Method::GET, "direct", "{\"ok\":true}")];
    let resp = Response::new(&req, &routes, None).unwrap();
    assert_eq!(resp.status.code, 405);
    assert_eq!(resp.status.message, "Method Not Allowed");
    assert_eq!(resp.body, b"Method Not Allowed".to_vec());
    assert!(resp.headers.entries().is_empty());
}

#[test]
fn method_mismatch_comes_before_preconditions() {
    let req = parse("POST /item HTTP/1.1\r\n\r\n");
    let mut r = route("/item", Method::GET, "direct", "x");
    r.headers = Some(vec!["X-Key".to_string()]);
    r.queries = Some(vec!["id".to_string()]);
    let resp = Response::new(&req, &vec![r], None).unwrap();
    assert_eq!(resp.status.code, 405);
}

#[test]
fn download_sets_download_headers() {
    let req = parse("GET /dl HTTP/1.1\r\n\r\n");
    let routes = vec![route("/dl", Method::GET, "dl", "./files/report.pdf")];
    match Response::required_file(&req, &routes) {
        Some(FileRequest::Raw(p)) => assert_eq!(p, "./files/report.pdf"),
        _ => panic!("a raw file read is needed"),
    }
    let contents = vec![0x25, 0x50, 0x44, 0x46, 0xff, 0x00];
    let resp = Response::new(&req, &routes, Some(contents.clone())).unwrap();
    assert_eq!(resp.status.code, 200);
    assert_eq!(resp.body, contents);
    assert_eq!(header(&resp, "Content-Type"), Some("application/pdf".to_string()));
    assert_eq!(header(&resp, "Accept-Ranges"), Some("None".to_string()));
    assert_eq!(
        header(&resp, "Content-Disposition"),
        Some("attachment; filename=report.pdf".to_string())
    );
    assert_eq!(header(&resp, "Content-Length"), Some("6".to_string()));
}

#[test]
fn download_without_extension_has_empty_content_type() {
    let req = parse("GET /dl HTTP/1.1\r\n\r\n");
    let routes = vec![route("/dl", Method::GET, "dl", "data/README")];
    let resp = Response::new(&req, &routes, Some(b"hi".to_vec())).unwrap();
    assert_eq!(header(&resp, "Content-Type"), Some(String::new()));
    assert_eq!(
        header(&resp, "Content-Disposition"),
        Some("attachment; filename=README".to_string())
    );
}

#[test]
fn direct_and_file_never_set_disposition() {
    let req = parse("GET /a HTTP/1.1\r\n\r\n");
    let direct = vec![route("/a", Method::GET, "direct", "x")];
    let resp = Response::new(&req, &direct, None).unwrap();
    assert_eq!(header(&resp, "Content-Disposition"), None);
    let file = vec![route("/a", Method::GET, "file", "a.txt")];
    let resp = Response::new(&req, &file, Some(b"text".to_vec())).unwrap();
    assert_eq!(header(&resp, "Content-Disposition"), None);
    assert_eq!(resp.body, b"text".to_vec());
}

#[test]
fn header_line_without_colon_fails() {
    let r = Request::new(b"GET / HTTP/1.1\r\nX-Test\r\n\r\n");
    assert_eq!(r.err(), Some(Error::ParsingError));
}

#[test]
fn unknown_path_gives_404() {
    let req = parse("GET /unknown HTTP/1.1\r\n\r\n");
    let routes = vec![route("/hello", Method::GET, "direct", "x")];
    let resp = Response::new(&req, &routes, None).unwrap();
    assert_eq!(resp.status.code, 404);
    assert_eq!(resp.status.message, "Not Found");
    assert_eq!(resp.body, b"Path not found".to_vec());
    assert!(resp.headers.entries().is_empty());
}

#[test]
fn missing_required_query_fails() {
    let req = parse("GET /item HTTP/1.1\r\n\r\n");
    let mut r = route("/item", Method::GET, "direct", "x");
    r.queries = Some(vec!["id".to_string()]);
    let routes = vec![r];
    assert_eq!(Response::required_file(&req, &routes).is_none(), true);
    let out = Response::new(&req, &routes, None);
    assert_eq!(out.err(), Some(Error::ConfigRequiredQueriesError));
}

#[test]
fn present_required_query_and_header_pass() {
    let req = parse("GET /item?id=7 HTTP/1.1\r\nX-Key: k\r\n\r\n");
    let mut r = route("/item", Method::GET, "direct", "x");
    r.queries = Some(vec!["id".to_string()]);
    r.headers = Some(vec!["X-Key".to_string()]);
    let resp = Response::new(&req, &vec![r], None).unwrap();
    assert_eq!(resp.status.code, 200);
}

#[test]
fn missing_required_header_fails() {
    let req = parse("GET /item HTTP/1.1\r\nx-key: k\r\n\r\n");
    let mut r = route("/item", Method::GET, "direct", "x");
    r.headers = Some(vec!["X-Key".to_string()]);
    let out = Response::new(&req, &vec![r], None);
    assert_eq!(out.err(), Some(Error::ConfigRequiredHeadersError));
}

#[test]
fn missing_file_fails() {
    let req = parse("GET /f HTTP/1.1\r\n\r\n");
    let routes = vec![route("/f", Method::GET, "file", "nothing.txt")];
    match Response::required_file(&req, &routes) {
        Some(FileRequest::Text(p)) => assert_eq!(p, "nothing.txt"),
        _ => panic!("a text file read is needed"),
    }
    let out = Response::new(&req, &routes, None);
    assert_eq!(out.err(), Some(Error::ConfigFileOpenError));
    let dl = vec![route("/f", Method::GET, "dl", "nothing.bin")];
    assert_eq!(Response::new(&req, &dl, None).err(), Some(Error::ConfigFileOpenError));
}

#[test]
fn malformed_declared_header_fails() {
    let req = parse("GET /a HTTP/1.1\r\n\r\n");
    let mut r = route("/a", Method::GET, "direct", "x");
    r.result_headers = Some(vec!["X-Fine: 1".to_string(), "NoColon".to_string()]);
    let out = Response::new(&req, &vec![r], None);
    assert_eq!(out.err(), Some(Error::ConfigParsingError));
}

#[test]
fn declared_headers_come_last_and_win() {
    let req = parse("GET /a HTTP/1.1\r\nHost: h\r\n\r\n");
    let mut r = route("/a", Method::GET, "direct", "abc");
    r.result_headers = Some(vec![
        "Content-Type : application/json".to_string(),
        "Host: other:8080".to_string(),
    ]);
    r.status_code = Some(201);
    let resp = Response::new(&req, &vec![r], None).unwrap();
    assert_eq!(resp.status.code, 201);
    assert_eq!(resp.status.message, "Created");
    assert_eq!(header(&resp, "Content-Type"), Some("application/json".to_string()));
    assert_eq!(header(&resp, "Host"), Some("other:8080".to_string()));
    assert_eq!(header(&resp, "Content-Length"), Some("3".to_string()));
}

#[test]
fn unknown_result_type_gives_empty_body() {
    let req = parse("GET /a HTTP/1.1\r\n\r\n");
    let routes = vec![route("/a", Method::GET, "other", "x")];
    let resp = Response::new(&req, &routes, None).unwrap();
    assert!(resp.body.is_empty());
    assert_eq!(header(&resp, "Content-Length"), Some("0".to_string()));
}

#[test]
fn first_matching_route_wins() {
    let req = parse("GET /same HTTP/1.1\r\n\r\n");
    let mut second = route("/same", Method::GET, "direct", "second");
    second.status_code = Some(201);
    let routes = vec![route("/same", Method::POST, "direct", "first"), second];
    let resp = Response::new(&req, &routes, None).unwrap();
    assert_eq!(resp.status.code, 405);
    let routes = vec![
        route("/other", Method::GET, "direct", "other"),
        route("/same", Method::GET, "direct", "first"),
        route("/same", Method::GET, "direct", "second"),
    ];
    let resp = Response::new(&req, &routes, None).unwrap();
    assert_eq!(resp.body, b"first".to_vec());
}

#[test]
fn content_length_counts_bytes_not_characters() {
    let req = parse("GET /u HTTP/1.1\r\n\r\n");
    let routes = vec![route("/u", Method::GET, "direct", "h\u{e9}llo w\u{f6}rld, 1234567890")];
    let resp = Response::new(&req, &routes, None).unwrap();
    assert_eq!(resp.body.len(), 25);
    assert_eq!(header(&resp, "Content-Length"), Some("25".to_string()));
}

#[test]
fn unknown_status_codes_read_as_ok() {
    for code in [0usize, 199, 202, 299, 418, 501, 999] {
        let s = Status::from(code);
        assert_eq!(s.code, 200);
        assert_eq!(s.message, "OK");
    }
    let s = Status::from(422);
    assert_eq!((s.code, s.message.as_str()), (422, "Unprocessable Entity"));
    let s = Status::from(401);
    assert_eq!((s.code, s.message.as_str()), (401, "Unauthorized"));
}

#[test]
fn status_constructors() {
    let all = [
        (Status::ok(), 200, "OK"),
        (Status::created(), 201, "Created"),
        (Status::bad_request(), 400, "Bad Request"),
        (Status::un_athorized(), 401, "Unauthorized"),
        (Status::payment_required(), 402, "Payment Required"),
        (Status::forbidden(), 403, "Forbidden"),
        (Status::not_found(), 404, "Not Found"),
        (Status::method_not_allowed(), 405, "Method Not Allowed"),
        (Status::not_acceptable(), 406, "Not Acceptable"),
        (Status::un_processable_entity(), 422, "Unprocessable Entity"),
        (Status::internal_server_error(), 500, "Internal Server Error"),
    ];
    for (s, code, message) in all {
        assert_eq!(s.code, code);
        assert_eq!(s.message, message);
        let again = Status::from(code);
        assert_eq!(again.code, code);
        assert_eq!(again.message, message);
    }
}

#[test]
fn header_lines_are_split_and_trimmed() {
    let (k, v) = get_key_value("  Content-Type :\t text/html; charset=utf-8  ", ':').unwrap();
    assert_eq!(k, "Content-Type");
    assert_eq!(v, "text/html; charset=utf-8");
    let (k, v) = get_key_value("Host: example.com:8080", ':').unwrap();
    assert_eq!(k, "Host");
    assert_eq!(v, "example.com:8080");
    let (k, v) = get_key_value("\u{3000}K\u{a0}: \u{2003}V\u{85}", ':').unwrap();
    assert_eq!(k, "K");
    assert_eq!(v, "V");
    assert_eq!(get_key_value("no delimiter", ':').err(), Some(Error::ParsingError));
}

#[test]
fn parsed_headers_are_trimmed_and_last_wins() {
    let req = parse("GET / HTTP/1.1\r\n X-A :  one \r\nX-A: two\r\nEmpty:\r\n\r\n");
    assert_eq!(req.headers.get("X-A"), Some("two".to_string()));
    assert_eq!(req.headers.get("Empty"), Some(String::new()));
    assert_eq!(req.headers.get("x-a"), None);
}

#[test]
fn target_with_query_splits_into_path_and_parameters() {
    let (uri, qs) = split_target(&"path?a=1&b=2".to_string()).unwrap();
    assert_eq!(uri, "path");
    assert_eq!(qs.get("a"), Some("1".to_string()));
    assert_eq!(qs.get("b"), Some("2".to_string()));
    assert_eq!(qs.entries().len(), 2);
    let (uri, qs) = split_target(&"/plain".to_string()).unwrap();
    assert_eq!(uri, "/plain");
    assert!(qs.entries().is_empty());
}

#[test]
fn query_edge_cases() {
    let (uri, qs) = split_target(&"/p?a=1&a=2&b=x=y?z".to_string()).unwrap();
    assert_eq!(uri, "/p");
    assert_eq!(qs.get("a"), Some("2".to_string()));
    assert_eq!(qs.get("b"), Some("x=y?z".to_string()));
    assert_eq!(split_target(&"/p?".to_string()).err(), Some(Error::ParsingError));
    assert_eq!(split_target(&"/p?a=1&flag".to_string()).err(), Some(Error::ParsingError));
}

#[test]
fn request_line_fields() {
    let req = parse("DELETE /items/3?force=yes HTTP/1.0\r\n\r\n");
    assert_eq!(req.method, Method::DELETE);
    assert_eq!(req.uri, "/items/3");
    assert_eq!(req.version, "HTTP/1.0");
    assert_eq!(req.query_strings.get("force"), Some("yes".to_string()));
    assert!(req.headers.entries().is_empty());
}

#[test]
fn lenient_request_lines() {
    let req = parse("FETCH /x HTTP/1.1\r\n\r\n");
    assert_eq!(req.method, Method::GET);
    let req = parse("PATCH\r\n\r\n");
    assert_eq!(req.method, Method::PATCH);
    assert_eq!(req.uri, "");
    assert_eq!(req.version, "");
    let req = parse("\r\n\r\nPUT /a B\r\n\r\nignored body");
    assert_eq!(req.method, Method::PUT);
    assert_eq!(req.uri, "/a");
    assert_eq!(req.version, "B");
}

#[test]
fn malformed_request_bytes() {
    assert_eq!(Request::new(b"GET / HTTP/1.1\r\n").err(), Some(Error::IncompleteRequest));
    assert_eq!(Request::new(b"").err(), Some(Error::IncompleteRequest));
    assert_eq!(Request::new(b"GET / HTTP/1.1\n\r\n").err(), Some(Error::ParsingError));
    assert_eq!(Request::new(b"GET /\xff HTTP/1.1\r\n\r\n").err(), Some(Error::ParsingError));
    assert_eq!(
        Request::new(b"GET / HTTP/1.1\r\nK: \xc3\x28\r\n\r\n").err(),
        Some(Error::ParsingError)
    );
    assert_eq!(Request::new(b"GET /?q HTTP/1.1\r\n\r\n").err(), Some(Error::ParsingError));
}

#[test]
fn utf8_request_text_is_decoded() {
    let req = parse("GET /caf\u{e9} HTTP/1.1\r\nX-N: \u{fc}ber\r\n\r\n");
    assert_eq!(req.uri, "/caf\u{e9}");
    assert_eq!(req.headers.get("X-N"), Some("\u{fc}ber".to_string()));
}

#[test]
fn method_tokens() {
    for (t, m) in [
        ("GET", Method::GET),
        ("POST", Method::POST),
        ("PUT", Method::PUT),
        ("PATCH", Method::PATCH),
        ("OPTION", Method::OPTION),
        ("DELETE", Method::DELETE),
    ] {
        assert_eq!(Method::parse(&t.to_string()), Some(m));
        assert_eq!(Method::from_token(&t.to_string()), m);
        assert_eq!(m.name(), t);
    }
    assert_eq!(Method::parse(&"get".to_string()), None);
    assert_eq!(Method::from_token(&"".to_string()), Method::GET);
}

#[test]
fn mime_types() {
    assert_eq!(mime_type(&"pdf".to_string()), "application/pdf");
    assert_eq!(mime_type(&"json".to_string()), "application/json");
    assert_eq!(mime_type(&"png".to_string()), "image/png");
    assert_eq!(mime_type(&"PDF".to_string()), "");
    assert_eq!(mime_type(&"unknown".to_string()), "");
}

#[test]
fn string_map_replaces_earlier_values() {
    let mut m = StringMap::new();
    assert!(!m.contains_key("k"));
    m.insert("k".to_string(), "1".to_string());
    m.insert("j".to_string(), "2".to_string());
    m.insert("k".to_string(), "3".to_string());
    assert!(m.contains_key("k"));
    assert_eq!(m.get("k"), Some("3".to_string()));
    assert_eq!(m.get("j"), Some("2".to_string()));
    assert_eq!(m.get("K"), None);
}

#[test]
fn failures_become_http_responses() {
    let req = parse("GET /item HTTP/1.1\r\n\r\n");
    let mut r = route("/item", Method::GET, "direct", "x");
    r.queries = Some(vec!["id".to_string()]);
    let resp = Response::answer(&req, &vec![r], None);
    assert_eq!(resp.status.code, 400);
    assert_eq!(resp.status.message, "Bad Request");
    assert_eq!(resp.body, b"Required queries missing".to_vec());
    let routes = vec![route("/item", Method::GET, "file", "missing.txt")];
    let resp = Response::answer(&req, &routes, None);
    assert_eq!(resp.status.code, 500);
    assert_eq!(resp.body, b"File not available".to_vec());
    let routes = vec![route("/item", Method::GET, "direct", "fine")];
    let resp = Response::answer(&req, &routes, None);
    assert_eq!(resp.status.code, 200);
    assert_eq!(resp.body, b"fine".to_vec());
    let resp = Response::for_error(Error::ConfigParsingError);
    assert_eq!(resp.status.code, 500);
    assert_eq!(resp.body, b"Invalid response header".to_vec());
    let resp = Response::for_error(Error::ConfigRequiredHeadersError);
    assert_eq!(resp.status.code, 400);
    assert_eq!(resp.body, b"Required headers missing".to_vec());
}

#[test]
fn method_from_string() {
    let m: Method = "OPTION".to_string().into();
    assert_eq!(m, Method::OPTION);
    let m: Method = "TRACE".to_string().into();
    assert_eq!(m, Method::GET);
}
