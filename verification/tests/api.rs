//! The HTTP codec and the REST router over it.

use rustai_os::api::http::status_text;
use rustai_os::api::http::HttpServer;
use rustai_os::api::rest::EndpointHandler;
use rustai_os::api::rest::RestEndpoint;
use rustai_os::api::rest::RestRouter;
use rustai_os::api::ApiRequest;
use rustai_os::api::ApiResponse;
use rustai_os::api::HttpMethod;

#[test]
fn parse_request_reads_method_path_headers_and_body() {
    let raw = b"GET /models?kind=linear HTTP/1.1\r\nHost: kernel.local\r\nAccept: */*\r\n\r\nhello";
    let req = HttpServer::parse_request(raw).expect("a well-formed request parses");
    assert!(matches!(req.method, HttpMethod::GET));
    assert_eq!(req.path, b"/models?kind=linear".to_vec());
    assert_eq!(req.headers.len(), 2);
    assert_eq!(req.headers[0].0, b"Host".to_vec());
    assert_eq!(req.headers[0].1, b"kernel.local".to_vec());
    assert_eq!(req.headers[1].0, b"Accept".to_vec());
    assert_eq!(req.headers[1].1, b"*/*".to_vec());
    assert_eq!(req.body, Some(b"hello".to_vec()));
}

#[test]
fn parse_request_trims_header_whitespace() {
    let raw = b"POST /x HTTP/1.1\r\nName:   padded value  \r\n\r\n";
    let req = HttpServer::parse_request(raw).expect("parses");
    assert!(matches!(req.method, HttpMethod::POST));
    assert_eq!(req.headers[0].0, b"Name".to_vec());
    assert_eq!(req.headers[0].1, b"padded value".to_vec());
    assert_eq!(req.body, Some(b"".to_vec()));
}

#[test]
fn parse_request_rejects_non_utf8_input() {
    // A well-shaped request line does not save bytes that are not text.
    let mut raw = b"GET /x HTTP/1.1\r\nHost: h\r\n\r\n".to_vec();
    raw.push(0xFF);
    raw.push(0xFE);
    assert!(HttpServer::parse_request(&raw).is_none());
    assert!(HttpServer::parse_request(b"GET /\xc3 HTTP/1.1\r\n\r\n").is_none());
}

#[test]
fn parse_request_splits_tokens_on_whitespace_runs() {
    let req = HttpServer::parse_request(b"GET  /x HTTP/1.1\r\n\r\n").expect("parses");
    assert_eq!(req.path, b"/x".to_vec());
    let tabbed = HttpServer::parse_request(b"POST\t/y HTTP/1.1\r\n\r\n").expect("parses");
    assert_eq!(tabbed.path, b"/y".to_vec());
    let leading = HttpServer::parse_request(b" GET /z HTTP/1.1\r\n\r\n").expect("parses");
    assert_eq!(leading.path, b"/z".to_vec());
}

#[test]
fn parse_request_rejects_unknown_method_or_missing_path() {
    assert!(HttpServer::parse_request(b"BREW /pot HTTP/1.1\r\n\r\n").is_none());
    assert!(HttpServer::parse_request(b"GET\r\n\r\n").is_none());
    assert!(HttpServer::parse_request(b"").is_none());
}

#[test]
fn parse_request_without_blank_line_has_no_body() {
    let req = HttpServer::parse_request(b"PUT /a HTTP/1.1\r\nHost: h").expect("parses");
    assert!(matches!(req.method, HttpMethod::PUT));
    assert_eq!(req.body, None);
    assert_eq!(req.headers[0].1, b"h".to_vec());
}

#[test]
fn format_response_builds_the_status_line_headers_and_body() {
    let response = ApiResponse {
        status: 404,
        headers: vec![(b"Content-Type".to_vec(), b"text/plain".to_vec())],
        body: Some(b"missing".to_vec()),
    };
    let bytes = HttpServer::format_response(&response);
    assert_eq!(
        bytes,
        b"HTTP/1.1 404 Not Found\r\nContent-Type: text/plain\r\n\r\nmissing".to_vec()
    );
}

#[test]
fn status_text_covers_the_known_codes() {
    assert_eq!(status_text(200), "OK");
    assert_eq!(status_text(201), "Created");
    assert_eq!(status_text(204), "No Content");
    assert_eq!(status_text(400), "Bad Request");
    assert_eq!(status_text(404), "Not Found");
    assert_eq!(status_text(500), "Internal Server Error");
    assert_eq!(status_text(503), "Service Unavailable");
    assert_eq!(status_text(42), "Unknown");
}

#[test]
fn http_server_start_and_stop() {
    let mut server = HttpServer::new("0.0.0.0", 8080);
    assert!(!server.is_running());
    server.start().unwrap();
    assert!(server.is_running());
    server.stop();
    assert!(!server.is_running());
}

fn request_for(path: &[u8], method: HttpMethod) -> ApiRequest {
    ApiRequest { path: path.to_vec(), method, headers: Vec::new(), body: None }
}

#[test]
fn router_matches_ignoring_the_query_string() {
    let mut router = RestRouter::new();
    router.add_endpoint(RestEndpoint {
        path: b"/status".to_vec(),
        method: HttpMethod::GET,
        handler: EndpointHandler::Status,
    });
    let response = router.route(&request_for(b"/status?verbose=1", HttpMethod::GET));
    assert_eq!(response.status, 200);
    assert_eq!(
        response.body,
        Some(b"{\"status\":\"ok\",\"version\":\"0.1.0\"}".to_vec())
    );
    assert_eq!(
        response.headers,
        vec![
            (b"Content-Type".to_vec(), b"application/json".to_vec()),
            (b"Content-Length".to_vec(), b"33".to_vec()),
        ]
    );
}

#[test]
fn router_answers_not_found_without_a_match() {
    let router = RestRouter::new();
    let response = router.route(&request_for(b"/nowhere", HttpMethod::GET));
    assert_eq!(response.status, 404);
    assert_eq!(response.body, Some(b"{\"error\":\"Not Found\"}".to_vec()));
}

#[test]
fn router_distinguishes_methods() {
    let mut router = RestRouter::new();
    router.add_endpoint(RestEndpoint {
        path: b"/predict".to_vec(),
        method: HttpMethod::POST,
        handler: EndpointHandler::AiPredict,
    });
    assert_eq!(router.route(&request_for(b"/predict", HttpMethod::GET)).status, 404);
    assert_eq!(router.route(&request_for(b"/predict", HttpMethod::POST)).status, 501);
}

#[test]
fn query_parameters_are_extracted_and_looked_up() {
    let router = RestRouter::new();
    let request = router.parse_request(&request_for(b"/m?a=1&b=two&flag&c=", HttpMethod::GET));
    assert_eq!(request.query_params.len(), 3);
    assert_eq!(request.get_query_param(b"a"), Some(&b"1".to_vec()));
    assert_eq!(request.get_query_param(b"b"), Some(&b"two".to_vec()));
    assert_eq!(request.get_query_param(b"c"), Some(&b"".to_vec()));
    assert_eq!(request.get_query_param(b"flag"), None);
    assert_eq!(request.get_path_param(b"a"), None);
    assert!(request.path_params.is_empty());
}

#[test]
fn matches_route_strips_the_query() {
    let router = RestRouter::new();
    assert!(router.matches_route(&b"/a/b".to_vec(), &b"/a/b?q=1".to_vec()));
    assert!(router.matches_route(&b"/a/b".to_vec(), &b"/a/b".to_vec()));
    assert!(!router.matches_route(&b"/a/b".to_vec(), &b"/a/c".to_vec()));
}
