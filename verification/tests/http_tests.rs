use high_performance_server::http::{HttpParser, Method, Request, Response, Status};

#[test]
fn test_http_parser_simple_get() {
    let mut parser = HttpParser::new();
    let request_data = b"GET /index.html HTTP/1.1\r\nHost: example.com\r\n\r\n";

    parser.parse(request_data).unwrap();
    assert!(parser.is_complete());

    let request = parser.get_request().unwrap();
    assert_eq!(request.method, Method::Get);
    assert_eq!(request.uri, "/index.html");
    assert_eq!(request.headers.get("host").unwrap(), "example.com");
    assert_eq!(request.body.len(), 0);
}

#[test]
fn test_http_parser_post_with_body() {
    let mut parser = HttpParser::new();
    let request_data = b"POST /submit HTTP/1.1\r\nHost: example.com\r\nContent-Type: application/json\r\nContent-Length: 15\r\n\r\n{\"name\":\"test\"}";

    parser.parse(request_data).unwrap();
    assert!(parser.is_complete());

    let request = parser.get_request().unwrap();
    assert_eq!(request.method, Method::Post);
    assert_eq!(request.uri, "/submit");
    assert_eq!(request.headers.get("content-type").unwrap(), "application/json");
    assert_eq!(request.headers.get("content-length").unwrap(), "15");
    assert_eq!(request.body, b"{\"name\":\"test\"}");
}

#[test]
fn test_http_parser_multiple_headers() {
    let mut parser = HttpParser::new();
    let request_data = b"GET /api/data HTTP/1.1\r\n\
                        Host: example.com\r\n\
                        User-Agent: Test Client\r\n\
                        Accept: application/json\r\n\
                        Accept-Language: en-US\r\n\
                        Cookie: session=abc123\r\n\
                        \r\n";

    parser.parse(request_data).unwrap();
    assert!(parser.is_complete());

    let request = parser.get_request().unwrap();
    assert_eq!(request.method, Method::Get);
    assert_eq!(request.uri, "/api/data");
    assert_eq!(request.headers.get("host").unwrap(), "example.com");
    assert_eq!(request.headers.get("user-agent").unwrap(), "Test Client");
    assert_eq!(request.headers.get("accept").unwrap(), "application/json");
    assert_eq!(request.headers.get("accept-language").unwrap(), "en-US");
    assert_eq!(request.headers.get("cookie").unwrap(), "session=abc123");
}

#[test]
fn test_http_parser_reset() {
    let mut parser = HttpParser::new();

    // Parse a first request
    parser.parse(b"GET / HTTP/1.1\r\nHost: example.com\r\n\r\n").unwrap();
    assert!(parser.is_complete());

    // Reset the parser
    parser.reset();
    assert!(!parser.is_complete());

    // Parse a second request
    parser.parse(b"POST / HTTP/1.1\r\nHost: example.com\r\n\r\n").unwrap();
    assert!(parser.is_complete());

    let request = parser.get_request().unwrap();
    assert_eq!(request.method, Method::Post);
}

#[test]
fn test_request_methods() {
    let mut request = Request::new(Method::Get, "/api/data");

    request.set_header("Content-Type", "application/json");
    request.set_body(b"{\"query\":\"test\"}");

    assert_eq!(request.method, Method::Get);
    assert_eq!(request.uri, "/api/data");
    assert_eq!(request.get_header("content-type").unwrap(), "application/json");
    assert_eq!(request.get_header("content-length").unwrap(), "16");
    assert_eq!(request.body, b"{\"query\":\"test\"}");
}

#[test]
fn test_response_creation_and_serialization() {
    let mut response = Response::new(Status::Okay);
    response.set_header("Content-Type", "text/plain");
    response.set_body(b"Hello, World!");

    let mut buffer = Vec::new();
    response.serialize(&mut buffer).unwrap();

    let response_str = String::from_utf8_lossy(&buffer);
    assert!(response_str.starts_with("HTTP/1.1 200 OK\r\n"));
    assert!(response_str.contains("Content-Type: text/plain\r\n"));
    assert!(response_str.contains("Content-Length: 13\r\n"));
    assert!(response_str.ends_with("\r\n\r\nHello, World!"));
}

#[test]
fn test_different_status_codes() {
    let statuses = vec![
        (Status::Okay, 200, "OK"),
        (Status::Created, 201, "Created"),
        (Status::BadRequest, 400, "Bad Request"),
        (Status::NotFound, 404, "Not Found"),
        (Status::InternalServerError, 500, "Internal Server Error"),
    ];

    for (status, code, text) in statuses {
        let response = Response::new(status);

        let mut buffer = Vec::new();
        response.serialize(&mut buffer).unwrap();

        let response_str = String::from_utf8_lossy(&buffer);
        assert!(response_str.starts_with(&format!("HTTP/1.1 {} {}\r\n", code, text)));
    }
}

#[test]
fn test_method_round_trip_all() {
    // Every supported method parses back from its own wire name.
    let methods = vec![
        Method::Get,
        Method::Head,
        Method::Post,
        Method::Put,
        Method::Delete,
        Method::Options,
        Method::Trace,
        Method::Connect,
        Method::Patch,
    ];
    for m in methods {
        assert_eq!(Method::from_str(m.as_str()).unwrap(), m);
    }
}

#[test]
fn test_method_unknown_is_error() {
    let r = Method::from_str("FETCH");
    assert!(matches!(
        r,
        Err(high_performance_server::error::ServerError::HttpParse(_))
    ));
}

#[test]
fn test_parser_rejects_invalid_utf8() {
    let mut parser = HttpParser::new();
    let bad = [0xffu8, 0xfe, 0xfd];
    let r = parser.parse(&bad);
    assert!(matches!(
        r,
        Err(high_performance_server::error::ServerError::HttpParse(_))
    ));
}

#[test]
fn test_parser_rejects_bad_request_line() {
    let mut parser = HttpParser::new();
    let r = parser.parse(b"GET /\r\nHost: x\r\n\r\n");
    assert!(matches!(
        r,
        Err(high_performance_server::error::ServerError::HttpParse(_))
    ));
}

#[test]
fn test_parser_rejects_header_without_colon() {
    let mut parser = HttpParser::new();
    let r = parser.parse(b"GET / HTTP/1.1\r\nBadHeader\r\n\r\n");
    assert!(matches!(
        r,
        Err(high_performance_server::error::ServerError::HttpParse(_))
    ));
}

#[test]
fn test_parser_body_across_chunks() {
    // A chunk with the head and part of the body, then the rest of the body.
    let mut parser = HttpParser::new();
    parser
        .parse(b"POST /u HTTP/1.1\r\nContent-Length: 10\r\n\r\n01234")
        .unwrap();
    assert!(!parser.is_complete());
    parser.parse(b"56789").unwrap();
    assert!(parser.is_complete());
    let request = parser.get_request().unwrap();
    assert_eq!(request.body, b"0123456789");
}

#[test]
fn test_parser_non_ascii_uri() {
    // A URI with a character outside ASCII survives parsing intact.
    let data = "GET /h\u{e9}llo HTTP/1.1\r\nHost: x\r\n\r\n".as_bytes();
    let mut parser = HttpParser::new();
    parser.parse(data).unwrap();
    let request = parser.get_request().unwrap();
    assert_eq!(request.uri, "/h\u{e9}llo");
}

#[test]
fn test_get_request_before_complete_is_error() {
    let parser = HttpParser::new();
    let r = parser.get_request();
    assert!(matches!(
        r,
        Err(high_performance_server::error::ServerError::HttpParse(_))
    ));
}

#[test]
fn test_query_params() {
    let request = Request::new(Method::Get, "/search?q=verus&flag&page=2");
    assert_eq!(request.query_params.get("q").unwrap(), "verus");
    assert_eq!(request.query_params.get("flag").unwrap(), "");
    assert_eq!(request.query_params.get("page").unwrap(), "2");
    assert!(request.query_params.get("missing").is_none());
}

#[test]
fn test_request_header_case_insensitive() {
    // Names are lowercased on insert, and lookups fold case the same way,
    // so a lookup in any case finds the value.
    let mut request = Request::new(Method::Get, "/");
    request.set_header("HoSt", "example.org");
    assert_eq!(request.get_header("hOsT").unwrap(), "example.org");
    assert_eq!(request.headers.get("host").unwrap(), "example.org");
}

#[test]
fn test_response_set_body_keeps_existing_content_type() {
    let mut response = Response::new(Status::Okay);
    response.set_header("Content-Type", "application/json");
    response.set_body(b"{}");
    let mut buffer = Vec::new();
    response.serialize(&mut buffer).unwrap();
    let s = String::from_utf8_lossy(&buffer);
    assert!(s.contains("Content-Type: application/json\r\n"));
    assert!(!s.contains("text/plain"));
    assert!(s.contains("Content-Length: 2\r\n"));
}

#[test]
fn test_status_codes_and_reasons() {
    assert_eq!(Status::Continue.code(), 100);
    assert_eq!(Status::NoContent.code(), 204);
    assert_eq!(Status::RequestTimeout.code(), 408);
    assert_eq!(Status::RequestTimeout.as_str(), "Request Timeout");
    assert_eq!(Status::ServiceUnavailable.code(), 503);
    assert_eq!(Status::ServiceUnavailable.as_str(), "Service Unavailable");
}
