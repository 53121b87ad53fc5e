use high_performance_server::buffer::Buffer;
use high_performance_server::config::ServerConfig;
use high_performance_server::connection::{is_timed_out, is_terminal, ConnectionState};
use high_performance_server::event_loop::{
    after_write, classify_event, drive_parser, queue_response, EVENT_ERR, EVENT_HUP, EVENT_READ,
    EVENT_WRITE,
};
use high_performance_server::http::{HttpParser, Method, Response, Status};

#[test]
fn test_config_defaults() {
    let config = ServerConfig::new();
    assert_eq!(config.listen_address, "127.0.0.1");
    assert_eq!(config.port, 8080);
    assert_eq!(config.backlog_size, 1024);
    assert_eq!(config.connection_timeout_ms, 30000);
    assert_eq!(config.initial_buffer_size, 16 * 1024);
    assert!(config.worker_threads >= 1);
    assert_eq!(config.max_request_size, 1024 * 1024);
}

#[test]
fn test_config_builders() {
    let config = ServerConfig::new()
        .with_address("0.0.0.0", 9000)
        .with_connection_timeout(5000)
        .with_worker_threads(4)
        .with_initial_buffer_size(4096);
    assert_eq!(config.listen_address, "0.0.0.0");
    assert_eq!(config.port, 9000);
    assert_eq!(config.connection_timeout_ms, 5000);
    assert_eq!(config.worker_threads, 4);
    assert_eq!(config.initial_buffer_size, 4096);
    assert_eq!(config.socket_address(), "0.0.0.0:9000");
}

#[test]
fn test_socket_address_formatting() {
    let config = ServerConfig::new();
    assert_eq!(config.socket_address(), "127.0.0.1:8080");
}

#[test]
fn test_classify_event_bits() {
    assert_eq!(classify_event(EVENT_READ), (true, false, false));
    assert_eq!(classify_event(EVENT_WRITE), (false, true, false));
    assert_eq!(classify_event(EVENT_READ | EVENT_WRITE), (true, true, false));
    assert_eq!(classify_event(EVENT_HUP), (false, false, true));
    assert_eq!(classify_event(EVENT_ERR), (false, false, true));
    assert_eq!(classify_event(0), (false, false, false));
}

#[test]
fn test_timeout_check() {
    assert!(!is_timed_out(1000, 1000, 30000));
    assert!(!is_timed_out(1000, 31000, 30000));
    assert!(is_timed_out(1000, 31001, 30000));
    // A clock that moved backwards counts as recent activity
    assert!(!is_timed_out(5000, 1000, 100));
}

#[test]
fn test_terminal_states() {
    assert!(!is_terminal(ConnectionState::New));
    assert!(!is_terminal(ConnectionState::Reading));
    assert!(!is_terminal(ConnectionState::Writing));
    assert!(is_terminal(ConnectionState::Closing));
    assert!(is_terminal(ConnectionState::Closed));
}

#[test]
fn test_drive_parser_complete_request() {
    let mut parser = HttpParser::new();
    let out = drive_parser(&mut parser, b"GET /x HTTP/1.1\r\nHost: h\r\n\r\n").unwrap();
    let request = out.expect("request should be complete");
    assert_eq!(request.method, Method::Get);
    assert_eq!(request.uri, "/x");
    // the parser was reset for the next request
    assert!(!parser.is_complete());
}

#[test]
fn test_drive_parser_partial_request() {
    let mut parser = HttpParser::new();
    let out = drive_parser(
        &mut parser,
        b"POST /x HTTP/1.1\r\nContent-Length: 4\r\n\r\nab",
    )
    .unwrap();
    assert!(out.is_none());
    let out = drive_parser(&mut parser, b"cd").unwrap();
    let request = out.expect("request should now be complete");
    assert_eq!(request.body, b"abcd");
}

#[test]
fn test_queue_response_and_write_bookkeeping() {
    let mut buffer = Buffer::new(64);
    let mut response = Response::new(Status::Okay);
    response.set_body(b"Hello, World!");
    queue_response(&mut buffer, &response).unwrap();
    let serialized = String::from_utf8_lossy(buffer.slice()).to_string();
    assert!(serialized.starts_with("HTTP/1.1 200 OK\r\n"));
    assert!(serialized.ends_with("\r\n\r\nHello, World!"));

    // Write part of it, then the rest: the state goes back to Reading only
    // once the buffer drains.
    let total = buffer.available_data();
    let state = after_write(&mut buffer, total - 5).unwrap();
    assert_eq!(state, ConnectionState::Writing);
    let state = after_write(&mut buffer, 5).unwrap();
    assert_eq!(state, ConnectionState::Reading);
    assert_eq!(buffer.available_data(), 0);
}

#[test]
fn test_after_write_too_many_bytes_is_error() {
    let mut buffer = Buffer::new(16);
    buffer.write(b"abc").unwrap();
    assert!(matches!(
        after_write(&mut buffer, 4),
        Err(high_performance_server::error::ServerError::Buffer(_))
    ));
}
