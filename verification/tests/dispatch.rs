use http_server::route::{file_response, handle_request, missing_file_response, route, Action, Config};

fn no_dir() -> Config {
    Config { directory: None }
}

fn with_dir(d: &[u8]) -> Config {
    Config { directory: Some(d.to_vec()) }
}

#[test]
fn echo_round_trip_body_and_length() {
    let action = route(b"GET /echo/abc HTTP/1.1\r\n\r\n", &no_dir());
    let expected =
        b"HTTP/1.1 200 OK\r\nContent-Type: text/plain\r\nContent-Length: 3\r\n\r\nabc".to_vec();
    assert_eq!(action, Action::Write(expected));
}

#[test]
fn echo_empty_body_has_length_zero() {
    let action = route(b"GET /echo/ HTTP/1.1\r\n\r\n", &no_dir());
    let expected =
        b"HTTP/1.1 200 OK\r\nContent-Type: text/plain\r\nContent-Length: 0\r\n\r\n".to_vec();
    assert_eq!(action, Action::Write(expected));
}

#[test]
fn echo_long_body_has_multi_digit_length() {
    let action = route(b"GET /echo/0123456789ab HTTP/1.1\r\n\r\n", &no_dir());
    let expected =
        b"HTTP/1.1 200 OK\r\nContent-Type: text/plain\r\nContent-Length: 12\r\n\r\n0123456789ab"
            .to_vec();
    assert_eq!(action, Action::Write(expected));
}

#[test]
fn user_agent_is_reflected() {
    let action = route(b"GET /user-agent HTTP/1.1\r\nUser-Agent: foo-bar/1.0\r\n\r\n", &no_dir());
    let expected =
        b"HTTP/1.1 200 OK\r\nContent-Type: text/plain\r\nContent-Length: 11\r\n\r\nfoo-bar/1.0"
            .to_vec();
    assert_eq!(action, Action::Write(expected));
}

#[test]
fn user_agent_first_match_wins() {
    let action = route(
        b"GET /user-agent HTTP/1.1\r\nUser-Agent: one\r\nUser-Agent: two\r\n\r\n",
        &no_dir(),
    );
    let expected =
        b"HTTP/1.1 200 OK\r\nContent-Type: text/plain\r\nContent-Length: 3\r\n\r\none".to_vec();
    assert_eq!(action, Action::Write(expected));
}

#[test]
fn user_agent_name_match_is_case_sensitive() {
    let action = route(b"GET /user-agent HTTP/1.1\r\nuser-agent: lower\r\n\r\n", &no_dir());
    assert_eq!(action, Action::Silent);
}

#[test]
fn user_agent_without_header_is_silent() {
    let action = route(b"GET /user-agent HTTP/1.1\r\nHost: example\r\n\r\n", &no_dir());
    assert_eq!(action, Action::Silent);
}

#[test]
fn root_yields_ok_with_no_body() {
    let action = route(b"GET / HTTP/1.1\r\n\r\n", &no_dir());
    assert_eq!(action, Action::Write(b"HTTP/1.1 200 OK\r\n\r\n".to_vec()));
}

#[test]
fn unknown_path_yields_not_found() {
    let action = route(b"GET /unknown/path HTTP/1.1\r\n\r\n", &no_dir());
    assert_eq!(action, Action::Write(b"HTTP/1.1 404 Not Found\r\n\r\n".to_vec()));
}

#[test]
fn files_route_builds_the_path_and_missing_file_is_not_found() {
    let action = route(b"GET /files/missing.txt HTTP/1.1\r\n\r\n", &with_dir(b"/srv/docs"));
    assert_eq!(action, Action::ReadFile(b"/srv/docs/missing.txt".to_vec()));
    assert_eq!(missing_file_response(), b"HTTP/1.1 404 Not Found\r\n\r\n".to_vec());
}

#[test]
fn files_route_without_directory_is_a_config_error() {
    let action = route(b"GET /files/a.txt HTTP/1.1\r\n\r\n", &no_dir());
    assert_eq!(action, Action::MissingDirectory);
}

#[test]
fn file_contents_become_an_octet_stream_response() {
    let response = file_response(b"hello");
    let expected =
        b"HTTP/1.1 200 OK\r\nContent-Type: application/octet-stream\r\nContent-Length: 5\r\n\r\nhello"
            .to_vec();
    assert_eq!(response, expected);
}

#[test]
fn non_get_method_is_silent() {
    let action = route(b"POST /echo/abc HTTP/1.1\r\n\r\n", &no_dir());
    assert_eq!(action, Action::Silent);
}

#[test]
fn unparseable_request_is_a_parse_failure() {
    let action = route(b"\r\nnonsense", &no_dir());
    assert_eq!(action, Action::ParseFailure);
}

#[test]
fn truncated_request_is_routed_from_its_start_line() {
    // the header section never ends, so the start-line fallback routes it
    let action = route(b"GET / HTTP/1.1\r\nHost: example\r\n", &no_dir());
    assert_eq!(action, Action::Write(b"HTTP/1.1 200 OK\r\n\r\n".to_vec()));
}

#[test]
fn full_read_yields_uri_too_long() {
    let buffer = [b'a'; 2048];
    let action = handle_request(&buffer, buffer.len(), &no_dir());
    assert_eq!(action, Action::Write(b"HTTP/1.1 414 URI Too Long\r\n\r\n".to_vec()));
}

#[test]
fn short_read_routes_only_the_bytes_read() {
    let mut buffer = [0u8; 2048];
    let request = b"GET / HTTP/1.1\r\n\r\n";
    buffer[..request.len()].copy_from_slice(request);
    let action = handle_request(&buffer, request.len(), &no_dir());
    assert_eq!(action, Action::Write(b"HTTP/1.1 200 OK\r\n\r\n".to_vec()));
}
