use http_server::parse::{parse, parse_request, parse_start_line, Parsed};
use http_server::token::{is_horizontal_space, is_not_space, is_space, is_token, is_version, not_line_ending};

#[test]
fn token_class_accepts_method_bytes() {
    assert!(is_token(b'G'));
    assert!(is_token(b'E'));
    assert!(is_token(b'T'));
    assert!(is_token(b'-'));
    assert!(is_token(b'~'));
}

#[test]
fn token_class_rejects_separators_controls_and_space() {
    for c in [b'(', b')', b'<', b'>', b'@', b',', b';', b':', b'\\', b'"', b'/', b'[', b']', b'?', b'=', b'{', b'}', b' '] {
        assert!(!is_token(c));
    }
    assert!(!is_token(0x00));
    assert!(!is_token(0x1f));
    assert!(!is_token(0x7f));
    assert!(!is_token(0x80));
    assert!(!is_token(0xff));
}

#[test]
fn byte_classes_match_their_definitions() {
    assert!(is_space(b' ') && !is_space(b'\t'));
    assert!(is_not_space(b'x') && !is_not_space(b' '));
    assert!(is_horizontal_space(b' ') && is_horizontal_space(b'\t') && !is_horizontal_space(b'x'));
    assert!(is_version(b'0') && is_version(b'9') && is_version(b'.') && !is_version(b'p'));
    assert!(not_line_ending(b'a') && !not_line_ending(b'\r') && !not_line_ending(b'\n'));
}

#[test]
fn well_formed_request_parses_exactly() {
    let input = b"GET /index.html HTTP/1.1\r\nHost: example\r\nAccept: text/plain\r\n\r\n";
    let (rl, headers) = parse(input).unwrap();
    assert_eq!(rl.method, b"GET".to_vec());
    assert_eq!(rl.uri, b"/index.html".to_vec());
    assert_eq!(rl.version, b"1.1".to_vec());
    assert_eq!(headers.len(), 2);
    assert_eq!(headers[0].name, b"Host".to_vec());
    assert_eq!(headers[0].values, vec![b"example".to_vec()]);
    assert_eq!(headers[1].name, b"Accept".to_vec());
    assert_eq!(headers[1].values, vec![b"text/plain".to_vec()]);
}

#[test]
fn header_order_and_repeats_are_preserved() {
    let input = b"GET / HTTP/1.1\r\nA: one\r\nB: two\r\nA: three\r\n\r\n";
    let (_, headers) = parse(input).unwrap();
    let names: Vec<Vec<u8>> = headers.iter().map(|h| h.name.clone()).collect();
    assert_eq!(names, vec![b"A".to_vec(), b"B".to_vec(), b"A".to_vec()]);
    assert_eq!(headers[0].values, vec![b"one".to_vec()]);
    assert_eq!(headers[2].values, vec![b"three".to_vec()]);
}

#[test]
fn folded_header_accumulates_value_lines() {
    let input = b"GET / HTTP/1.1\r\nX-Long: first\r\n\tsecond\r\n continued\r\n\r\n";
    let (_, headers) = parse(input).unwrap();
    assert_eq!(headers.len(), 1);
    assert_eq!(headers[0].name, b"X-Long".to_vec());
    assert_eq!(
        headers[0].values,
        vec![b"first".to_vec(), b"second".to_vec(), b"continued".to_vec()]
    );
}

#[test]
fn bare_newline_terminators_are_accepted() {
    let input = b"GET / HTTP/1.1\nHost: a\n\n";
    let (rl, headers) = parse(input).unwrap();
    assert_eq!(rl.uri, b"/".to_vec());
    assert_eq!(headers.len(), 1);
    assert_eq!(headers[0].values, vec![b"a".to_vec()]);
}

#[test]
fn missing_blank_line_fails_full_parse_but_start_line_stands() {
    let input = b"GET /late HTTP/1.1\r\nHost: example\r\n";
    assert!(parse(input).is_err());
    let rl = parse_start_line(input).unwrap();
    assert_eq!(rl.method, b"GET".to_vec());
    assert_eq!(rl.uri, b"/late".to_vec());
    match parse_request(input) {
        Parsed::StartLineOnly(rl) => assert_eq!(rl.uri, b"/late".to_vec()),
        _ => panic!("expected the start-line fallback"),
    }
}

#[test]
fn header_line_without_value_fails_full_parse() {
    let input = b"GET / HTTP/1.1\r\nHost:\r\n\r\n";
    assert!(parse(input).is_err());
    assert!(matches!(parse_request(input), Parsed::StartLineOnly(_)));
}

#[test]
fn two_spaces_in_start_line_are_rejected() {
    let input = b"GET  / HTTP/1.1\r\n\r\n";
    assert!(parse(input).is_err());
    assert!(parse_start_line(input).is_err());
    assert!(matches!(parse_request(input), Parsed::Unparseable));
}

#[test]
fn bad_version_tag_is_rejected() {
    let input = b"GET / XTTP/1.1\r\n\r\n";
    assert!(parse(input).is_err());
    assert!(matches!(parse_request(input), Parsed::Unparseable));
}

#[test]
fn empty_input_is_unparseable() {
    assert!(parse(b"").is_err());
    assert!(parse_start_line(b"").is_err());
    assert!(matches!(parse_request(b""), Parsed::Unparseable));
}

#[test]
fn parsing_twice_yields_identical_output() {
    let input = b"GET /echo/twice HTTP/1.1\r\nUser-Agent: probe/2\r\n\r\n";
    let first = parse_request(input);
    let second = parse_request(input);
    assert_eq!(first, second);
    let truncated = b"GET /echo/twice HTTP/1.1\r\nUser-Agent: probe/2";
    assert_eq!(parse_request(truncated), parse_request(truncated));
}

#[test]
fn trailing_bytes_after_blank_line_are_ignored() {
    let input = b"GET / HTTP/1.1\r\n\r\nleftover";
    let (rl, headers) = parse(input).unwrap();
    assert_eq!(rl.uri, b"/".to_vec());
    assert!(headers.is_empty());
}
