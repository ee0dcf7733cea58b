use rustwebserver::request::{parse_request, parse_request_text};

fn pairs(v: &[(&str, &str)]) -> Vec<(String, String)> {
    v.iter().map(|(k, x)| (k.to_string(), x.to_string())).collect()
}

#[test]
fn parses_request_line_headers_and_body() {
    let r = parse_request_text("GET /index.html HTTP/1.1\r\nHost: localhost\r\nAccept: */*\r\n\r\nhello");
    assert_eq!(r.request_line, "GET /index.html HTTP/1.1");
    assert_eq!(r.method, "GET");
    assert_eq!(r.path, "/index.html");
    assert_eq!(r.version, "HTTP/1.1");
    assert_eq!(r.headers, pairs(&[("Host", "localhost"), ("Accept", "*/*")]));
    assert_eq!(r.body, "hello");
}

#[test]
fn later_header_replaces_earlier_in_place() {
    let r = parse_request_text("GET / HTTP/1.1\r\nA: 1\r\nB: 2\r\nA: 3\r\n\r\n");
    assert_eq!(r.headers, pairs(&[("A", "3"), ("B", "2")]));
}

#[test]
fn header_lines_without_colon_space_are_ignored() {
    let r = parse_request_text("GET / HTTP/1.1\r\nNoValue\r\nX:y\r\nK: v: w\r\n\r\n");
    assert_eq!(r.headers, pairs(&[("K", "v: w")]));
}

#[test]
fn body_stops_at_second_blank_line() {
    let r = parse_request_text("POST /scripts/a HTTP/1.1\r\n\r\nfirst\r\n\r\nsecond");
    assert_eq!(r.body, "first");
}

#[test]
fn no_blank_line_means_no_body() {
    let r = parse_request_text("GET /a HTTP/1.1\r\nHost: h\r\n");
    assert_eq!(r.body, "");
    assert_eq!(r.headers, pairs(&[("Host", "h")]));
}

#[test]
fn missing_words_are_empty() {
    let r = parse_request_text("GET");
    assert_eq!(r.method, "GET");
    assert_eq!(r.path, "");
    assert_eq!(r.version, "");
    let e = parse_request_text("");
    assert_eq!(e.request_line, "");
    assert_eq!(e.method, "");
    assert!(e.headers.is_empty());
}

#[test]
fn request_line_split_at_every_single_space() {
    let r = parse_request_text("GET  /x HTTP/1.1");
    assert_eq!(r.method, "GET");
    assert_eq!(r.path, "");
    assert_eq!(r.version, "/x");
}

#[test]
fn bare_line_feeds_end_lines_too() {
    let r = parse_request_text("GET /a HTTP/1.0\nHost: h\r\nX: 1\n\r\n\r\nbody");
    assert_eq!(r.request_line, "GET /a HTTP/1.0");
    assert_eq!(r.headers, pairs(&[("Host", "h"), ("X", "1")]));
    assert_eq!(r.body, "body");
}

#[test]
fn invalid_utf8_is_replaced() {
    let r = parse_request(b"GET /\xff HTTP/1.1\r\n\r\n");
    assert_eq!(r.method, "GET");
    assert_eq!(r.path, "/\u{FFFD}");
}

#[test]
fn raw_bytes_decode_as_text() {
    let r = parse_request("POST /scripts/é HTTP/1.1\r\nA: b\r\n\r\nx".as_bytes());
    assert_eq!(r.path, "/scripts/é");
    assert_eq!(r.body, "x");
}
