use rustwebserver::response::{
    build_head, build_response, build_script_response, get_content_type, listing_html, push_decimal,
};

fn pairs(v: &[(&str, &str)]) -> Vec<(String, String)> {
    v.iter().map(|(k, x)| (k.to_string(), x.to_string())).collect()
}

#[test]
fn response_has_status_headers_and_body() {
    let r = build_response(404, "Not Found", "text/html; charset=utf-8", "<html>404 Not Found</html>");
    assert_eq!(
        r,
        "HTTP/1.1 404 Not Found\r\nContent-Type: text/html; charset=utf-8\r\nContent-Length: 26\r\nConnection: close\r\n\r\n<html>404 Not Found</html>"
    );
}

#[test]
fn content_length_counts_bytes() {
    let r = build_response(200, "OK", "text/plain", "héllo");
    assert!(r.contains("Content-Length: 6\r\n"));
    assert!(r.ends_with("\r\n\r\nhéllo"));
}

#[test]
fn empty_body_has_zero_length() {
    let r = build_response(200, "OK", "text/plain", "");
    assert_eq!(r, "HTTP/1.1 200 OK\r\nContent-Type: text/plain\r\nContent-Length: 0\r\nConnection: close\r\n\r\n");
}

#[test]
fn file_head() {
    let h = build_head(200, "OK", "image/png", 1234);
    assert_eq!(h, "HTTP/1.1 200 OK\r\nContent-Type: image/png\r\nContent-Length: 1234\r\nConnection: close\r\n\r\n");
}

#[test]
fn decimal_digits() {
    let mut v = Vec::new();
    push_decimal(&mut v, 0);
    assert_eq!(v.iter().collect::<String>(), "0");
    let mut w = vec!['x'];
    push_decimal(&mut w, 1090);
    assert_eq!(w.iter().collect::<String>(), "x1090");
    let mut m = Vec::new();
    push_decimal(&mut m, u64::MAX);
    assert_eq!(m.iter().collect::<String>(), u64::MAX.to_string());
}

#[test]
fn script_response_adds_length() {
    let r = build_script_response(200, "OK", &pairs(&[("Content-Type", "text/plain"), ("X", "1")]), "hi");
    assert_eq!(
        r,
        "HTTP/1.1 200 OK\r\nContent-Type: text/plain\r\nX: 1\r\nContent-Length: 2\r\nConnection: close\r\n\r\nhi"
    );
}

#[test]
fn script_response_keeps_given_length() {
    let r = build_script_response(200, "OK", &pairs(&[("content-LENGTH", "99")]), "hi");
    assert_eq!(r, "HTTP/1.1 200 OK\r\ncontent-LENGTH: 99\r\nConnection: close\r\n\r\nhi");
}

#[test]
fn script_failure_response() {
    let r = build_script_response(
        500,
        "Internal Server Error",
        &pairs(&[("Content-Type", "text/html; charset=utf-8")]),
        "<html>500 Internal Server Error</html>",
    );
    assert_eq!(
        r,
        "HTTP/1.1 500 Internal Server Error\r\nContent-Type: text/html; charset=utf-8\r\nContent-Length: 38\r\nConnection: close\r\n\r\n<html>500 Internal Server Error</html>"
    );
}

#[test]
fn content_types_by_extension() {
    assert_eq!(get_content_type("/srv/a.txt"), "text/plain; charset=utf-8");
    assert_eq!(get_content_type("/srv/a.html"), "text/html; charset=utf-8");
    assert_eq!(get_content_type("/srv/a.css"), "text/css; charset=utf-8");
    assert_eq!(get_content_type("/srv/a.js"), "text/javascript; charset=utf-8");
    assert_eq!(get_content_type("/srv/a.jpg"), "image/jpeg");
    assert_eq!(get_content_type("/srv/a.jpeg"), "image/jpeg");
    assert_eq!(get_content_type("/srv/a.png"), "image/png");
    assert_eq!(get_content_type("/srv/a.zip"), "application/zip");
    assert_eq!(get_content_type("/srv/a.tar.gz"), "application/octet-stream");
}

#[test]
fn content_type_edge_cases() {
    assert_eq!(get_content_type("/srv/README"), "application/octet-stream");
    assert_eq!(get_content_type("/srv/.txt"), "application/octet-stream");
    assert_eq!(get_content_type("/srv/a.TXT"), "application/octet-stream");
    assert_eq!(get_content_type("/srv/notes.txt/"), "text/plain; charset=utf-8");
    assert_eq!(get_content_type("/srv/notes.txt/."), "text/plain; charset=utf-8");
    assert_eq!(get_content_type("/srv/x.txt/.."), "application/octet-stream");
    assert_eq!(get_content_type("/"), "application/octet-stream");
    assert_eq!(get_content_type("archive.old.zip"), "application/zip");
    assert_eq!(get_content_type("a."), "application/octet-stream");
}

#[test]
fn directory_listing_page() {
    let names = vec!["a.txt".to_string(), "sub".to_string()];
    assert_eq!(
        listing_html(&names),
        "<html><h1>Directory Listing</h1><ul><li><a href=\"..\">..</a></li><li><a href=\"a.txt\">a.txt</a></li><li><a href=\"sub\">sub</a></li></ul></html>"
    );
    assert_eq!(
        listing_html(&Vec::new()),
        "<html><h1>Directory Listing</h1><ul><li><a href=\"..\">..</a></li></ul></html>"
    );
}

#[test]
fn reply_head_ends_at_first_blank_line() {
    let body = "a\r\n\r\nb";
    let r = build_response(200, "OK", "text/plain", body);
    let (head, rest) = r.split_once("\r\n\r\n").unwrap();
    assert_eq!(rest, body);
    assert!(head.ends_with("Connection: close"));
}

#[test]
fn script_reply_head_ends_at_first_blank_line() {
    let body = "\r\n\r\nx";
    let r = build_script_response(201, "Created", &pairs(&[("A", "b")]), body);
    let (head, rest) = r.split_once("\r\n\r\n").unwrap();
    assert_eq!(rest, body);
    assert_eq!(head, "HTTP/1.1 201 Created\r\nA: b\r\nContent-Length: 5\r\nConnection: close");
}
