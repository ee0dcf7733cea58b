use rustwebserver::exchange::{static_path, Action, EntryKind, Event, Exchange, LogLine, ScriptMethod, ScriptRun, Stage};

fn log(method: &str, path: &str, code: u32, status: &str) -> Option<LogLine> {
    Some(LogLine { method: method.to_string(), path: path.to_string(), code, status: status.to_string() })
}

const NOT_FOUND: &str = "HTTP/1.1 404 Not Found\r\nContent-Type: text/html; charset=utf-8\r\nContent-Length: 26\r\nConnection: close\r\n\r\n<html>404 Not Found</html>";
const FORBIDDEN: &str = "HTTP/1.1 403 Forbidden\r\nContent-Type: text/html; charset=utf-8\r\nContent-Length: 26\r\nConnection: close\r\n\r\n<html>403 Forbidden</html>";
const NOT_ALLOWED: &str = "HTTP/1.1 405 Method Not Allowed\r\nContent-Type: text/html; charset=utf-8\r\nContent-Length: 35\r\nConnection: close\r\n\r\n<html>405 Method Not Allowed</html>";

fn start(request: &str) -> (Exchange, Action) {
    let mut x = Exchange::new("/srv/www".to_string());
    let a = x.advance(Event::Received(request.as_bytes().to_vec()));
    (x, a)
}

#[test]
fn other_methods_are_refused() {
    let (x, a) = start("DELETE /a HTTP/1.1\r\n\r\n");
    assert_eq!(a, Action::Respond { log: None, response: NOT_ALLOWED.to_string() });
    assert_eq!(x.stage, Stage::Finished);
}

#[test]
fn post_outside_scripts_is_refused() {
    let (_, a) = start("POST /upload HTTP/1.1\r\n\r\ndata");
    assert_eq!(a, Action::Respond { log: None, response: NOT_ALLOWED.to_string() });
}

#[test]
fn lowercase_method_is_refused() {
    let (_, a) = start("get / HTTP/1.1\r\n\r\n");
    assert_eq!(a, Action::Respond { log: None, response: NOT_ALLOWED.to_string() });
}

#[test]
fn static_file_is_served() {
    let (mut x, a) = start("GET //docs/a.txt HTTP/1.1\r\n\r\n");
    assert_eq!(a, Action::Canonicalize("/srv/www/docs/a.txt".to_string()));
    let a = x.advance(Event::Resolved(Some("/srv/www/docs/a.txt".to_string())));
    assert_eq!(a, Action::Canonicalize("/srv/www".to_string()));
    let a = x.advance(Event::Resolved(Some("/srv/www".to_string())));
    assert_eq!(a, Action::ReadMetadata("/srv/www/docs/a.txt".to_string()));
    let a = x.advance(Event::Inspected(Some(EntryKind::File)));
    assert_eq!(a, Action::ReadFile("/srv/www/docs/a.txt".to_string()));
    let a = x.advance(Event::FileRead(Some(5)));
    assert_eq!(
        a,
        Action::SendFile {
            log: log("GET", "//docs/a.txt", 200, "OK").unwrap(),
            head: "HTTP/1.1 200 OK\r\nContent-Type: text/plain; charset=utf-8\r\nContent-Length: 5\r\nConnection: close\r\n\r\n".to_string(),
        }
    );
    assert_eq!(x.stage, Stage::Finished);
}

#[test]
fn missing_file_is_not_found() {
    let (mut x, _) = start("GET /nope HTTP/1.1\r\n\r\n");
    let a = x.advance(Event::Resolved(None));
    assert_eq!(a, Action::Respond { log: log("GET", "/nope", 404, "Not Found"), response: NOT_FOUND.to_string() });
}

#[test]
fn path_outside_root_is_forbidden() {
    let (mut x, a) = start("GET /../etc/passwd HTTP/1.1\r\n\r\n");
    assert_eq!(a, Action::Canonicalize("/srv/www/../etc/passwd".to_string()));
    x.advance(Event::Resolved(Some("/srv/etc/passwd".to_string())));
    let a = x.advance(Event::Resolved(Some("/srv/www".to_string())));
    assert_eq!(a, Action::Respond { log: log("GET", "/../etc/passwd", 403, "Forbidden"), response: FORBIDDEN.to_string() });
}

#[test]
fn sibling_with_common_prefix_is_forbidden() {
    let (mut x, _) = start("GET /x HTTP/1.1\r\n\r\n");
    x.advance(Event::Resolved(Some("/srv/www-private/x".to_string())));
    let a = x.advance(Event::Resolved(Some("/srv/www".to_string())));
    assert_eq!(a, Action::Respond { log: log("GET", "/x", 403, "Forbidden"), response: FORBIDDEN.to_string() });
}

#[test]
fn unreadable_root_closes() {
    let (mut x, _) = start("GET /x HTTP/1.1\r\n\r\n");
    x.advance(Event::Resolved(Some("/srv/www/x".to_string())));
    assert_eq!(x.advance(Event::Resolved(None)), Action::Close);
}

#[test]
fn metadata_failure_or_special_file_is_not_found() {
    for k in [None, Some(EntryKind::Other)] {
        let (mut x, _) = start("GET /fifo HTTP/1.1\r\n\r\n");
        x.advance(Event::Resolved(Some("/srv/www/fifo".to_string())));
        x.advance(Event::Resolved(Some("/srv/www".to_string())));
        let a = x.advance(Event::Inspected(k));
        assert_eq!(a, Action::Respond { log: log("GET", "/fifo", 404, "Not Found"), response: NOT_FOUND.to_string() });
    }
}

#[test]
fn unreadable_file_is_forbidden() {
    let (mut x, _) = start("GET /f HTTP/1.1\r\n\r\n");
    x.advance(Event::Resolved(Some("/srv/www/f".to_string())));
    x.advance(Event::Resolved(Some("/srv/www".to_string())));
    x.advance(Event::Inspected(Some(EntryKind::File)));
    let a = x.advance(Event::FileRead(None));
    assert_eq!(a, Action::Respond { log: log("GET", "/f", 403, "Forbidden"), response: FORBIDDEN.to_string() });
}

#[test]
fn directory_is_listed() {
    let (mut x, a) = start("GET / HTTP/1.1\r\n\r\n");
    assert_eq!(a, Action::Canonicalize("/srv/www/".to_string()));
    x.advance(Event::Resolved(Some("/srv/www".to_string())));
    x.advance(Event::Resolved(Some("/srv/www".to_string())));
    let a = x.advance(Event::Inspected(Some(EntryKind::Directory)));
    assert_eq!(a, Action::ReadDir("/srv/www".to_string()));
    let a = x.advance(Event::Listed(Some(vec!["a".to_string()])));
    let page = "<html><h1>Directory Listing</h1><ul><li><a href=\"..\">..</a></li><li><a href=\"a\">a</a></li></ul></html>";
    let response = format!(
        "HTTP/1.1 200 OK\r\nContent-Type: text/html; charset=utf-8\r\nContent-Length: {}\r\nConnection: close\r\n\r\n{}",
        page.len(),
        page
    );
    assert_eq!(a, Action::Respond { log: log("GET", "/", 200, "OK"), response });
    let (mut y, _) = start("GET / HTTP/1.1\r\n\r\n");
    y.advance(Event::Resolved(Some("/srv/www".to_string())));
    y.advance(Event::Resolved(Some("/srv/www".to_string())));
    y.advance(Event::Inspected(Some(EntryKind::Directory)));
    assert_eq!(y.advance(Event::Listed(None)), Action::Close);
}

#[test]
fn get_script_runs_without_input() {
    let (mut x, a) = start("GET /scripts/hello.sh?name=bob HTTP/1.1\r\nHost: h\r\n\r\n");
    assert_eq!(a, Action::CheckScript("/srv/www/scripts/hello.sh".to_string()));
    let a = x.advance(Event::ScriptChecked(true));
    assert_eq!(
        a,
        Action::RunScript {
            program: "/srv/www/scripts/hello.sh".to_string(),
            env: vec![
                ("Host".to_string(), "h".to_string()),
                ("METHOD".to_string(), "GET".to_string()),
                ("PATH".to_string(), "/scripts/hello.sh?name=bob".to_string()),
                ("QUERY_name".to_string(), "bob".to_string()),
            ],
            stdin: None,
        }
    );
    let a = x.advance(Event::ScriptFinished(Some(ScriptRun {
        success: true,
        stdout: b"Content-Type: text/plain\n\nhello bob\n".to_vec(),
    })));
    assert_eq!(
        a,
        Action::Respond {
            log: log("GET", "/scripts/hello.sh", 200, "OK"),
            response: "HTTP/1.1 200 OK\r\nContent-Type: text/plain\r\nContent-Length: 9\r\nConnection: close\r\n\r\nhello bob".to_string(),
        }
    );
}

#[test]
fn post_script_gets_body() {
    let (mut x, a) = start("POST /scripts/echo HTTP/1.1\r\n\r\npayload");
    assert_eq!(a, Action::CheckScript("/srv/www/scripts/echo".to_string()));
    match x.advance(Event::ScriptChecked(true)) {
        Action::RunScript { stdin, .. } => assert_eq!(stdin, Some("payload".to_string())),
        other => panic!("unexpected {:?}", other),
    }
    match &x.stage {
        Stage::RunningScript { method, .. } => assert_eq!(*method, ScriptMethod::Post),
        other => panic!("unexpected {:?}", other),
    }
}

#[test]
fn missing_script_is_not_found() {
    let (mut x, _) = start("POST /scripts/none?a=1 HTTP/1.1\r\n\r\n");
    let a = x.advance(Event::ScriptChecked(false));
    assert_eq!(a, Action::Respond { log: log("POST", "/scripts/none?a=1", 404, "Not Found"), response: NOT_FOUND.to_string() });
}

#[test]
fn failing_script_is_internal_error() {
    let (mut x, _) = start("GET /scripts/bad?q HTTP/1.1\r\n\r\n");
    x.advance(Event::ScriptChecked(true));
    let a = x.advance(Event::ScriptFinished(Some(ScriptRun { success: false, stdout: b"oops".to_vec() })));
    assert_eq!(
        a,
        Action::Respond {
            log: log("GET", "/scripts/bad?q", 500, "Internal Server Error"),
            response: "HTTP/1.1 500 Internal Server Error\r\nContent-Type: text/html; charset=utf-8\r\nContent-Length: 38\r\nConnection: close\r\n\r\n<html>500 Internal Server Error</html>".to_string(),
        }
    );
}

#[test]
fn script_that_cannot_run_closes() {
    let (mut x, _) = start("GET /scripts/x HTTP/1.1\r\n\r\n");
    x.advance(Event::ScriptChecked(true));
    assert_eq!(x.advance(Event::ScriptFinished(None)), Action::Close);
}

#[test]
fn unexpected_event_closes_and_finished_stays_finished() {
    let (mut x, _) = start("GET /a HTTP/1.1\r\n\r\n");
    assert_eq!(x.advance(Event::FileRead(Some(1))), Action::Close);
    assert_eq!(x.stage, Stage::Finished);
    assert_eq!(x.advance(Event::Received(b"GET / HTTP/1.1\r\n\r\n".to_vec())), Action::Close);
    assert_eq!(x.stage, Stage::Finished);
}

#[test]
fn every_exchange_ends_within_five_events() {
    let (mut x, _) = start("GET /a HTTP/1.1\r\n\r\n");
    let mut n = 1;
    let events = vec![
        Event::Resolved(Some("/srv/www/a".to_string())),
        Event::Resolved(Some("/srv/www".to_string())),
        Event::Inspected(Some(EntryKind::File)),
        Event::FileRead(Some(0)),
    ];
    for e in events {
        x.advance(e);
        n += 1;
    }
    assert_eq!(x.stage, Stage::Finished);
    assert!(n <= 5);
}

#[test]
fn static_target_stays_in_root() {
    assert_eq!(static_path("/srv", "///etc/passwd"), "/srv/etc/passwd");
    assert_eq!(static_path("/srv/", "/a"), "/srv/a");
    assert_eq!(static_path("/srv", ""), "/srv/");
}
