use rustwebserver::script::{build_script_env, parse_script_output, parse_script_output_text, script_part_of, script_path};

fn pairs(v: &[(&str, &str)]) -> Vec<(String, String)> {
    v.iter().map(|(k, x)| (k.to_string(), x.to_string())).collect()
}

#[test]
fn script_program_paths() {
    assert_eq!(script_path("/srv", "/scripts/run.sh?x=1"), "/srv/scripts/run.sh");
    assert_eq!(script_path("/srv/", "/scripts/run.sh"), "/srv/scripts/run.sh");
    assert_eq!(script_path("/srv", "/scripts//scripts/x"), "/srv/scripts/x");
    assert_eq!(script_path("/srv", "/scripts/a?b?c"), "/srv/scripts/a");
    assert_eq!(script_path("/srv", "/scripts//etc/passwd"), "/etc/passwd");
}

#[test]
fn script_part_stops_at_question_mark() {
    assert_eq!(script_part_of("/scripts/a?x=1"), "/scripts/a");
    assert_eq!(script_part_of("/scripts/a"), "/scripts/a");
}

#[test]
fn environment_of_a_script() {
    let env = build_script_env(&pairs(&[("Host", "h"), ("METHOD", "x")]), "GET", "/scripts/a?x=1&flag&y=2&x=3");
    assert_eq!(
        env,
        pairs(&[
            ("Host", "h"),
            ("METHOD", "GET"),
            ("PATH", "/scripts/a?x=1&flag&y=2&x=3"),
            ("QUERY_x", "3"),
            ("QUERY_y", "2"),
        ])
    );
}

#[test]
fn environment_without_query() {
    let env = build_script_env(&Vec::new(), "POST", "/scripts/a");
    assert_eq!(env, pairs(&[("METHOD", "POST"), ("PATH", "/scripts/a")]));
}

#[test]
fn empty_query_parameter_value() {
    let env = build_script_env(&Vec::new(), "GET", "/scripts/a?k=&=v");
    assert_eq!(env, pairs(&[("METHOD", "GET"), ("PATH", "/scripts/a?k=&=v"), ("QUERY_k", ""), ("QUERY_", "v")]));
}

#[test]
fn output_headers_then_body() {
    let out = parse_script_output_text("Content-Type: text/plain\n  X :  y  \nnot a header\n\nhello\nworld\n\n\n");
    assert_eq!(out.headers, pairs(&[("Content-Type", "text/plain"), ("X", "y")]));
    assert_eq!(out.body, "hello\nworld");
}

#[test]
fn output_without_blank_line_has_no_body() {
    let out = parse_script_output_text("A: 1\nA: 2");
    assert_eq!(out.headers, pairs(&[("A", "2")]));
    assert_eq!(out.body, "");
}

#[test]
fn output_body_keeps_inner_lines_and_colons() {
    let out = parse_script_output_text("\r\nkey: value\r\n  \r\nend  ");
    assert!(out.headers.is_empty());
    assert_eq!(out.body, "key: value\n  \nend");
}

#[test]
fn output_trims_unicode_white_space() {
    let out = parse_script_output_text("\u{3000}K\u{00A0}:\u{2003}v\t\n\nb\u{2028}");
    assert_eq!(out.headers, pairs(&[("K", "v")]));
    assert_eq!(out.body, "b");
}

#[test]
fn output_bytes_are_decoded() {
    let out = parse_script_output(b"A: \xff\n\nok");
    assert_eq!(out.headers, pairs(&[("A", "\u{FFFD}")]));
    assert_eq!(out.body, "ok");
}

#[test]
fn method_and_path_cannot_be_overridden() {
    let env = build_script_env(&pairs(&[("PATH", "/bin"), ("QUERY_a", "h")]), "POST", "/scripts/s?a=q");
    assert_eq!(
        env,
        pairs(&[("PATH", "/scripts/s?a=q"), ("QUERY_a", "q"), ("METHOD", "POST")])
    );
}
