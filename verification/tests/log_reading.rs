use listent::logs::{
    human_log_line, log_retrieval_args, log_show_args, nonblank_lines, output_lines, parse_log_format,
    render_log_line, LogFormat,
};

#[test]
fn lines_as_str_lines_gives_them() {
    assert_eq!(output_lines("a\nb\r\n\nc"), vec!["a", "b", "", "c"]);
    assert_eq!(output_lines("a\n"), vec!["a"]);
    assert_eq!(output_lines(""), Vec::<String>::new());
    assert_eq!(output_lines("x\r"), vec!["x\r"]);
    for t in ["one\ntwo\n\nthree\r\nfour\r", "\n\n", "solo", "a\r\n"] {
        let expected: Vec<String> = t.lines().map(|l| l.to_string()).collect();
        assert_eq!(output_lines(t), expected);
    }
}

#[test]
fn blank_lines_are_dropped() {
    assert_eq!(nonblank_lines("first\n   \n\t\nsecond \n"), vec!["first", "second "]);
    assert!(nonblank_lines(" \n").is_empty());
}

#[test]
fn log_show_command_lines() {
    assert_eq!(
        log_show_args("com.microsoft.sysinternals.listent", "1m"),
        vec!["show", "--predicate", "subsystem == \"com.microsoft.sysinternals.listent\"", "--last", "1m", "--style", "compact"]
    );
    assert_eq!(
        log_retrieval_args("com.a", "daemon", Some("2h"), true),
        vec!["show", "--predicate", "subsystem == 'com.a' AND category == 'daemon'", "--style", "compact", "--last", "2h", "--follow"]
    );
    assert_eq!(
        log_retrieval_args("com.a", "daemon", None, false),
        vec!["show", "--predicate", "subsystem == 'com.a' AND category == 'daemon'", "--style", "compact"]
    );
}

#[test]
fn log_formats() {
    assert_eq!(parse_log_format("json"), Ok(LogFormat::Json));
    assert_eq!(parse_log_format("human"), Ok(LogFormat::Human));
    assert_eq!(parse_log_format("xml"), Err("Invalid format: 'xml'. Use 'human' or 'json'".to_string()));
    assert_eq!(parse_log_format("JSON"), Err("Invalid format: 'JSON'. Use 'human' or 'json'".to_string()));
}

#[test]
fn human_lines_from_read_fields() {
    let s = |t: &str| Some(t.to_string());
    assert_eq!(render_log_line("raw", None, None), "raw");
    assert_eq!(render_log_line("{}", Some(None), Some(None)), "{}");
    assert_eq!(render_log_line("l", Some(Some(s("T"))), Some(Some(s("hello")))), "[T] hello");
    assert_eq!(render_log_line("l", Some(Some(None)), Some(Some(None))), "[unknown] l");
    assert_eq!(render_log_line("l", Some(None), Some(Some(s("m")))), "m");
}

#[test]
fn human_lines_read_json_records() {
    assert_eq!(human_log_line(r#"{"timestamp":"2024-01-01T00:00:00Z","message":"started"}"#), "[2024-01-01T00:00:00Z] started");
    assert_eq!(human_log_line(r#"{"timestamp":5,"message":"m"}"#), "[unknown] m");
    let line = r#"{"message":7}"#;
    assert_eq!(human_log_line(line), line);
    assert_eq!(human_log_line("plain text"), "plain text");
    assert_eq!(human_log_line("[1,2]"), "[1,2]");
}
