use loglens::models::{LogLevel, Timestamp};
use loglens::parser::json_parser::{self, parse_object, JsonNumber, JsonValue, NumberValue};
use loglens::parser::{
    access_parser, iso_parser, logfmt_parser, parse_logs, parse_logs_with_format, plain_parser,
    rfc3339_parser, syslog_parser, LogFormat,
};
use loglens::selection::detect_format_from_str;

fn uint(v: u64) -> JsonValue {
    JsonValue::Number(JsonNumber { text: v.to_string(), value: NumberValue::Unsigned(v) })
}

#[test]
fn test_parse_json_log() {
    let line = r#"{"timestamp":"2026-01-15T10:30:00Z","level":"info","msg":"Server started","logger":"http","port":8080}"#;
    let entry = json_parser::parse_line(line).unwrap();
    assert_eq!(entry.level, LogLevel::Info);
    assert_eq!(entry.message, "Server started");
    assert_eq!(entry.source.as_deref(), Some("http"));
    assert_eq!(entry.fields.get("port").unwrap(), "8080");
    assert_eq!(entry.timestamp, Some(Timestamp { secs: 1768473000, nanos: 0 }));
}

#[test]
fn test_parse_json_error() {
    let line = r#"{"level":"error","msg":"Connection failed","error":"timeout","logger":"db"}"#;
    let entry = json_parser::parse_line(line).unwrap();
    assert_eq!(entry.level, LogLevel::Error);
    assert!(entry.message.contains("Connection failed"));
}

#[test]
fn test_parse_minimal_json() {
    let line = r#"{"msg":"hello"}"#;
    let entry = json_parser::parse_line(line).unwrap();
    assert_eq!(entry.message, "hello");
}

#[test]
fn test_invalid_json() {
    assert!(json_parser::parse_line("not json").is_none());
}

#[test]
fn json_numbers_bools_and_other_values() {
    let line = r#"{"ts":1700000000123,"ok":true,"tags":["a"],"level":5}"#;
    let entry = json_parser::parse_line(line).unwrap();
    assert_eq!(entry.level, LogLevel::Unknown("5".to_string()));
    assert_eq!(entry.fields.get("ok").unwrap(), "true");
    assert_eq!(entry.fields.get("tags").unwrap(), r#"["a"]"#);
    assert_eq!(entry.timestamp, Some(Timestamp { secs: 1700000000, nanos: 123000000 }));
    assert_eq!(entry.raw_line, line);
    let secs = json_parser::parse_line(r#"{"time":86400}"#).unwrap();
    assert_eq!(secs.timestamp, Some(Timestamp { secs: 86400, nanos: 0 }));
    let none = json_parser::parse_line("{}").unwrap();
    assert_eq!(none.level, LogLevel::Unknown("".to_string()));
    assert_eq!(none.message, "");
    assert!(none.source.is_none());
    assert!(json_parser::parse_line("[1,2]").is_none());
    assert!(json_parser::parse_line("").is_none());
}

#[test]
fn json_fractional_and_negative_timestamps() {
    let secs = json_parser::parse_line(r#"{"ts":1700000000.75}"#).unwrap();
    assert_eq!(secs.timestamp, Some(Timestamp { secs: 1700000000, nanos: 0 }));
    let millis = json_parser::parse_line(r#"{"ts":1700000000123.9}"#).unwrap();
    assert_eq!(millis.timestamp, Some(Timestamp { secs: 1700000000, nanos: 123000000 }));
    let just_above = json_parser::parse_line(r#"{"ts":1000000000000.5}"#).unwrap();
    assert_eq!(just_above.timestamp, Some(Timestamp { secs: 1000000000, nanos: 0 }));
    let exact = json_parser::parse_line(r#"{"ts":1e12}"#).unwrap();
    assert_eq!(exact.timestamp, Some(Timestamp { secs: 1000000000000, nanos: 0 }));
    let negative = json_parser::parse_line(r#"{"ts":-1.5}"#).unwrap();
    assert_eq!(negative.timestamp, Some(Timestamp { secs: -1, nanos: 0 }));
    let signed = json_parser::parse_line(r#"{"ts":-60}"#).unwrap();
    assert_eq!(signed.timestamp, Some(Timestamp { secs: -60, nanos: 0 }));
    let huge = json_parser::parse_line(r#"{"ts":1e300,"msg":"m"}"#).unwrap();
    assert_eq!(huge.timestamp, None);
    assert_eq!(huge.message, "m");
}

#[test]
fn json_objects_read_member_by_member() {
    let o = vec![
        ("level".to_string(), JsonValue::Str("warn".to_string())),
        ("port".to_string(), uint(8080)),
        ("ts".to_string(), JsonValue::Number(JsonNumber { text: "-5".to_string(), value: NumberValue::Signed(-5) })),
    ];
    let e = parse_object(&o, "line");
    assert_eq!(e.level, LogLevel::Warn);
    assert_eq!(e.fields.get("port").unwrap(), "8080");
    assert_eq!(e.timestamp, Some(Timestamp { secs: -5, nanos: 0 }));
    assert_eq!(e.raw_line, "line");
}

#[test]
fn test_parse_logfmt() {
    let line = r#"level=info msg="Server started" logger=http port=8080"#;
    let entry = logfmt_parser::parse_line(line).unwrap();
    assert_eq!(entry.level, LogLevel::Info);
    assert_eq!(entry.message, "Server started");
    assert_eq!(entry.source.as_deref(), Some("http"));
    assert_eq!(entry.fields.get("port").unwrap(), "8080");
}

#[test]
fn test_parse_unquoted_values() {
    let line = "level=error msg=fail count=42";
    let entry = logfmt_parser::parse_line(line).unwrap();
    assert_eq!(entry.level, LogLevel::Error);
    assert_eq!(entry.message, "fail");
    assert_eq!(entry.fields.get("count").unwrap(), "42");
}

#[test]
fn test_parse_empty() {
    assert!(logfmt_parser::parse_line("").is_none());
}

#[test]
fn logfmt_escapes_flags_and_timestamps() {
    let line = r#"msg="say \"hi\"\n" debug =x who='a b' time=2026-01-15T10:30:00Z"#;
    let entry = logfmt_parser::parse_line(line).unwrap();
    assert_eq!(entry.message, "say \"hi\"\n");
    assert_eq!(entry.fields.get("debug").unwrap(), "true");
    assert_eq!(entry.fields.get("x").unwrap(), "true");
    assert_eq!(entry.fields.get("who").unwrap(), "a b");
    assert_eq!(entry.timestamp, Some(Timestamp { secs: 1768473000, nanos: 0 }));
    assert_eq!(entry.level, LogLevel::Unknown("???".to_string()));
    assert!(logfmt_parser::parse_line("   ").is_none());
}

#[test]
fn test_parse_standard_format() {
    let line = "2026-01-15 10:30:00 [INFO] Server started on port 8080";
    let entry = plain_parser::parse_line(line).unwrap();
    assert_eq!(entry.level, LogLevel::Info);
    assert!(entry.message.contains("Server started"));
}

#[test]
fn test_parse_iso_timestamp() {
    let line = "2026-01-15T10:30:00.123Z ERROR [db] Connection failed";
    let entry = plain_parser::parse_line(line).unwrap();
    assert_eq!(entry.level, LogLevel::Error);
    assert_eq!(entry.source.as_deref(), Some("db"));
}

#[test]
fn test_parse_level_colon() {
    let line = "ERROR: something went wrong";
    let entry = plain_parser::parse_line(line).unwrap();
    assert_eq!(entry.level, LogLevel::Error);
    assert_eq!(entry.message, "something went wrong");
}

#[test]
fn test_unrecognized_line() {
    assert!(plain_parser::parse_line("random text without any log pattern").is_none());
}

#[test]
fn plain_timestamps() {
    assert_eq!(
        plain_parser::parse_timestamp("2026-01-15 10:30:00"),
        Some(Timestamp { secs: 1768473000, nanos: 0 })
    );
    assert_eq!(plain_parser::parse_timestamp("nonsense"), None);
}

#[test]
fn test_parse_syslog_rfc3164() {
    let line = r#"<34>Oct 11 22:14:15 mymachine su: 'su root' failed for lonvick on /dev/pts/8"#;
    let entry = syslog_parser::parse_line(line).unwrap();
    assert_eq!(entry.level, LogLevel::Fatal);
    assert!(entry.message.contains("su root"));
}

#[test]
fn test_parse_syslog_priority() {
    let line = r#"<0>Emergency: system is down"#;
    let entry = syslog_parser::parse_line(line).unwrap();
    assert_eq!(entry.level, LogLevel::Fatal);
}

#[test]
fn test_non_syslog() {
    assert!(syslog_parser::parse_line("not syslog").is_none());
}

#[test]
fn syslog_details() {
    let e = syslog_parser::parse_line_in_year("<13>Jan 12 03:04:05 host app[42]: started", 2020)
        .unwrap();
    // the timestamp has no year, so chrono cannot read it: the text is taken whole
    assert_eq!(e.level, LogLevel::Info);
    assert_eq!(e.source.as_deref(), Some("Jan 12 03:04:05 host app"));
    assert_eq!(e.message, "started");
    assert_eq!(e.timestamp, None);
    let e = syslog_parser::parse_line_in_year(
        "<165>1 2003-10-11T22:14:15.003Z mymachine evntslog - ID47 [exampleSDID@32473] msg",
        2020,
    )
    .unwrap();
    assert_eq!(e.level, LogLevel::Info);
    assert_eq!(e.timestamp, Some(Timestamp { secs: 1065910455, nanos: 3000000 }));
    assert_eq!(e.source.as_deref(), Some("evntslog"));
    assert_eq!(e.message, "msg");
    assert!(syslog_parser::parse_line("<999>too big").is_none());
    assert!(syslog_parser::parse_line("<>empty").is_none());
    let e = syslog_parser::parse_line("<7>no colon here").unwrap();
    assert_eq!(e.level, LogLevel::Trace);
    assert_eq!(e.message, "no colon here");
    assert!(e.source.is_none());
    assert!(syslog_parser::slices_ok("<34>Oct 11 22:14:15 x"));
    assert!(syslog_parser::slices_ok("<34>Oct 11 22:14:15"));
    assert!(!syslog_parser::slices_ok("<1>abcdefghijklmné rest"));
    assert!(syslog_parser::parse_line("<1>abcdefghijklmné rest").is_none());
    assert!(!syslog_parser::slices_ok("<1>x] [y"));
    assert!(syslog_parser::parse_line("<1>x] [y").is_none());
}

#[test]
fn iso_rfc3339_and_access_lines() {
    let e = iso_parser::parse_line("  2026-01-15 10:30:00,250 WARNING disk low ").unwrap();
    assert_eq!(e.level, LogLevel::Warn);
    assert_eq!(e.message, "disk low");
    assert_eq!(e.raw_line, "2026-01-15 10:30:00,250 WARNING disk low");
    assert!(iso_parser::parse_line("nothing").is_none());
    // the RFC 3339 layout's pattern leaves a group unclosed, so it never compiles and no
    // line is read
    assert!(rfc3339_parser::parse_line("2026-01-15T10:30:00Z [CRIT] meltdown").is_none());
    let line = r#"127.0.0.1 - frank [10/Oct/2000:13:55:36 -0700] "GET /apache_pb.gif HTTP/1.1" 503 2326 "http://ref" "Mozilla/4.0""#;
    let e = access_parser::parse_line(line).unwrap();
    assert_eq!(e.level, LogLevel::Error);
    assert_eq!(e.message, "GET /apache_pb.gif HTTP/1.1");
    assert_eq!(e.source.as_deref(), Some("127.0.0.1"));
    assert_eq!(e.fields.get("status").unwrap(), "503");
    assert_eq!(e.fields.get("useragent").unwrap(), "Mozilla/4.0");
    assert_eq!(e.fields.len(), 7);
    assert!(access_parser::parse_line("not an access line").is_none());
}

#[test]
fn parse_logs_numbers_lines_and_counts_errors() {
    let content = "level=info msg=a\n\n   \nlevel=warn msg=b\r\n";
    let (entries, errors) = parse_logs(content, LogFormat::Logfmt);
    assert_eq!(entries.len(), 3);
    assert_eq!(errors, 1);
    assert_eq!(entries[0].line_number, 1);
    assert_eq!(entries[1].line_number, 3);
    assert_eq!(entries[1].level, LogLevel::Unknown("???".to_string()));
    assert_eq!(entries[1].message, "   ");
    assert_eq!(entries[2].line_number, 4);
    assert_eq!(entries[2].message, "b");
}

#[test]
fn parse_logs_json_and_auto() {
    let content = "{\"msg\":\"hello\"}\nplain words\n";
    let (entries, errors) = parse_logs(content, LogFormat::Json);
    assert_eq!(entries.len(), 2);
    assert_eq!(errors, 1);
    assert_eq!(entries[0].message, "hello");
    let (entries, errors) = parse_logs(content, LogFormat::Auto);
    assert_eq!(errors, 0);
    assert_eq!(entries[1].fields.get("plain").unwrap(), "true");
    let (entries, errors) =
        parse_logs_with_format("2026-01-15 10:30:00 INFO up\nzzz\n", LogFormat::Auto, "iso");
    assert_eq!(entries.len(), 2);
    assert_eq!(errors, 1);
    assert_eq!(entries[0].level, LogLevel::Info);
}

#[test]
fn format_names_and_detection() {
    assert_eq!(LogFormat::from_str("JSONL"), LogFormat::Json);
    assert_eq!(LogFormat::from_str("rfc5424"), LogFormat::Syslog);
    assert_eq!(LogFormat::from_str(""), LogFormat::Auto);
    assert_eq!(LogFormat::from_str("whatever"), LogFormat::Plain);
    assert_eq!(LogFormat::all_names().len(), 15);
    assert_eq!(detect_format_from_str("  {\"a\":1}"), LogFormat::Json);
    assert_eq!(detect_format_from_str("a=b"), LogFormat::Logfmt);
    assert_eq!(detect_format_from_str("<1>x"), LogFormat::Syslog);
    assert_eq!(detect_format_from_str("hello"), LogFormat::Plain);
}

#[test]
fn syslog_rfc5424_message_is_the_msg_part() {
    let line = "<34>1 2003-10-11T22:14:15.003Z mymachine.example.com su - ID47 - 'su root' failed for lonvick on /dev/pts/8";
    let e = syslog_parser::parse_line(line).unwrap();
    assert_eq!(e.level, LogLevel::Fatal);
    assert_eq!(e.timestamp, Some(Timestamp { secs: 1065910455, nanos: 3000000 }));
    assert_eq!(e.source.as_deref(), Some("su"));
    assert_eq!(e.message, "'su root' failed for lonvick on /dev/pts/8");
    let e = syslog_parser::parse_line(
        "<165>1 2003-10-11T22:14:15.003Z host app 1 ID [a b=\"c d\"][e f=\"g\"] hello there",
    )
    .unwrap();
    assert_eq!(e.message, "hello there");
    let e = syslog_parser::parse_line("<165>1 - host - - -").unwrap();
    assert_eq!(e.timestamp, None);
    assert!(e.source.is_none());
    assert_eq!(e.message, "");
}
