use loglens::analyzer::{analyze, cluster_errors};
use loglens::models::LogLevel;
use loglens::parser::{parse_logs, LogFormat};
use loglens::selection::{detect_format_from_str, retain_grep, retain_min_level};

#[test]
fn test_analyze_json_logs() {
    let log_content = r#"{"timestamp":"2026-01-15T10:00:00Z","level":"info","msg":"Server started","logger":"http"}
{"timestamp":"2026-01-15T10:00:01Z","level":"error","msg":"Connection failed","logger":"db"}
{"timestamp":"2026-01-15T10:00:02Z","level":"info","msg":"Request processed","logger":"http"}
{"timestamp":"2026-01-15T10:00:03Z","level":"warn","msg":"Slow query detected","logger":"db"}
{"timestamp":"2026-01-15T10:00:04Z","level":"error","msg":"Connection failed","logger":"db"}
{"timestamp":"2026-01-15T10:00:05Z","level":"info","msg":"Server running","logger":"http"}"#;
    let (entries, errors) = parse_logs(log_content, LogFormat::Json);
    let stats = analyze(&entries, errors);
    assert_eq!(stats.total_lines, 6);
    assert_eq!(stats.parsed_lines, 6);
    assert_eq!(stats.error_count, 2);
    assert_eq!(stats.level_counts.get("ERROR"), Some(2));
    assert_eq!(stats.source_counts.get("db"), Some(3));
    assert_eq!(
        stats.time_range,
        Some(("2026-01-15T10:00:00+00:00".to_string(), "2026-01-15T10:00:05+00:00".to_string()))
    );
}

#[test]
fn test_analyze_logfmt() {
    let log_content = r#"level=info msg="Server started" logger=http
level=error msg="Connection failed" logger=db
level=info msg="Request handled" logger=http"#;
    let (entries, errors) = parse_logs(log_content, LogFormat::Logfmt);
    assert_eq!(errors, 0);
    let stats = analyze(&entries, errors);
    assert_eq!(stats.total_lines, 3);
    assert_eq!(stats.level_counts.get("INFO"), Some(2));
    assert_eq!(stats.source_counts.get("http"), Some(2));
}

#[test]
fn integration_test_test_cluster_errors() {
    let log_content = r#"{"level":"error","msg":"Connection timeout to db-1","logger":"db"}
{"level":"error","msg":"Connection timeout to db-2","logger":"db"}
{"level":"error","msg":"Connection timeout to db-3","logger":"db"}
{"level":"info","msg":"nothing important","logger":"http"}"#;
    let (entries, _) = parse_logs(log_content, LogFormat::Json);
    let clusters = cluster_errors(&entries);
    assert_eq!(clusters.len(), 1);
    assert!(clusters[0].template.contains("Connection timeout"));
    assert_eq!(clusters[0].count, 3);
}

#[test]
fn test_parse_jsonl_output() {
    let log_content = r#"{"level":"info","msg":"hello world"}
{"level":"error","msg":"something broke"}"#;
    let (entries, errors) = parse_logs(log_content, LogFormat::Json);
    assert_eq!(errors, 0);
    assert_eq!(entries[0].message, "hello world");
    assert_eq!(entries[1].message, "something broke");
}

#[test]
fn test_detect_format() {
    let log_content = r#"{"level":"info","msg":"test"}
{"level":"error","msg":"fail"}"#;
    assert_eq!(detect_format_from_str(log_content), LogFormat::Json);
}

#[test]
fn test_analyze_with_level_filter() {
    let log_content = r#"{"level":"debug","msg":"trace info"}
{"level":"info","msg":"server started"}
{"level":"error","msg":"connection failed"}"#;
    let (entries, _) = parse_logs(log_content, LogFormat::Json);
    let kept = retain_min_level(entries, &LogLevel::from_str("error"));
    assert_eq!(kept.len(), 1);
    assert_eq!(kept[0].message, "connection failed");
}

#[test]
fn test_analyze_with_grep() {
    let log_content = r#"{"level":"info","msg":"Server started on port 8080"}
{"level":"info","msg":"Connection established"}
{"level":"info","msg":"Server ready"}"#;
    let (entries, errors) = parse_logs(log_content, LogFormat::Json);
    let kept = retain_grep(entries, "Server");
    let stats = analyze(&kept, errors);
    assert_eq!(stats.total_lines, 2);
}

#[test]
fn test_analyze_stdin() {
    let log_content = r#"{"level":"info","msg":"from stdin"}
{"level":"error","msg":"stdin error"}"#;
    let (entries, errors) = parse_logs(log_content, LogFormat::Json);
    let stats = analyze(&entries, errors);
    assert_eq!(stats.total_lines, 2);
    assert!(stats.template_counts.pairs.iter().any(|(t, _)| t.contains("from stdin")));
}

#[test]
fn test_parse_yaml_output() {
    let (entries, _) = parse_logs(r#"{"level":"info","msg":"hello"}"#, LogFormat::Json);
    assert_eq!(entries.len(), 1);
    assert_eq!(entries[0].message, "hello");
}
