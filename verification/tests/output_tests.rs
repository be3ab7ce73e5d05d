use loglens::analyzer::analyze;
use loglens::models::{FieldMap, LogEntry, LogLevel, Timestamp};
use loglens::output::{csv_escape, csv_line, entry_text, ranked, table_row, tsv_escape, tsv_line, OutputFormat};
use loglens::selection::{retain_grep, retain_min_level, retain_source};

fn entry(level: LogLevel, msg: &str, source: Option<&str>) -> LogEntry {
    LogEntry {
        line_number: 1,
        timestamp: None,
        level,
        source: source.map(String::from),
        message: msg.to_string(),
        fields: FieldMap::new(),
        raw_line: msg.to_string(),
    }
}

#[test]
fn escaping() {
    assert_eq!(csv_escape("plain"), "plain");
    assert_eq!(csv_escape("a,b"), "\"a,b\"");
    assert_eq!(csv_escape("say \"x\""), "\"say \"\"x\"\"\"");
    assert_eq!(tsv_escape("a,b"), "a,b");
    assert_eq!(tsv_escape("a\tb"), "\"a\tb\"");
    assert_eq!(tsv_escape("line\nbreak"), "\"line\nbreak\"");
}

#[test]
fn entry_renderings() {
    let mut e = entry(LogLevel::Warn, "disk, full", Some("node"));
    e.timestamp = Some(Timestamp { secs: 0, nanos: 0 });
    assert_eq!(entry_text(&e), "1970-01-01T00:00:00+00:00 [WARN] (node) disk, full");
    assert_eq!(csv_line(&e), "1970-01-01T00:00:00+00:00,WARN,node,\"disk, full\"");
    assert_eq!(tsv_line(&e), "1970-01-01T00:00:00+00:00\tWARN\tnode\tdisk, full");
    assert_eq!(table_row(&e), "1970-01-01T00:00:00+00:00\tWARN\tnode\tdisk, full");
    let u = entry(LogLevel::Unknown("???".to_string()), "raw", None);
    assert_eq!(entry_text(&u), "raw");
    assert_eq!(csv_line(&u), ",???,,raw");
}

#[test]
fn output_format_names() {
    assert_eq!(OutputFormat::from_str("CSV"), OutputFormat::Csv);
    assert_eq!(OutputFormat::from_str("table"), OutputFormat::Table);
    assert_eq!(OutputFormat::from_str("nope"), OutputFormat::Summary);
}

#[test]
fn ranked_counts() {
    let entries = vec![
        entry(LogLevel::Info, "a", None),
        entry(LogLevel::Error, "b", None),
        entry(LogLevel::Error, "c", None),
        entry(LogLevel::Debug, "d", None),
    ];
    let stats = analyze(&entries, 0);
    let r = ranked(&stats.level_counts);
    assert_eq!(r[0], ("ERROR".to_string(), 2));
    assert_eq!(r[1], ("INFO".to_string(), 1));
    assert_eq!(r[2], ("DEBUG".to_string(), 1));
}

#[test]
fn selections() {
    let entries = vec![
        entry(LogLevel::Info, "Server started", Some("http-api")),
        entry(LogLevel::Error, "connection failed", Some("db")),
        entry(LogLevel::Fatal, "Server crashed", None),
    ];
    let kept = retain_min_level(entries.iter().map(|e| e.copy()).collect(), &LogLevel::Error);
    assert_eq!(kept.len(), 2);
    assert_eq!(kept[0].message, "connection failed");
    let kept = retain_source(entries.iter().map(|e| e.copy()).collect(), "api");
    assert_eq!(kept.len(), 1);
    assert_eq!(kept[0].message, "Server started");
    let kept = retain_grep(entries, "^Server");
    assert_eq!(kept.len(), 2);
    assert_eq!(kept[1].message, "Server crashed");
}
