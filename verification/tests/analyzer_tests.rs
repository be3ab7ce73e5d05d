use loglens::analyzer::{analyze, cluster_errors, detect_anomalies};
use loglens::models::{FieldMap, LogEntry, LogLevel, Timestamp};

fn make_entry(level: LogLevel, msg: &str) -> LogEntry {
    LogEntry {
        line_number: 1,
        timestamp: None,
        level,
        source: None,
        message: msg.to_string(),
        fields: FieldMap::new(),
        raw_line: msg.to_string(),
    }
}

fn timed(level: LogLevel, msg: &str, secs: i64) -> LogEntry {
    let mut e = make_entry(level, msg);
    e.timestamp = Some(Timestamp { secs, nanos: 0 });
    e
}

#[test]
fn test_analyze_basic() {
    let entries = vec![
        make_entry(LogLevel::Info, "hello"),
        make_entry(LogLevel::Error, "fail"),
        make_entry(LogLevel::Error, "fail again"),
    ];
    let stats = analyze(&entries, 0);
    assert_eq!(stats.total_lines, 3);
    assert_eq!(stats.parsed_lines, 3);
    assert_eq!(stats.level_counts.get("INFO"), Some(1));
    assert_eq!(stats.level_counts.get("ERROR"), Some(2));
}

#[test]
fn analyzer_test_cluster_errors() {
    let entries = vec![
        make_entry(LogLevel::Error, "Connection timeout to db-1"),
        make_entry(LogLevel::Error, "Connection timeout to db-2"),
        make_entry(LogLevel::Info, "nothing important"),
    ];
    let clusters = cluster_errors(&entries);
    assert_eq!(clusters.len(), 1);
    assert_eq!(clusters[0].count, 2);
}

#[test]
fn analyze_counts_range_and_errors() {
    let mut a = timed(LogLevel::Fatal, "disk 1 failed", 200);
    a.source = Some("disk".to_string());
    a.fields.insert("dev".to_string(), "sda".to_string());
    let mut b = timed(LogLevel::Info, "disk 2 ok", 100);
    b.source = Some("disk".to_string());
    b.fields.insert("dev".to_string(), "sdb".to_string());
    let c = make_entry(LogLevel::Error, "unrelated");
    let stats = analyze(&vec![a, b, c], 2);
    assert_eq!(stats.total_lines, 5);
    assert_eq!(stats.parse_errors, 2);
    assert_eq!(stats.error_count, 2);
    assert_eq!(stats.source_counts.get("disk"), Some(2));
    assert_eq!(stats.field_keys.get("dev"), Some(2));
    assert_eq!(stats.template_counts.get("disk {NUM} failed"), Some(1));
    let total: usize = stats.level_counts.pairs.iter().map(|p| p.1).sum();
    assert_eq!(total, 3);
    let (first, last) = stats.time_range.unwrap();
    assert_eq!(first, "1970-01-01T00:01:40+00:00");
    assert_eq!(last, "1970-01-01T00:03:20+00:00");
}

#[test]
fn clusters_keep_samples_sources_and_order() {
    let mut entries = Vec::new();
    for i in 0..5 {
        let mut e = timed(LogLevel::Warn, &format!("retry {} of 5", i), 10 + i as i64);
        e.source = Some(if i % 2 == 0 { "a" } else { "b" }.to_string());
        entries.push(e);
    }
    entries.push(make_entry(LogLevel::Error, "fatal crash"));
    let clusters = cluster_errors(&entries);
    assert_eq!(clusters.len(), 2);
    assert_eq!(clusters[0].template, "retry {NUM} of {NUM}");
    assert_eq!(clusters[0].count, 5);
    assert_eq!(clusters[0].sample_messages.len(), 3);
    assert_eq!(clusters[0].sources, vec!["a".to_string(), "b".to_string()]);
    assert_eq!(clusters[0].first_seen.as_deref(), Some("1970-01-01T00:00:10+00:00"));
    assert_eq!(clusters[0].last_seen.as_deref(), Some("1970-01-01T00:00:14+00:00"));
    assert_eq!(clusters[1].count, 1);
    assert_eq!(clusters[1].first_seen, None);
}

#[test]
fn anomalies_found_in_error_spike() {
    let mut entries = Vec::new();
    // four quiet buckets with one error each, one bucket with six errors
    for b in 0..4 {
        entries.push(timed(LogLevel::Error, "e", b * 300 + 1));
        entries.push(timed(LogLevel::Info, "i", b * 300 + 2));
    }
    for k in 0..6 {
        entries.push(timed(LogLevel::Error, "e", 4 * 300 + k));
    }
    let anomalies = detect_anomalies(&entries, 5);
    assert_eq!(anomalies.len(), 1);
    assert_eq!(anomalies[0].error_count, 6);
    assert_eq!(anomalies[0].total_entries, 6);
    assert_eq!(anomalies[0].severity, "warning");
    assert_eq!(anomalies[0].timestamp, "1970-01-01T00:20:00+00:00");
    assert!(detect_anomalies(&Vec::new(), 5).is_empty());
}

#[test]
fn anomaly_buckets_truncate_toward_zero() {
    // -1 s falls in the bucket that starts at 0 (division truncates toward zero)
    let mut entries = Vec::new();
    for _ in 0..3 {
        entries.push(timed(LogLevel::Error, "e", -1));
    }
    entries.push(timed(LogLevel::Info, "i", 1000));
    entries.push(timed(LogLevel::Info, "i", 2000));
    entries.push(timed(LogLevel::Info, "i", 3000));
    entries.push(timed(LogLevel::Info, "i", 4000));
    entries.push(timed(LogLevel::Info, "i", 5000));
    let anomalies = detect_anomalies(&entries, 1);
    assert_eq!(anomalies.len(), 1);
    assert_eq!(anomalies[0].timestamp, "1970-01-01T00:00:00+00:00");
    assert_eq!(anomalies[0].severity, "critical");
}

#[test]
fn clusters_have_distinct_templates_and_sources() {
    let mut entries = Vec::new();
    for (msg, src) in [("disk 1 full", "a"), ("disk 2 full", "a"), ("net down", "b"), ("disk 3 full", "b")] {
        let mut e = make_entry(LogLevel::Error, msg);
        e.source = Some(src.to_string());
        entries.push(e);
    }
    let clusters = cluster_errors(&entries);
    assert_eq!(clusters.len(), 2);
    assert_ne!(clusters[0].template, clusters[1].template);
    assert_eq!(clusters[0].count, 3);
    assert_eq!(clusters[0].sources, vec!["a".to_string(), "b".to_string()]);
    let total: usize = clusters.iter().map(|c| c.count).sum();
    assert_eq!(total, 4);
}
