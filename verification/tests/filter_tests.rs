use loglens::filter::{parse_filter_string, Condition, Filter};
use loglens::models::{FieldMap, LogEntry, LogLevel};

fn make_entry(level: LogLevel, msg: &str, source: Option<&str>) -> LogEntry {
    let mut fields = FieldMap::new();
    fields.insert("status".to_string(), "200".to_string());
    LogEntry {
        line_number: 1,
        timestamp: None,
        level,
        source: source.map(String::from),
        message: msg.to_string(),
        fields,
        raw_line: msg.to_string(),
    }
}

/// The floating-point comparison of two numeric texts, as the command line tool does it.
fn numeric(a: &str, b: &str, op: &str) -> bool {
    let fa: f64 = a.trim().parse().unwrap_or(f64::NAN);
    let fb: f64 = b.trim().parse().unwrap_or(f64::NAN);
    if fa.is_nan() || fb.is_nan() {
        return false;
    }
    match op {
        "gt" => fa > fb,
        "lt" => fa < fb,
        "gte" => fa >= fb,
        "lte" => fa <= fb,
        _ => false,
    }
}

fn cond(field: &str, operator: &str, value: &str) -> Condition {
    Condition { field: field.to_string(), operator: operator.to_string(), value: value.to_string() }
}

fn compare(c: &Condition, field_value: &str) -> bool {
    let n = numeric(field_value, &c.value, &c.operator.to_lowercase());
    c.compare(field_value, n)
}

#[test]
fn test_eq_filter() {
    let entry = make_entry(LogLevel::Error, "fail", Some("db"));
    let c = cond("level", "eq", "ERROR");
    assert!(compare(&c, &entry.level.as_str().to_string()));
}

#[test]
fn test_contains_filter() {
    let entry = make_entry(LogLevel::Error, "Connection timeout", Some("db"));
    let c = cond("message", "contains", "timeout");
    assert!(compare(&c, &entry.message));
}

#[test]
fn test_regex_filter() {
    let entry = make_entry(LogLevel::Error, "Connection timeout to db-1", Some("db"));
    let c = cond("message", "regex", r"db-\d");
    assert!(compare(&c, &entry.message));
}

#[test]
fn test_parse_filter_eq() {
    let filter = parse_filter_string("level=ERROR").unwrap();
    assert_eq!(filter.conditions.len(), 1);
    assert_eq!(filter.conditions[0].field, "level");
    assert_eq!(filter.conditions[0].operator, "eq");
    assert_eq!(filter.conditions[0].value, "ERROR");
}

#[test]
fn test_parse_filter_contains() {
    let filter = parse_filter_string("message contains 'timeout'").unwrap();
    assert_eq!(filter.conditions.len(), 1);
    assert_eq!(filter.conditions[0].operator, "contains");
    assert_eq!(filter.conditions[0].value, "timeout");
}

#[test]
fn test_parse_filter_or() {
    let filter = parse_filter_string("level=ERROR OR level=WARN").unwrap();
    assert_eq!(filter.conditions.len(), 2);
}

#[test]
fn test_starts_with() {
    let entry = make_entry(LogLevel::Error, "Error: connection failed", None);
    let c = cond("message", "startswith", "error");
    assert!(compare(&c, &entry.message));
}

#[test]
fn test_ends_with() {
    let entry = make_entry(LogLevel::Error, "connection failed", None);
    let c = cond("message", "endswith", "failed");
    assert!(compare(&c, &entry.message));
}

#[test]
fn test_custom_field_filter() {
    let entry = make_entry(LogLevel::Info, "ok", None);
    let c = cond("status", "gt", "100");
    assert!(compare(&c, &c.field_value(&entry)));
}

#[test]
fn parse_filter_errors_and_forms() {
    let err = parse_filter_string("just words").err().unwrap();
    assert_eq!(err, "cannot parse condition: just words");
    let f = parse_filter_string("   ").unwrap();
    assert!(f.conditions.is_empty());
    assert_eq!(f.logic, "AND");
    let f = parse_filter_string("status gte 400, source = \"api\"").unwrap();
    assert_eq!(f.conditions.len(), 2);
    assert_eq!(f.conditions[0].field, "status");
    assert_eq!(f.conditions[0].operator, "gte");
    assert_eq!(f.conditions[0].value, "400");
    assert_eq!(f.conditions[1].field, "source");
    assert_eq!(f.conditions[1].operator, "eq");
    assert_eq!(f.conditions[1].value, "api");
    let f = parse_filter_string("path starts_with /api AND message not_contains ok").unwrap();
    assert_eq!(f.conditions.len(), 2);
    assert_eq!(f.conditions[0].operator, "startswith");
    assert_eq!(f.conditions[0].value, "/api");
    assert_eq!(f.conditions[1].operator, "not_contains");
    assert_eq!(f.logic, "AND");
}

#[test]
fn filter_logic_and_empty() {
    let entry = make_entry(LogLevel::Warn, "disk almost full", Some("node-1"));
    let empty = Filter { conditions: Vec::new(), logic: "XOR".to_string() };
    assert!(empty.matches(&entry, &Vec::new()));
    let both = Filter {
        conditions: vec![cond("level", "eq", "warn"), cond("message", "contains", "FULL")],
        logic: "AND".to_string(),
    };
    assert!(both.matches(&entry, &vec![false, false]));
    let either = Filter {
        conditions: vec![cond("level", "eq", "error"), cond("source", "neq", "node-2")],
        logic: "OR".to_string(),
    };
    assert!(either.matches(&entry, &vec![false, false]));
    let neither = Filter {
        conditions: vec![cond("level", "eq", "error"), cond("source", "eq", "node-2")],
        logic: "OR".to_string(),
    };
    assert!(!neither.matches(&entry, &vec![false, false]));
    let other_logic = Filter { conditions: vec![cond("level", "eq", "warn")], logic: "and".to_string() };
    assert!(!other_logic.matches(&entry, &vec![false]));
}

#[test]
fn field_values() {
    let entry = make_entry(LogLevel::Fatal, "boom", None);
    assert_eq!(cond("LEVEL", "eq", "").field_value(&entry), "FATAL");
    assert_eq!(cond("source", "eq", "").field_value(&entry), "");
    assert_eq!(cond("timestamp", "eq", "").field_value(&entry), "");
    assert_eq!(cond("status", "eq", "").field_value(&entry), "200");
    assert_eq!(cond("missing", "eq", "").field_value(&entry), "");
    assert!(!cond("message", "bogus", "boom").compare("boom", false));
    assert!(!cond("message", "regex", "(").compare("boom", false));
}

#[test]
fn or_filters_combine_with_or() {
    let f = parse_filter_string("level=ERROR OR level=WARN").unwrap();
    assert_eq!(f.logic, "OR");
    let warn = make_entry(LogLevel::Warn, "slow", None);
    let info = make_entry(LogLevel::Info, "fine", None);
    assert!(f.matches(&warn, &vec![false, false]));
    assert!(!f.matches(&info, &vec![false, false]));
    let f = parse_filter_string("level=ERROR AND message contains fail").unwrap();
    assert_eq!(f.logic, "AND");
}

#[test]
fn startswith_and_endswith_spellings() {
    let f = parse_filter_string("message startswith 'error'").unwrap();
    assert_eq!(f.conditions.len(), 1);
    assert_eq!(f.conditions[0].field, "message");
    assert_eq!(f.conditions[0].operator, "startswith");
    assert_eq!(f.conditions[0].value, "error");
    let f = parse_filter_string("path endswith .log").unwrap();
    assert_eq!(f.conditions[0].operator, "endswith");
    assert_eq!(f.conditions[0].value, ".log");
    let e = make_entry(LogLevel::Error, "Error: disk full", None);
    let f = parse_filter_string("message startswith 'error'").unwrap();
    assert!(f.matches(&e, &vec![false]));
}

#[test]
fn operators_ignore_ascii_case_and_negate() {
    let c_neq = cond("level", "NEQ", "error");
    let c_eq = cond("level", "Eq", "error");
    assert!(!compare(&c_neq, "ERROR"));
    assert!(compare(&c_eq, "ERROR"));
    assert!(compare(&c_neq, "WARN"));
    assert!(!compare(&cond("message", "Not_Contains", "boom"), "big boom"));
    assert!(!compare(&cond("message", "like", "boom"), "boom"));
}
