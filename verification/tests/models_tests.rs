use loglens::models::{template_message, CountMap, FieldMap, LogLevel};

#[test]
fn field_map_reads_back_what_was_stored() {
    let mut m = FieldMap::new();
    m.insert("a".to_string(), "1".to_string());
    m.insert("b".to_string(), "2".to_string());
    m.insert("a".to_string(), "3".to_string());
    assert_eq!(m.get("a").unwrap(), "3");
    assert_eq!(m.get("b").unwrap(), "2");
    assert!(m.get("c").is_none());
    assert_eq!(m.len(), 2);
}

#[test]
fn count_map_counts_occurrences() {
    let mut c = CountMap::new();
    c.bump("x".to_string());
    c.bump("y".to_string());
    c.bump("x".to_string());
    assert_eq!(c.get("x"), Some(2));
    assert_eq!(c.get("y"), Some(1));
    assert_eq!(c.get("z"), None);
    assert_eq!(c.len(), 2);
}

#[test]
fn levels_order_and_names() {
    assert!(LogLevel::Error.at_least(&LogLevel::Warn));
    assert!(!LogLevel::Debug.at_least(&LogLevel::Info));
    assert_eq!(LogLevel::from_str("warning"), LogLevel::Warn);
    assert_eq!(LogLevel::from_str("CRITICAL"), LogLevel::Fatal);
    assert_eq!(LogLevel::from_str("x").as_str(), "X");
    assert!(LogLevel::Fatal.is_error());
}

#[test]
fn message_templates_replace_addresses_and_numbers() {
    assert_eq!(template_message("Connection to 10.0.0.1 failed"), "Connection to {IP} failed");
    assert_eq!(template_message("retry 3 times"), "retry {NUM} times");
    assert_eq!(template_message("bad 999.1.1.1 x"), "bad {NUM}.{NUM} x");
    assert_eq!(template_message("ok"), "ok");
}

#[test]
fn addresses_with_leading_zeros_are_not_addresses() {
    assert_eq!(template_message("from 01.2.3.4 x"), "from {NUM}.{NUM} x");
    assert_eq!(template_message("to 192.168.0.255 ok"), "to {IP} ok");
}

#[test]
fn level_words_ignore_ascii_case() {
    assert_eq!(LogLevel::from_str("eRrOr"), LogLevel::Error);
    assert_eq!(LogLevel::from_str(LogLevel::Info.as_str()), LogLevel::Info);
    assert_eq!(LogLevel::from_str("custom"), LogLevel::Unknown("CUSTOM".to_string()));
}
