use loglens::generate::{fill_template, generate_line, level_name, pause_after, plan, services, GenerateConfig};

fn run(config: &GenerateConfig) -> Vec<String> {
    let p = plan(config).unwrap();
    let mut rng = rand::rng();
    let mut out = Vec::new();
    for i in 0..config.count {
        let fraction = if config.count > 1 { i as f64 / (config.count - 1) as f64 } else { 0.0 };
        let offset = (p.span_ms as f64 * fraction) as i64;
        out.push(generate_line(&p, offset, &mut rng).unwrap());
    }
    out
}

#[test]
fn test_generate_json() {
    let config = GenerateConfig { format: "json".to_string(), count: 10, ..Default::default() };
    let lines = run(&config);
    assert_eq!(lines.len(), 10);
    for line in &lines {
        let v: serde_json::Value = serde_json::from_str(line).unwrap();
        assert!(v.get("timestamp").is_some());
        assert!(v.get("level").is_some());
        assert!(v.get("logger").is_some());
        assert!(v.get("msg").is_some());
    }
}

#[test]
fn test_generate_logfmt() {
    let config = GenerateConfig { format: "logfmt".to_string(), count: 5, ..Default::default() };
    let lines = run(&config);
    assert_eq!(lines.len(), 5);
    for line in &lines {
        assert!(line.contains("level="));
        assert!(line.contains("msg=\""));
        assert!(line.contains("logger="));
    }
}

#[test]
fn test_generate_apache() {
    let config = GenerateConfig { format: "apache".to_string(), count: 3, ..Default::default() };
    let lines = run(&config);
    assert_eq!(lines.len(), 3);
    for line in &lines {
        assert!(line.contains("HTTP/1.1"));
        assert!(line.contains('"'));
    }
}

#[test]
fn test_generate_nginx() {
    let config = GenerateConfig { format: "nginx".to_string(), count: 3, ..Default::default() };
    assert_eq!(run(&config).len(), 3);
}

#[test]
fn test_generate_correlation_ids() {
    let config = GenerateConfig {
        format: "json".to_string(),
        count: 5,
        correlation_prefix: Some("req".to_string()),
        ..Default::default()
    };
    assert_eq!(run(&config).len(), 5);
}

#[test]
fn test_generate_csv() {
    let config = GenerateConfig { format: "csv".to_string(), count: 3, ..Default::default() };
    let lines = run(&config);
    assert_eq!(lines.len(), 3);
    for line in &lines {
        assert!(line.starts_with('"'));
        assert!(line.ends_with('"'));
        let fields: Vec<&str> = line.split("\",\"").collect();
        assert!(fields.len() == 5, "CSV line should have 5 fields: {}", line);
    }
}

#[test]
fn test_generate_syslog() {
    let config = GenerateConfig { format: "syslog".to_string(), count: 3, ..Default::default() };
    let lines = run(&config);
    assert_eq!(lines.len(), 3);
    for line in &lines {
        assert!(line.starts_with('<'), "Syslog line should start with <priority>");
    }
}

#[test]
fn test_generate_plain_text() {
    let config = GenerateConfig { format: "plain".to_string(), count: 3, ..Default::default() };
    assert_eq!(run(&config).len(), 3);
}

#[test]
fn test_generate_zero_count() {
    let config = GenerateConfig { format: "json".to_string(), count: 0, ..Default::default() };
    assert_eq!(run(&config).len(), 0);
}

#[test]
fn test_fill_template_basic() {
    let mut rng = rand::rng();
    let result = fill_template("Request processed in {dur}ms", &mut rng).unwrap();
    assert!(result.starts_with("Request processed in "));
    assert!(result.ends_with("ms"));
}

#[test]
fn test_fill_template_no_placeholders() {
    let mut rng = rand::rng();
    let result = fill_template("Hello world", &mut rng).unwrap();
    assert_eq!(result, "Hello world");
}

#[test]
fn fill_template_values_and_edges() {
    let mut rng = rand::rng();
    let r = fill_template("{unknown_key} and {user}", &mut rng).unwrap();
    assert!(r.starts_with("{unknown_key} and user_"));
    assert_eq!(r.len(), "{unknown_key} and user_".len() + 8);
    let r = fill_template("{last4}", &mut rng).unwrap();
    assert_eq!(r.len(), 4);
    assert!(r.chars().all(|c| c.is_ascii_digit()));
    let r = fill_template("{total}", &mut rng).unwrap();
    let dot = r.find('.').unwrap();
    assert_eq!(r.len() - dot, 3);
    let r = fill_template("open {", &mut rng);
    assert!(r.is_none());
    let r = fill_template("{abc", &mut rng).unwrap();
    assert_eq!(r, "{ab}");
    let r = fill_template("{sku}", &mut rng).unwrap();
    assert!(r.starts_with("SKU-") && r[4..].chars().all(|c| c.is_ascii_uppercase() || c.is_ascii_digit()));
}

#[test]
fn generated_lines_have_correlation_and_range() {
    let config = GenerateConfig {
        format: "plain".to_string(),
        count: 3,
        start: Some("2026-01-15T10:00:00Z".to_string()),
        end: Some("2026-01-15T11:00:00Z".to_string()),
        correlation_prefix: Some("trace".to_string()),
        ..Default::default()
    };
    let p = plan(&config).unwrap();
    assert_eq!(p.span_ms, 3_600_000);
    let lines = run(&config);
    assert!(lines[0].starts_with("2026-01-15T10:00:00.000Z ["));
    assert!(lines[2].starts_with("2026-01-15T11:00:00.000Z ["));
    for line in &lines {
        let id = line.rsplit(" trace=").next().unwrap();
        assert_eq!(id.len(), 36);
    }
    let bad = GenerateConfig {
        start: Some("yesterday".to_string()),
        end: Some("today".to_string()),
        ..Default::default()
    };
    assert!(plan(&bad).is_err());
}

#[test]
fn services_and_levels() {
    let s = services();
    assert_eq!(s.len(), 7);
    assert_eq!(s.iter().map(|x| x.weight).sum::<u32>(), 100);
    assert_eq!(level_name(4), "ERROR");
    assert_eq!(level_name(9), "INFO");
}

#[test]
fn pauses_after_each_batch() {
    assert!(!pause_after(0, 100));
    assert!(pause_after(10, 100));
    assert!(!pause_after(5, 100));
    assert!(pause_after(20, 100));
    assert!(!pause_after(3, 0));
    assert!(pause_after(1, 5));
}
