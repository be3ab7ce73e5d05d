use loglens::compress::{
    looks_like_hex, looks_like_ip, looks_like_number, looks_like_path, looks_like_uuid,
    split_by_punctuation, split_special_chars, template_message, tokenize, DrainConfig, DrainParser, Ratio,
};

fn strings(v: &[&str]) -> Vec<String> {
    v.iter().map(|s| s.to_string()).collect()
}

#[test]
fn test_drain_basic() {
    let log_data = "\
Connection timeout to db-1
Connection timeout to db-2
Connection timeout to db-3
Server started on port 8080
Server started on port 9090
All good here
";
    let config = DrainConfig::default();
    let mut parser = DrainParser::new(config);
    let result = parser.parse(log_data);

    assert_eq!(result.total_lines, 6);
    assert!(
        result.templates.len() >= 3,
        "Should find at least 3 templates, found {}",
        result.templates.len()
    );
}

#[test]
fn test_drain_empty_input() {
    let config = DrainConfig::default();
    let mut parser = DrainParser::new(config);
    let result = parser.parse("");

    assert_eq!(result.total_lines, 0);
    assert_eq!(result.template_count, 0);
}

#[test]
fn test_tokenize_simple() {
    let tokens = tokenize("hello world");
    assert_eq!(tokens, vec!["hello", "world"]);
}

#[test]
fn test_tokenize_quoted() {
    let tokens = tokenize("msg=\"hello world\"");
    assert!(tokens.len() >= 2);
}

#[test]
fn test_looks_like_number() {
    assert!(looks_like_number("123"));
    assert!(looks_like_number("3.14"));
    assert!(looks_like_number("-42"));
    assert!(!looks_like_number("abc"));
    assert!(!looks_like_number(""));
}

#[test]
fn test_looks_like_ip() {
    assert!(looks_like_ip("192.168.1.1"));
    assert!(looks_like_ip("::1"));
    assert!(!looks_like_ip("999.999.999.999"));
}

#[test]
fn test_looks_like_uuid() {
    assert!(looks_like_uuid("550e8400-e29b-41d4-a716-446655440000"));
    assert!(!looks_like_uuid("not-a-uuid"));
}

#[test]
fn test_template_simple_numbers() {
    let result = template_message("Error code 42");
    assert_eq!(result, "Error code {NUM}");
}

#[test]
fn test_template_multiple_variables() {
    let result = template_message("Connection to 10.0.0.1 failed after 500ms");
    assert!(result.contains("{IP}"));
    assert!(result.contains("{NUM}"));
}

#[test]
fn test_similarity_exact() {
    let config = DrainConfig::default();
    let parser = DrainParser::new(config);
    let sim = parser.calculate_similarity(&strings(&["hello", "world"]), &strings(&["hello", "world"]));
    let value = sim.num as f64 / sim.den as f64;
    assert!((value - 1.0).abs() < 0.001);
}

#[test]
fn test_similarity_with_wildcard() {
    let config = DrainConfig::default();
    let parser = DrainParser::new(config);
    let sim = parser.calculate_similarity(
        &strings(&["Connection", "*", "db-1"]),
        &strings(&["Connection", "timeout", "db-2"]),
    );
    let value = sim.num as f64 / sim.den as f64;
    assert!(value > 0.5, "Similarity should be high with wildcard: {}", value);
}

#[test]
fn test_drain_custom_config() {
    let log_data = "\
error: timeout
error: timeout
warning: disk full
info: server started
info: server started
info: server started
";
    let config = DrainConfig { depth: 3, similarity: Ratio { num: 3, den: 5 }, max_children: 10 };
    let mut parser = DrainParser::new(config);
    let result = parser.parse(log_data);

    assert_eq!(result.total_lines, 6);
    assert_eq!(result.template_count, 3);
}

#[test]
fn test_drain_json_log_line() {
    let log_data = r#"{"level":"error","msg":"Connection timeout to db-1"}
{"level":"error","msg":"Connection timeout to db-2"}
{"level":"info","msg":"Server started on port 8080"}
{"level":"info","msg":"Server started on port 9090"}"#;

    let config = DrainConfig::default();
    let mut parser = DrainParser::new(config);
    let result = parser.parse(log_data);

    assert_eq!(result.total_lines, 4);
    assert!(
        result.templates.len() >= 2,
        "Should find at least 2 templates, found {}",
        result.templates.len()
    );
}

#[test]
fn drain_counts_add_up_and_descend() {
    let log_data = "a b c\na b d\nx y\nx y\nx y\n\n";
    let mut parser = DrainParser::new(DrainConfig::default());
    let result = parser.parse(log_data);
    assert_eq!(result.total_lines, 5);
    let sum: usize = result.templates.iter().map(|t| t.count).sum();
    assert_eq!(sum, 5);
    for w in result.templates.windows(2) {
        assert!(w[0].count >= w[1].count);
    }
    for t in &result.templates {
        assert!(t.samples.len() <= 3);
        assert!(t.count >= 1);
    }
    assert_eq!(result.templates[0].template, "x y");
    assert_eq!(result.templates[0].count, 3);
}

#[test]
fn drain_parses_incrementally() {
    let mut parser = DrainParser::new(DrainConfig::default());
    let first = parser.parse("disk full on /dev/sda1\n");
    assert_eq!(first.total_lines, 1);
    let second = parser.parse("disk full on /dev/sdb2\n");
    assert_eq!(second.total_lines, 1);
    let total: usize = second.templates.iter().map(|t| t.count).sum();
    assert_eq!(total, 2);
}

#[test]
fn looks_like_hex_and_path() {
    assert!(looks_like_hex("0xdeadbeef"));
    assert!(!looks_like_hex("0x12"));
    assert!(looks_like_path("/var/log/app.log"));
    assert!(!looks_like_path("plain"));
}

#[test]
fn template_replaces_uuid_hex_and_path() {
    assert_eq!(
        template_message("id 550e8400-e29b-41d4-a716-446655440000 ok"),
        "id {UUID} ok"
    );
    assert_eq!(template_message("addr 0xdeadbeef"), "addr {HEX}");
    assert_eq!(template_message("open /etc/hosts now"), "open {PATH} now");
    assert_eq!(template_message("no variables here"), "no variables here");
}

#[test]
fn token_splitting_around_marks() {
    assert_eq!(split_special_chars("a=b[c];"), strings(&["a", "=", "b", "[", "c", "]", ";"]));
    assert_eq!(split_special_chars("plain"), strings(&["plain"]));
    assert_eq!(split_by_punctuation("db-1"), strings(&["db", "-", "1"]));
    assert_eq!(split_by_punctuation("/var/log"), strings(&["/", "var", "/", "log"]));
}

#[test]
fn lone_numbers_and_addresses_become_placeholders() {
    assert_eq!(template_message("retry 3 times"), "retry {NUM} times");
    assert_eq!(template_message("Connection to 10.0.0.1 failed"), "Connection to {IP} failed");
    assert_eq!(template_message("took 1500 ms"), "took {NUM} ms");
    assert_eq!(template_message("version 1.2.3 x"), "version {NUM}.{NUM} x");
}

#[test]
fn drain_samples_are_the_first_lines() {
    let log_data = "job 1 done\njob 2 done\njob 3 done\njob 4 done\nother thing\n";
    let mut parser = DrainParser::new(DrainConfig::default());
    let result = parser.parse(log_data);
    assert_eq!(result.total_lines, 5);
    let jobs = result.templates.iter().find(|t| t.count == 4).unwrap();
    assert_eq!(jobs.samples, strings(&["job 1 done", "job 2 done", "job 3 done"]));
    let other = result.templates.iter().find(|t| t.count == 1).unwrap();
    assert_eq!(other.samples, strings(&["other thing"]));
    let total: usize = result.templates.iter().map(|t| t.count).sum();
    assert_eq!(total, 5);
}

#[test]
fn tokens_join_to_the_line_without_blanks() {
    let line = "user=alice  path:/var/log\tstatus 200";
    let tokens = tokenize(line);
    assert!(tokens.iter().all(|t| !t.is_empty() && !t.contains(' ') && !t.contains('\t')));
    let joined: String = tokens.concat();
    assert_eq!(joined, line.replace(' ', "").replace('\t', ""));
    assert_eq!(tokenize("   "), strings(&["   "]));
}
