use docsniffer::engine::sensitive::rules::{
    compile_regex, compile_rules, load_rules, save_rules, CompiledRule, Rule, RuleSet,
};
use docsniffer::engine::sensitive::scanner::{needs_content, scan_dir, scan_file, Hit, ScanTarget};

fn rule(id: &str, ty: &str, pattern: &str, scope: &[&str]) -> Rule {
    Rule {
        id: id.to_string(),
        name: format!("rule {id}"),
        pattern: pattern.to_string(),
        rule_type: ty.to_string(),
        risk_level: "high".to_string(),
        scope: scope.iter().map(|s| s.to_string()).collect(),
    }
}

#[test]
fn scopes() {
    let r = rule("1", "keyword", "x", &["content"]);
    assert!(r.scans_content() && !r.scans_filename());
    let r = rule("2", "keyword", "x", &["name"]);
    assert!(!r.scans_content() && r.scans_filename());
    let r = rule("3", "keyword", "x", &["filename", "content"]);
    assert!(r.scans_content() && r.scans_filename());
    let r = rule("4", "keyword", "x", &[]);
    assert!(!r.scans_content() && !r.scans_filename());
}

#[test]
fn keyword_rule_reports_first_present_keyword_trimmed() {
    let c = CompiledRule::compile(rule("k", "keyword", " secret | 机密 |", &["content"])).unwrap();
    assert_eq!(c.first_match("this is 机密 and secret"), Some("secret".to_string()));
    assert_eq!(c.first_match("只有机密"), Some("机密".to_string()));
    assert_eq!(c.first_match("nothing here"), None);
}

#[test]
fn keyword_rule_with_only_blank_keywords_never_matches() {
    let c = CompiledRule::compile(rule("k", "keyword", " | |", &["content"])).unwrap();
    assert_eq!(c.first_match("anything at all"), None);
}

#[test]
fn regex_rule_reports_leftmost_match() {
    let c = CompiledRule::compile(rule("r", "regex", r"\d{3}-\d{4}", &["content"])).unwrap();
    assert_eq!(c.first_match("call 555-1234 or 666-0000"), Some("555-1234".to_string()));
    assert_eq!(c.first_match("no digits"), None);
}

#[test]
fn invalid_regex_is_reported_with_its_pattern() {
    let e = compile_regex("(unclosed").err().unwrap();
    assert!(e.starts_with("正则表达式无效 `(unclosed`："));
    let e = CompiledRule::compile(rule("r", "regex", "[", &["content"])).err().unwrap();
    assert!(e.starts_with("正则表达式无效 `[`："));
}

#[test]
fn compile_rules_stops_at_first_invalid_regex() {
    let rules = vec![
        rule("a", "keyword", "x", &["content"]),
        rule("b", "regex", "(", &["content"]),
        rule("c", "regex", "[", &["content"]),
    ];
    let e = compile_rules(rules).err().unwrap();
    assert!(e.starts_with("正则表达式无效 `(`"));
    let ok = compile_rules(vec![rule("a", "keyword", "x", &[]), rule("b", "regex", "a+", &[])]).unwrap();
    assert_eq!(ok.len(), 2);
    assert_eq!(ok[1].rule().id, "b");
}

#[test]
fn stored_rules_win_over_defaults() {
    let defaults = RuleSet { rules: vec![rule("d", "keyword", "x", &[])] };
    let stored = RuleSet { rules: vec![rule("s", "keyword", "y", &[])] };
    assert_eq!(load_rules(Some(stored), RuleSet { rules: vec![] })[0].id, "s");
    assert_eq!(load_rules(None, defaults)[0].id, "d");
    let saved = save_rules(vec![rule("z", "keyword", "z", &[])]);
    assert_eq!(saved.rules.len(), 1);
    assert_eq!(saved.rules[0].id, "z");
}

#[test]
fn content_extraction_is_needed_only_for_content_rules() {
    let a = compile_rules(vec![rule("a", "keyword", "x", &["filename"])]).unwrap();
    assert!(!needs_content(&a, true));
    let b = compile_rules(vec![rule("a", "keyword", "x", &["filename"]), rule("b", "keyword", "y", &["content"])]).unwrap();
    assert!(needs_content(&b, true));
    assert!(!needs_content(&b, false));
}

#[test]
fn scan_file_reports_filename_and_content_hits() {
    let rules = compile_rules(vec![rule("k", "keyword", "secret", &["filename", "content"])]).unwrap();
    let mut out: Vec<Hit> = Vec::new();
    scan_file("/d/secret.txt", "secret.txt", &rules, Some("top SECRET stuff, a secret"), 10, 20, &mut out);
    assert_eq!(out.len(), 2);
    assert_eq!(out[0].match_type, "filename");
    assert_eq!(out[0].matched, "secret");
    assert_eq!(out[0].rule_id, "k");
    assert_eq!(out[0].risk_level, "high");
    assert_eq!(out[1].match_type, "content");
    assert_eq!(out[1].matched, "top SECRET stuff, a secret");
    assert_eq!((out[1].file_size, out[1].mtime), (10, 20));
}

#[test]
fn content_hit_shows_a_window_with_ellipsis() {
    let rules = compile_rules(vec![rule("k", "keyword", "needle", &["content"])]).unwrap();
    let text = format!("{}needle{}", "x".repeat(100), "y".repeat(100));
    let mut out: Vec<Hit> = Vec::new();
    scan_file("/d/f.txt", "f.txt", &rules, Some(&text), 0, 0, &mut out);
    assert_eq!(out.len(), 1);
    assert_eq!(out[0].matched, format!("…{}", &text[60..146]));
}

#[test]
fn without_content_only_names_are_checked() {
    let rules = compile_rules(vec![rule("k", "keyword", "secret", &["filename", "content"])]).unwrap();
    let mut out: Vec<Hit> = Vec::new();
    scan_file("/d/plain.txt", "plain.txt", &rules, None, 0, 0, &mut out);
    assert!(out.is_empty());
}

#[test]
fn scan_dir_goes_file_by_file() {
    let rules = compile_rules(vec![rule("k", "keyword", "secret", &["filename"])]).unwrap();
    let files = vec![
        ScanTarget { path: "/d/secret1".into(), name: "secret1".into(), size: 1, mtime: 1, content: None },
        ScanTarget { path: "/d/other".into(), name: "other".into(), size: 1, mtime: 1, content: None },
        ScanTarget { path: "/d/secret2".into(), name: "secret2".into(), size: 1, mtime: 1, content: None },
    ];
    let hits = scan_dir(&files, &rules);
    let paths: Vec<&str> = hits.iter().map(|h| h.path.as_str()).collect();
    assert_eq!(paths, vec!["/d/secret1", "/d/secret2"]);
}
