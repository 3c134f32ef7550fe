use docsniffer::engine::searcher::parser::preprocess;
use docsniffer::engine::paths::Platform;
use docsniffer::engine::searcher::{extract_highlight_terms, make_snippet};

#[test]
fn size_in_megabytes_becomes_bytes() {
    assert_eq!(preprocess("size:>10mb"), "size:>10485760");
}

#[test]
fn size_with_fraction_and_operator() {
    assert_eq!(preprocess("size:>=1.5kb"), "size:>=1536");
}

#[test]
fn size_equals_operator_is_dropped() {
    assert_eq!(preprocess("size:=100"), "size:100");
}

#[test]
fn size_unit_is_case_insensitive_and_may_follow_a_space() {
    assert_eq!(preprocess("SIZE:<5 MB"), "size:<5242880");
    assert_eq!(preprocess("size:2GB"), "size:2147483648");
}

#[test]
fn size_fraction_is_rounded_down() {
    assert_eq!(preprocess("size:<0.1mb"), "size:<104857");
}

#[test]
fn mtime_date_becomes_epoch_seconds() {
    assert_eq!(preprocess("mtime:>2026-01-01"), "mtime:>1767225600");
}

#[test]
fn mtime_invalid_date_becomes_zero() {
    assert_eq!(preprocess("mtime:>2026-13-01"), "mtime:>0");
}

#[test]
fn mixed_query_rewrites_every_filter() {
    assert_eq!(
        preprocess("report size:>1kb mtime:<=2000-01-01 -draft"),
        "report size:>1024 mtime:<=946684800 -draft"
    );
}

#[test]
fn plain_query_is_unchanged() {
    assert_eq!(preprocess("报告 OR 文档 \"项目计划书\" path:reports"), "报告 OR 文档 \"项目计划书\" path:reports");
}

#[test]
fn highlight_terms_are_lowercased_runs() {
    let t = extract_highlight_terms("Hello, World 报告-ext:PDF");
    assert_eq!(t, vec!["hello", "world", "报", "告", "ext", "pdf"]);
}

#[test]
fn highlight_terms_of_punctuation_only_are_empty() {
    assert!(extract_highlight_terms(" ,;:- ").is_empty());
}

#[test]
fn snippet_shows_collapsed_text_around_match() {
    let h = vec!["beta".to_string()];
    let s = make_snippet(Some("  alpha \n\t beta   gamma "), "/x/doc.txt", &h, Platform::Linux);
    assert_eq!(s, "alpha beta gamma");
}

#[test]
fn snippet_is_case_insensitive() {
    let h = vec!["beta".to_string()];
    let s = make_snippet(Some("ALPHA BETA"), "/x/doc.txt", &h, Platform::Linux);
    assert_eq!(s, "ALPHA BETA");
}

#[test]
fn snippet_without_match_falls_back_to_file_name() {
    let h = vec!["zzz".to_string()];
    assert_eq!(make_snippet(Some("alpha beta"), "/x/doc.txt", &h, Platform::Linux), "doc.txt");
}

#[test]
fn snippet_without_terms_or_text_is_empty() {
    assert_eq!(make_snippet(Some("alpha"), "/x/doc.txt", &[], Platform::Linux), "");
    let h = vec!["alpha".to_string()];
    assert_eq!(make_snippet(None, "/x/doc.txt", &h, Platform::Linux), "");
}

#[test]
fn snippet_window_is_cut_with_ellipses() {
    let text = format!("{} needle {}", "a".repeat(200), "b".repeat(200));
    let h = vec!["needle".to_string()];
    let s = make_snippet(Some(&text), "/x/doc.txt", &h, Platform::Linux);
    let expected = format!("…{}…", &text[121..287]);
    assert_eq!(s, expected);
}

#[test]
fn snippet_window_never_splits_a_character() {
    let text = format!("{}needle{}", "中".repeat(100), "文".repeat(100));
    let h = vec!["needle".to_string()];
    let s = make_snippet(Some(&text), "/x/doc.txt", &h, Platform::Linux);
    assert!(s.starts_with('…') && s.ends_with('…'));
    assert!(s.contains("needle"));
    let inner = s.trim_start_matches('…').trim_end_matches('…');
    assert_eq!(inner.chars().filter(|c| *c == '中').count(), 27);
    assert_eq!(inner.chars().filter(|c| *c == '文').count(), 26);
}

#[test]
fn cjk_characters_are_terms_of_their_own() {
    assert_eq!(extract_highlight_terms("Hello世界 OR foo"), vec!["hello", "世", "界", "or", "foo"]);
}

#[test]
fn non_ascii_letters_below_cjk_separate_terms() {
    assert_eq!(extract_highlight_terms("café\u{3000}x"), vec!["caf", "x"]);
}

#[test]
fn words_after_a_size_filter_are_kept() {
    assert_eq!(preprocess("size:>10 report"), "size:>10 report");
    assert_eq!(preprocess("size:>10 budget"), "size:>10 budget");
    assert_eq!(preprocess("size:>10mbx"), "size:>10485760x");
    assert_eq!(preprocess("size:>10 mbx"), "size:>10 mbx");
    assert_eq!(preprocess("size:>10kbreport"), "size:>10240report");
    assert_eq!(preprocess("size:>10 kb report"), "size:>10240 report");
    assert_eq!(preprocess("size:<3b,x"), "size:<3,x");
}

#[test]
fn snippet_fallback_uses_the_platform_file_name() {
    let h = vec!["zzz".to_string()];
    assert_eq!(make_snippet(Some("abc"), "C:\\docs\\a.txt", &h, Platform::Windows), "a.txt");
}

#[test]
fn unicode_digits_match_but_do_not_read_as_numbers() {
    assert_eq!(preprocess("size:>１kb"), "size:>0");
    assert_eq!(preprocess("size:<٣mb report"), "size:<0 report");
    assert_eq!(preprocess("size:1２"), "size:0");
    assert_eq!(preprocess("mtime:>２０２６-01-01"), "mtime:>0");
    assert_eq!(preprocess("size:>中"), "size:>中");
    assert_eq!(preprocess("size:>²"), "size:>²");
}
