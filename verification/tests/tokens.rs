use docsniffer::engine::indexer::writer::{id_of, truncate_indexed, CjkTokenizer, MAX_INDEX_CHARS};

fn tokens(text: &str) -> Vec<(usize, usize, usize, String)> {
    let mut tk = CjkTokenizer;
    let mut st = tk.token_stream(text);
    let mut out = Vec::new();
    while st.advance() {
        let t = st.token();
        out.push((t.offset_from, t.offset_to, t.position, t.text.clone()));
    }
    out
}

#[test]
fn ascii_runs_and_cjk_unigrams() {
    assert_eq!(
        tokens("Hello 世界 abc1"),
        vec![
            (0, 5, 0, "hello".to_string()),
            (6, 9, 1, "世".to_string()),
            (9, 12, 2, "界".to_string()),
            (13, 17, 3, "abc1".to_string()),
        ]
    );
}

#[test]
fn punctuation_and_spaces_give_no_tokens() {
    assert!(tokens(" ,.;!? \t\n").is_empty());
    assert!(tokens("").is_empty());
}

#[test]
fn ideographic_space_is_skipped() {
    assert_eq!(tokens("中\u{3000}文"), vec![(0, 3, 0, "中".to_string()), (6, 9, 1, "文".to_string())]);
}

#[test]
fn non_ascii_letters_below_cjk_are_separators() {
    assert_eq!(tokens("café"), vec![(0, 3, 0, "caf".to_string())]);
}

#[test]
fn id_is_sha256_hex_of_the_path() {
    assert_eq!(id_of("/a"), "6a50dc8584134c7de537c0052ff6d236bf874355e050c90523e0c5ff2a543a28");
    assert_eq!(id_of("/a").len(), 64);
    assert_ne!(id_of("/a"), id_of("/b"));
}

#[test]
fn short_text_is_indexed_whole() {
    assert_eq!(truncate_indexed("短文本 short"), "短文本 short");
}

#[test]
fn long_text_is_cut_at_the_character_limit() {
    let text = "字".repeat(MAX_INDEX_CHARS + 10);
    let t = truncate_indexed(&text);
    assert_eq!(t.chars().count(), MAX_INDEX_CHARS);
    assert_eq!(t.len(), 3 * MAX_INDEX_CHARS);
}
