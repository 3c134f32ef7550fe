use docsniffer::engine::extractor::decode::decode_text;
use docsniffer::engine::extractor::markup::{clean, replace_all, strip_tags_exec};
use docsniffer::engine::extractor::office::{
    archive_within_limits, declared_total, entry_within_cap, is_slide_entry, legacy_size_ok,
    nonblank, pptx_text, push_row, push_rows, sheet_text_full, ArchiveProbe, MAX_ARCHIVE_TOTAL_BYTES,
    MAX_LEGACY_FILE_BYTES,
};
use docsniffer::engine::extractor::{extract_kind, plan_extraction, ExtractKind, MAX_EXTRACT_BYTES};

fn chars(s: &str) -> Vec<char> {
    s.chars().collect()
}

fn string(v: Vec<char>) -> String {
    v.into_iter().collect()
}

#[test]
fn limits() {
    assert_eq!(MAX_EXTRACT_BYTES, 50 * 1024 * 1024);
    assert_eq!(MAX_ARCHIVE_TOTAL_BYTES, 100 * 1024 * 1024);
    assert_eq!(MAX_LEGACY_FILE_BYTES, 20 * 1024 * 1024);
}

#[test]
fn extension_picks_the_extractor() {
    assert_eq!(extract_kind("txt"), Some(ExtractKind::Text));
    assert_eq!(extract_kind("graphql"), Some(ExtractKind::Text));
    assert_eq!(extract_kind("docx"), Some(ExtractKind::Docx));
    assert_eq!(extract_kind("word"), Some(ExtractKind::Docx));
    assert_eq!(extract_kind("wps"), Some(ExtractKind::Wps));
    assert_eq!(extract_kind("dps"), Some(ExtractKind::Dps));
    assert_eq!(extract_kind("et"), Some(ExtractKind::Xlsx));
    assert_eq!(extract_kind("xlsm"), Some(ExtractKind::Xlsx));
    assert_eq!(extract_kind("pptx"), Some(ExtractKind::Pptx));
    assert_eq!(extract_kind("pdf"), Some(ExtractKind::Pdf));
    assert_eq!(extract_kind("exe"), None);
    assert_eq!(extract_kind("PDF"), None);
}

#[test]
fn large_files_are_not_extracted() {
    assert_eq!(plan_extraction("txt", MAX_EXTRACT_BYTES), Some(ExtractKind::Text));
    assert_eq!(plan_extraction("txt", MAX_EXTRACT_BYTES + 1), None);
}

#[test]
fn replace_is_left_to_right_without_overlap() {
    assert_eq!(string(replace_all(&chars("aaaa"), "aa", "b")), "bb");
    assert_eq!(string(replace_all(&chars("abcabc"), "bc", "")), "aa");
    assert_eq!(string(replace_all(&chars("xyz"), "", "-")), "xyz");
}

#[test]
fn tags_are_stripped() {
    assert_eq!(string(strip_tags_exec(&chars("<a>x<b c=\"1\">y</b></a>"))), "xy");
    assert_eq!(string(strip_tags_exec(&chars("1 < 2 <> 3"))), "1  3");
    assert_eq!(string(strip_tags_exec(&chars("a<>b"))), "a<>b");
    assert_eq!(string(strip_tags_exec(&chars("a <<b> c"))), "a  c");
    assert_eq!(string(strip_tags_exec(&chars("open <tag never closed"))), "open <tag never closed");
}

#[test]
fn clean_turns_word_xml_into_text() {
    let xml = "<w:document><w:p><w:r><w:t>Hello &amp; bye</w:t></w:r></w:p><w:p><w:t>2 &lt; 3</w:t></w:p></w:document>";
    assert_eq!(clean(xml), Some("Hello & bye\n2 < 3".to_string()));
}

#[test]
fn clean_marks_table_cells_and_rows() {
    let xml = "<w:tbl><w:tr><w:tc>a</w:tc><w:tc>b</w:tc></w:tr><w:tr><w:tc>c</w:tc></w:tr></w:tbl>";
    assert_eq!(clean(xml), Some("a b \nc".to_string()));
}

#[test]
fn clean_decodes_each_entity() {
    assert_eq!(clean("&amp;lt; &quot;q&quot; &apos;&#39;&nbsp;x"), Some("&lt; \"q\" ''\u{20}x".to_string()));
}

#[test]
fn clean_of_markup_only_is_none() {
    assert_eq!(clean(""), None);
    assert_eq!(clean("<a></a>  \n <b/>"), None);
}

#[test]
fn declared_total_saturates() {
    assert_eq!(declared_total(&[1, 2, 3]), 6);
    assert_eq!(declared_total(&[]), 0);
    assert_eq!(declared_total(&[u64::MAX - 1, 5, 7]), u64::MAX);
}

#[test]
fn archive_limits() {
    assert!(archive_within_limits(Some(ArchiveProbe::Zip(MAX_ARCHIVE_TOTAL_BYTES))));
    assert!(!archive_within_limits(Some(ArchiveProbe::Zip(MAX_ARCHIVE_TOTAL_BYTES + 1))));
    assert!(archive_within_limits(Some(ArchiveProbe::NotZip)));
    assert!(!archive_within_limits(None));
}

#[test]
fn oversized_entry_is_dropped() {
    assert_eq!(entry_within_cap("<x/>".to_string()), Some("<x/>".to_string()));
    let big = "a".repeat(MAX_EXTRACT_BYTES as usize + 1);
    assert_eq!(entry_within_cap(big), None);
}

#[test]
fn slide_entries() {
    assert!(is_slide_entry("ppt/slides/slide1.xml"));
    assert!(is_slide_entry("ppt/slides/slide12.xml"));
    assert!(!is_slide_entry("ppt/slides/_rels/slide1.xml.rels"));
    assert!(!is_slide_entry("ppt/slideLayouts/slideLayout1.xml"));
    assert!(!is_slide_entry("ppt/slides/slide1.xm"));
}

#[test]
fn slides_are_joined_then_cleaned() {
    let chunks = vec!["<p:sld><a:p><a:t>One</a:t></a:p></p:sld>".to_string(), "<a:t>Two</a:t>".to_string()];
    assert_eq!(pptx_text(&chunks), Some("One\n\nTwo".to_string()));
    assert_eq!(pptx_text(&[]), None);
}

#[test]
fn slides_over_the_limit_give_nothing() {
    let half = "a".repeat(MAX_EXTRACT_BYTES as usize / 2 + 1);
    assert_eq!(pptx_text(&[half.clone(), half]), None);
}

#[test]
fn sheet_rows() {
    let mut out = String::new();
    push_row(&mut out, &["a".to_string(), "1".to_string(), "".to_string()]);
    push_row(&mut out, &[]);
    push_row(&mut out, &["b".to_string()]);
    assert_eq!(out, "a 1 \n\nb\n");
    assert!(!sheet_text_full(&out));
    assert!(sheet_text_full(&"x".repeat(MAX_EXTRACT_BYTES as usize)));
}

#[test]
fn sheet_rows_stop_once_the_text_is_full() {
    let mut out = String::new();
    let rows = vec![vec!["a".to_string(), "b".to_string()], vec![], vec!["c".to_string()]];
    assert!(!push_rows(&mut out, &rows));
    assert_eq!(out, "a b\n\nc\n");

    let mut full = "x".repeat(MAX_EXTRACT_BYTES as usize - 1);
    let rows = vec![vec!["y".to_string()], vec!["z".to_string()]];
    assert!(push_rows(&mut full, &rows));
    assert_eq!(full.len(), MAX_EXTRACT_BYTES as usize + 1);
    assert!(full.ends_with("xy\n"));
}

#[test]
fn legacy_gates() {
    assert!(legacy_size_ok(MAX_LEGACY_FILE_BYTES));
    assert!(!legacy_size_ok(MAX_LEGACY_FILE_BYTES + 1));
    assert_eq!(nonblank(" \n\t".to_string()), None);
    assert_eq!(nonblank(" x ".to_string()), Some(" x ".to_string()));
}

#[test]
fn decode_empty_is_none() {
    assert_eq!(decode_text(&[]), None);
}

#[test]
fn decode_utf8_as_is() {
    assert_eq!(decode_text("héllo 世界".as_bytes()), Some("héllo 世界".to_string()));
}

#[test]
fn decode_boms() {
    assert_eq!(decode_text(&[0xEF, 0xBB, 0xBF, b'h', b'i']), Some("hi".to_string()));
    assert_eq!(decode_text(&[0xFF, 0xFE, b'h', 0, b'i', 0]), Some("hi".to_string()));
    assert_eq!(decode_text(&[0xFE, 0xFF, 0, b'h', 0, b'i']), Some("hi".to_string()));
}

#[test]
fn decode_gbk_by_detection() {
    let hex = "d6d0cec4b2e2cad4cec4b1bea3acd5e2cac7d2bbb8f6d3c3d3dab1e0c2ebbcecb2e2b5c4bdcfb3a4bee4d7d3a1a3";
    let bytes: Vec<u8> = (0..hex.len()).step_by(2).map(|i| u8::from_str_radix(&hex[i..i + 2], 16).unwrap()).collect();
    assert_eq!(decode_text(&bytes), Some("中文测试文本，这是一个用于编码检测的较长句子。".to_string()));
}

#[test]
fn entities_are_decoded_once() {
    assert_eq!(clean("<w:t>&amp;quot; &amp;nbsp;</w:t>"), Some("&quot; &nbsp;".to_string()));
    assert_eq!(clean("&amp;amp;"), Some("&amp;".to_string()));
}
