use docsniffer::engine::paths::Platform;
use docsniffer::engine::batch::{
    add, default_name, format_id, get, load_all, name_at, new_id, remove, BatchInfo, IdSequence,
    STORE_KEY,
};

fn batch(id: &str, t: u64) -> BatchInfo {
    BatchInfo { id: id.to_string(), name: format!("n-{id}"), path: format!("/p/{id}"), created_at: t }
}

fn ids(v: &[BatchInfo]) -> Vec<String> {
    v.iter().map(|b| b.id.clone()).collect()
}

#[test]
fn store_key_is_batches() {
    assert_eq!(STORE_KEY, "batches");
}

#[test]
fn load_all_defaults_to_empty() {
    assert!(load_all(None).is_empty());
    assert_eq!(ids(&load_all(Some(vec![batch("a", 1)]))), vec!["a"]);
}

#[test]
fn add_keeps_newest_first() {
    let list = add(Vec::new(), batch("a", 10));
    let list = add(list, batch("b", 30));
    let list = add(list, batch("c", 20));
    assert_eq!(ids(&list), vec!["b", "c", "a"]);
}

#[test]
fn add_keeps_order_of_equal_times() {
    let list = add(vec![batch("a", 5), batch("b", 5)], batch("c", 5));
    assert_eq!(ids(&list), vec!["a", "b", "c"]);
}

#[test]
fn add_sorts_an_unsorted_list() {
    let list = add(vec![batch("a", 1), batch("b", 3), batch("c", 2)], batch("d", 0));
    assert_eq!(ids(&list), vec!["b", "c", "a", "d"]);
}

#[test]
fn get_finds_the_first_with_the_id() {
    let list = vec![batch("a", 1), batch("b", 2), batch("a", 3)];
    let found = get(list, "a").unwrap();
    assert_eq!(found.created_at, 1);
    assert!(get(vec![batch("a", 1)], "zz").is_none());
}

#[test]
fn remove_drops_every_batch_with_the_id() {
    let mut list = vec![batch("a", 1), batch("b", 2), batch("a", 3)];
    assert!(remove(&mut list, "a"));
    assert_eq!(ids(&list), vec!["b"]);
    assert!(!remove(&mut list, "a"));
    assert_eq!(ids(&list), vec!["b"]);
}

#[test]
fn id_format_is_hex_clock_and_decimal_sequence() {
    assert_eq!(format_id(255, 7), "batch-ff-7");
    assert_eq!(format_id(0, 0), "batch-0-0");
    assert_eq!(format_id(0x1234abcd, 42), "batch-1234abcd-42");
}

#[test]
fn consecutive_ids_differ() {
    let mut seq = IdSequence::new();
    let a = new_id(&mut seq);
    let b = new_id(&mut seq);
    assert_ne!(a, b);
    assert!(a.starts_with("batch-") && a.ends_with("-0"));
    assert!(b.ends_with("-1"));
}

#[test]
fn default_name_uses_the_final_component() {
    assert_eq!(name_at("/home/u/docs", 42, Platform::Linux), "docs · 42");
    assert_eq!(name_at("/home/u/docs/", 7, Platform::Linux), "docs · 7");
    assert_eq!(name_at("/", 5, Platform::Linux), "/ · 5");
    let n = default_name("/data/reports", Platform::Linux);
    assert!(n.starts_with("reports · "));
    assert!(n["reports · ".len()..].chars().all(|c| c.is_ascii_digit()));
}

#[test]
fn added_batch_can_be_looked_up() {
    let list = add(vec![batch("a", 1), batch("b", 9)], batch("new", 5));
    let found = get(list, "new").unwrap();
    assert_eq!((found.id.as_str(), found.created_at), ("new", 5));
}

#[test]
fn default_name_on_windows_uses_the_final_component() {
    assert_eq!(name_at("C:\\docs\\reports", 3, Platform::Windows), "reports · 3");
    assert_eq!(name_at("C:\\", 3, Platform::Windows), "C:\\ · 3");
}
