use docsniffer::commands::{
    batch_item, check_index_move, settle_scan, ScanReport, index_failure_warning, move_target, progress_due,
    refusal_message, MoveRefusal,
};
use docsniffer::engine::batch::BatchInfo;
use docsniffer::engine::watcher::{Debouncer, DEBOUNCE_MS};
use docsniffer::engine::paths::Platform;
use docsniffer::engine::{data_dir_from, resolve_data_dir, resolve_index_dir, APP_ID, INDEX_DIR_KEY};

#[test]
fn constants() {
    assert_eq!(APP_ID, "cn.helilab.docsniffer");
    assert_eq!(INDEX_DIR_KEY, "index_dir");
    assert_eq!(DEBOUNCE_MS, 1000);
}

#[test]
fn index_dir_prefers_the_stored_setting() {
    assert_eq!(resolve_index_dir(Some("  /mnt/idx \n".into()), "/data", Platform::Linux), "/mnt/idx");
    assert_eq!(resolve_index_dir(Some("   ".into()), "/data", Platform::Linux), "/data/index");
    assert_eq!(resolve_index_dir(None, "/data", Platform::Linux), "/data/index");
}

#[test]
fn data_dir_candidates_in_order() {
    assert_eq!(data_dir_from(Some("/opt/app".into()), Some("/l".into()), None, None, "/tmp", Platform::Linux), "/opt/app/Data");
    assert_eq!(data_dir_from(None, Some("/l".into()), Some("/d".into()), Some("/h".into()), "/tmp", Platform::Linux), "/l/DocSniffer");
    assert_eq!(data_dir_from(None, None, Some("/d".into()), Some("/h".into()), "/tmp", Platform::Linux), "/d/DocSniffer");
    assert_eq!(data_dir_from(None, None, None, Some("/h".into()), "/tmp", Platform::Linux), "/h/DocSniffer");
    assert_eq!(data_dir_from(None, None, None, None, "/tmp", Platform::Linux), "/tmp/DocSniffer");
    assert_eq!(resolve_data_dir(Some("/opt/app".into()), "/tmp", Platform::Linux), "/opt/app/Data");
    assert!(resolve_data_dir(None, "/tmp", Platform::Linux).ends_with("/DocSniffer"));
}

#[test]
fn debounce_waits_for_quiet_then_flushes_once() {
    let mut d = Debouncer::new(0);
    assert!(d.poll(5000).is_none());
    d.on_event(vec!["/a".into(), "/b".into(), "/a".into()], 100);
    assert!(d.poll(100 + DEBOUNCE_MS - 1).is_none());
    d.on_event(vec!["/b".into(), "/c".into()], 600);
    assert!(d.poll(1100).is_none());
    let mut flushed = d.poll(1600).unwrap();
    flushed.sort();
    assert_eq!(flushed, vec!["/a", "/b", "/c"]);
    assert!(d.poll(10_000).is_none());
}

#[test]
fn progress_every_200_and_at_the_end() {
    assert!(progress_due(200, 1000));
    assert!(progress_due(400, 1000));
    assert!(!progress_due(201, 1000));
    assert!(progress_due(1000, 1000));
    assert!(progress_due(7, 7));
    assert!(!progress_due(6, 7));
}

#[test]
fn index_failure_warning_text() {
    assert_eq!(index_failure_warning("/a.txt", "disk full"), "/a.txt：索引失败（disk full）");
}

#[test]
fn batch_items_carry_counts() {
    let b = BatchInfo { id: "i".into(), name: "n".into(), path: "/p".into(), created_at: 9 };
    let item = batch_item(b, 3);
    assert_eq!((item.id.as_str(), item.name.as_str(), item.path.as_str(), item.created_at, item.documents), ("i", "n", "/p", 9, 3));
}

#[test]
fn index_move_checks() {
    assert_eq!(move_target("  /new/idx  "), "/new/idx");
    assert_eq!(check_index_move("   ", "/old", None, None, false, Platform::Linux).err(), Some(MoveRefusal::NoTarget));
    assert_eq!(check_index_move("/old/", "/old", None, None, false, Platform::Linux).err(), Some(MoveRefusal::SameDirectory));
    assert_eq!(check_index_move("/x", "/old", Some("/same".into()), Some("/same".into()), false, Platform::Linux).err(), Some(MoveRefusal::SameDirectory));
    assert_eq!(check_index_move("/old/sub", "/old", None, None, false, Platform::Linux).err(), Some(MoveRefusal::Nested));
    assert_eq!(check_index_move("/", "/old", None, None, false, Platform::Linux).err(), Some(MoveRefusal::Nested));
    assert_eq!(check_index_move("/new", "/old", None, None, true, Platform::Linux).err(), Some(MoveRefusal::TargetHasIndex));
    assert_eq!(check_index_move(" /oldish ", "/old", None, None, false, Platform::Linux).ok(), Some("/oldish".to_string()));
}

#[test]
fn refusal_messages() {
    assert_eq!(refusal_message(MoveRefusal::NoTarget, ""), "请选择有效的目录");
    assert_eq!(refusal_message(MoveRefusal::SameDirectory, "/x"), "新位置与当前索引目录相同");
    assert_eq!(refusal_message(MoveRefusal::Nested, "/x"), "新位置不能位于当前索引目录内部，也不能是它的父目录");
    assert_eq!(refusal_message(MoveRefusal::TargetHasIndex, "/x"), "目标目录已包含索引数据：/x");
}

#[test]
fn failed_scan_drops_its_batch() {
    let b = |id: &str| BatchInfo { id: id.into(), name: "n".into(), path: "/p".into(), created_at: 1 };
    let mut list = vec![b("keep"), b("scan")];
    let r = settle_scan(Err("disk gone".to_string()), &mut list, "scan");
    assert_eq!(r.err(), Some("disk gone".to_string()));
    assert_eq!(list.len(), 1);
    assert_eq!(list[0].id, "keep");
    let mut list = vec![b("keep"), b("scan")];
    let r = settle_scan(Ok(ScanReport { indexed: 3, warnings: vec![] }), &mut list, "scan");
    assert_eq!(r.unwrap().indexed, 3);
    assert_eq!(list.len(), 2);
}

#[test]
fn windows_index_move_refuses_nested_targets() {
    let w = Platform::Windows;
    assert_eq!(check_index_move("idx\\s", "idx", None, None, false, w).err(), Some(MoveRefusal::Nested));
    assert_eq!(check_index_move("C:\\", "c:\\data\\index", None, None, false, w).err(), Some(MoveRefusal::Nested));
    assert_eq!(check_index_move("C:/Data/Index/", "C:\\Data\\Index", None, None, false, w).err(), Some(MoveRefusal::SameDirectory));
    assert_eq!(check_index_move("D:\\idx", "C:\\idx", None, None, false, w).ok(), Some("D:\\idx".to_string()));
    assert_eq!(check_index_move("idx\\s", "idx", None, None, false, Platform::Linux).ok(), Some("idx\\s".to_string()));
}

#[test]
fn windows_data_and_index_dirs() {
    let w = Platform::Windows;
    assert_eq!(data_dir_from(None, Some("C:\\Users\\u\\AppData\\Local".into()), None, None, "C:\\Temp", w), "C:\\Users\\u\\AppData\\Local\\DocSniffer");
    assert_eq!(resolve_index_dir(None, "C:\\D", w), "C:\\D\\index");
}
