use docsniffer::engine::paths::{
    file_name, file_name_on, join, path_components, path_components_on, path_starts_with, paths_equal,
    same_dir, Platform,
};
use docsniffer::engine::scanner::{
    default_exclude_dirs, extension, file_entry, format_warning, is_excluded, is_hidden,
    push_warning, ScanOptions, MAX_SCAN_WARNINGS,
};
use docsniffer::engine::storage::Store;

fn comps(p: &str) -> Vec<String> {
    path_components(p).into_iter().map(|c| c.into_iter().collect()).collect()
}

#[test]
fn file_names() {
    assert_eq!(file_name("/a/b.txt"), Some("b.txt".to_string()));
    assert_eq!(file_name("a/b/"), Some("b".to_string()));
    assert_eq!(file_name("a/b/."), Some("b".to_string()));
    assert_eq!(file_name("b"), Some("b".to_string()));
    assert_eq!(file_name("/"), None);
    assert_eq!(file_name(""), None);
    assert_eq!(file_name("a/.."), None);
    assert_eq!(file_name("."), None);
}

#[test]
fn joins() {
    assert_eq!(join("/data", "index", Platform::Linux), "/data/index");
    assert_eq!(join("/data/", "index", Platform::Linux), "/data/index");
    assert_eq!(join("", "index", Platform::Linux), "index");
    assert_eq!(join("/data", "/abs", Platform::Linux), "/abs");
}

#[test]
fn components() {
    assert_eq!(comps("/a//b/./c/"), vec!["/", "a", "b", "c"]);
    assert_eq!(comps("./a/."), vec![".", "a"]);
    assert_eq!(comps("a/../b"), vec!["a", "..", "b"]);
    assert!(comps("").is_empty());
}

#[test]
fn prefixes_are_whole_components() {
    assert!(path_starts_with("/a/b/c", "/a/b", Platform::Linux));
    assert!(path_starts_with("/a/b/", "/a/b", Platform::Linux));
    assert!(!path_starts_with("/a/bc", "/a/b", Platform::Linux));
    assert!(!path_starts_with("/a", "/a/b", Platform::Linux));
    assert!(paths_equal("/a/b/", "/a//b", Platform::Linux));
    assert!(!paths_equal("/a/b", "a/b", Platform::Linux));
}

#[test]
fn same_dir_prefers_canonical_forms() {
    assert!(same_dir(Some("/real/x".into()), "/link/x", Some("/real/x".into()), "/other", Platform::Linux));
    assert!(same_dir(None, "/a/b", None, "/a/b/", Platform::Linux));
    assert!(!same_dir(Some("/real/x".into()), "/a", None, "/a", Platform::Linux));
}

#[test]
fn store_files() {
    let s = Store::with_dir("/data/DocSniffer".to_string(), Platform::Linux);
    assert_eq!(s.path("batches"), "/data/DocSniffer/batches.json");
    assert_eq!(s.dir(), "/data/DocSniffer");
}

#[test]
fn hidden_entries() {
    assert!(is_hidden("/home/u/.bashrc", Platform::Linux));
    assert!(is_hidden("/home/u/.cache/", Platform::Linux));
    assert!(!is_hidden("/home/u/file.txt", Platform::Linux));
    assert!(!is_hidden("/", Platform::Linux));
    assert!(is_hidden("C:\\Users\\u\\.git", Platform::Windows));
    assert!(!is_hidden("C:\\Users\\u\\.git", Platform::Linux));
}

#[test]
fn default_options_and_exclusions() {
    let o = ScanOptions::default();
    assert!(o.include_hidden && !o.follow_links && o.platform == Platform::Linux);
    assert_eq!(o.exclude_dirs, default_exclude_dirs(Platform::Linux, vec![]));
    assert!(o.exclude_dirs.contains(&"/proc".to_string()));
    assert!(is_excluded("/proc", &o));
    assert!(is_excluded("/proc/1/status", &o));
    assert!(!is_excluded("/process", &o));
    assert!(!is_excluded("/home/u", &o));
}

#[test]
fn extensions() {
    assert_eq!(extension("a.tar.gz"), Some("gz".to_string()));
    assert_eq!(extension(".bashrc"), None);
    assert_eq!(extension("noext"), None);
    assert_eq!(extension("a."), Some("".to_string()));
    assert_eq!(extension("..x"), Some("x".to_string()));
}

#[test]
fn file_entries() {
    let fe = file_entry("/d/Report.PDF", 12, 34, Platform::Linux).unwrap();
    assert_eq!((fe.path.as_str(), fe.name.as_str(), fe.ext.as_str(), fe.size, fe.mtime), ("/d/Report.PDF", "Report.PDF", "pdf", 12, 34));
    let fe = file_entry("/d/Makefile", 1, 2, Platform::Linux).unwrap();
    assert_eq!(fe.ext, "");
    assert!(file_entry("/", 0, 0, Platform::Linux).is_none());
    let fe = file_entry("C:\\d\\Report.PDF", 1, 2, Platform::Windows).unwrap();
    assert_eq!((fe.name.as_str(), fe.ext.as_str()), ("Report.PDF", "pdf"));
    assert!(file_entry("C:\\", 0, 0, Platform::Windows).is_none());
}

#[test]
fn warnings_are_capped() {
    assert_eq!(format_warning("/x", "denied"), "/x: denied");
    assert_eq!(format_warning("", "loop"), "loop");
    let mut w = Vec::new();
    for i in 0..(MAX_SCAN_WARNINGS + 5) {
        push_warning(&mut w, format!("w{i}"));
    }
    assert_eq!(w.len(), MAX_SCAN_WARNINGS);
    assert_eq!(w[99], "w99");
}

#[test]
fn per_platform_default_exclusions() {
    let mac = default_exclude_dirs(Platform::MacOs, vec![]);
    assert_eq!(mac[0], "/System");
    assert_eq!(mac.len(), 10);
    assert!(default_exclude_dirs(Platform::Other, vec![Some("x".into())]).is_empty());
    let win = default_exclude_dirs(
        Platform::Windows,
        vec![Some("C:\\Windows".into()), None, Some("".into()), Some("C:\\ProgramData".into())],
    );
    assert_eq!(win, vec!["C:\\Windows", "C:\\ProgramData"]);
}

#[test]
fn windows_exclusion_ignores_case_and_separators() {
    let o = ScanOptions::for_platform(Platform::Windows, vec![Some("C:\\Windows".into())]);
    assert!(is_excluded("c:/windows/system32", &o));
    assert!(is_excluded("C:\\WINDOWS", &o));
    assert!(!is_excluded("C:\\Windowsold", &o));
    assert!(is_excluded("D:\\$Recycle.Bin\\S-1-5", &o));
    assert!(is_excluded("D:\\data\\System Volume Information", &o));
    assert!(!is_excluded("D:\\data\\docs", &o));
}

fn comps_on(p: &str, pf: Platform) -> Vec<String> {
    path_components_on(p, pf).into_iter().map(|c| c.into_iter().collect()).collect()
}

#[test]
fn windows_paths() {
    let w = Platform::Windows;
    assert_eq!(comps_on("c:\\idx\\s", w), vec!["C:", "/", "idx", "s"]);
    assert_eq!(comps_on("C:idx", w), vec!["C:", "idx"]);
    assert!(path_starts_with("idx\\s", "idx", w));
    assert!(!path_starts_with("idx\\s", "idx", Platform::Linux));
    assert!(path_starts_with("c:/idx/s", "C:\\idx", w));
    assert!(!path_starts_with("C:\\idxs", "C:\\idx", w));
    assert!(paths_equal("C:\\a\\", "C:/a", w));
    assert!(!paths_equal("C:\\a", "C:a", w));
    assert_eq!(file_name_on("C:\\docs\\a.txt", w), Some("a.txt".to_string()));
    assert_eq!(file_name_on("C:\\docs\\a.txt", Platform::Linux), Some("C:\\docs\\a.txt".to_string()));
    assert_eq!(file_name_on("C:", w), None);
    assert_eq!(file_name_on("C:a.txt", w), Some("a.txt".to_string()));
    assert_eq!(join("C:\\data", "index", w), "C:\\data\\index");
    assert_eq!(join("C:\\data\\", "index", w), "C:\\data\\index");
    assert_eq!(join("C:", "x", w), "C:x");
    assert_eq!(join("C:\\d", "\\abs", w), "C:\\abs");
    assert_eq!(join("C:\\d", "D:\\e", w), "D:\\e");
    let s = Store::with_dir("C:\\Users\\u\\DocSniffer".to_string(), w);
    assert_eq!(s.path("rules"), "C:\\Users\\u\\DocSniffer\\rules.json");
}
