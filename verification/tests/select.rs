use rsbin::archive::ArchiveEntry;
use rsbin::config::RenderedFile;
use rsbin::paths::{join_path, safe_relative_path, PathStyle};
use rsbin::pattern::try_pattern;
use rsbin::select::{pick_files, pick_package, select_extracted_files, select_package_install};

fn file(name: &str, path: &str) -> RenderedFile {
    RenderedFile { name: name.to_string(), path: path.to_string() }
}

fn entry(path: &str, contents: &[u8], mode: Option<u32>) -> ArchiveEntry {
    ArchiveEntry { archive_path: path.to_string(), contents: contents.to_vec(), mode }
}

#[test]
fn select_matches_exact_path() {
    let configured = vec![file("example", "example-amd64")];
    let entries = vec![entry("example-amd64", b"binary content", None)];

    let selected = select_extracted_files(&configured, &entries).unwrap();
    assert_eq!(selected.len(), 1);
    assert_eq!(selected[0].name, "example");
    assert_eq!(selected[0].contents, b"binary content");
}

#[test]
fn select_matches_glob_pattern() {
    let configured = vec![file("example", "example-*")];
    let entries = vec![entry("example-amd64", b"binary content", None)];

    let selected = select_extracted_files(&configured, &entries).unwrap();
    assert_eq!(selected.len(), 1);
    assert_eq!(selected[0].name, "example");
}

#[test]
fn select_fails_on_missing_configured_file() {
    let configured = vec![file("example", "missing-file")];
    let entries = vec![entry("example-amd64", b"binary content", None)];

    let result = select_extracted_files(&configured, &entries);
    assert!(result.is_err());
}

#[test]
fn select_ignores_unconfigured_archive_entries() {
    let configured = vec![file("example", "example-amd64")];
    let entries = vec![
        entry("example-amd64", b"binary content", None),
        entry("README.md", b"readme", None),
    ];

    let selected = select_extracted_files(&configured, &entries).unwrap();
    assert_eq!(selected.len(), 1);
    assert_eq!(selected[0].name, "example");
}

#[test]
fn select_package_install_keeps_tree_and_links_configured_file() {
    let configured = vec![file("rtk", "rtk")];
    let entries = vec![
        entry("rtk", b"binary content", Some(0o755)),
        entry("theme/dark.json", b"{}", Some(0o644)),
    ];

    let selected = select_package_install(&configured, &entries, PathStyle::Unix).unwrap();

    assert_eq!(selected.files.len(), 2);
    assert_eq!(selected.files[0].relative_path, "rtk");
    assert_eq!(selected.links.len(), 1);
    assert_eq!(selected.links[0].name, "rtk");
    assert_eq!(selected.links[0].target, "rtk");
}

#[test]
fn select_package_install_fails_on_missing_link_target() {
    let configured = vec![file("rtk", "missing")];
    let entries = vec![entry("rtk", b"binary content", Some(0o755))];

    let result = select_package_install(&configured, &entries, PathStyle::Unix);
    assert!(result.is_err());
}

#[test]
fn select_package_install_rejects_unsafe_archive_path() {
    let configured = vec![file("rtk", "rtk")];
    let entries = vec![
        entry("rtk", b"binary content", Some(0o755)),
        entry("../outside", b"bad", Some(0o644)),
    ];

    let result = select_package_install(&configured, &entries, PathStyle::Unix);
    assert!(result.is_err());
}

#[test]
fn select_takes_the_first_match() {
    let configured = vec![file("a", "bin/*"), file("b", "b?")];
    let entries = vec![
        entry("b", b"0", None),
        entry("bin/one", b"1", None),
        entry("bin/two", b"2", None),
        entry("b2", b"3", None),
    ];
    let selected = select_extracted_files(&configured, &entries).unwrap();
    assert_eq!(selected[0].contents, b"1");
    assert_eq!(selected[1].contents, b"3");
}

#[test]
fn select_reports_each_failure() {
    let entries = vec![entry("a", b"1", None), entry("b/", b"2", None)];
    let failed = select_extracted_files(&vec![file("a", "x")], &entries).unwrap_err();
    assert_eq!(failed.message(), "artifact missing configured file: x");
    let failed = select_extracted_files(&vec![file("a", "a***")], &entries).unwrap_err();
    assert!(failed.message().starts_with("invalid glob pattern a***: "));
    let failed = select_package_install(&vec![file("../a", "a")], &entries, PathStyle::Unix).unwrap_err();
    assert_eq!(failed.message(), "unsafe archive path: ../a");
}

#[test]
fn picks_by_hits() {
    let files = vec![file("f", "p")];
    let entries = vec![entry("./d//x", b"1", Some(0o4755)), entry("y", b"2", None)];
    let picked = pick_files(&files, &entries, &vec![Ok(vec![false, true])]).unwrap();
    assert_eq!(picked[0].contents, b"2");
    let hits = vec![Ok(vec![true, true])];
    let package = pick_package(&files, &entries, &hits, PathStyle::Unix).unwrap();
    assert_eq!(package.files[0].relative_path, "d/x");
    assert_eq!(package.files[0].mode, Some(0o4755));
    assert_eq!(package.links[0].name, "f");
    assert_eq!(package.links[0].target, "d/x");
    let failed = pick_files(&files, &entries, &vec![Err("why".to_string())]).unwrap_err();
    assert_eq!(failed.message(), "invalid glob pattern p: why");
}

#[test]
fn tries_patterns() {
    let texts = vec!["a-b".to_string(), "a".to_string(), "a-".to_string()];
    assert_eq!(try_pattern("a-*", &texts), Ok(vec![true, false, true]));
    assert_eq!(try_pattern("a-", &texts), Ok(vec![false, false, true]));
    assert!(try_pattern("a***", &texts).is_err());
    assert_eq!(try_pattern("a\\*", &vec!["a\\b".to_string()]), Ok(vec![true]));
}

#[test]
fn keeps_paths_below() {
    let safe = |raw: &str| safe_relative_path(raw, PathStyle::Unix);
    assert_eq!(safe("a/./b//c/").unwrap(), "a/b/c");
    assert_eq!(safe("a/b/c").unwrap(), "a/b/c");
    assert_eq!(safe("./a").unwrap(), "a");
    assert_eq!(safe("..a/...").unwrap(), "..a/...");
    assert_eq!(safe("C:x").unwrap(), "C:x");
    for raw in ["", ".", "./", "/a", "a/../b", "..", "a\\b"] {
        let failed = safe(raw).unwrap_err();
        assert_eq!(failed.message(), format!("unsafe archive path: {raw}"));
    }
}

#[test]
fn refuses_drives_where_they_have_a_meaning() {
    let safe = |raw: &str| safe_relative_path(raw, PathStyle::Windows);
    assert_eq!(safe("a/./b//c").unwrap(), "a\\b\\c");
    assert_eq!(safe("ab:c").unwrap(), "ab:c");
    assert_eq!(safe("1:c").unwrap(), "1:c");
    assert_eq!(safe("a/C:b").unwrap(), "C:b");
    for raw in ["C:x", "c:/x", "/a", "//server/share/a", "a\\b", "a/../b"] {
        let failed = safe(raw).unwrap_err();
        assert_eq!(failed.message(), format!("unsafe archive path: {raw}"));
    }
}

#[test]
fn joins_paths() {
    let join = |base: &str, part: &str| join_path(base, part, PathStyle::Unix);
    assert_eq!(join("/a", "b"), "/a/b");
    assert_eq!(join("/a/", "b"), "/a/b");
    assert_eq!(join("", "b"), "b");
    assert_eq!(join("/a", "/b"), "/b");
    assert_eq!(join("/a", ""), "/a/");
    assert_eq!(join("/a", "C:b"), "/a/C:b");
}

#[test]
fn joins_paths_with_drives_and_shares() {
    let join = |base: &str, part: &str| join_path(base, part, PathStyle::Windows);
    assert_eq!(join("C:\\a", "b"), "C:\\a\\b");
    assert_eq!(join("C:\\a/", "b"), "C:\\a/b");
    assert_eq!(join("C:", "b"), "C:b");
    assert_eq!(join("C:\\a", "D:b"), "D:b");
    assert_eq!(join("C:\\a", "\\b"), "C:\\b");
    assert_eq!(join("\\\\server\\share\\a", "/b"), "\\\\server\\share/b");
    assert_eq!(join("C:\\a", "\\\\server\\share"), "\\\\server\\share");
    assert_eq!(join("C:\\a", "//x"), "C://x");
    assert_eq!(join("C:\\a", "//x/"), "C://x/");
    assert_eq!(join("C:\\a", "//./x"), "//./x");
    assert_eq!(join("C:\\a", "\\\\?\\D:\\b"), "\\\\?\\D:\\b");
}

#[test]
fn joins_paths_to_verbatim_paths() {
    let join = |base: &str, part: &str| join_path(base, part, PathStyle::Windows);
    let base = "\\\\?\\C:\\a\\b";
    assert_eq!(join(base, "c/d"), "\\\\?\\C:\\a\\b\\c\\d");
    assert_eq!(join(base, "./c/../../d"), "\\\\?\\C:\\a\\d");
    assert_eq!(join(base, "../../../d"), "\\\\?\\C:\\d");
    assert_eq!(join(base, "/d"), "\\\\?\\C:\\d");
    assert_eq!(join(base, ""), "\\\\?\\C:\\a\\b\\");
    let share = "\\\\?\\UNC\\server\\share\\a";
    assert_eq!(join(share, "\\d"), "\\\\?\\UNC\\server\\share\\d");
    assert_eq!(join("\\\\?\\pics", "d"), "\\\\?\\pics\\d");
}
