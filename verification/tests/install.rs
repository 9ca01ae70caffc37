use rsbin::install::replace::{ReplaceAction, ReplaceEvent, ReplaceState, Replacement};
use rsbin::install::tree::{plan_tree, stage_files, stage_links};
use rsbin::install::{
    config_file_in, default_config_path, default_install_dir, default_lock_path, is_locked_latest,
    link_target_mode, make_way_for_link, package_file_mode, package_install_dir, program_dir_in,
    record_successful_install, removal, validate_package_name, LockFile, PathKind, Removal,
};
use rsbin::paths::PathStyle;
use rsbin::select::{SelectedPackage, SelectedPackageFile, SelectedPackageLink};
use std::collections::BTreeMap;
use std::path::PathBuf;

#[test]
fn lock_match_skips_unless_forced() {
    let mut lock = LockFile::default();
    lock.packages
        .insert("test".to_string(), "v1.0.0".to_string());

    assert!(is_locked_latest(&lock, "test", "v1.0.0", false));
    assert!(!is_locked_latest(&lock, "test", "v1.0.0", true));
    assert!(!is_locked_latest(&lock, "test", "v2.0.0", false));
}

fn write_lock(lock: &LockFile) -> String {
    let packages: BTreeMap<&str, &str> = lock
        .packages
        .entries()
        .iter()
        .map(|(name, tag)| (name.as_str(), tag.as_str()))
        .collect();
    serde_yaml::to_string(&packages).unwrap()
}

fn read_lock(text: &str) -> LockFile {
    let packages: BTreeMap<String, String> = serde_yaml::from_str(text).unwrap();
    let mut lock = LockFile::default();
    for (name, tag) in packages {
        lock.packages.insert(name, tag);
    }
    lock
}

#[test]
fn successful_install_is_persisted_before_later_failure() {
    let mut lock = LockFile::default();
    let mut saved = write_lock(&lock);
    if record_successful_install(&mut lock, "pkg1", "v1.0.0") {
        saved = write_lock(&lock);
    }
    assert_eq!(lock.packages.get("pkg1"), Some(&"v1.0.0".to_string()));

    let loaded = read_lock(&saved);
    assert_eq!(loaded.packages.get("pkg1"), Some(&"v1.0.0".to_string()));
}

#[test]
fn writes_and_loads_minimal_lock_file() {
    let mut lock = LockFile::default();
    lock.packages
        .insert("test".to_string(), "v1.0.0".to_string());
    let loaded = read_lock(&write_lock(&lock));
    assert_eq!(loaded, lock);
}

#[test]
fn records_only_news() {
    let mut lock = LockFile::default();
    assert!(lock.packages.is_empty());
    assert!(record_successful_install(&mut lock, "a", "1"));
    assert!(!record_successful_install(&mut lock, "a", "1"));
    assert!(record_successful_install(&mut lock, "b", "1"));
    assert!(record_successful_install(&mut lock, "a", "2"));
    assert_eq!(lock.packages.get("a"), Some(&"2".to_string()));
    assert_eq!(lock.packages.get("b"), Some(&"1".to_string()));
    assert!(is_locked_latest(&lock, "a", "2", false));
    assert!(!is_locked_latest(&lock, "c", "2", false));
}

#[test]
fn puts_packages_apart() {
    assert_eq!(
        package_install_dir("/home/u/.local/bin", "pi", PathStyle::Unix),
        "/home/u/.local/bin/packages/pi"
    );
    assert_eq!(
        package_install_dir("C:\\bin", "pi", PathStyle::Windows),
        "C:\\bin\\packages\\pi"
    );
    assert!(validate_package_name("pi").is_ok());
    for name in ["", ".", "..", "a/b", "a\\b"] {
        let failed = validate_package_name(name).unwrap_err();
        assert_eq!(failed.message(), format!("unsafe package name: {name}"));
    }
}

#[test]
fn gives_permissions() {
    assert_eq!(package_file_mode(Some(0o104755)), Some(0o755));
    assert_eq!(package_file_mode(None), None);
    assert_eq!(link_target_mode("t", true, 0o100644).unwrap(), Some(0o100755));
    assert_eq!(link_target_mode("t", true, 0o100610).unwrap(), None);
    let failed = link_target_mode("t", false, 0o755).unwrap_err();
    assert_eq!(failed.message(), "link target is not a file: t");
}

#[test]
fn removes_by_kind() {
    assert_eq!(removal(PathKind::Directory), Removal::Tree);
    assert_eq!(removal(PathKind::Other), Removal::File);
    assert_eq!(removal(PathKind::Missing), Removal::Nothing);
    assert!(make_way_for_link(PathKind::Other, "l").unwrap());
    assert!(!make_way_for_link(PathKind::Missing, "l").unwrap());
    let failed = make_way_for_link(PathKind::Directory, "l").unwrap_err();
    assert_eq!(failed.message(), "refusing to replace directory l");
}

#[test]
fn finds_default_paths() {
    let home = PathBuf::from("/home/u");
    let path = config_file_in(Some(home.clone()), "config.yml").unwrap();
    assert_eq!(path.home, home);
    assert_eq!(path.parts, vec![".config", "rsbin", "config.yml"]);
    assert_eq!(
        config_file_in(None, "config.yml").unwrap_err().message(),
        "could not determine user config directory"
    );
    let path = program_dir_in(Some(home.clone())).unwrap();
    assert_eq!(path.home, home);
    assert_eq!(path.parts, vec![".local", "bin"]);
    assert_eq!(
        program_dir_in(None).unwrap_err().message(),
        "could not determine user home directory"
    );
}

#[test]
fn asks_for_the_users_directories() {
    match dirs::home_dir() {
        Some(home) => {
            let path = default_config_path().unwrap();
            assert_eq!(path.home, home);
            assert_eq!(path.parts, vec![".config", "rsbin", "config.yml"]);
            let path = default_lock_path().unwrap();
            assert_eq!(path.home, home);
            assert_eq!(path.parts, vec![".config", "rsbin", "rsbin.lock.yml"]);
            let path = default_install_dir().unwrap();
            assert_eq!(path.home, home);
            assert_eq!(path.parts, vec![".local", "bin"]);
        }
        None => {
            assert!(default_config_path().is_err());
            assert!(default_lock_path().is_err());
            assert!(default_install_dir().is_err());
        }
    }
}

#[test]
fn plans_a_package_tree() {
    let package = SelectedPackage {
        files: vec![
            SelectedPackageFile {
                relative_path: "rtk".to_string(),
                contents: b"binary content".to_vec(),
                mode: Some(0o100644),
            },
            SelectedPackageFile {
                relative_path: "theme/dark.json".to_string(),
                contents: b"{}".to_vec(),
                mode: None,
            },
        ],
        links: vec![SelectedPackageLink {
            name: "rtk".to_string(),
            target: "rtk".to_string(),
        }],
    };
    let plan = plan_tree("rtk", "/bin", PathStyle::Unix).unwrap();
    assert_eq!(plan.packages_dir, "/bin/packages");
    assert_eq!(plan.package_dir, "/bin/packages/rtk");
    assert_eq!(plan.temp_prefix, ".rtk-");
    assert_eq!(plan.backup_prefix, ".rtk-old-");
    let files = stage_files(&package, "/bin/packages/.rtk-1", PathStyle::Unix);
    assert_eq!(files[0].destination, "/bin/packages/.rtk-1/rtk");
    assert_eq!(files[0].mode, Some(0o644));
    assert_eq!(files[1].destination, "/bin/packages/.rtk-1/theme/dark.json");
    assert_eq!(files[1].mode, None);
    let links = stage_links(&package, "/bin", &plan.package_dir, PathStyle::Unix);
    assert_eq!(links.len(), 1);
    assert_eq!(links[0].link_path, "/bin/rtk");
    assert_eq!(links[0].target, "/bin/packages/rtk/rtk");
    assert!(plan_tree("..", "/bin", PathStyle::Unix).is_err());
}

fn begin() -> Replacement {
    Replacement::new("temp".to_string(), "dir".to_string())
}

fn expect_move(replacement: &Replacement, expected_from: &str, expected_to: &str) {
    assert!(matches!(
        replacement.action(),
        ReplaceAction::Move { from, to } if from == expected_from && to == expected_to
    ));
}

#[test]
fn replaces_a_directory() {
    let mut replacement = begin();
    assert!(matches!(replacement.action(), ReplaceAction::Look(path) if path == "dir"));
    replacement.proceed(ReplaceEvent::Exists);
    assert!(matches!(replacement.action(), ReplaceAction::MakeBackup));
    replacement.proceed(ReplaceEvent::Made("backup".to_string()));
    assert!(matches!(replacement.action(), ReplaceAction::Remove(path) if path == "backup"));
    replacement.proceed(ReplaceEvent::Done);
    expect_move(&replacement, "dir", "backup");
    replacement.proceed(ReplaceEvent::Done);
    expect_move(&replacement, "temp", "dir");
    replacement.proceed(ReplaceEvent::Done);
    assert!(matches!(replacement.action(), ReplaceAction::Remove(path) if path == "backup"));
    replacement.proceed(ReplaceEvent::Done);
    assert!(matches!(replacement.action(), ReplaceAction::Succeed));
}

#[test]
fn replaces_nothing() {
    let mut replacement = begin();
    replacement.proceed(ReplaceEvent::Missing);
    expect_move(&replacement, "temp", "dir");
    replacement.proceed(ReplaceEvent::Done);
    assert!(matches!(replacement.action(), ReplaceAction::Succeed));
}

#[test]
fn puts_the_old_directory_back() {
    let mut replacement = begin();
    replacement.state = ReplaceState::MoveNew(Some("backup".to_string()));
    replacement.proceed(ReplaceEvent::Failed);
    expect_move(&replacement, "backup", "dir");
    replacement.proceed(ReplaceEvent::Done);
    assert!(matches!(replacement.action(), ReplaceAction::Remove(path) if path == "temp"));
    replacement.proceed(ReplaceEvent::Failed);
    assert!(matches!(replacement.action(), ReplaceAction::Fail));
}

#[test]
fn stops_replacing_at_a_failure() {
    let mut replacement = begin();
    replacement.proceed(ReplaceEvent::Failed);
    assert!(matches!(replacement.action(), ReplaceAction::Fail));
    let mut replacement = begin();
    replacement.state = ReplaceState::MoveOld("backup".to_string());
    replacement.proceed(ReplaceEvent::Failed);
    assert!(matches!(replacement.action(), ReplaceAction::Fail));
    let mut replacement = begin();
    replacement.state = ReplaceState::DropOld("backup".to_string());
    replacement.proceed(ReplaceEvent::Failed);
    assert!(matches!(replacement.action(), ReplaceAction::Fail));
}
