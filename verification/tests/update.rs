use flate2::write::GzEncoder;
use flate2::Compression;
use rsbin::config::{
    Config, DefinitionSet, DefinitionValueList, Definitions, FileEntry, InstallMode, Package,
    RenderedFile, RenderedPackage,
};
use rsbin::install::LockFile;
use rsbin::order::TextTable;
use rsbin::paths::PathStyle;
use rsbin::render::Platform;
use rsbin::source::{Asset, Release};
use rsbin::update::{
    choose_files, extract_entries, install_plan, match_asset, pick_asset, requested_packages, resolve_artifact,
    select_packages, MatchedAsset, ReleaseStep, Unpacked, Update,
};
use std::io::Write;

fn package(name: &str, install: InstallMode) -> Package {
    Package {
        name: name.to_string(),
        repo: format!("https://github.com/owner/{name}"),
        artifact: format!("{name}-{{triple}}.tar.gz"),
        install,
        file: vec![FileEntry { name: name.to_string(), path: format!("{name}-*/{name}") }],
    }
}

fn config() -> Config {
    let mut set = DefinitionSet { values: TextTable::new() };
    let values = DefinitionValueList(vec!["gnu".to_string(), "musl".to_string()]);
    set.values.insert("triple".to_string(), values);
    let mut definitions = Definitions { by_os: TextTable::new() };
    definitions.by_os.insert("linux".to_string(), vec![set]);
    Config {
        definitions,
        packages: vec![
            package("uv", InstallMode::Bin),
            package("pi", InstallMode::Package),
            package("codex", InstallMode::Bin),
        ],
    }
}

fn platform() -> Platform {
    Platform { os: "linux".to_string(), arch: "x86_64".to_string() }
}

fn release(tag: &str, names: &[&str]) -> Release {
    Release {
        tag_name: tag.to_string(),
        assets: names
            .iter()
            .map(|name| Asset { name: name.to_string(), download_url: format!("url:{name}") })
            .collect(),
    }
}

fn strings(list: &[&str]) -> Vec<String> {
    list.iter().map(|s| s.to_string()).collect()
}

#[test]
fn selects_requested_packages() {
    let config = config();
    assert!(requested_packages(&vec![]).is_none());
    let all = select_packages(&config, None).unwrap();
    let names: Vec<&str> = all.iter().map(|p| p.name.as_str()).collect();
    assert_eq!(names, vec!["uv", "pi", "codex"]);
    let requested = requested_packages(&strings(&["codex", "uv", "codex"]));
    let some = select_packages(&config, requested.as_ref()).unwrap();
    let names: Vec<&str> = some.iter().map(|p| p.name.as_str()).collect();
    assert_eq!(names, vec!["uv", "codex"]);
    let requested = requested_packages(&strings(&["zed", "uv", "ant"]));
    let failed = select_packages(&config, requested.as_ref()).unwrap_err();
    assert_eq!(failed.message(), "unknown package(s): ant, zed");
}

#[test]
fn prefers_the_first_form_that_matches() {
    let config = config();
    let both = release("v1", &["uv-musl.tar.gz", "uv-gnu.tar.gz"]);
    let matched = match_asset(&config.packages[0], &config, &both, &platform()).unwrap();
    assert_eq!(matched.asset_name, "uv-gnu.tar.gz");
    assert_eq!(matched.download_url, "url:uv-gnu.tar.gz");
    assert_eq!(matched.tag_name, "v1");
    assert_eq!(matched.rendered.artifact, "uv-gnu.tar.gz");
    let musl = release("v1", &["other", "uv-musl.tar.gz"]);
    let matched = match_asset(&config.packages[0], &config, &musl, &platform()).unwrap();
    assert_eq!(matched.rendered.artifact, "uv-musl.tar.gz");
    let none = release("v1", &["a", "b"]);
    let failed = match_asset(&config.packages[0], &config, &none, &platform()).unwrap_err();
    assert_eq!(failed.message(), "no matching asset for uv; available assets: a, b");
}

fn form(artifact: &str) -> RenderedPackage {
    RenderedPackage { artifact: artifact.to_string(), install: InstallMode::Bin, files: vec![] }
}

#[test]
fn matches_wildcards_and_passes_over_bad_patterns() {
    let mut config = config();
    config.packages[0].artifact = "uv-[{triple}.zip".to_string();
    let release = release("v1", &["uv-x.zip"]);
    assert!(match_asset(&config.packages[0], &config, &release, &platform()).is_err());
    config.packages[0].artifact = "uv-*.zip".to_string();
    let matched = match_asset(&config.packages[0], &config, &release, &platform()).unwrap();
    assert_eq!(matched.rendered.artifact, "uv-*.zip");
    assert_eq!(matched.asset_name, "uv-x.zip");
    let hits = vec![
        Err("bad".to_string()),
        Ok(vec![false, false]),
        Ok(vec![false, true]),
    ];
    let forms = vec![form("a"), form("b"), form("c")];
    let two = self::release("v2", &["x", "y"]);
    let picked = pick_asset(&config.packages[0], forms, &two, &hits).unwrap();
    assert_eq!(picked.rendered.artifact, "c");
    assert_eq!(picked.asset_name, "y");
}

fn matched(name: &str, install: InstallMode) -> MatchedAsset {
    MatchedAsset {
        rendered: RenderedPackage {
            artifact: format!("{name}-*.tar.gz"),
            install,
            files: vec![RenderedFile { name: name.to_string(), path: format!("{name}-*/{name}") }],
        },
        download_url: "url".to_string(),
        tag_name: "v1".to_string(),
        asset_name: format!("{name}-gnu.tar.gz"),
    }
}

fn artifact(name: &str) -> Vec<u8> {
    let mut builder = tar::Builder::new(Vec::new());
    for (path, content) in [(format!("{name}-gnu/{name}"), "program"), ("README".to_string(), "r")] {
        let mut header = tar::Header::new_gnu();
        header.set_size(content.len() as u64);
        header.set_mode(0o644);
        header.set_entry_type(tar::EntryType::Regular);
        builder.append_data(&mut header, path, content.as_bytes()).unwrap();
    }
    let data = builder.into_inner().unwrap();
    let mut encoder = GzEncoder::new(Vec::new(), Compression::default());
    encoder.write_all(&data).unwrap();
    encoder.finish().unwrap()
}

#[test]
fn chooses_files_by_install_mode() {
    let bin = matched("uv", InstallMode::Bin);
    let entries = extract_entries(&bin, &artifact("uv")).unwrap();
    assert_eq!(entries.len(), 2);
    let chosen = choose_files(&bin.rendered, &entries, PathStyle::Unix).unwrap();
    let Unpacked::Files(files) = chosen else {
        panic!("expected files");
    };
    assert_eq!(files.len(), 1);
    assert_eq!(files[0].name, "uv");
    assert_eq!(files[0].contents, b"program");
    let whole = matched("uv", InstallMode::Package);
    let chosen = choose_files(&whole.rendered, &entries, PathStyle::Unix).unwrap();
    let Unpacked::Package(package) = chosen else {
        panic!("expected a package");
    };
    assert_eq!(package.files.len(), 2);
    assert_eq!(package.links[0].target, "uv-gnu/uv");
    let other = matched("pi", InstallMode::Bin);
    let failed = choose_files(&other.rendered, &entries, PathStyle::Unix).unwrap_err();
    assert_eq!(failed.message(), "artifact missing configured file: pi-*/pi");
    let mut unknown = matched("uv", InstallMode::Bin);
    unknown.asset_name = "uv.exe".to_string();
    let failed = extract_entries(&unknown, &artifact("uv")).unwrap_err();
    assert_eq!(failed.message(), "unsupported artifact format: uv.exe");
}

#[test]
fn resolves_the_artifact_to_download() {
    let artifact = resolve_artifact(&matched("uv", InstallMode::Bin));
    assert_eq!(artifact.download_url, "url");
    assert_eq!(artifact.artifact_name, "uv-*.tar.gz");
    assert_eq!(artifact.tag_name, "v1");
}

#[test]
fn tells_what_is_installed_where() {
    let config = config();
    assert_eq!(
        install_plan(&config.packages[0], &matched("uv", InstallMode::Bin), "/bin", PathStyle::Unix),
        strings(&["  uv-*/uv -> /bin/uv"])
    );
    assert_eq!(
        install_plan(
            &config.packages[1],
            &matched("pi", InstallMode::Package),
            "/bin",
            PathStyle::Unix
        ),
        strings(&["  package -> /bin/packages/pi", "  /bin/pi -> /bin/packages/pi/pi-*/pi"])
    );
}

#[test]
fn installs_then_skips() {
    let config = config();
    let package = &config.packages[0];
    let release = release("v1", &["uv-gnu.tar.gz"]);
    let mut run = Update::new(false, false, LockFile::default());
    let step = run.take_release(package, &config, &platform(), "/bin", &release).unwrap();
    let ReleaseStep::Download { matched, lines } = step else {
        panic!("expected a download");
    };
    assert_eq!(
        lines,
        strings(&["uv v1 -> uv-gnu.tar.gz", "  uv-*/uv -> /bin/uv"])
    );
    assert_eq!(run.done, 0);
    let entries = extract_entries(&matched, &artifact("uv")).unwrap();
    let unpacked = run.take_entries(package, &matched, &entries, &platform()).unwrap();
    assert!(matches!(unpacked, Some(Unpacked::Files(_))));
    assert!(run.lock.packages.is_empty());
    assert!(run.take_installed(package, &matched));
    assert_eq!(run.done, 1);
    let mut again = Update::new(false, false, run.lock);
    let step = again.take_release(package, &config, &platform(), "/bin", &release).unwrap();
    assert!(matches!(step, ReleaseStep::Skip(line) if line == "uv v1 is already latest"));
    assert_eq!(again.done, 1);
    let mut forced = Update::new(false, true, again.lock);
    let step = forced.take_release(package, &config, &platform(), "/bin", &release).unwrap();
    assert!(matches!(step, ReleaseStep::Download { .. }));
    assert!(!forced.take_installed(package, &matched));
}

#[test]
fn installs_nothing_in_a_dry_run() {
    let config = config();
    let package = &config.packages[0];
    let release = release("v1", &["uv-gnu.tar.gz"]);
    let mut run = Update::new(true, false, LockFile::default());
    let step = run.take_release(package, &config, &platform(), "/bin", &release).unwrap();
    let ReleaseStep::Download { matched, lines } = step else {
        panic!("expected a download");
    };
    assert_eq!(lines[0], "uv v1 would update -> uv-gnu.tar.gz");
    assert!(extract_entries(&matched, b"damaged").is_err());
    assert!(run.take_entries(package, &matched, &vec![], &platform()).is_err());
    assert_eq!(run.done, 0);
    let entries = extract_entries(&matched, &artifact("uv")).unwrap();
    assert!(run.take_entries(package, &matched, &entries, &platform()).unwrap().is_none());
    assert_eq!(run.done, 1);
    assert!(run.lock.packages.is_empty());
}
