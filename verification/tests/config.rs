use rsbin::archive::{select_extractor, Extractor};
use rsbin::config::{
    validate_config, Config, DefinitionSet, DefinitionValueList, Definitions, FileEntry,
    InstallMode, Package,
};
use rsbin::order::{TextMap, TextSet, TextTable};
use rsbin::render::{
    current_arch_aliases, current_os_key, expand_definition_set, render_package,
    render_package_candidates, Platform,
};
use rsbin::template::expand_template;

fn values(list: &[&str]) -> DefinitionValueList {
    DefinitionValueList(list.iter().map(|v| v.to_string()).collect())
}

fn definition_set(entries: Vec<(&str, &[&str])>) -> DefinitionSet {
    let mut set = DefinitionSet { values: TextTable::new() };
    for (key, list) in entries {
        set.values.insert(key.to_string(), values(list));
    }
    set
}

fn definitions(os: &str, sets: Vec<Vec<(&str, &[&str])>>) -> Definitions {
    let sets = sets.into_iter().map(definition_set).collect();
    let mut definitions = Definitions { by_os: TextTable::new() };
    definitions.by_os.insert(os.to_string(), sets);
    definitions
}

fn package(name: &str, artifact: &str, install: InstallMode, files: &[(&str, &str)]) -> Package {
    Package {
        name: name.to_string(),
        repo: "https://github.com/example/example".to_string(),
        artifact: artifact.to_string(),
        install,
        file: files
            .iter()
            .map(|(name, path)| FileEntry { name: name.to_string(), path: path.to_string() })
            .collect(),
    }
}

fn linux() -> Platform {
    Platform { os: "linux".to_string(), arch: "x86_64".to_string() }
}

fn vars(entries: &[(&str, &str)]) -> TextMap {
    let mut map = TextMap::new();
    for (key, value) in entries {
        map.insert(key.to_string(), value.to_string());
    }
    map
}

#[test]
fn renders_ordered_definition_fallback_candidates() {
    let config = Config {
        definitions: definitions("linux", vec![vec![("arch", &["amd64", "arm64"])]]),
        packages: vec![package(
            "example",
            "example-{arch}.tar.gz",
            InstallMode::Package,
            &[("example", "example-{arch}")],
        )],
    };
    let package = &config.packages[0];
    let candidates = render_package_candidates(package, &config, &linux()).unwrap();
    assert_eq!(candidates.len(), 2);
    assert_eq!(candidates[0].artifact, "example-amd64.tar.gz");
    assert_eq!(candidates[0].install, InstallMode::Package);
    assert_eq!(candidates[1].artifact, "example-arm64.tar.gz");
}

#[test]
fn expands_templates() {
    let mut vars = TextMap::new();
    vars.insert("os".to_string(), "linux".to_string());
    vars.insert("arch".to_string(), "amd64".to_string());

    let result = expand_template("example-{os}-{arch}", &vars).unwrap();
    assert_eq!(result, "example-linux-amd64");
}

#[test]
fn rejects_zst_with_multiple_files() {
    let config = Config {
        definitions: definitions("linux", vec![vec![("arch", &["amd64"])]]),
        packages: vec![package(
            "example",
            "example-{arch}.zst",
            InstallMode::Bin,
            &[("example", "example-{arch}"), ("extra", "extra-{arch}")],
        )],
    };
    let package = &config.packages[0];
    let candidates = render_package_candidates(package, &config, &linux()).unwrap();
    let rendered = &candidates[0];

    let bytes = b"fake zst content";
    let result = select_extractor(&rendered.artifact)
        .unwrap()
        .entries(&rendered.artifact, bytes);

    assert!(result.is_err());
}

#[test]
fn leaves_plain_templates_as_they_are() {
    assert_eq!(expand_template("a}b", &vars(&[])).unwrap(), "a}b");
    assert_eq!(expand_template("", &vars(&[])).unwrap(), "");
}

#[test]
fn expands_values_no_further() {
    let vars = vars(&[("a", "{b}"), ("b", "c"), ("", "nothing")]);
    assert_eq!(expand_template("<{a}|{b}>", &vars).unwrap(), "<{b}|c>");
    assert_eq!(expand_template("{}", &vars).unwrap(), "nothing");
}

#[test]
fn reports_bad_templates() {
    let failed = expand_template("x-{os", &vars(&[("os", "linux")])).unwrap_err();
    assert_eq!(failed.message(), "unclosed template placeholder in x-{os");
    let failed = expand_template("x-{a{b}", &vars(&[])).unwrap_err();
    assert_eq!(failed.message(), "unknown template variable {a{b} in x-{a{b}");
}

#[test]
fn prefers_architecture_names_in_order() {
    let config = Config {
        definitions: definitions(
            "linux",
            vec![vec![(
                "rust-triple",
                &["{arch}-unknown-linux-gnu", "{arch}-unknown-linux-musl"],
            )]],
        ),
        packages: vec![package(
            "uv",
            "uv-{rust-triple}.tar.gz",
            InstallMode::Bin,
            &[("uv", "uv-{rust-triple}/uv")],
        )],
    };
    let rendered = render_package_candidates(&config.packages[0], &config, &linux()).unwrap();
    let artifacts: Vec<&str> = rendered.iter().map(|r| r.artifact.as_str()).collect();
    assert_eq!(
        artifacts,
        vec![
            "uv-x64-unknown-linux-gnu.tar.gz",
            "uv-x64-unknown-linux-musl.tar.gz",
            "uv-x86_64-unknown-linux-gnu.tar.gz",
            "uv-x86_64-unknown-linux-musl.tar.gz",
            "uv-amd64-unknown-linux-gnu.tar.gz",
            "uv-amd64-unknown-linux-musl.tar.gz",
        ]
    );
    assert_eq!(rendered[1].files[0].path, "uv-x64-unknown-linux-musl/uv");
}

#[test]
fn lists_an_artifact_once() {
    let config = Config {
        definitions: definitions("linux", vec![vec![], vec![("x", &["1"])]]),
        packages: vec![package("a", "a-{os}.zip", InstallMode::Bin, &[("a", "{arch}")])],
    };
    let rendered = render_package_candidates(&config.packages[0], &config, &linux()).unwrap();
    assert_eq!(rendered.len(), 1);
    assert_eq!(rendered[0].files[0].path, "x64");
}

#[test]
fn expands_all_choices_of_values() {
    let set = definition_set(vec![("b", &["{a}x", "{a}y"]), ("a", &["1", "2"])]);
    let choices = expand_definition_set(&set, TextMap::new()).unwrap();
    let found: Vec<String> = choices.iter().map(|c| c.get("b").unwrap().clone()).collect();
    assert_eq!(found, vec!["1x", "1y", "2x", "2y"]);
    let set = definition_set(vec![("a", &[])]);
    assert!(expand_definition_set(&set, TextMap::new()).unwrap().is_empty());
    let set = definition_set(vec![("a", &["{b}"]), ("b", &["1"])]);
    assert!(expand_definition_set(&set, TextMap::new()).is_err());
}

#[test]
fn renders_one_package() {
    let package = package("t", "t-{v}", InstallMode::Package, &[("t{v}", "{v}/t")]);
    let rendered = render_package(&package, &vars(&[("v", "1")])).unwrap();
    assert_eq!(rendered.artifact, "t-1");
    assert_eq!(rendered.files[0].name, "t1");
    assert_eq!(rendered.files[0].path, "1/t");
    assert!(render_package(&package, &vars(&[])).is_err());
}

#[test]
fn knows_systems_and_architectures() {
    assert_eq!(current_os_key("macos").unwrap(), "macos");
    assert_eq!(current_os_key("plan9").unwrap_err().message(), "unsupported OS: plan9");
    assert_eq!(current_arch_aliases("aarch64").unwrap(), vec!["arm64", "aarch64"]);
    assert_eq!(current_arch_aliases("x86_64").unwrap(), vec!["x64", "x86_64", "amd64"]);
    assert_eq!(current_arch_aliases("arm").unwrap(), vec!["arm"]);
    assert_eq!(
        current_arch_aliases("mips").unwrap_err().message(),
        "unsupported arch: mips"
    );
}

#[test]
fn reports_platforms_without_definitions() {
    let config = Config {
        definitions: definitions("linux", vec![]),
        packages: vec![package("a", "a", InstallMode::Bin, &[("a", "a")])],
    };
    let render = |os: &str, arch: &str| {
        let platform = Platform { os: os.to_string(), arch: arch.to_string() };
        render_package_candidates(&config.packages[0], &config, &platform)
    };
    assert_eq!(
        render("windows", "x86_64").unwrap_err().message(),
        "missing def entry for current OS: windows"
    );
    assert_eq!(render("plan9", "x86_64").unwrap_err().message(), "unsupported OS: plan9");
    assert_eq!(render("linux", "mips").unwrap_err().message(), "unsupported arch: mips");
    assert!(render("linux", "arm").unwrap().is_empty());
}

fn config_of(packages: Vec<Package>) -> Config {
    Config { definitions: definitions("linux", vec![]), packages }
}

#[test]
fn validates_configurations() {
    let fine = |name: &str| package(name, "a", InstallMode::Bin, &[("a", "a")]);
    assert!(validate_config(&config_of(vec![fine("a"), fine("b")])).is_ok());
    let message = |packages| validate_config(&config_of(packages)).unwrap_err().message();
    assert_eq!(message(vec![]), "config has no packages");
    assert_eq!(message(vec![fine("a"), fine(" \t")]), "package has empty name");
    assert_eq!(
        message(vec![fine("a"), fine("b"), fine("a")]),
        "duplicate package name: a"
    );
    assert_eq!(
        message(vec![package("a", "a", InstallMode::Bin, &[])]),
        "package a has no file entries"
    );
}

#[test]
fn keeps_texts_in_order() {
    let mut set = TextSet::new();
    assert!(set.insert("b".to_string()));
    assert!(set.insert("a".to_string()));
    assert!(!set.insert("b".to_string()));
    assert!(set.contains("a") && !set.contains("c"));
    assert_eq!(set.len(), 2);
    assert_eq!(set.items(), &vec!["a".to_string(), "b".to_string()]);
    let mut map = TextMap::new();
    assert!(map.is_empty());
    assert_eq!(map.insert("b".to_string(), "1".to_string()), None);
    assert_eq!(map.insert("a".to_string(), "2".to_string()), None);
    assert_eq!(
        map.insert("b".to_string(), "3".to_string()),
        Some("1".to_string())
    );
    assert_eq!(map.get("b"), Some(&"3".to_string()));
    assert_eq!(
        map.entries(),
        &vec![
            ("a".to_string(), "2".to_string()),
            ("b".to_string(), "3".to_string()),
        ]
    );
    assert_eq!(map.copy(), map);
    let mut table: TextTable<u32> = TextTable::new();
    assert_eq!(table.insert("b".to_string(), 1), None);
    assert_eq!(table.insert("a".to_string(), 2), None);
    assert_eq!(table.insert("b".to_string(), 3), Some(1));
    assert_eq!(table.get("b"), Some(&3));
    assert_eq!(table.get("c"), None);
    assert_eq!(table.entries(), &vec![("a".to_string(), 2), ("b".to_string(), 3)]);
}
