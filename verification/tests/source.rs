use rsbin::source::github::{
    authorization, latest_release_url, parse_github_repo, usable_token, GitHubAsset, GitHubRelease,
};

#[test]
fn parses_github_urls() {
    assert_eq!(
        parse_github_repo("https://github.com/owner/repo").unwrap(),
        ("owner".to_string(), "repo".to_string())
    );
    assert_eq!(
        parse_github_repo("github.com/owner/repo").unwrap(),
        ("owner".to_string(), "repo".to_string())
    );
    assert_eq!(
        parse_github_repo("https://github.com/owner/repo.git").unwrap(),
        ("owner".to_string(), "repo".to_string())
    );
}

#[test]
fn parses_github_urls_however_written() {
    for url in [
        " http://github.com/owner/repo// ",
        "github.com/owner/repo.git/",
        "https://github.com/owner/repo/tree/main",
        "http://github.com/owner/repo.git/a//b/ ",
        "\tgithub.com/owner/repo.git.git\n",
    ] {
        assert_eq!(
            parse_github_repo(url).unwrap(),
            ("owner".to_string(), "repo".to_string())
        );
    }
}

#[test]
fn reports_bad_github_urls() {
    let message = |url: &str| parse_github_repo(url).unwrap_err().message();
    assert_eq!(
        message("https://example.org/owner/repo"),
        "unsupported GitHub repo URL: https://example.org/owner/repo"
    );
    assert_eq!(
        message("https://github.com/"),
        "unsupported GitHub repo URL: https://github.com/"
    );
    assert_eq!(
        message("github.com//repo "),
        "missing GitHub owner in github.com//repo "
    );
    assert_eq!(message("github.com/owner/"), "missing GitHub repo in github.com/owner/");
    assert_eq!(
        message("github.com/owner//x"),
        "missing GitHub repo in github.com/owner//x"
    );
}

#[test]
fn asks_for_the_latest_release() {
    assert_eq!(
        latest_release_url("github.com/owner/repo.git").unwrap(),
        "https://api.github.com/repos/owner/repo/releases/latest"
    );
    assert!(latest_release_url("owner/repo").is_err());
}

#[test]
fn decodes_release_assets_with_api_download_url() {
    let decoded: serde_json::Value = serde_json::from_str(
        r#"{
                "tag_name": "0.1.0",
                "assets": [
                    {
                        "name": "swcli-x86_64-unknown-linux-gnu.tar.gz",
                        "url": "https://api.github.com/repos/owner/repo/releases/assets/123",
                        "browser_download_url": "https://github.com/owner/repo/releases/download/0.1.0/swcli-x86_64-unknown-linux-gnu.tar.gz"
                    }
                ]
            }"#,
    )
    .unwrap();
    let text = |value: &serde_json::Value| value.as_str().unwrap().to_string();
    let release = GitHubRelease {
        tag_name: text(&decoded["tag_name"]),
        assets: decoded["assets"]
            .as_array()
            .unwrap()
            .iter()
            .map(|asset| GitHubAsset { name: text(&asset["name"]), url: text(&asset["url"]) })
            .collect(),
    };

    assert_eq!(release.assets.len(), 1);
    assert_eq!(
        release.assets[0].url,
        "https://api.github.com/repos/owner/repo/releases/assets/123"
    );
    let release = release.into_release();
    assert_eq!(release.tag_name, "0.1.0");
    assert_eq!(release.assets[0].name, "swcli-x86_64-unknown-linux-gnu.tar.gz");
    assert_eq!(
        release.assets[0].download_url,
        "https://api.github.com/repos/owner/repo/releases/assets/123"
    );
}

#[test]
fn authorizes_by_the_first_usable_token() {
    let some = |text: &str| Some(text.to_string());
    assert_eq!(authorization(some(" env "), some("tool")), some("Bearer env"));
    assert_eq!(authorization(some(" \n"), some("tool\n")), some("Bearer tool"));
    assert_eq!(authorization(None, some("tool")), some("Bearer tool"));
    assert_eq!(authorization(None, some("  ")), None);
    assert_eq!(authorization(some(""), None), None);
    assert!(usable_token(&some("x")));
    assert!(!usable_token(&None));
}
