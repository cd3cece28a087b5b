use otto::http::{AssetInfo, DownloadPlan, HttpReleaseFetcher, MockReleaseFetcher, ReleaseInfo};

fn sample_release(version: &str) -> ReleaseInfo {
    ReleaseInfo {
        tag_name: format!("v{}", version),
        name: format!("Otto v{}", version),
        published_at: "2024-01-15T12:00:00Z".to_string(),
        assets: vec![
            AssetInfo {
                name: format!("otto-v{}-linux.tar.gz", version),
                browser_download_url: format!("https://example.com/otto-v{}-linux.tar.gz", version),
            },
            AssetInfo {
                name: format!("otto-v{}-macos-arm64.tar.gz", version),
                browser_download_url: format!("https://example.com/otto-v{}-macos-arm64.tar.gz", version),
            },
        ],
    }
}

#[test]
fn test_mock_fetcher_new() {
    let fetcher = MockReleaseFetcher::new();
    assert!(fetcher.get_releases().is_empty());
}

#[test]
fn test_mock_fetcher_with_releases() {
    let releases = vec![sample_release("0.5.6"), sample_release("0.5.5")];
    let fetcher = MockReleaseFetcher::new().with_releases(releases.clone());

    assert_eq!(fetcher.get_releases().len(), 2);
    assert_eq!(fetcher.get_releases()[0].tag_name, "v0.5.6");
}

#[test]
fn test_mock_fetcher_add_release() {
    let mut fetcher = MockReleaseFetcher::new();
    fetcher.add_release(sample_release("0.5.6"));
    fetcher.add_release(sample_release("0.5.5"));

    assert_eq!(fetcher.get_releases().len(), 2);
}

#[test]
fn test_http_fetcher_default() {
    let _fetcher = HttpReleaseFetcher;
}

#[test]
fn test_mock_fetcher_default() {
    let fetcher = MockReleaseFetcher::default();
    assert!(fetcher.get_releases().is_empty());
}

#[test]
fn a_copied_release_keeps_its_assets() {
    let fetcher = MockReleaseFetcher::new().with_releases(vec![sample_release("1.0.0")]);
    let got = fetcher.get_releases();
    assert_eq!(got[0].assets.len(), 2);
    assert_eq!(got[0].assets[1].name, "otto-v1.0.0-macos-arm64.tar.gz");
    assert_eq!(got[0].published_at, "2024-01-15T12:00:00Z");
}

#[test]
fn a_download_prefers_the_configured_path() {
    let fetcher = MockReleaseFetcher::new()
        .with_download_content(b"abc".to_vec())
        .with_download_path("/tmp/x.tar.gz".to_string());
    match fetcher.download_plan() {
        DownloadPlan::UsePath(p) => assert_eq!(p, "/tmp/x.tar.gz"),
        DownloadPlan::WriteContent(_) => panic!("a configured path wins"),
    }
    let plain = MockReleaseFetcher::new();
    match plain.download_plan() {
        DownloadPlan::WriteContent(c) => assert!(c.is_empty()),
        DownloadPlan::UsePath(_) => panic!("no path was configured"),
    }
    let content = MockReleaseFetcher::new().with_download_content(b"abc".to_vec());
    match content.download_plan() {
        DownloadPlan::WriteContent(c) => assert_eq!(c, b"abc".to_vec()),
        DownloadPlan::UsePath(_) => panic!("no path was configured"),
    }
}

#[test]
fn test_mock_fetch_releases() {
    let releases = vec![sample_release("0.5.6"), sample_release("0.5.5")];
    let fetcher = MockReleaseFetcher::new().with_releases(releases);

    let result = fetcher.fetch_releases("scottidler/otto", None).unwrap();

    assert_eq!(result.len(), 2);
    assert_eq!(result[0].tag_name, "v0.5.6");
    assert_eq!(result[0].assets.len(), 2);
}

#[test]
fn a_fetch_after_adding_returns_the_added_release_last() {
    let mut fetcher = MockReleaseFetcher::new().with_releases(vec![sample_release("0.5.6")]);
    fetcher.add_release(sample_release("0.5.5"));
    let result = fetcher.fetch_releases("any/repo", Some("token")).unwrap();
    assert_eq!(result.len(), 2);
    assert_eq!(result[1].tag_name, "v0.5.5");
}
