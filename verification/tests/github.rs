//! Tests of the GitHub asset-source driver: selecting the single matching
//! release asset and reading the version string off the release.

use fetchy::error::Error;
use fetchy::manifest::{AssetType, GitHubVersionExtraction};
use fetchy::pattern::Pattern;
use fetchy::sources::{github_request_headers, select_github_asset, GitHubRelease,
    GitHubReleaseAsset};

fn release() -> GitHubRelease {
    GitHubRelease {
        tag_name: "v2.3".to_owned(),
        name: Some("Release 2.3".to_owned()),
        assets: vec![
            GitHubReleaseAsset {
                browser_download_url: "u1".to_owned(),
                name: "app-linux-x86_64.tar.gz".to_owned(),
            },
            GitHubReleaseAsset {
                browser_download_url: "u2".to_owned(),
                name: "checksums.txt".to_owned(),
            },
        ],
    }
}

fn asset_type() -> AssetType {
    AssetType::Binary { copy_as: "app".to_owned() }
}

#[test]
fn selects_single_matching_asset_with_tag_version() {
    // Only the first asset matches; the version comes from the tag name.
    let pattern = Pattern::parse(r"^app-linux-.*\.tar\.gz$").unwrap();
    let infos = select_github_asset(
        &pattern,
        &asset_type(),
        Vec::new(),
        &release(),
        GitHubVersionExtraction::TagName,
    )
    .unwrap();
    assert_eq!(infos.url, "u1");
    assert_eq!(infos.version, "v2.3");
}

#[test]
fn release_title_version() {
    let pattern = Pattern::parse(r"^app-linux-.*\.tar\.gz$").unwrap();
    let infos = select_github_asset(
        &pattern,
        &asset_type(),
        Vec::new(),
        &release(),
        GitHubVersionExtraction::ReleaseTitle,
    )
    .unwrap();
    assert_eq!(infos.version, "Release 2.3");

    let mut untitled = release();
    untitled.name = None;
    assert!(matches!(
        select_github_asset(
            &pattern,
            &asset_type(),
            Vec::new(),
            &untitled,
            GitHubVersionExtraction::ReleaseTitle,
        ),
        Err(Error::MissingReleaseTitle)
    ));
}

#[test]
fn no_matching_asset_lists_the_others() {
    let pattern = Pattern::parse(r"^app-windows-.*\.zip$").unwrap();
    match select_github_asset(
        &pattern,
        &asset_type(),
        Vec::new(),
        &release(),
        GitHubVersionExtraction::TagName,
    ) {
        Err(Error::NoMatchingAsset { names, .. }) => {
            assert_eq!(names, vec![
                "app-linux-x86_64.tar.gz".to_owned(),
                "checksums.txt".to_owned(),
            ]);
        },
        other => panic!("expected NoMatchingAsset, got {other:?}"),
    }
}

#[test]
fn several_matching_assets_are_ambiguous() {
    let pattern = Pattern::parse(".*").unwrap();
    assert!(matches!(
        select_github_asset(
            &pattern,
            &asset_type(),
            Vec::new(),
            &release(),
            GitHubVersionExtraction::TagName,
        ),
        Err(Error::AmbiguousAsset { .. })
    ));
}

#[test]
fn request_headers_carry_token_when_present() {
    let plain = github_request_headers(None);
    assert_eq!(plain.len(), 2);
    assert_eq!(plain[0].name, "x-github-api-version");
    assert_eq!(plain[0].value, "2022-11-28");
    assert_eq!(plain[1].name, "user-agent");

    let empty = github_request_headers(Some(""));
    assert_eq!(empty.len(), 2);

    let with_token = github_request_headers(Some("SECRET-REDACTED"));
    assert_eq!(with_token.len(), 3);
    assert_eq!(with_token[2].name, "authorization");
    assert_eq!(with_token[2].value, "Bearer SECRET-REDACTED");
}
