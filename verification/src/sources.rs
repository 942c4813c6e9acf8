//! Asset-source drivers: producing the download information of a package
//! from its manifest's source description. The network transfer itself is
//! outside the engine; the engine computes what to request and how to read
//! the response.

use vstd::prelude::*;
use vstd::string::StringExecFns;
use crate::error::Error;
use crate::manifest::{AssetType, AssetTypeView, DirectSource, GitHubVersionExtraction};
use crate::pattern::regex_match;
use crate::platform::{find_platform_value, Platform};

verus! {

/// One HTTP request header.
#[derive(Debug)]
pub struct Header {
    pub name: String,
    pub value: String,
}

pub struct HeaderView {
    pub name: Seq<char>,
    pub value: Seq<char>,
}

impl View for Header {
    type V = HeaderView;

    open spec fn view(&self) -> HeaderView {
        HeaderView { name: self.name@, value: self.value@ }
    }
}

impl DeepView for Header {
    type V = HeaderView;

    open spec fn deep_view(&self) -> HeaderView {
        self.view()
    }
}

/// Everything needed to download and place one package's asset: the URL,
/// the request headers, the version string the asset carries, and what the
/// downloaded file is.
#[derive(Debug)]
pub struct AssetInfos {
    pub url: String,
    pub headers: Vec<Header>,
    pub version: String,
    pub typ: AssetType,
}

pub struct AssetInfosView {
    pub url: Seq<char>,
    pub headers: Seq<HeaderView>,
    pub version: Seq<char>,
    pub typ: AssetTypeView,
}

impl View for AssetInfos {
    type V = AssetInfosView;

    open spec fn view(&self) -> AssetInfosView {
        AssetInfosView {
            url: self.url@,
            headers: self.headers@.map_values(|h: Header| h@),
            version: self.version@,
            typ: self.typ@,
        }
    }
}

/// One release asset of the latest GitHub release: its download URL and its
/// filename.
#[derive(Debug)]
pub struct GitHubReleaseAsset {
    pub browser_download_url: String,
    pub name: String,
}

pub struct GitHubReleaseAssetView {
    pub browser_download_url: Seq<char>,
    pub name: Seq<char>,
}

impl View for GitHubReleaseAsset {
    type V = GitHubReleaseAssetView;

    open spec fn view(&self) -> GitHubReleaseAssetView {
        GitHubReleaseAssetView {
            browser_download_url: self.browser_download_url@,
            name: self.name@,
        }
    }
}

/// The decoded body of the latest-release endpoint: the tag name, the
/// optional release title, and the release assets.
#[derive(Debug)]
pub struct GitHubRelease {
    pub tag_name: String,
    pub name: Option<String>,
    pub assets: Vec<GitHubReleaseAsset>,
}

pub struct GitHubReleaseView {
    pub tag_name: Seq<char>,
    pub name: Option<Seq<char>>,
    pub assets: Seq<GitHubReleaseAssetView>,
}

impl View for GitHubRelease {
    type V = GitHubReleaseView;

    open spec fn view(&self) -> GitHubReleaseView {
        GitHubReleaseView {
            tag_name: self.tag_name@,
            name: match self.name {
                Some(ref n) => Some(n@),
                None => None,
            },
            assets: self.assets@.map_values(|a: GitHubReleaseAsset| a@),
        }
    }
}

/// The asset information of a direct-URL source: the URL and asset
/// description registered for the host platform, the hardcoded version, and
/// no request headers.
pub fn direct_asset_infos(source: &DirectSource, platform: Platform) -> (r: Result<
    AssetInfos,
    Error,
>)
    ensures
        match r {
            Ok(infos) => {
                &&& find_platform_value(source.urls.entries@, platform) matches Some(target)
                    && infos.url@ == target.url@ && infos.typ@ == target.asset_type@
                &&& infos.version@ == source.hardcoded_version@
                &&& infos@.headers == Seq::<HeaderView>::empty()
            },
            Err(e) => find_platform_value(source.urls.entries@, platform) is None && e matches
                Error::UnsupportedPlatform { .. },
        },
{
    let target = match source.urls.get_for_current_platform(platform) {
        Ok(t) => t,
        Err(e) => {
            return Err(e);
        },
    };
    let infos = AssetInfos {
        url: target.url.clone(),
        headers: Vec::new(),
        version: source.hardcoded_version.clone(),
        typ: target.asset_type.clone(),
    };
    proof {
        assert(infos@.headers =~= Seq::<HeaderView>::empty());
    }
    Ok(infos)
}

/// The request headers of a GitHub API call: the API version, a user agent,
/// and a bearer token when a non-empty access token is configured.
pub fn github_request_headers(token: Option<&str>) -> (r: Vec<Header>)
    ensures
        r@.len() >= 2,
        r@[0]@.name == "x-github-api-version"@ && r@[0]@.value == "2022-11-28"@,
        r@[1]@.name == "user-agent"@,
        match token {
            Some(t) => t@.len() > 0 ==> r@.len() == 3 && r@[2]@.name == "authorization"@
                && r@[2]@.value == "Bearer "@ + t@,
            None => r@.len() == 2,
        },
        match token {
            Some(t) => t@.len() == 0 ==> r@.len() == 2,
            None => true,
        },
{
    let mut headers: Vec<Header> = Vec::new();
    headers.push(
        Header {
            name: String::from_str("x-github-api-version"),
            value: String::from_str("2022-11-28"),
        },
    );
    headers.push(
        Header { name: String::from_str("user-agent"), value: String::from_str("FetchyCliApp") },
    );
    match token {
        Some(t) => {
            if t.unicode_len() > 0 {
                headers.push(
                    Header {
                        name: String::from_str("authorization"),
                        value: String::from_str("Bearer ").concat(t),
                    },
                );
            }
        },
        None => {},
    }
    headers
}

/// Whether this release asset's filename matches the platform's pattern.
pub open spec fn asset_name_matches(pattern: Seq<char>, a: GitHubReleaseAssetView) -> bool {
    regex_match(pattern, a.name)
}

/// Selects the single release asset whose filename matches the platform's
/// asset pattern and reads the version string off the release.
///
/// Exactly one asset name must match the pattern: zero matches are
/// `NoMatchingAsset`, listing every asset name of the release, and several
/// matches are `AmbiguousAsset`, which takes precedence over a missing
/// title. The version is the tag name, or the release title with
/// `MissingReleaseTitle` when the title was requested but is absent.
pub fn select_github_asset(
    asset_pattern: &crate::pattern::Pattern,
    asset_type: &AssetType,
    headers: Vec<Header>,
    release: &GitHubRelease,
    version: GitHubVersionExtraction,
) -> (r: Result<AssetInfos, Error>)
    ensures
        match r {
            Ok(infos) => {
                &&& exists|i: int|
                    0 <= i < release@.assets.len() && asset_name_matches(
                        asset_pattern@,
                        #[trigger] release@.assets[i],
                    ) && infos.url@ == release@.assets[i].browser_download_url
                &&& forall|i: int, j: int|
                    0 <= i < j < release@.assets.len() && asset_name_matches(
                        asset_pattern@,
                        #[trigger] release@.assets[i],
                    ) ==> !asset_name_matches(asset_pattern@, #[trigger] release@.assets[j])
                &&& (version is TagName ==> infos.version@ == release.tag_name@)
                &&& (version is ReleaseTitle ==> (release@.name matches Some(t) && infos.version@
                    == t))
                &&& infos.typ@ == asset_type@
                &&& infos@.headers == headers.deep_view()
            },
            Err(e) => {
                &&& (e is NoMatchingAsset <==> !exists|i: int|
                    0 <= i < release@.assets.len() && asset_name_matches(
                        asset_pattern@,
                        #[trigger] release@.assets[i],
                    ))
                &&& (e matches Error::NoMatchingAsset { pattern, names } ==> pattern@
                    == asset_pattern@ && names.deep_view() == release@.assets.map_values(
                    |a: GitHubReleaseAssetView| a.name,
                ))
                &&& (e is AmbiguousAsset <==> exists|i: int, j: int|
                    0 <= i < j < release@.assets.len() && asset_name_matches(
                        asset_pattern@,
                        #[trigger] release@.assets[i],
                    ) && asset_name_matches(asset_pattern@, #[trigger] release@.assets[j]))
                &&& (e is MissingReleaseTitle <==> (version is ReleaseTitle
                    && release@.name is None && (exists|i: int|
                    0 <= i < release@.assets.len() && asset_name_matches(
                        asset_pattern@,
                        #[trigger] release@.assets[i],
                    )) && (forall|i: int, j: int|
                    0 <= i < j < release@.assets.len() && asset_name_matches(
                        asset_pattern@,
                        #[trigger] release@.assets[i],
                    ) ==> !asset_name_matches(asset_pattern@, #[trigger] release@.assets[j]))))
                &&& (e is NoMatchingAsset || e is AmbiguousAsset || e is MissingReleaseTitle)
            },
        },
{
    let ghost all_names = release@.assets.map_values(|a: GitHubReleaseAssetView| a.name);
    let n = release.assets.len();
    let mut found: Option<usize> = None;
    let mut non_matching: Vec<String> = Vec::new();
    let mut i: usize = 0;
    proof {
        assert(non_matching.deep_view() =~= all_names.take(0));
    }
    while i < n
        invariant
            0 <= i <= n,
            n == release.assets@.len(),
            all_names == release@.assets.map_values(|a: GitHubReleaseAssetView| a.name),
            found is None ==> non_matching.deep_view() == all_names.take(i as int),
            match found {
                Some(f) => 0 <= f < i && asset_name_matches(
                    asset_pattern@,
                    release@.assets[f as int],
                ) && (forall|j: int|
                    0 <= j < i && j != f ==> !asset_name_matches(
                        asset_pattern@,
                        #[trigger] release@.assets[j],
                    )),
                None => forall|j: int|
                    0 <= j < i ==> !asset_name_matches(asset_pattern@, #[trigger] release@.assets[j]),
            },
        decreases n - i,
    {
        proof {
            assert(release@.assets[i as int] == release.assets@[i as int]@);
        }
        if asset_pattern.is_match(release.assets[i].name.as_str()) {
            match found {
                None => {
                    found = Some(i);
                },
                Some(f) => {
                    return Err(
                        Error::AmbiguousAsset {
                            pattern: crate::util::copy_str(asset_pattern.source()),
                            names: vec![
                                release.assets[f].name.clone(),
                                release.assets[i].name.clone(),
                            ],
                        },
                    );
                },
            }
        } else {
            let ghost nm0 = non_matching.deep_view();
            non_matching.push(release.assets[i].name.clone());
            proof {
                if found is None {
                    assert(all_names[i as int] == release@.assets[i as int].name);
                    assert(non_matching.deep_view() =~= nm0.push(all_names[i as int]));
                    assert(non_matching.deep_view() =~= all_names.take(i + 1));
                }
            }
        }
        i += 1;
    }
    let f = match found {
        Some(f) => f,
        None => {
            proof {
                assert(non_matching.deep_view() == all_names.take(n as int));
                assert(all_names.take(n as int) =~= all_names);
            }
            return Err(
                Error::NoMatchingAsset {
                    pattern: crate::util::copy_str(asset_pattern.source()),
                    names: non_matching,
                },
            );
        },
    };
    let version_str: String = match version {
        GitHubVersionExtraction::TagName => release.tag_name.clone(),
        GitHubVersionExtraction::ReleaseTitle => {
            match release.name {
                Some(ref title) => title.clone(),
                None => {
                    return Err(Error::MissingReleaseTitle);
                },
            }
        },
    };
    let infos = AssetInfos {
        url: release.assets[f].browser_download_url.clone(),
        headers,
        version: version_str,
        typ: asset_type.clone(),
    };
    proof {
        assert(release@.assets[f as int] == release.assets@[f as int]@);
        assert(infos@.headers =~= infos.headers.deep_view());
    }
    Ok(infos)
}

} // verus!
