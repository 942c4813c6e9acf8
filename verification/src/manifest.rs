//! The declarative data model: repositories, package manifests, download
//! sources and asset descriptions, together with their mathematical views.

use vstd::prelude::*;
use crate::pattern::Pattern;
use crate::platform::{CpuArch, PlatformDependent, PlatformDependentEntry, System};

verus! {

// ---------------------------------------------------------------------------
// Asset descriptions
// ---------------------------------------------------------------------------
/// The compression and packing format of a downloaded archive.
#[derive(Debug, Clone, Copy, PartialEq, Eq, Structural)]
pub enum ArchiveFormat {
    TarGz,
    TarXz,
    Zip,
}

/// One binary to pull out of an archive: entries whose normalised path
/// matches `path_matcher` are placed into the binary directory as `copy_as`.
#[derive(Debug)]
pub struct BinaryInArchive {
    pub path_matcher: Pattern,
    pub copy_as: String,
}

pub struct BinaryInArchiveView {
    pub path_matcher: Seq<char>,
    pub copy_as: Seq<char>,
}

impl View for BinaryInArchive {
    type V = BinaryInArchiveView;

    open spec fn view(&self) -> BinaryInArchiveView {
        BinaryInArchiveView { path_matcher: self.path_matcher@, copy_as: self.copy_as@ }
    }
}

impl Clone for BinaryInArchive {
    fn clone(&self) -> (r: Self)
        ensures
            r@ == self@,
    {
        BinaryInArchive { path_matcher: self.path_matcher.clone(), copy_as: self.copy_as.clone() }
    }
}

/// What the downloaded asset is: the binary itself, or an archive holding
/// binaries described by per-binary patterns.
#[derive(Debug)]
pub enum AssetType {
    Binary { copy_as: String },
    Archive { format: ArchiveFormat, files: Vec<BinaryInArchive> },
}

pub enum AssetTypeView {
    Binary { copy_as: Seq<char> },
    Archive { format: ArchiveFormat, files: Seq<BinaryInArchiveView> },
}

impl View for AssetType {
    type V = AssetTypeView;

    open spec fn view(&self) -> AssetTypeView {
        match self {
            AssetType::Binary { copy_as } => AssetTypeView::Binary { copy_as: copy_as@ },
            AssetType::Archive { format, files } => AssetTypeView::Archive {
                format: *format,
                files: files@.map_values(|f: BinaryInArchive| f@),
            },
        }
    }
}

impl AssetTypeView {
    /// The binary filenames this asset places into the binary directory.
    pub open spec fn binaries(self) -> Seq<Seq<char>> {
        match self {
            AssetTypeView::Binary { copy_as } => seq![copy_as],
            AssetTypeView::Archive { format, files } => files.map_values(
                |f: BinaryInArchiveView| f.copy_as,
            ),
        }
    }
}

impl Clone for AssetType {
    fn clone(&self) -> (r: Self)
        ensures
            r@ == self@,
    {
        match self {
            AssetType::Binary { copy_as } => AssetType::Binary { copy_as: copy_as.clone() },
            AssetType::Archive { format, files } => {
                let files2 = files.clone();
                proof {
                    assert(files2@.map_values(|f: BinaryInArchive| f@) =~= files@.map_values(
                        |f: BinaryInArchive| f@,
                    ));
                }
                AssetType::Archive { format: *format, files: files2 }
            },
        }
    }
}

// ---------------------------------------------------------------------------
// Download sources
// ---------------------------------------------------------------------------
/// The platform entry of a direct-URL source: the asset's URL and what it is.
#[derive(Debug)]
pub struct DirectTarget {
    pub url: String,
    pub asset_type: AssetType,
}

pub struct DirectTargetView {
    pub url: Seq<char>,
    pub asset_type: AssetTypeView,
}

impl View for DirectTarget {
    type V = DirectTargetView;

    open spec fn view(&self) -> DirectTargetView {
        DirectTargetView { url: self.url@, asset_type: self.asset_type@ }
    }
}

impl Clone for DirectTarget {
    fn clone(&self) -> (r: Self)
        ensures
            r@ == self@,
    {
        DirectTarget { url: self.url.clone(), asset_type: self.asset_type.clone() }
    }
}

/// The platform entry of a GitHub source: the pattern that selects a release
/// asset by name, and what the selected asset is.
#[derive(Debug)]
pub struct GitHubTarget {
    pub asset_pattern: Pattern,
    pub asset_type: AssetType,
}

pub struct GitHubTargetView {
    pub asset_pattern: Seq<char>,
    pub asset_type: AssetTypeView,
}

impl View for GitHubTarget {
    type V = GitHubTargetView;

    open spec fn view(&self) -> GitHubTargetView {
        GitHubTargetView { asset_pattern: self.asset_pattern@, asset_type: self.asset_type@ }
    }
}

impl Clone for GitHubTarget {
    fn clone(&self) -> (r: Self)
        ensures
            r@ == self@,
    {
        GitHubTarget {
            asset_pattern: self.asset_pattern.clone(),
            asset_type: self.asset_type.clone(),
        }
    }
}

/// Where a GitHub source reads the version string from.
#[derive(Debug, Clone, Copy, PartialEq, Eq, Structural)]
pub enum GitHubVersionExtraction {
    TagName,
    ReleaseTitle,
}

/// The view of one platform-keyed table entry.
pub struct PlatformEntryView<V> {
    pub system: System,
    pub cpu_arch: CpuArch,
    pub value: V,
}

/// The view of a platform-keyed table: its entries, in order.
pub open spec fn platform_table_view<T: View>(t: PlatformDependent<T>) -> Seq<
    PlatformEntryView<T::V>,
> {
    t.entries@.map_values(
        |e: PlatformDependentEntry<T>|
            PlatformEntryView { system: e.system, cpu_arch: e.cpu_arch, value: e.value@ },
    )
}

/// A source with one hardcoded URL per platform and a fixed version string.
#[derive(Debug)]
pub struct DirectSource {
    pub urls: PlatformDependent<DirectTarget>,
    pub hardcoded_version: String,
}

pub struct DirectSourceView {
    pub urls: Seq<PlatformEntryView<DirectTargetView>>,
    pub hardcoded_version: Seq<char>,
}

impl View for DirectSource {
    type V = DirectSourceView;

    open spec fn view(&self) -> DirectSourceView {
        DirectSourceView {
            urls: platform_table_view(self.urls),
            hardcoded_version: self.hardcoded_version@,
        }
    }
}

/// A source that downloads an asset of the latest GitHub release of a
/// repository.
#[derive(Debug)]
pub struct GitHubSource {
    pub author: String,
    pub repo_name: String,
    pub asset: PlatformDependent<GitHubTarget>,
    pub version: GitHubVersionExtraction,
}

pub struct GitHubSourceView {
    pub author: Seq<char>,
    pub repo_name: Seq<char>,
    pub asset: Seq<PlatformEntryView<GitHubTargetView>>,
    pub version: GitHubVersionExtraction,
}

impl View for GitHubSource {
    type V = GitHubSourceView;

    open spec fn view(&self) -> GitHubSourceView {
        GitHubSourceView {
            author: self.author@,
            repo_name: self.repo_name@,
            asset: platform_table_view(self.asset),
            version: self.version,
        }
    }
}

/// How a package's asset is located.
#[derive(Debug)]
pub enum DownloadSource {
    Direct(DirectSource),
    GitHub(GitHubSource),
}

pub enum DownloadSourceView {
    Direct(DirectSourceView),
    GitHub(GitHubSourceView),
}

impl View for DownloadSource {
    type V = DownloadSourceView;

    open spec fn view(&self) -> DownloadSourceView {
        match self {
            DownloadSource::Direct(s) => DownloadSourceView::Direct(s@),
            DownloadSource::GitHub(s) => DownloadSourceView::GitHub(s@),
        }
    }
}

// ---------------------------------------------------------------------------
// Manifests and repositories
// ---------------------------------------------------------------------------
/// The declarative description of one package inside a repository.
#[derive(Debug)]
pub struct PackageManifest {
    pub name: String,
    pub source: DownloadSource,
    pub depends_on: Vec<String>,
}

pub struct ManifestView {
    pub name: Seq<char>,
    pub source: DownloadSourceView,
    pub depends_on: Seq<Seq<char>>,
}

impl View for PackageManifest {
    type V = ManifestView;

    open spec fn view(&self) -> ManifestView {
        ManifestView {
            name: self.name@,
            source: self.source@,
            depends_on: self.depends_on.deep_view(),
        }
    }
}

/// One entry of a repository's package table: the key under which the
/// manifest is registered, and the manifest itself.
#[derive(Debug)]
pub struct PackageEntry {
    pub key: String,
    pub manifest: PackageManifest,
}

pub struct PackageEntryView {
    pub key: Seq<char>,
    pub manifest: ManifestView,
}

impl View for PackageEntry {
    type V = PackageEntryView;

    open spec fn view(&self) -> PackageEntryView {
        PackageEntryView { key: self.key@, manifest: self.manifest@ }
    }
}

/// A declarative repository: a named table of package manifests.
#[derive(Debug)]
pub struct Repository {
    pub name: String,
    pub description: String,
    pub packages: Vec<PackageEntry>,
}

pub struct RepositoryView {
    pub name: Seq<char>,
    pub description: Seq<char>,
    pub packages: Seq<PackageEntryView>,
}

impl View for Repository {
    type V = RepositoryView;

    open spec fn view(&self) -> RepositoryView {
        RepositoryView {
            name: self.name@,
            description: self.description@,
            packages: self.packages@.map_values(|p: PackageEntry| p@),
        }
    }
}

impl RepositoryView {
    /// Whether some entry of this repository is keyed by `name`.
    pub open spec fn has_pkg(self, name: Seq<char>) -> bool {
        exists|i: int| 0 <= i < self.packages.len() && self.packages[i].key == name
    }
}

/// The manifest of the first entry of `s` keyed by `name`, if any.
pub open spec fn find_manifest(s: Seq<PackageEntryView>, name: Seq<char>) -> Option<ManifestView>
    decreases s.len(),
{
    if s.len() == 0 {
        None
    } else if s[0].key == name {
        Some(s[0].manifest)
    } else {
        find_manifest(s.drop_first(), name)
    }
}

/// Searching a table whose first `i` entries are not keyed by `name` is the
/// same as searching the remainder.
pub proof fn lemma_find_manifest_step(s: Seq<PackageEntryView>, name: Seq<char>, i: int)
    requires
        0 <= i <= s.len(),
        forall|j: int| 0 <= j < i ==> s[j].key != name,
    ensures
        find_manifest(s, name) == find_manifest(s.subrange(i, s.len() as int), name),
    decreases i,
{
    if i > 0 {
        lemma_find_manifest_step(s, name, i - 1);
        assert(s.subrange(i - 1, s.len() as int).drop_first() =~= s.subrange(i, s.len() as int));
    } else {
        assert(s.subrange(0, s.len() as int) =~= s);
    }
}

/// A found manifest is a witness: `find_manifest` returns `Some` exactly when
/// some entry is keyed by `name`, and then a first such entry holds it.
pub proof fn lemma_find_manifest_some(s: Seq<PackageEntryView>, name: Seq<char>)
    ensures
        (find_manifest(s, name) is Some) <==> (exists|i: int|
            0 <= i < s.len() && s[i].key == name),
        find_manifest(s, name) matches Some(m) ==> exists|i: int|
            0 <= i < s.len() && s[i].key == name && s[i].manifest == m,
    decreases s.len(),
{
    if s.len() > 0 {
        if s[0].key == name {
        } else {
            lemma_find_manifest_some(s.drop_first(), name);
            if find_manifest(s.drop_first(), name) is Some {
                let j = choose|j: int|
                    0 <= j < s.drop_first().len() && s.drop_first()[j].key == name
                        && s.drop_first()[j].manifest == find_manifest(
                        s.drop_first(),
                        name,
                    )->Some_0;
                assert(s[j + 1].key == name);
            } else {
                assert forall|i: int| 1 <= i < s.len() implies s[i].key != name by {
                    assert(s.drop_first()[i - 1] == s[i]);
                }
            }
        }
    }
}

impl Repository {
    /// Looks a package up by its key; returns the first entry's manifest.
    pub fn get_pkg(&self, name: &str) -> (r: Option<&PackageManifest>)
        ensures
            match r {
                Some(m) => find_manifest(self@.packages, name@) == Some(m@),
                None => find_manifest(self@.packages, name@) is None,
            },
    {
        let n = self.packages.len();
        let mut i: usize = 0;
        while i < n
            invariant
                0 <= i <= n,
                n == self.packages@.len(),
                forall|j: int| 0 <= j < i ==> self@.packages[j].key != name@,
            decreases n - i,
        {
            proof {
                assert(self@.packages[i as int].key == self.packages@[i as int].key@);
            }
            if crate::util::str_eq(self.packages[i].key.as_str(), name) {
                proof {
                    lemma_find_manifest_step(self@.packages, name@, i as int);
                }
                return Some(&self.packages[i].manifest);
            }
            i += 1;
        }
        proof {
            lemma_find_manifest_step(self@.packages, name@, n as int);
            assert(self@.packages.subrange(n as int, n as int) =~= Seq::<
                PackageEntryView,
            >::empty());
        }
        None
    }
}

impl Repository {
    /// The index of the first entry keyed by `name`, if any.
    pub fn find_pkg_idx(&self, name: &str) -> (r: Option<usize>)
        ensures
            match r {
                Some(j) => 0 <= j < self@.packages.len() && self@.packages[j as int].key == name@
                    && forall|k: int| 0 <= k < j ==> (#[trigger] self@.packages[k]).key != name@,
                None => !self@.has_pkg(name@),
            },
    {
        let n = self.packages.len();
        let mut i: usize = 0;
        while i < n
            invariant
                0 <= i <= n,
                n == self.packages@.len(),
                forall|k: int| 0 <= k < i ==> (#[trigger] self@.packages[k]).key != name@,
            decreases n - i,
        {
            proof {
                assert(self@.packages[i as int].key == self.packages@[i as int].key@);
            }
            if crate::util::str_eq(self.packages[i].key.as_str(), name) {
                return Some(i);
            }
            i += 1;
        }
        None
    }
}

// ---------------------------------------------------------------------------
// Clones of the source structures
// ---------------------------------------------------------------------------
impl Clone for DirectSource {
    fn clone(&self) -> (r: Self)
        ensures
            r@ == self@,
    {
        let entries2 = clone_entries_direct(&self.urls.entries);
        let r = DirectSource {
            urls: PlatformDependent { entries: entries2 },
            hardcoded_version: self.hardcoded_version.clone(),
        };
        proof {
            assert(platform_table_view(r.urls) =~= platform_table_view(self.urls));
        }
        r
    }
}

impl Clone for GitHubSource {
    fn clone(&self) -> (r: Self)
        ensures
            r@ == self@,
    {
        let entries2 = clone_entries_github(&self.asset.entries);
        let r = GitHubSource {
            author: self.author.clone(),
            repo_name: self.repo_name.clone(),
            asset: PlatformDependent { entries: entries2 },
            version: self.version,
        };
        proof {
            assert(platform_table_view(r.asset) =~= platform_table_view(self.asset));
        }
        r
    }
}

/// Clones a direct-source platform table entry by entry.
fn clone_entries_direct(entries: &Vec<PlatformDependentEntry<DirectTarget>>) -> (r: Vec<
    PlatformDependentEntry<DirectTarget>,
>)
    ensures
        r@.len() == entries@.len(),
        forall|i: int|
            0 <= i < entries@.len() ==> r@[i].system == entries@[i].system && r@[i].cpu_arch
                == entries@[i].cpu_arch && r@[i].value@ == entries@[i].value@,
{
    let mut out: Vec<PlatformDependentEntry<DirectTarget>> = Vec::new();
    let mut i: usize = 0;
    while i < entries.len()
        invariant
            0 <= i <= entries@.len(),
            out@.len() == i,
            forall|j: int|
                0 <= j < i ==> out@[j].system == entries@[j].system && out@[j].cpu_arch
                    == entries@[j].cpu_arch && out@[j].value@ == entries@[j].value@,
        decreases entries@.len() - i,
    {
        let e = &entries[i];
        out.push(
            PlatformDependentEntry { system: e.system, cpu_arch: e.cpu_arch, value: e.value.clone() },
        );
        i += 1;
    }
    out
}

/// Clones a GitHub-source platform table entry by entry.
fn clone_entries_github(entries: &Vec<PlatformDependentEntry<GitHubTarget>>) -> (r: Vec<
    PlatformDependentEntry<GitHubTarget>,
>)
    ensures
        r@.len() == entries@.len(),
        forall|i: int|
            0 <= i < entries@.len() ==> r@[i].system == entries@[i].system && r@[i].cpu_arch
                == entries@[i].cpu_arch && r@[i].value@ == entries@[i].value@,
{
    let mut out: Vec<PlatformDependentEntry<GitHubTarget>> = Vec::new();
    let mut i: usize = 0;
    while i < entries.len()
        invariant
            0 <= i <= entries@.len(),
            out@.len() == i,
            forall|j: int|
                0 <= j < i ==> out@[j].system == entries@[j].system && out@[j].cpu_arch
                    == entries@[j].cpu_arch && out@[j].value@ == entries@[j].value@,
        decreases entries@.len() - i,
    {
        let e = &entries[i];
        out.push(
            PlatformDependentEntry { system: e.system, cpu_arch: e.cpu_arch, value: e.value.clone() },
        );
        i += 1;
    }
    out
}

impl Clone for DownloadSource {
    fn clone(&self) -> (r: Self)
        ensures
            r@ == self@,
    {
        match self {
            DownloadSource::Direct(s) => DownloadSource::Direct(s.clone()),
            DownloadSource::GitHub(s) => DownloadSource::GitHub(s.clone()),
        }
    }
}

impl Clone for PackageManifest {
    fn clone(&self) -> (r: Self)
        ensures
            r@ == self@,
    {
        let r = PackageManifest {
            name: self.name.clone(),
            source: self.source.clone(),
            depends_on: self.depends_on.clone(),
        };
        proof {
            assert(r.depends_on.deep_view() =~= self.depends_on.deep_view());
        }
        r
    }
}

impl Clone for PackageEntry {
    fn clone(&self) -> (r: Self)
        ensures
            r@ == self@,
    {
        PackageEntry { key: self.key.clone(), manifest: self.manifest.clone() }
    }
}

impl Clone for Repository {
    fn clone(&self) -> (r: Self)
        ensures
            r@ == self@,
    {
        let packages2 = self.packages.clone();
        proof {
            assert(packages2@.map_values(|p: PackageEntry| p@) =~= self.packages@.map_values(
                |p: PackageEntry| p@,
            ));
        }
        Repository {
            name: self.name.clone(),
            description: self.description.clone(),
            packages: packages2,
        }
    }
}

} // verus!
