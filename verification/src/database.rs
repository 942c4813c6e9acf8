//! The installed-package database: the in-memory state that is serialised to
//! one file on disk by the surrounding program. The engine mutates it only
//! through the transition functions below, whose contracts describe the new
//! state exactly.

use vstd::prelude::*;
use vstd::pervasive::VecAdditionalExecFns;
use crate::manifest::{ManifestView, PackageManifest, Repository, RepositoryView};

verus! {

/// A version string of a package. Versions are compared purely by string
/// equality.
#[derive(Debug, Clone, PartialEq, Eq)]
pub struct PackageVersion(pub String);

/// Where a registered repository was loaded from, so it can be re-fetched.
#[derive(Debug, Clone, PartialEq, Eq)]
pub enum RepositoryLocation {
    File(String),
}

/// How a registered repository is re-fetched: its location, and whether the
/// file is in the JSON form.
#[derive(Debug)]
pub struct RepositorySource {
    pub location: RepositoryLocation,
    pub json: bool,
}

pub struct RepositorySourceView {
    pub location: Seq<char>,
    pub json: bool,
}

impl View for RepositorySource {
    type V = RepositorySourceView;

    open spec fn view(&self) -> RepositorySourceView {
        RepositorySourceView {
            location: match self.location {
                RepositoryLocation::File(ref p) => p@,
            },
            json: self.json,
        }
    }
}

/// A registered repository together with the source it was loaded from.
#[derive(Debug)]
pub struct SourcedRepository {
    pub content: Repository,
    pub source: RepositorySource,
}

pub struct SourcedRepositoryView {
    pub content: RepositoryView,
    pub source: RepositorySourceView,
}

impl View for SourcedRepository {
    type V = SourcedRepositoryView;

    open spec fn view(&self) -> SourcedRepositoryView {
        SourcedRepositoryView { content: self.content@, source: self.source@ }
    }
}

/// The record of one installed package: the manifest snapshot taken at
/// install time, where it came from, its version, when it was installed,
/// the binaries it placed, and whether it was installed as a dependency.
#[derive(Debug)]
pub struct InstalledPackage {
    pub manifest: PackageManifest,
    pub repo_name: String,
    pub version: String,
    pub at: i64,
    pub binaries: Vec<String>,
    pub installed_as_dep: bool,
}

pub struct InstalledPackageView {
    pub manifest: ManifestView,
    pub repo_name: Seq<char>,
    pub version: Seq<char>,
    pub at: int,
    pub binaries: Seq<Seq<char>>,
    pub installed_as_dep: bool,
}

impl View for InstalledPackage {
    type V = InstalledPackageView;

    open spec fn view(&self) -> InstalledPackageView {
        InstalledPackageView {
            manifest: self.manifest@,
            repo_name: self.repo_name@,
            version: self.version@,
            at: self.at as int,
            binaries: self.binaries.deep_view(),
            installed_as_dep: self.installed_as_dep,
        }
    }
}

/// The persisted application state: the registered repositories and the
/// installed packages, each an ordered mapping keyed by name.
#[derive(Debug)]
pub struct AppData {
    pub repositories: Vec<SourcedRepository>,
    pub installed: Vec<InstalledPackage>,
}

pub struct AppDataView {
    pub repositories: Seq<SourcedRepositoryView>,
    pub installed: Seq<InstalledPackageView>,
}

impl View for AppData {
    type V = AppDataView;

    open spec fn view(&self) -> AppDataView {
        AppDataView {
            repositories: self.repositories@.map_values(|r: SourcedRepository| r@),
            installed: self.installed@.map_values(|p: InstalledPackage| p@),
        }
    }
}

/// The names of the installed records are pairwise distinct.
pub open spec fn installed_unique(s: Seq<InstalledPackageView>) -> bool {
    forall|i: int, j: int|
        0 <= i < j < s.len() ==> (#[trigger] s[i]).manifest.name != (
        #[trigger] s[j]).manifest.name
}

/// The names of the registered repositories are pairwise distinct.
pub open spec fn repositories_unique(s: Seq<SourcedRepositoryView>) -> bool {
    forall|i: int, j: int|
        0 <= i < j < s.len() ==> (#[trigger] s[i]).content.name != (#[trigger] s[j]).content.name
}

impl AppDataView {
    /// The database's map invariant: both name-keyed tables hold each key at
    /// most once.
    pub open spec fn wf(self) -> bool {
        installed_unique(self.installed) && repositories_unique(self.repositories)
    }
}

// ---------------------------------------------------------------------------
// Lookups
// ---------------------------------------------------------------------------
/// The index of the first installed record named `name`, if any.
pub open spec fn installed_idx(s: Seq<InstalledPackageView>, name: Seq<char>) -> Option<int>
    decreases s.len(),
{
    if s.len() == 0 {
        None
    } else if s[0].manifest.name == name {
        Some(0)
    } else {
        match installed_idx(s.drop_first(), name) {
            None => None,
            Some(i) => Some(i + 1),
        }
    }
}

/// What `installed_idx` returns: a first index whose record is named `name`,
/// or `None` exactly when no record is.
pub proof fn lemma_installed_idx(s: Seq<InstalledPackageView>, name: Seq<char>)
    ensures
        match installed_idx(s, name) {
            Some(i) => 0 <= i < s.len() && s[i].manifest.name == name && forall|j: int|
                0 <= j < i ==> (#[trigger] s[j]).manifest.name != name,
            None => forall|j: int| 0 <= j < s.len() ==> (#[trigger] s[j]).manifest.name != name,
        },
    decreases s.len(),
{
    if s.len() > 0 && s[0].manifest.name != name {
        lemma_installed_idx(s.drop_first(), name);
        assert forall|j: int| 1 <= j < s.len() implies s.drop_first()[j - 1] == s[j] by {}
    }
}

/// The index of the first registered repository named `name`, if any.
pub open spec fn repository_idx(s: Seq<SourcedRepositoryView>, name: Seq<char>) -> Option<int>
    decreases s.len(),
{
    if s.len() == 0 {
        None
    } else if s[0].content.name == name {
        Some(0)
    } else {
        match repository_idx(s.drop_first(), name) {
            None => None,
            Some(i) => Some(i + 1),
        }
    }
}

/// What `repository_idx` returns: a first index whose repository is named
/// `name`, or `None` exactly when none is.
pub proof fn lemma_repository_idx(s: Seq<SourcedRepositoryView>, name: Seq<char>)
    ensures
        match repository_idx(s, name) {
            Some(i) => 0 <= i < s.len() && s[i].content.name == name && forall|j: int|
                0 <= j < i ==> (#[trigger] s[j]).content.name != name,
            None => forall|j: int| 0 <= j < s.len() ==> (#[trigger] s[j]).content.name != name,
        },
    decreases s.len(),
{
    if s.len() > 0 && s[0].content.name != name {
        lemma_repository_idx(s.drop_first(), name);
        assert forall|j: int| 1 <= j < s.len() implies s.drop_first()[j - 1] == s[j] by {}
    }
}

// ---------------------------------------------------------------------------
// Transitions
// ---------------------------------------------------------------------------
/// The state after upserting an installed record: the first record of the
/// same name is replaced, or the record is appended. An existing record's
/// `installed_as_dep` flag is preserved by the replacement.
pub open spec fn spec_upsert_installed(d: AppDataView, rec: InstalledPackageView) -> AppDataView {
    match installed_idx(d.installed, rec.manifest.name) {
        Some(i) => AppDataView {
            installed: d.installed.update(
                i,
                InstalledPackageView { installed_as_dep: d.installed[i].installed_as_dep, ..rec },
            ),
            ..d
        },
        None => AppDataView { installed: d.installed.push(rec), ..d },
    }
}

/// The state after removing the installed record named `name`; the state is
/// unchanged when there is none.
pub open spec fn spec_remove_installed(d: AppDataView, name: Seq<char>) -> AppDataView {
    match installed_idx(d.installed, name) {
        Some(i) => AppDataView { installed: d.installed.remove(i), ..d },
        None => d,
    }
}

/// Upserting keeps the installed names pairwise distinct: a replacement
/// keeps its slot's name and an insertion appends a fresh name.
pub proof fn lemma_upsert_keeps_wf(d: AppDataView, rec: InstalledPackageView)
    requires
        d.wf(),
    ensures
        spec_upsert_installed(d, rec).wf(),
{
    lemma_installed_idx(d.installed, rec.manifest.name);
    let s2 = spec_upsert_installed(d, rec).installed;
    match installed_idx(d.installed, rec.manifest.name) {
        Some(i) => {
            assert forall|a: int, b: int| 0 <= a < b < s2.len() implies (
            #[trigger] s2[a]).manifest.name != (#[trigger] s2[b]).manifest.name by {
                if a != i && b != i {
                    assert(s2[a] == d.installed[a] && s2[b] == d.installed[b]);
                } else if a == i {
                    assert(s2[a].manifest.name == d.installed[i].manifest.name && s2[b]
                        == d.installed[b]);
                } else {
                    assert(s2[b].manifest.name == d.installed[i].manifest.name && s2[a]
                        == d.installed[a]);
                }
            }
        },
        None => {
            assert forall|a: int, b: int| 0 <= a < b < s2.len() implies (
            #[trigger] s2[a]).manifest.name != (#[trigger] s2[b]).manifest.name by {
                if b == d.installed.len() {
                    assert(s2[a] == d.installed[a] && s2[b] == rec);
                } else {
                    assert(s2[a] == d.installed[a] && s2[b] == d.installed[b]);
                }
            }
        },
    }
}

/// Removing a record keeps the installed names pairwise distinct.
pub proof fn lemma_remove_keeps_wf(d: AppDataView, name: Seq<char>)
    requires
        d.wf(),
    ensures
        spec_remove_installed(d, name).wf(),
{
    lemma_installed_idx(d.installed, name);
    match installed_idx(d.installed, name) {
        Some(i) => {
            let s2 = spec_remove_installed(d, name).installed;
            assert forall|a: int, b: int| 0 <= a < b < s2.len() implies (
            #[trigger] s2[a]).manifest.name != (#[trigger] s2[b]).manifest.name by {
                let a0 = if a < i {
                    a
                } else {
                    a + 1
                };
                let b0 = if b < i {
                    b
                } else {
                    b + 1
                };
                assert(s2[a] == d.installed[a0] && s2[b] == d.installed[b0]);
            }
        },
        None => {},
    }
}

impl AppData {
    /// An empty database: used when no database file exists yet.
    pub fn new() -> (r: Self)
        ensures
            r@.repositories == Seq::<SourcedRepositoryView>::empty(),
            r@.installed == Seq::<InstalledPackageView>::empty(),
            r@.wf(),
    {
        let r = AppData { repositories: Vec::new(), installed: Vec::new() };
        proof {
            assert(r@.repositories =~= Seq::<SourcedRepositoryView>::empty());
            assert(r@.installed =~= Seq::<InstalledPackageView>::empty());
        }
        r
    }

    /// Looks up the installed record of a package by name.
    pub fn get_installed(&self, name: &str) -> (r: Option<&InstalledPackage>)
        ensures
            match r {
                Some(p) => installed_idx(self@.installed, name@) matches Some(i) && self@.installed[i]
                    == p@,
                None => installed_idx(self@.installed, name@) is None,
            },
    {
        proof {
            lemma_installed_idx(self@.installed, name@);
        }
        let n = self.installed.len();
        let mut i: usize = 0;
        while i < n
            invariant
                0 <= i <= n,
                n == self.installed@.len(),
                forall|j: int|
                    0 <= j < i ==> (#[trigger] self@.installed[j]).manifest.name != name@,
            decreases n - i,
        {
            proof {
                assert(self@.installed[i as int].manifest.name
                    == self.installed@[i as int].manifest.name@);
            }
            if crate::util::str_eq(self.installed[i].manifest.name.as_str(), name) {
                proof {
                    lemma_installed_idx_first(self@.installed, name@, i as int);
                }
                return Some(&self.installed[i]);
            }
            i += 1;
        }
        None
    }

    /// Whether a package of this name is installed.
    pub fn is_installed(&self, name: &str) -> (r: bool)
        ensures
            r == (installed_idx(self@.installed, name@) is Some),
    {
        self.get_installed(name).is_some()
    }

    /// Looks up a registered repository by name.
    pub fn get_repository(&self, name: &str) -> (r: Option<&SourcedRepository>)
        ensures
            match r {
                Some(s) => repository_idx(self@.repositories, name@) matches Some(i)
                    && self@.repositories[i] == s@,
                None => repository_idx(self@.repositories, name@) is None,
            },
    {
        proof {
            lemma_repository_idx(self@.repositories, name@);
        }
        let n = self.repositories.len();
        let mut i: usize = 0;
        while i < n
            invariant
                0 <= i <= n,
                n == self.repositories@.len(),
                forall|j: int|
                    0 <= j < i ==> (#[trigger] self@.repositories[j]).content.name != name@,
            decreases n - i,
        {
            proof {
                assert(self@.repositories[i as int].content.name
                    == self.repositories@[i as int].content.name@);
            }
            if crate::util::str_eq(self.repositories[i].content.name.as_str(), name) {
                proof {
                    lemma_repository_idx_first(self@.repositories, name@, i as int);
                }
                return Some(&self.repositories[i]);
            }
            i += 1;
        }
        None
    }

    /// Upserts an installed record, as one step of a database commit. The
    /// first existing record of the same name is replaced — keeping its
    /// `installed_as_dep` flag, so a package once installed on request never
    /// silently becomes a dependency — and a new name is appended.
    pub fn upsert_installed(&mut self, rec: InstalledPackage)
        ensures
            final(self)@ == spec_upsert_installed(old(self)@, rec@),
    {
        proof {
            lemma_installed_idx(self@.installed, rec.manifest.name@);
        }
        let ghost pre = self@;
        let n = self.installed.len();
        let mut i: usize = 0;
        while i < n
            invariant
                0 <= i <= n,
                self@ == old(self)@,
                pre == old(self)@,
                n == self.installed@.len(),
                forall|j: int|
                    0 <= j < i ==> (#[trigger] self@.installed[j]).manifest.name
                        != rec.manifest.name@,
            decreases n - i,
        {
            proof {
                assert(self@.installed[i as int].manifest.name
                    == self.installed@[i as int].manifest.name@);
            }
            if crate::util::str_eq(
                self.installed[i].manifest.name.as_str(),
                rec.manifest.name.as_str(),
            ) {
                proof {
                    lemma_installed_idx_first(self@.installed, rec.manifest.name@, i as int);
                }
                let keep_dep = self.installed[i].installed_as_dep;
                let InstalledPackage { manifest, repo_name, version, at, binaries, installed_as_dep }
                    = rec;
                let stored = InstalledPackage {
                    manifest,
                    repo_name,
                    version,
                    at,
                    binaries,
                    installed_as_dep: keep_dep,
                };
                self.installed.set(i, stored);
                proof {
                    assert(self@.installed =~= spec_upsert_installed(pre, rec@).installed);
                    assert(self@.repositories =~= spec_upsert_installed(pre, rec@).repositories);
                }
                return ;
            }
            i += 1;
        }
        self.installed.push(rec);
        proof {
            assert(self@.installed =~= spec_upsert_installed(pre, rec@).installed);
            assert(self@.repositories =~= spec_upsert_installed(pre, rec@).repositories);
        }
    }

    /// Removes the installed record of `name`, as one step of a database
    /// commit. Reports `NotInstalled` when there is none, leaving the state
    /// unchanged.
    pub fn remove_installed(&mut self, name: &str) -> (r: Result<InstalledPackage, crate::error::Error>)
        ensures
            final(self)@ == spec_remove_installed(old(self)@, name@),
            r is Ok <==> installed_idx(old(self)@.installed, name@) is Some,
            r matches Ok(p) ==> (installed_idx(old(self)@.installed, name@) matches Some(i) && old(
                self,
            )@.installed[i] == p@),
            r matches Err(e) ==> (e matches crate::error::Error::NotInstalled { name: n } && n@
                == name@),
    {
        proof {
            lemma_installed_idx(self@.installed, name@);
        }
        let ghost pre = self@;
        let n = self.installed.len();
        let mut i: usize = 0;
        while i < n
            invariant
                0 <= i <= n,
                self@ == old(self)@,
                pre == old(self)@,
                n == self.installed@.len(),
                forall|j: int|
                    0 <= j < i ==> (#[trigger] self@.installed[j]).manifest.name != name@,
            decreases n - i,
        {
            proof {
                assert(self@.installed[i as int].manifest.name
                    == self.installed@[i as int].manifest.name@);
            }
            if crate::util::str_eq(self.installed[i].manifest.name.as_str(), name) {
                proof {
                    lemma_installed_idx_first(self@.installed, name@, i as int);
                }
                let removed = self.installed.remove(i);
                proof {
                    assert(self@.installed =~= spec_remove_installed(pre, name@).installed);
                    assert(self@.repositories =~= spec_remove_installed(pre, name@).repositories);
                }
                return Ok(removed);
            }
            i += 1;
        }
        Err(crate::error::Error::NotInstalled { name: crate::util::copy_str(name) })
    }

    /// Registers a repository under its own name, as the commit of an
    /// add-repository command. Fails when a repository of that name is
    /// already registered, leaving the state unchanged.
    pub fn insert_repository(&mut self, repo: SourcedRepository) -> (r: Result<(), crate::error::Error>)
        ensures
            r is Ok <==> repository_idx(old(self)@.repositories, repo.content.name@) is None,
            r is Ok ==> final(self)@.repositories == old(self)@.repositories.push(repo@)
                && final(self)@.installed == old(self)@.installed,
            r is Err ==> final(self)@ == old(self)@,
            old(self)@.wf() ==> final(self)@.wf(),
    {
        let ghost pre = self@;
        if self.get_repository(repo.content.name.as_str()).is_some() {
            return Err(
                crate::error::Error::RepositoryAlreadyRegistered { name: repo.content.name.clone() },
            );
        }
        self.repositories.push(repo);
        proof {
            assert(self@.repositories =~= pre.repositories.push(repo@));
            assert(self@.installed =~= pre.installed);
            lemma_repository_idx(pre.repositories, repo@.content.name);
            if pre.wf() {
                assert forall|a: int, b: int| 0 <= a < b < self@.repositories.len() implies (
                #[trigger] self@.repositories[a]).content.name != (
                #[trigger] self@.repositories[b]).content.name by {
                    if b == pre.repositories.len() {
                        assert(self@.repositories[a] == pre.repositories[a]);
                        assert(self@.repositories[b] == repo@);
                    } else {
                        assert(self@.repositories[a] == pre.repositories[a] && self@.repositories[b]
                            == pre.repositories[b]);
                    }
                }
            }
        }
        Ok(())
    }

    /// Unregisters the repository named `name`, as one step of the commit of
    /// a remove-repositories command. Fails when it is not registered.
    pub fn remove_repository(&mut self, name: &str) -> (r: Result<SourcedRepository, crate::error::Error>)
        ensures
            r is Ok <==> repository_idx(old(self)@.repositories, name@) is Some,
            r is Ok ==> (repository_idx(old(self)@.repositories, name@) matches Some(i)
                && final(self)@.repositories == old(self)@.repositories.remove(i)
                && final(self)@.installed == old(self)@.installed),
            r is Err ==> final(self)@ == old(self)@,
            old(self)@.wf() ==> final(self)@.wf(),
    {
        proof {
            lemma_repository_idx(self@.repositories, name@);
        }
        let ghost pre = self@;
        let n = self.repositories.len();
        let mut i: usize = 0;
        while i < n
            invariant
                0 <= i <= n,
                self@ == old(self)@,
                pre == old(self)@,
                n == self.repositories@.len(),
                forall|j: int|
                    0 <= j < i ==> (#[trigger] self@.repositories[j]).content.name != name@,
            decreases n - i,
        {
            proof {
                assert(self@.repositories[i as int].content.name
                    == self.repositories@[i as int].content.name@);
            }
            if crate::util::str_eq(self.repositories[i].content.name.as_str(), name) {
                proof {
                    lemma_repository_idx_first(self@.repositories, name@, i as int);
                }
                let removed = self.repositories.remove(i);
                proof {
                    let gi = repository_idx(pre.repositories, name@)->Some_0;
                    assert(self@.repositories =~= pre.repositories.remove(gi));
                    assert(self@.installed =~= pre.installed);
                }
                return Ok(removed);
            }
            i += 1;
        }
        Err(crate::error::Error::RepositoryNotFound { name: crate::util::copy_str(name) })
    }
}

/// When the first `i` records are not named `name` and record `i` is, the
/// first index for `name` is exactly `i`.
pub proof fn lemma_installed_idx_first(s: Seq<InstalledPackageView>, name: Seq<char>, i: int)
    requires
        0 <= i < s.len(),
        s[i].manifest.name == name,
        forall|j: int| 0 <= j < i ==> (#[trigger] s[j]).manifest.name != name,
    ensures
        installed_idx(s, name) == Some(i),
    decreases i,
{
    if i > 0 {
        assert(forall|j: int| 0 <= j < i - 1 ==> s.drop_first()[j] == s[j + 1]);
        assert(s.drop_first()[i - 1] == s[i]);
        lemma_installed_idx_first(s.drop_first(), name, i - 1);
    }
}

/// When the first `i` repositories are not named `name` and repository `i`
/// is, the first index for `name` is exactly `i`.
pub proof fn lemma_repository_idx_first(s: Seq<SourcedRepositoryView>, name: Seq<char>, i: int)
    requires
        0 <= i < s.len(),
        s[i].content.name == name,
        forall|j: int| 0 <= j < i ==> (#[trigger] s[j]).content.name != name,
    ensures
        repository_idx(s, name) == Some(i),
    decreases i,
{
    if i > 0 {
        assert(forall|j: int| 0 <= j < i - 1 ==> s.drop_first()[j] == s[j + 1]);
        assert(s.drop_first()[i - 1] == s[i]);
        lemma_repository_idx_first(s.drop_first(), name, i - 1);
    }
}

/// Installing a fresh package and then removing it restores the database:
/// the upsert appends a record for a name that is absent, and the removal
/// takes exactly that record away again.
pub proof fn lemma_install_then_uninstall_restores(d: AppDataView, rec: InstalledPackageView)
    requires
        installed_idx(d.installed, rec.manifest.name) is None,
    ensures
        spec_remove_installed(spec_upsert_installed(d, rec), rec.manifest.name) == d,
{
    let d2 = spec_upsert_installed(d, rec);
    assert(d2.installed == d.installed.push(rec));
    lemma_installed_idx(d.installed, rec.manifest.name);
    lemma_installed_idx_first(d2.installed, rec.manifest.name, d.installed.len() as int);
    assert(d2.installed.remove(d.installed.len() as int) =~= d.installed);
    assert(spec_remove_installed(d2, rec.manifest.name).installed == d.installed);
    assert(spec_remove_installed(d2, rec.manifest.name) == d);
}

} // verus!
