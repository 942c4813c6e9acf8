//! Repository ingestion validation: names, binary filenames and dependency
//! closure. A repository that passes validation satisfies the model
//! invariants that the resolver and planner rely on: every package is
//! registered under its own name, and every dependency name is a key of the
//! same repository.

use vstd::prelude::*;
use vstd::string::StringExecFns;
use vstd::string::StrSliceExecFns;
use crate::manifest::{AssetType, AssetTypeView, DownloadSource, DownloadSourceView, PackageManifest,
    PlatformEntryView, Repository, RepositoryView};
use crate::platform::PlatformDependentEntry;

verus! {

/// Whether a character is allowed in a package, repository, author or binary
/// name: ASCII letters, digits, `.`, `_` and `-`.
pub open spec fn spec_name_char(c: char) -> bool {
    ('a' <= c && c <= 'z') || ('A' <= c && c <= 'Z') || ('0' <= c && c <= '9') || c == '.' || c
        == '_' || c == '-'
}

/// A name is valid when it is non-empty and made of allowed characters only.
pub open spec fn spec_valid_name(s: Seq<char>) -> bool {
    s.len() > 0 && forall|i: int| 0 <= i < s.len() ==> spec_name_char(s[i])
}

/// A binary filename is a valid name that does not begin with a dot.
pub open spec fn spec_valid_binary_name(s: Seq<char>) -> bool {
    spec_valid_name(s) && s[0] != '.'
}

/// The number of invalid binary filenames among the per-binary patterns.
pub open spec fn invalid_in_files(files: Seq<crate::manifest::BinaryInArchiveView>) -> int
    decreases files.len(),
{
    if files.len() == 0 {
        0
    } else {
        invalid_in_files(files.drop_last()) + if spec_valid_binary_name(files.last().copy_as) {
            0int
        } else {
            1int
        }
    }
}

/// Counting invalid filenames never goes negative.
proof fn lemma_invalid_in_files_nonneg(files: Seq<crate::manifest::BinaryInArchiveView>)
    ensures
        invalid_in_files(files) >= 0,
    decreases files.len(),
{
    if files.len() > 0 {
        lemma_invalid_in_files_nonneg(files.drop_last());
    }
}

/// The number of invalid binary filenames the asset description carries.
pub open spec fn invalid_binary_count(t: AssetTypeView) -> int {
    match t {
        AssetTypeView::Binary { copy_as } => if spec_valid_binary_name(copy_as) {
            0int
        } else {
            1int
        },
        AssetTypeView::Archive { format, files } => invalid_in_files(files),
    }
}

/// Every binary filename that this asset would place is valid.
pub open spec fn asset_type_valid(t: AssetTypeView) -> bool {
    match t {
        AssetTypeView::Binary { copy_as } => spec_valid_binary_name(copy_as),
        AssetTypeView::Archive { format, files } => forall|i: int|
            0 <= i < files.len() ==> spec_valid_binary_name(#[trigger] files[i].copy_as),
    }
}

/// No two entries of a platform table are keyed by the same platform.
pub open spec fn platform_keys_unique<V>(entries: Seq<PlatformEntryView<V>>) -> bool {
    forall|i: int, j: int|
        0 <= i < j < entries.len() ==> !((#[trigger] entries[i]).system == (
        #[trigger] entries[j]).system && entries[i].cpu_arch == entries[j].cpu_arch)
}

/// No two entries of a platform table hold the same platform key.
pub open spec fn entries_keys_unique<T>(entries: Seq<PlatformDependentEntry<T>>) -> bool {
    forall|i: int, j: int|
        0 <= i < j < entries.len() ==> !((#[trigger] entries[i]).system == (
        #[trigger] entries[j]).system && entries[i].cpu_arch == entries[j].cpu_arch)
}

/// Every platform entry of this source carries a valid asset description and
/// a distinct platform key, and a GitHub source names its author and
/// repository validly.
pub open spec fn source_valid(s: DownloadSourceView) -> bool {
    match s {
        DownloadSourceView::Direct(d) => platform_keys_unique(d.urls) && forall|i: int|
            0 <= i < d.urls.len() ==> asset_type_valid(#[trigger] d.urls[i].value.asset_type),
        DownloadSourceView::GitHub(g) => spec_valid_name(g.author) && spec_valid_name(g.repo_name)
            && platform_keys_unique(g.asset) && forall|i: int|
            0 <= i < g.asset.len() ==> asset_type_valid(#[trigger] g.asset[i].value.asset_type),
    }
}

/// No two packages of the repository are registered under the same key.
pub open spec fn repo_keys_unique(r: RepositoryView) -> bool {
    forall|i: int, j: int|
        0 <= i < j < r.packages.len() ==> (#[trigger] r.packages[i]).key != (
        #[trigger] r.packages[j]).key
}

/// Every package of the repository is registered under its manifest's name.
pub open spec fn repo_keys_match(r: RepositoryView) -> bool {
    forall|i: int|
        0 <= i < r.packages.len() ==> (#[trigger] r.packages[i]).key == r.packages[i].manifest.name
}

/// Every dependency of every package is a key of the same repository.
pub open spec fn repo_deps_closed(r: RepositoryView) -> bool {
    forall|i: int, j: int|
        0 <= i < r.packages.len() && 0 <= j < (#[trigger] r.packages[i]).manifest.depends_on.len()
            ==> r.has_pkg(#[trigger] r.packages[i].manifest.depends_on[j])
}

/// A repository is valid when its own name and all its package names are
/// valid, every package is keyed by its own name and no key is registered
/// twice, every dependency exists in the repository, and every source
/// description is valid.
pub open spec fn repo_valid(r: RepositoryView) -> bool {
    &&& spec_valid_name(r.name)
    &&& repo_keys_unique(r)
    &&& repo_keys_match(r)
    &&& forall|i: int|
        0 <= i < r.packages.len() ==> spec_valid_name((#[trigger] r.packages[i]).manifest.name)
    &&& repo_deps_closed(r)
    &&& forall|i: int|
        0 <= i < r.packages.len() ==> source_valid((#[trigger] r.packages[i]).manifest.source)
}

/// Checks that a name contains only letters, digits, dots, underscores and
/// dashes, and is non-empty.
pub fn is_valid_name(s: &str) -> (r: bool)
    ensures
        r == spec_valid_name(s@),
{
    let len = s.unicode_len();
    if len == 0 {
        return false;
    }
    let mut i: usize = 0;
    while i < len
        invariant
            0 <= i <= len,
            len == s@.len(),
            forall|j: int| 0 <= j < i ==> spec_name_char(s@[j]),
        decreases len - i,
    {
        let c = s.get_char(i);
        let ok = ('a' <= c && c <= 'z') || ('A' <= c && c <= 'Z') || ('0' <= c && c <= '9') || c
            == '.' || c == '_' || c == '-';
        if !ok {
            return false;
        }
        i += 1;
    }
    true
}

/// Checks a binary filename: a valid name that does not begin with a dot.
/// The error carries the offending name.
pub fn validate_binary_name(bin_name: &str) -> (r: Result<(), String>)
    ensures
        r is Ok <==> spec_valid_binary_name(bin_name@),
{
    if !is_valid_name(bin_name) {
        return Err(
            String::from_str("Binary name ").concat(bin_name).concat(
                " contains invalid character(s)",
            ),
        );
    }
    if bin_name.get_char(0) == '.' {
        return Err(String::from_str("Binary name ").concat(bin_name).concat(" begins with a dot"));
    }
    Ok(())
}

/// Appends one error per invalid binary filename of the asset description,
/// keeping the prior diagnostics. Reports an error exactly when the asset
/// description is invalid.
pub fn validate_asset_type(typ: &AssetType, errors: &mut Vec<String>) -> (added: bool)
    ensures
        added == !asset_type_valid(typ@),
        final(errors)@.len() == old(errors)@.len() + invalid_binary_count(typ@),
        forall|j: int| 0 <= j < old(errors)@.len() ==> final(errors)@[j] == #[trigger] old(errors)@[j],
{
    match typ {
        AssetType::Binary { copy_as } => {
            match validate_binary_name(copy_as.as_str()) {
                Ok(()) => false,
                Err(err) => {
                    errors.push(err);
                    true
                },
            }
        },
        AssetType::Archive { format, files } => {
            let ghost fv = (match typ@ {
                AssetTypeView::Archive { files: f, .. } => f,
                _ => Seq::empty(),
            });
            proof {
                assert(fv =~= files@.map_values(|f: crate::manifest::BinaryInArchive| f@));
            }
            let mut any = false;
            let mut i: usize = 0;
            let n = files.len();
            let ghost e0 = errors@;
            proof {
                assert(fv.take(0) =~= Seq::<crate::manifest::BinaryInArchiveView>::empty());
            }
            while i < n
                invariant
                    0 <= i <= n,
                    n == files@.len(),
                    fv.len() == files@.len(),
                    e0 == old(errors)@,
                    forall|j: int| 0 <= j < files@.len() ==> #[trigger] fv[j] == files@[j]@,
                    any == !(forall|j: int|
                        0 <= j < i ==> spec_valid_binary_name(#[trigger] fv[j].copy_as)),
                    errors@.len() == e0.len() + invalid_in_files(fv.take(i as int)),
                    forall|j: int| 0 <= j < e0.len() ==> errors@[j] == #[trigger] e0[j],
                decreases n - i,
            {
                proof {
                    assert(fv[i as int].copy_as == files@[i as int].copy_as@);
                    assert(fv.take(i + 1).drop_last() =~= fv.take(i as int));
                    assert(fv.take(i + 1).last() == fv[i as int]);
                    lemma_invalid_in_files_nonneg(fv.take(i as int));
                }
                match validate_binary_name(files[i].copy_as.as_str()) {
                    Ok(()) => {},
                    Err(err) => {
                        errors.push(err);
                        any = true;
                    },
                }
                i += 1;
            }
            proof {
                assert(fv.take(n as int) =~= fv);
            }
            proof {
                assert(asset_type_valid(typ@) == (forall|j: int|
                    0 <= j < fv.len() ==> spec_valid_binary_name(#[trigger] fv[j].copy_as)));
            }
            any
        },
    }
}

/// Checks that no two entries of a platform table share a platform key.
fn platform_entries_unique<T>(entries: &Vec<PlatformDependentEntry<T>>) -> (r: bool)
    ensures
        r == entries_keys_unique(entries@),
{
    let n = entries.len();
    let mut e: usize = 0;
    while e < n
        invariant
            0 <= e <= n,
            n == entries@.len(),
            forall|i2: int, j2: int|
                0 <= i2 < j2 < e ==> !((#[trigger] entries@[i2]).system == (
                #[trigger] entries@[j2]).system && entries@[i2].cpu_arch == entries@[j2].cpu_arch),
        decreases n - e,
    {
        let mut q: usize = 0;
        while q < e
            invariant
                0 <= q <= e < n,
                n == entries@.len(),
                forall|q2: int|
                    0 <= q2 < q ==> !((#[trigger] entries@[q2]).system == entries@[e as int].system
                        && entries@[q2].cpu_arch == entries@[e as int].cpu_arch),
            decreases e - q,
        {
            if entries[q].system == entries[e].system && entries[q].cpu_arch == entries[e].cpu_arch {
                return false;
            }
            q += 1;
        }
        proof {
            assert forall|i2: int, j2: int| 0 <= i2 < j2 < e + 1 implies !((
            #[trigger] entries@[i2]).system == (#[trigger] entries@[j2]).system && entries@[
                i2
            ].cpu_arch == entries@[j2].cpu_arch) by {
                if j2 == e as int {
                    assert(!(entries@[i2].system == entries@[e as int].system && entries@[
                        i2
                    ].cpu_arch == entries@[e as int].cpu_arch));
                }
            }
        }
        e += 1;
    }
    true
}

/// Checks one source description, appending diagnostics for each finding.
fn validate_source(source: &DownloadSource, errors: &mut Vec<String>) -> (ok: bool)
    ensures
        ok == source_valid(source@),
{
    match source {
        DownloadSource::Direct(direct) => {
            let ghost d = (match source@ {
                DownloadSourceView::Direct(d) => d,
                _ => arbitrary(),
            });
            let urls = &direct.urls.entries;
            proof {
                assert forall|j: int| 0 <= j < urls@.len() implies (#[trigger] d.urls[j]).value.asset_type
                    == urls@[j].value.asset_type@ && d.urls[j].system == urls@[j].system && d.urls[
                    j
                ].cpu_arch == urls@[j].cpu_arch by {
                    assert(d.urls == crate::manifest::platform_table_view(direct.urls));
                }
            }
            let keys_ok = platform_entries_unique(urls);
            if !keys_ok {
                errors.push(
                    String::from_str("Two asset entries are registered for the same platform"),
                );
            }
            proof {
                assert(platform_keys_unique(d.urls) == entries_keys_unique(urls@)) by {
                    if entries_keys_unique(urls@) {
                        assert forall|i2: int, j2: int| 0 <= i2 < j2 < d.urls.len() implies !((
                        #[trigger] d.urls[i2]).system == (#[trigger] d.urls[j2]).system && d.urls[
                            i2
                        ].cpu_arch == d.urls[j2].cpu_arch) by {
                            assert(!(urls@[i2].system == urls@[j2].system && urls@[i2].cpu_arch
                                == urls@[j2].cpu_arch));
                        }
                    }
                    if platform_keys_unique(d.urls) {
                        assert forall|i2: int, j2: int| 0 <= i2 < j2 < urls@.len() implies !((
                        #[trigger] urls@[i2]).system == (#[trigger] urls@[j2]).system && urls@[
                            i2
                        ].cpu_arch == urls@[j2].cpu_arch) by {
                            assert(!(d.urls[i2].system == d.urls[j2].system && d.urls[i2].cpu_arch
                                == d.urls[j2].cpu_arch));
                        }
                    }
                }
            }
            let mut ok = true;
            let mut e: usize = 0;
            while e < urls.len()
                invariant
                    0 <= e <= urls@.len(),
                    urls == &direct.urls.entries,
                    d.urls.len() == urls@.len(),
                    forall|j: int|
                        0 <= j < urls@.len() ==> (#[trigger] d.urls[j]).value.asset_type
                            == urls@[j].value.asset_type@,
                    ok == (forall|j: int|
                        0 <= j < e ==> asset_type_valid((#[trigger] d.urls[j]).value.asset_type)),
                decreases urls@.len() - e,
            {
                proof {
                    assert(d.urls[e as int].value.asset_type == urls@[e as int].value.asset_type@);
                }
                let added = validate_asset_type(&urls[e].value.asset_type, errors);
                if added {
                    ok = false;
                }
                e += 1;
            }
            proof {
                assert(source_valid(source@) == (platform_keys_unique(d.urls) && forall|j: int|
                    0 <= j < d.urls.len() ==> asset_type_valid(
                        (#[trigger] d.urls[j]).value.asset_type,
                    )));
            }
            ok && keys_ok
        },
        DownloadSource::GitHub(github) => {
            let ghost g = (match source@ {
                DownloadSourceView::GitHub(g) => g,
                _ => arbitrary(),
            });
            let assets = &github.asset.entries;
            proof {
                assert forall|j: int| 0 <= j < assets@.len() implies (#[trigger] g.asset[j]).value.asset_type
                    == assets@[j].value.asset_type@ && g.asset[j].system == assets@[j].system
                    && g.asset[j].cpu_arch == assets@[j].cpu_arch by {
                    assert(g.asset == crate::manifest::platform_table_view(github.asset));
                }
            }
            let keys_ok = platform_entries_unique(assets);
            if !keys_ok {
                errors.push(
                    String::from_str("Two asset entries are registered for the same platform"),
                );
            }
            proof {
                assert(platform_keys_unique(g.asset) == entries_keys_unique(assets@)) by {
                    if entries_keys_unique(assets@) {
                        assert forall|i2: int, j2: int| 0 <= i2 < j2 < g.asset.len() implies !((
                        #[trigger] g.asset[i2]).system == (#[trigger] g.asset[j2]).system
                            && g.asset[i2].cpu_arch == g.asset[j2].cpu_arch) by {
                            assert(!(assets@[i2].system == assets@[j2].system && assets@[
                                i2
                            ].cpu_arch == assets@[j2].cpu_arch));
                        }
                    }
                    if platform_keys_unique(g.asset) {
                        assert forall|i2: int, j2: int| 0 <= i2 < j2 < assets@.len() implies !((
                        #[trigger] assets@[i2]).system == (#[trigger] assets@[j2]).system
                            && assets@[i2].cpu_arch == assets@[j2].cpu_arch) by {
                            assert(!(g.asset[i2].system == g.asset[j2].system && g.asset[
                                i2
                            ].cpu_arch == g.asset[j2].cpu_arch));
                        }
                    }
                }
            }
            let mut names_ok = true;
            if !is_valid_name(github.author.as_str()) {
                errors.push(
                    String::from_str("Author name ").concat(github.author.as_str()).concat(
                        " contains invalid character(s)",
                    ),
                );
                names_ok = false;
            }
            if !is_valid_name(github.repo_name.as_str()) {
                errors.push(
                    String::from_str("Repository name ").concat(github.repo_name.as_str()).concat(
                        " contains invalid character(s)",
                    ),
                );
                names_ok = false;
            }
            let mut ok = names_ok;
            let mut e: usize = 0;
            while e < assets.len()
                invariant
                    0 <= e <= assets@.len(),
                    assets == &github.asset.entries,
                    g.asset.len() == assets@.len(),
                    forall|j: int|
                        0 <= j < assets@.len() ==> (#[trigger] g.asset[j]).value.asset_type
                            == assets@[j].value.asset_type@,
                    names_ok == (spec_valid_name(g.author) && spec_valid_name(g.repo_name)),
                    ok == (names_ok && forall|j: int|
                        0 <= j < e ==> asset_type_valid((#[trigger] g.asset[j]).value.asset_type)),
                decreases assets@.len() - e,
            {
                proof {
                    assert(g.asset[e as int].value.asset_type
                        == assets@[e as int].value.asset_type@);
                }
                let added = validate_asset_type(&assets[e].value.asset_type, errors);
                if added {
                    ok = false;
                }
                e += 1;
            }
            proof {
                assert(source_valid(source@) == (spec_valid_name(g.author) && spec_valid_name(
                    g.repo_name,
                ) && platform_keys_unique(g.asset) && forall|j: int|
                    0 <= j < g.asset.len() ==> asset_type_valid(
                        (#[trigger] g.asset[j]).value.asset_type,
                    )));
            }
            ok && keys_ok
        },
    }
}

/// Checks that every dependency of one manifest is a key of the repository.
fn validate_pkg_deps(repo: &Repository, manifest: &PackageManifest, errors: &mut Vec<String>) -> (ok:
    bool)
    ensures
        ok == (forall|j: int|
            0 <= j < manifest@.depends_on.len() ==> repo@.has_pkg(
                #[trigger] manifest@.depends_on[j],
            )),
{
    let mut ok = true;
    let mut k: usize = 0;
    let deps = manifest.depends_on.len();
    while k < deps
        invariant
            0 <= k <= deps,
            deps == manifest.depends_on@.len(),
            ok == (forall|j: int|
                0 <= j < k ==> repo@.has_pkg(#[trigger] manifest@.depends_on[j])),
        decreases deps - k,
    {
        let dep = &manifest.depends_on[k];
        proof {
            crate::manifest::lemma_find_manifest_some(repo@.packages, dep@);
            assert(manifest@.depends_on[k as int] == dep@);
        }
        if repo.get_pkg(dep.as_str()).is_none() {
            errors.push(
                String::from_str("Package ").concat(manifest.name.as_str()).concat(
                    " depends on package ",
                ).concat(dep.as_str()).concat(" which was not found in the repository"),
            );
            ok = false;
        }
        k += 1;
    }
    ok
}

/// Checks that no two packages of the repository share a registration key.
fn validate_unique_keys(repo: &Repository, errors: &mut Vec<String>) -> (ok: bool)
    ensures
        ok == repo_keys_unique(repo@),
{
    let n = repo.packages.len();
    let mut p: usize = 0;
    while p < n
        invariant
            0 <= p <= n,
            n == repo.packages@.len(),
            forall|i2: int, j2: int|
                0 <= i2 < j2 < p ==> (#[trigger] repo@.packages[i2]).key != (
                #[trigger] repo@.packages[j2]).key,
        decreases n - p,
    {
        proof {
            assert(repo@.packages[p as int].key == repo.packages@[p as int].key@);
        }
        let mut q: usize = 0;
        while q < p
            invariant
                0 <= q <= p < n,
                n == repo.packages@.len(),
                repo@.packages[p as int].key == repo.packages@[p as int].key@,
                forall|q2: int|
                    0 <= q2 < q ==> (#[trigger] repo@.packages[q2]).key != repo@.packages[
                        p as int
                    ].key,
            decreases p - q,
        {
            proof {
                assert(repo@.packages[q as int].key == repo.packages@[q as int].key@);
            }
            if crate::util::str_eq(repo.packages[q].key.as_str(), repo.packages[p].key.as_str()) {
                errors.push(
                    String::from_str("Repository registers two packages under name ").concat(
                        repo.packages[p].key.as_str(),
                    ),
                );
                return false;
            }
            q += 1;
        }
        proof {
            assert forall|i2: int, j2: int| 0 <= i2 < j2 < p + 1 implies (
            #[trigger] repo@.packages[i2]).key != (#[trigger] repo@.packages[j2]).key by {
                if j2 == p as int {
                    assert(repo@.packages[i2].key != repo@.packages[p as int].key);
                }
            }
        }
        p += 1;
    }
    true
}

/// Validates a repository at ingestion.
///
/// Returns `Ok` exactly when the repository is valid: its name and package
/// names are well formed, every package is registered under its own name and
/// no key twice, every dependency is a key of the repository, every platform
/// table keys each platform at most once, and every source's asset
/// descriptions and GitHub coordinates are valid. On failure the collected
/// diagnostics are returned.
pub fn validate_repository(repo: &Repository) -> (r: Result<(), Vec<String>>)
    ensures
        r is Ok <==> repo_valid(repo@),
{
    let mut errors: Vec<String> = Vec::new();

    let name_ok = is_valid_name(repo.name.as_str());
    if !name_ok {
        errors.push(
            String::from_str("Repository name ").concat(repo.name.as_str()).concat(" is invalid"),
        );
    }

    let n = repo.packages.len();

    let uniq_ok = validate_unique_keys(repo, &mut errors);

    let mut keys_ok = true;
    let mut i: usize = 0;
    while i < n
        invariant
            0 <= i <= n,
            n == repo.packages@.len(),
            keys_ok == (forall|j: int|
                0 <= j < i ==> (#[trigger] repo@.packages[j]).key
                    == repo@.packages[j].manifest.name),
        decreases n - i,
    {
        let entry = &repo.packages[i];
        proof {
            assert(repo@.packages[i as int].key == entry.key@ && repo@.packages[
                i as int
            ].manifest.name == entry.manifest.name@);
        }
        if !crate::util::str_eq(entry.key.as_str(), entry.manifest.name.as_str()) {
            errors.push(
                String::from_str("Repository contains package ").concat(
                    entry.manifest.name.as_str(),
                ).concat(" under name ").concat(entry.key.as_str()),
            );
            keys_ok = false;
        }
        i += 1;
    }

    let mut names_ok = true;
    let mut deps_ok = true;
    let mut sources_ok = true;
    let mut i: usize = 0;
    while i < n
        invariant
            0 <= i <= n,
            n == repo.packages@.len(),
            names_ok == (forall|j: int|
                0 <= j < i ==> spec_valid_name((#[trigger] repo@.packages[j]).manifest.name)),
            deps_ok == (forall|j: int, k: int|
                0 <= j < i && 0 <= k < (#[trigger] repo@.packages[j]).manifest.depends_on.len()
                    ==> repo@.has_pkg(#[trigger] repo@.packages[j].manifest.depends_on[k])),
            sources_ok == (forall|j: int|
                0 <= j < i ==> source_valid((#[trigger] repo@.packages[j]).manifest.source)),
        decreases n - i,
    {
        let manifest = &repo.packages[i].manifest;
        proof {
            assert(repo@.packages[i as int].manifest == manifest@);
        }

        if !is_valid_name(manifest.name.as_str()) {
            errors.push(
                String::from_str("Package name ").concat(manifest.name.as_str()).concat(
                    " is invalid",
                ),
            );
            names_ok = false;
        }

        if !validate_pkg_deps(repo, manifest, &mut errors) {
            deps_ok = false;
        }

        if !validate_source(&manifest.source, &mut errors) {
            sources_ok = false;
        }

        i += 1;
    }

    if name_ok && uniq_ok && keys_ok && names_ok && deps_ok && sources_ok {
        Ok(())
    } else {
        Err(errors)
    }
}

} // verus!
