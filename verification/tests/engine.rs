//! End-to-end tests of the engine's pure core: validation, resolution,
//! planning, collision checking and the database transitions.

use fetchy::database::{AppData, InstalledPackage, RepositoryLocation, RepositorySource,
    SourcedRepository};
use fetchy::error::Error;
use fetchy::installer::{check_binary_collisions, commit_installs, commit_removals,
    compute_no_longer_needed_deps, make_install_record, plan_uninstall, PlannedInstall};
use fetchy::manifest::{ArchiveFormat, AssetType, BinaryInArchive, DirectSource, DirectTarget,
    DownloadSource, PackageEntry, PackageManifest, Repository};
use fetchy::pattern::Pattern;
use fetchy::planner::{classify_package, compute_install_phases, InstalledPackagesHandling, Phase};
use fetchy::platform::{CpuArch, Platform, PlatformDependent, PlatformDependentEntry, System};
use fetchy::resolver::{manifest_of, name_of, resolve_pkg_by_name, resolve_pkgs_by_name_with_deps};
use fetchy::sources::direct_asset_infos;
use fetchy::validate::{validate_binary_name, validate_repository};

fn linux_x86() -> Platform {
    Platform { system: System::linux, cpu_arch: CpuArch::x86_64 }
}

fn direct_manifest(name: &str, url: &str, version: &str, deps: Vec<&str>) -> PackageManifest {
    PackageManifest {
        name: name.to_owned(),
        source: DownloadSource::Direct(DirectSource {
            urls: PlatformDependent::new(vec![PlatformDependentEntry::new(
                System::linux,
                CpuArch::x86_64,
                DirectTarget {
                    url: url.to_owned(),
                    asset_type: AssetType::Binary { copy_as: name.to_owned() },
                },
            )]),
            hardcoded_version: version.to_owned(),
        }),
        depends_on: deps.into_iter().map(|d| d.to_owned()).collect(),
    }
}

fn repo_with(name: &str, manifests: Vec<PackageManifest>) -> Repository {
    Repository {
        name: name.to_owned(),
        description: String::new(),
        packages: manifests
            .into_iter()
            .map(|m| PackageEntry { key: m.name.clone(), manifest: m })
            .collect(),
    }
}

fn installed(name: &str, version: &str, bins: Vec<&str>, as_dep: bool) -> InstalledPackage {
    make_install_record(
        &direct_manifest(name, "http://h/x", version, vec![]),
        "r",
        version,
        0,
        bins.into_iter().map(|b| b.to_owned()).collect(),
        as_dep,
    )
}

#[test]
fn valid_repository_passes_validation() {
    let repo = repo_with("r", vec![
        direct_manifest("a", "http://h/a", "1.0", vec!["b"]),
        direct_manifest("b", "http://h/b", "1.0", vec![]),
    ]);
    assert!(validate_repository(&repo).is_ok());
}

#[test]
fn key_name_mismatch_fails_validation() {
    let mut repo = repo_with("r", vec![direct_manifest("a", "http://h/a", "1.0", vec![])]);
    repo.packages[0].key = "other".to_owned();
    assert!(validate_repository(&repo).is_err());
}

#[test]
fn unknown_dependency_fails_validation() {
    let repo = repo_with("r", vec![direct_manifest("a", "http://h/a", "1.0", vec!["ghost"])]);
    assert!(validate_repository(&repo).is_err());
}

#[test]
fn duplicate_package_key_fails_validation() {
    let mut repo = repo_with("r", vec![
        direct_manifest("a", "http://h/a", "1.0", vec![]),
        direct_manifest("b", "http://h/b", "1.0", vec![]),
    ]);
    repo.packages[1].key = "a".to_owned();
    repo.packages[1].manifest.name = "a".to_owned();
    assert!(validate_repository(&repo).is_err());
}

#[test]
fn duplicate_platform_entry_fails_validation() {
    let mut repo = repo_with("r", vec![direct_manifest("a", "http://h/a", "1.0", vec![])]);
    let DownloadSource::Direct(ref mut src) = repo.packages[0].manifest.source else {
        panic!("expected a direct source");
    };
    src.urls.entries.push(PlatformDependentEntry::new(
        System::linux,
        CpuArch::x86_64,
        DirectTarget {
            url: "http://h/other".to_owned(),
            asset_type: AssetType::Binary { copy_as: "a".to_owned() },
        },
    ));
    assert!(validate_repository(&repo).is_err());
}

#[test]
fn removal_batch_stops_at_missing_name() {
    let mut db = AppData::new();
    db.upsert_installed(installed("a", "1", vec!["a"], false));
    let names = vec!["a".to_owned(), "ghost".to_owned()];
    assert!(matches!(
        commit_removals(&mut db, &names),
        Err(Error::NotInstalled { .. })
    ));
    // The removals up to the missing name have been applied.
    assert!(db.get_installed("a").is_none());
}

#[test]
fn binary_name_rules() {
    assert!(validate_binary_name("tool-1.0_x").is_ok());
    assert!(validate_binary_name(".hidden").is_err());
    assert!(validate_binary_name("bad/name").is_err());
    assert!(validate_binary_name("").is_err());
}

#[test]
fn resolve_not_found_and_ambiguous() {
    let repos = vec![
        repo_with("r1", vec![direct_manifest("x", "http://h/x", "1", vec![])]),
        repo_with("r2", vec![direct_manifest("x", "http://h/x", "1", vec![])]),
    ];
    assert!(matches!(
        resolve_pkg_by_name("nope", &repos),
        Err(Error::PackageNotFound { .. })
    ));
    assert!(matches!(
        resolve_pkg_by_name("x", &repos),
        Err(Error::AmbiguousPackage { .. })
    ));
}

#[test]
fn resolve_chain_marks_dependencies() {
    // A depends on B, B depends on C: asking for A resolves all three, with
    // only A marked as requested.
    let repos = vec![repo_with("r", vec![
        direct_manifest("a", "http://h/a", "1", vec!["b"]),
        direct_manifest("b", "http://h/b", "1", vec!["c"]),
        direct_manifest("c", "http://h/c", "1", vec![]),
    ])];
    let out = resolve_pkgs_by_name_with_deps(&vec!["a".to_owned()], &repos).unwrap();
    let mut names: Vec<(String, bool)> = out
        .iter()
        .map(|rp| (name_of(&repos, rp).to_owned(), rp.is_dep))
        .collect();
    names.sort();
    assert_eq!(names, vec![
        ("a".to_owned(), false),
        ("b".to_owned(), true),
        ("c".to_owned(), true),
    ]);
}

#[test]
fn resolve_missing_dependency_fails() {
    let mut repos = vec![repo_with("r", vec![
        direct_manifest("a", "http://h/a", "1", vec!["b"]),
    ])];
    assert!(matches!(
        resolve_pkgs_by_name_with_deps(&vec!["a".to_owned()], &repos),
        Err(Error::MissingDependency { .. })
    ));
    repos[0].packages.push(PackageEntry {
        key: "b".to_owned(),
        manifest: direct_manifest("b", "http://h/b", "1", vec![]),
    });
    assert!(resolve_pkgs_by_name_with_deps(&vec!["a".to_owned()], &repos).is_ok());
}

#[test]
fn resolve_is_idempotent() {
    let repos = vec![repo_with("r", vec![
        direct_manifest("a", "http://h/a", "1", vec!["b"]),
        direct_manifest("b", "http://h/b", "1", vec![]),
    ])];
    let out1 = resolve_pkgs_by_name_with_deps(&vec!["a".to_owned()], &repos).unwrap();
    let names1: Vec<String> = out1.iter().map(|rp| name_of(&repos, rp).to_owned()).collect();
    let out2 = resolve_pkgs_by_name_with_deps(&names1, &repos).unwrap();
    let mut sorted1: Vec<String> = names1.clone();
    let mut sorted2: Vec<String> =
        out2.iter().map(|rp| name_of(&repos, rp).to_owned()).collect();
    sorted1.sort();
    sorted2.sort();
    assert_eq!(sorted1, sorted2);
}

#[test]
fn direct_source_infos() {
    // A direct source yields the platform's URL, the hardcoded version and
    // no headers.
    let m = direct_manifest("tool", "http://h/t.bin", "1.0", vec![]);
    let DownloadSource::Direct(ref src) = m.source else {
        panic!("expected a direct source");
    };
    let infos = direct_asset_infos(src, linux_x86()).unwrap();
    assert_eq!(infos.url, "http://h/t.bin");
    assert_eq!(infos.version, "1.0");
    assert!(infos.headers.is_empty());
    assert!(matches!(infos.typ, AssetType::Binary { ref copy_as } if copy_as == "tool"));

    let other = Platform { system: System::windows, cpu_arch: CpuArch::aarch64 };
    assert!(matches!(
        direct_asset_infos(src, other),
        Err(Error::UnsupportedPlatform { .. })
    ));
}

#[test]
fn planner_update_with_unchanged_version_is_no_update_needed() {
    // Policy Update, installed "v1", fetched "v1": nothing to update and the
    // database is untouched.
    let repos = vec![repo_with("r", vec![direct_manifest("a", "http://h/a", "v1", vec![])])];
    let mut db = AppData::new();
    db.upsert_installed(installed("a", "v1", vec!["a"], false));
    let pkgs = vec![resolve_pkg_by_name("a", &repos).unwrap()];
    let versions = vec![Some("v1".to_owned())];
    let phases = compute_install_phases(
        &pkgs,
        &versions,
        InstalledPackagesHandling::Update,
        &db,
        &repos,
    )
    .unwrap();
    assert_eq!(phases.untouched.no_update_needed, vec![0]);
    assert!(phases.to_install.needs_updating.is_empty());

    let versions2 = vec![Some("v2".to_owned())];
    let phases2 = compute_install_phases(
        &pkgs,
        &versions2,
        InstalledPackagesHandling::Update,
        &db,
        &repos,
    )
    .unwrap();
    assert_eq!(phases2.to_install.needs_updating, vec![0]);
}

#[test]
fn planner_ignore_fast_path_is_noop() {
    // install X; install X: the second call under policy Ignore classifies
    // everything as already installed and installs nothing.
    let repos = vec![repo_with("r", vec![direct_manifest("a", "http://h/a", "1", vec![])])];
    let mut db = AppData::new();
    db.upsert_installed(installed("a", "1", vec!["a"], false));
    let pkgs = vec![resolve_pkg_by_name("a", &repos).unwrap()];
    let versions = vec![None];
    let phases = compute_install_phases(
        &pkgs,
        &versions,
        InstalledPackagesHandling::Ignore,
        &db,
        &repos,
    )
    .unwrap();
    assert_eq!(phases.untouched.already_installed, vec![0]);
    assert!(phases.to_install.missing_pkgs.is_empty());
    assert!(phases.to_install.missing_deps.is_empty());
    assert!(phases.to_install.needs_updating.is_empty());
    assert!(phases.to_install.reinstall.is_empty());
}

#[test]
fn planner_repository_migration_is_fatal() {
    let repos = vec![repo_with("other", vec![direct_manifest("a", "http://h/a", "1", vec![])])];
    let mut db = AppData::new();
    db.upsert_installed(installed("a", "1", vec!["a"], false));
    let pkgs = vec![resolve_pkg_by_name("a", &repos).unwrap()];
    let versions = vec![None];
    assert!(matches!(
        compute_install_phases(&pkgs, &versions, InstalledPackagesHandling::Ignore, &db, &repos),
        Err(Error::RepositoryMigration { .. })
    ));
}

#[test]
fn classify_table() {
    let repos = vec![repo_with("r", vec![
        direct_manifest("a", "http://h/a", "1", vec![]),
        direct_manifest("d", "http://h/d", "1", vec![]),
    ])];
    let mut db = AppData::new();
    db.upsert_installed(installed("a", "v1", vec!["a"], false));
    let a = resolve_pkg_by_name("a", &repos).unwrap();
    let mut d = resolve_pkg_by_name("d", &repos).unwrap();
    d.is_dep = true;
    let v1 = "v1".to_owned();
    assert_eq!(
        classify_package(&d, None, InstalledPackagesHandling::Ignore, &db, &repos),
        Phase::MissingDep
    );
    assert_eq!(
        classify_package(&a, Some(&v1), InstalledPackagesHandling::CheckUpdates, &db, &repos),
        Phase::NoUpdateNeeded
    );
    let v2 = "v2".to_owned();
    assert_eq!(
        classify_package(&a, Some(&v2), InstalledPackagesHandling::CheckUpdates, &db, &repos),
        Phase::UpdateAvailable
    );
    assert_eq!(
        classify_package(&a, Some(&v2), InstalledPackagesHandling::Reinstall, &db, &repos),
        Phase::Reinstall
    );
}

#[test]
fn collision_with_installed_package_is_fatal() {
    // Installed A owns binary "x"; planned B also yields "x".
    let mut db = AppData::new();
    db.upsert_installed(installed("a", "1", vec!["x"], false));
    let planned = vec![PlannedInstall { name: "b".to_owned(), binaries: vec!["x".to_owned()] }];
    match check_binary_collisions(&db, &planned) {
        Err(Error::BinaryCollision { pkg, binary, owner }) => {
            assert_eq!(pkg, "b");
            assert_eq!(binary, "x");
            assert_eq!(owner, "a");
        },
        other => panic!("expected a binary collision, got {other:?}"),
    }
}

#[test]
fn duplicate_copy_as_within_one_package_is_fatal() {
    // Two binaries with the same copy_as name collide before any copy.
    let db = AppData::new();
    let planned = vec![PlannedInstall {
        name: "b".to_owned(),
        binaries: vec!["tool".to_owned(), "tool".to_owned()],
    }];
    assert!(matches!(
        check_binary_collisions(&db, &planned),
        Err(Error::BinaryCollision { .. })
    ));
}

#[test]
fn reinstalling_same_package_does_not_collide() {
    let mut db = AppData::new();
    db.upsert_installed(installed("a", "1", vec!["x"], false));
    let planned = vec![PlannedInstall { name: "a".to_owned(), binaries: vec!["x".to_owned()] }];
    assert!(check_binary_collisions(&db, &planned).is_ok());
}

#[test]
fn install_records_and_uninstall_restores_database() {
    // install X then uninstall X: the database equals its initial value.
    let mut db = AppData::new();
    db.upsert_installed(installed("keep", "1", vec!["keep"], false));
    let before: Vec<String> =
        db.installed.iter().map(|p| p.manifest.name.clone()).collect();

    commit_installs(&mut db, vec![installed("tool", "1.0", vec!["tool"], false)]);
    assert!(db.get_installed("tool").is_some());
    let rec = db.get_installed("tool").unwrap();
    assert_eq!(rec.version, "1.0");
    assert_eq!(rec.repo_name, "r");
    assert!(!rec.installed_as_dep);
    assert_eq!(rec.binaries, vec!["tool".to_owned()]);

    let removed = commit_removals(&mut db, &vec!["tool".to_owned()]).unwrap();
    assert_eq!(removed.len(), 1);
    let after: Vec<String> = db.installed.iter().map(|p| p.manifest.name.clone()).collect();
    assert_eq!(before, after);
    assert!(db.get_installed("tool").is_none());
}

#[test]
fn upsert_preserves_installed_as_dep() {
    let mut db = AppData::new();
    db.upsert_installed(installed("a", "1", vec!["a"], false));
    db.upsert_installed(installed("a", "2", vec!["a"], true));
    let rec = db.get_installed("a").unwrap();
    assert_eq!(rec.version, "2");
    assert!(!rec.installed_as_dep, "a package once requested stays requested");
}

#[test]
fn uninstall_blocked_by_dependent() {
    // A depends on B; uninstalling B alone would break A.
    let mut db = AppData::new();
    let a = make_install_record(
        &direct_manifest("a", "http://h/a", "1", vec!["b"]),
        "r",
        "1",
        0,
        vec!["a".to_owned()],
        false,
    );
    db.upsert_installed(a);
    db.upsert_installed(installed("b", "1", vec!["b"], true));
    match plan_uninstall(&vec!["b".to_owned()], &db) {
        Err(Error::WouldBreakDependents { name, dependents }) => {
            assert_eq!(name, "b");
            assert_eq!(dependents, vec!["a".to_owned()]);
        },
        other => panic!("expected WouldBreakDependents, got {other:?}"),
    }
    // Uninstalling both together is fine.
    assert!(plan_uninstall(&vec!["a".to_owned(), "b".to_owned()], &db).is_ok());
    // Uninstalling a package that is not installed is reported.
    assert!(matches!(
        plan_uninstall(&vec!["zzz".to_owned()], &db),
        Err(Error::NotInstalled { .. })
    ));
}

#[test]
fn orphaned_dependencies_are_collected() {
    // A (requested) depends on B (dependency): removing A orphans B.
    let mut db = AppData::new();
    let a = make_install_record(
        &direct_manifest("a", "http://h/a", "1", vec!["b"]),
        "r",
        "1",
        0,
        vec!["a".to_owned()],
        false,
    );
    db.upsert_installed(a);
    db.upsert_installed(installed("b", "1", vec!["b"], true));
    let orphans = compute_no_longer_needed_deps(&db, &vec!["a".to_owned()]);
    assert_eq!(orphans, vec!["b".to_owned()]);
}

#[test]
fn orphan_chain_reaches_fixed_point() {
    // A -> B -> C, B and C installed as dependencies: removing A orphans
    // both, across two rounds.
    let mut db = AppData::new();
    let a = make_install_record(
        &direct_manifest("a", "http://h/a", "1", vec!["b"]),
        "r",
        "1",
        0,
        vec!["a".to_owned()],
        false,
    );
    let b = make_install_record(
        &direct_manifest("b", "http://h/b", "1", vec!["c"]),
        "r",
        "1",
        0,
        vec!["b".to_owned()],
        true,
    );
    db.upsert_installed(a);
    db.upsert_installed(b);
    db.upsert_installed(installed("c", "1", vec!["c"], true));
    let mut orphans = compute_no_longer_needed_deps(&db, &vec!["a".to_owned()]);
    orphans.sort();
    assert_eq!(orphans, vec!["b".to_owned(), "c".to_owned()]);
}

#[test]
fn repository_registration_round_trip() {
    let mut db = AppData::new();
    let repo = SourcedRepository {
        content: repo_with("r", vec![]),
        source: RepositorySource {
            location: RepositoryLocation::File("/tmp/r.json".to_owned()),
            json: true,
        },
    };
    assert!(db.insert_repository(repo).is_ok());
    assert!(db.get_repository("r").is_some());
    let again = SourcedRepository {
        content: repo_with("r", vec![]),
        source: RepositorySource {
            location: RepositoryLocation::File("/tmp/r.json".to_owned()),
            json: true,
        },
    };
    assert!(matches!(
        db.insert_repository(again),
        Err(Error::RepositoryAlreadyRegistered { .. })
    ));
    assert!(db.remove_repository("r").is_ok());
    assert!(db.get_repository("r").is_none());
    assert!(matches!(
        db.remove_repository("r"),
        Err(Error::RepositoryNotFound { .. })
    ));
}

#[test]
fn fresh_direct_install_records_expected_state() {
    // A fresh install of a direct source: the downloaded bytes become the
    // staged binary, and the database records name, version, repository,
    // dependency flag and binaries.
    let repos = vec![repo_with("r", vec![direct_manifest(
        "tool",
        "http://h/t.bin",
        "1.0",
        vec![],
    )])];
    let mut db = AppData::new();
    let rp = resolve_pkg_by_name("tool", &repos).unwrap();
    let DownloadSource::Direct(ref src) = manifest_of(&repos, &rp).source else {
        panic!("expected a direct source");
    };
    let infos = direct_asset_infos(src, linux_x86()).unwrap();
    assert_eq!(infos.url, "http://h/t.bin");

    let body = b"hello".to_vec();
    let items = fetchy::extract::extract_asset(&body, &infos.typ).unwrap();
    assert_eq!(items.len(), 1);
    assert_eq!(items[0].bin_name, "tool");
    assert_eq!(items[0].data, b"hello");

    let planned = vec![PlannedInstall {
        name: "tool".to_owned(),
        binaries: vec!["tool".to_owned()],
    }];
    assert!(check_binary_collisions(&db, &planned).is_ok());

    let rec = make_install_record(
        manifest_of(&repos, &rp),
        "r",
        &infos.version,
        7,
        vec!["tool".to_owned()],
        false,
    );
    commit_installs(&mut db, vec![rec]);
    let rec = db.get_installed("tool").unwrap();
    assert_eq!(rec.version, "1.0");
    assert_eq!(rec.repo_name, "r");
    assert!(!rec.installed_as_dep);
    assert_eq!(rec.binaries, vec!["tool".to_owned()]);
}

#[test]
fn failing_plan_leaves_database_untouched() {
    // A command that fails before its commit leaves the database value as it
    // was.
    let repos = vec![repo_with("other", vec![direct_manifest("a", "http://h/a", "1", vec![])])];
    let mut db = AppData::new();
    db.upsert_installed(installed("a", "1", vec!["a"], false));
    let before: Vec<(String, String)> = db
        .installed
        .iter()
        .map(|p| (p.manifest.name.clone(), p.version.clone()))
        .collect();
    let pkgs = vec![resolve_pkg_by_name("a", &repos).unwrap()];
    assert!(compute_install_phases(
        &pkgs,
        &vec![None],
        InstalledPackagesHandling::Ignore,
        &db,
        &repos,
    )
    .is_err());
    let after: Vec<(String, String)> = db
        .installed
        .iter()
        .map(|p| (p.manifest.name.clone(), p.version.clone()))
        .collect();
    assert_eq!(before, after);
}

#[test]
fn pattern_matching_is_live() {
    let p = Pattern::parse(".*tool$").unwrap();
    assert!(p.is_match("bin/tool"));
    assert!(!p.is_match("bin/tool.txt"));
    assert!(Pattern::parse("(unclosed").is_err());
    let _ = BinaryInArchive { path_matcher: p, copy_as: "tool".to_owned() };
    let _ = ArchiveFormat::TarGz;
}
