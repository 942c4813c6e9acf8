//! The planner: classifies resolved packages into install phases given the
//! database and an installed-handling policy. Classification is total and
//! deterministic; version comparison is purely string equality.

use vstd::prelude::*;
use crate::database::{installed_idx, AppData, InstalledPackageView};
use crate::error::Error;
use crate::manifest::Repository;
use crate::resolver::{repos_seq, rp_name, rp_valid, ResolvedPkg};

verus! {

/// What to do with packages that are already installed.
#[derive(Debug, Clone, Copy, PartialEq, Eq, Structural)]
pub enum InstalledPackagesHandling {
    Ignore,
    CheckUpdates,
    Update,
    Reinstall,
}

/// The bucket a resolved package is classified into.
#[derive(Debug, Clone, Copy, PartialEq, Eq, Structural)]
pub enum Phase {
    MissingPkg,
    MissingDep,
    AlreadyInstalled,
    AlreadyInstalledDep,
    NoUpdateNeeded,
    UpdateAvailable,
    NeedsUpdating,
    Reinstall,
}

/// The planner's classification table: a resolved package's bucket, given
/// whether (and as what) it is installed, the policy, and the version the
/// asset source reports. An installed package is up to date exactly when the
/// fetched version string equals the recorded one.
pub open spec fn spec_classify(
    installed: Option<InstalledPackageView>,
    is_dep: bool,
    policy: InstalledPackagesHandling,
    fetched_version: Option<Seq<char>>,
) -> Phase {
    match installed {
        None => if is_dep {
            Phase::MissingDep
        } else {
            Phase::MissingPkg
        },
        Some(rec) => match policy {
            InstalledPackagesHandling::Ignore => if is_dep {
                Phase::AlreadyInstalledDep
            } else {
                Phase::AlreadyInstalled
            },
            InstalledPackagesHandling::CheckUpdates => if fetched_version == Some(rec.version) {
                Phase::NoUpdateNeeded
            } else {
                Phase::UpdateAvailable
            },
            InstalledPackagesHandling::Update => if fetched_version == Some(rec.version) {
                Phase::NoUpdateNeeded
            } else {
                Phase::NeedsUpdating
            },
            InstalledPackagesHandling::Reinstall => if is_dep && fetched_version == Some(
                rec.version,
            ) {
                Phase::AlreadyInstalledDep
            } else {
                Phase::Reinstall
            },
        },
    }
}

/// A bucket is one of the to-install buckets.
pub open spec fn is_install_phase(p: Phase) -> bool {
    p is MissingPkg || p is MissingDep || p is NeedsUpdating || p is Reinstall
}

/// The installed record of a resolved package, if any.
pub open spec fn spec_installed_for(
    d: crate::database::AppDataView,
    rs: Seq<crate::manifest::RepositoryView>,
    pkg: ResolvedPkg,
) -> Option<InstalledPackageView> {
    match installed_idx(d.installed, rp_name(rs, pkg)) {
        Some(i) => Some(d.installed[i]),
        None => None,
    }
}

/// Classifies one resolved package.
pub fn classify_package(
    pkg: &ResolvedPkg,
    fetched_version: Option<&String>,
    policy: InstalledPackagesHandling,
    db: &AppData,
    repos: &Vec<Repository>,
) -> (r: Phase)
    requires
        rp_valid(repos_seq(*repos), *pkg),
    ensures
        r == spec_classify(
            spec_installed_for(db@, repos_seq(*repos), *pkg),
            pkg.is_dep,
            policy,
            match fetched_version {
                Some(v) => Some(v@),
                None => None,
            },
        ),
{
    let name = crate::resolver::name_of(repos, pkg);
    let installed = db.get_installed(name);
    match installed {
        None => {
            if pkg.is_dep {
                Phase::MissingDep
            } else {
                Phase::MissingPkg
            }
        },
        Some(rec) => {
            match policy {
                InstalledPackagesHandling::Ignore => {
                    if pkg.is_dep {
                        Phase::AlreadyInstalledDep
                    } else {
                        Phase::AlreadyInstalled
                    }
                },
                InstalledPackagesHandling::CheckUpdates => {
                    if version_up_to_date(fetched_version, &rec.version) {
                        Phase::NoUpdateNeeded
                    } else {
                        Phase::UpdateAvailable
                    }
                },
                InstalledPackagesHandling::Update => {
                    if version_up_to_date(fetched_version, &rec.version) {
                        Phase::NoUpdateNeeded
                    } else {
                        Phase::NeedsUpdating
                    }
                },
                InstalledPackagesHandling::Reinstall => {
                    if pkg.is_dep && version_up_to_date(fetched_version, &rec.version) {
                        Phase::AlreadyInstalledDep
                    } else {
                        Phase::Reinstall
                    }
                },
            }
        },
    }
}

/// Version comparison is purely string equality: an installed package is up
/// to date exactly when the fetched version string equals the recorded one.
fn version_up_to_date(fetched: Option<&String>, recorded: &String) -> (r: bool)
    ensures
        r == (match fetched {
            Some(v) => Some(v@),
            None => None,
        } == Some(recorded@)),
{
    match fetched {
        Some(v) => crate::util::str_eq(v.as_str(), recorded.as_str()),
        None => false,
    }
}

/// The packages the planner classifies without touching the network: with
/// any other policy every package's asset information is fetched, and with
/// policy `Ignore` none is needed.
pub fn pkgs_requiring_info(
    pkgs: &Vec<ResolvedPkg>,
    policy: InstalledPackagesHandling,
    db: &AppData,
    repos: &Vec<Repository>,
) -> (r: Vec<usize>)
    requires
        forall|i: int| 0 <= i < pkgs@.len() ==> rp_valid(repos_seq(*repos), #[trigger] pkgs@[i]),
    ensures
        policy is Ignore ==> r@ == Seq::<usize>::empty(),
        !(policy is Ignore) ==> r@.len() == pkgs@.len() && forall|i: int|
            0 <= i < r@.len() ==> #[trigger] r@[i] == i,
{
    let mut out: Vec<usize> = Vec::new();
    match policy {
        InstalledPackagesHandling::Ignore => {
            proof {
                assert(out@ =~= Seq::<usize>::empty());
            }
        },
        _ => {
            let mut i: usize = 0;
            while i < pkgs.len()
                invariant
                    0 <= i <= pkgs@.len(),
                    out@.len() == i,
                    forall|j: int| 0 <= j < i ==> #[trigger] out@[j] == j,
                decreases pkgs@.len() - i,
            {
                out.push(i);
                i += 1;
            }
        },
    }
    out
}

/// The packages that are untouched by a command.
#[derive(Debug)]
pub struct UntouchedPackages {
    pub already_installed: Vec<usize>,
    pub already_installed_deps: Vec<usize>,
    pub no_update_needed: Vec<usize>,
    pub update_available: Vec<usize>,
}

/// The packages a command will fetch, extract and place.
#[derive(Debug)]
pub struct PackagesToInstall {
    pub missing_pkgs: Vec<usize>,
    pub missing_deps: Vec<usize>,
    pub needs_updating: Vec<usize>,
    pub reinstall: Vec<usize>,
}

/// The planner's output: each input package's index, classified.
#[derive(Debug)]
pub struct InstallPhases {
    pub untouched: UntouchedPackages,
    pub to_install: PackagesToInstall,
}

impl InstallPhases {
    /// Whether nothing is to be installed.
    pub open spec fn nothing_to_install(self) -> bool {
        self.to_install.missing_pkgs@.len() == 0 && self.to_install.missing_deps@.len() == 0
            && self.to_install.needs_updating@.len() == 0 && self.to_install.reinstall@.len() == 0
    }
}

/// The indices in `0..n` whose package classifies as `phase`.
pub open spec fn indices_in_phase(
    d: crate::database::AppDataView,
    rs: Seq<crate::manifest::RepositoryView>,
    pkgs: Seq<ResolvedPkg>,
    versions: Seq<Option<Seq<char>>>,
    policy: InstalledPackagesHandling,
    phase: Phase,
    n: int,
) -> Seq<int>
    decreases n,
{
    if n <= 0 {
        Seq::empty()
    } else {
        let rest = indices_in_phase(d, rs, pkgs, versions, policy, phase, n - 1);
        if spec_classify(spec_installed_for(d, rs, pkgs[n - 1]), pkgs[n - 1].is_dep, policy,
            versions[n - 1]) == phase {
            rest.push(n - 1)
        } else {
            rest
        }
    }
}

/// Whether every requested (non-dependency) package is already installed.
pub open spec fn all_requested_installed(
    d: crate::database::AppDataView,
    rs: Seq<crate::manifest::RepositoryView>,
    pkgs: Seq<ResolvedPkg>,
) -> bool {
    forall|i: int|
        0 <= i < pkgs.len() && !(#[trigger] pkgs[i]).is_dep ==> installed_idx(
            d.installed,
            rp_name(rs, pkgs[i]),
        ) is Some
}

/// Checks that no resolved package migrates between repositories: a package
/// that is already installed must come from the repository that installed
/// it.
pub fn check_no_repository_migration(
    pkgs: &Vec<ResolvedPkg>,
    db: &AppData,
    repos: &Vec<Repository>,
) -> (r: Result<(), Error>)
    requires
        forall|i: int| 0 <= i < pkgs@.len() ==> rp_valid(repos_seq(*repos), #[trigger] pkgs@[i]),
    ensures
        r is Ok <==> (forall|i: int|
            0 <= i < pkgs@.len() ==> match spec_installed_for(
                db@,
                repos_seq(*repos),
                #[trigger] pkgs@[i],
            ) {
                Some(rec) => rec.repo_name == repos_seq(*repos)[pkgs@[i].repo_idx as int].name,
                None => true,
            }),
        r matches Err(e) ==> e is RepositoryMigration,
{
    let ghost rs = repos_seq(*repos);
    let n = pkgs.len();
    let mut i: usize = 0;
    while i < n
        invariant
            rs == repos_seq(*repos),
            0 <= i <= n,
            n == pkgs@.len(),
            forall|k: int| 0 <= k < pkgs@.len() ==> rp_valid(rs, #[trigger] pkgs@[k]),
            forall|k: int|
                0 <= k < i ==> match spec_installed_for(db@, rs, #[trigger] pkgs@[k]) {
                    Some(rec) => rec.repo_name == rs[pkgs@[k].repo_idx as int].name,
                    None => true,
                },
        decreases n - i,
    {
        let pkg = &pkgs[i];
        let name = crate::resolver::name_of(repos, pkg);
        match db.get_installed(name) {
            Some(rec) => {
                proof {
                    assert(rs[pkg.repo_idx as int] == repos@[pkg.repo_idx as int]@);
                }
                if !crate::util::str_eq(
                    rec.repo_name.as_str(),
                    repos[pkg.repo_idx].name.as_str(),
                ) {
                    return Err(
                        Error::RepositoryMigration {
                            name: crate::util::copy_str(name),
                            installed_from: rec.repo_name.clone(),
                            requested_from: repos[pkg.repo_idx].name.clone(),
                        },
                    );
                }
            },
            None => {},
        }
        i += 1;
    }
    Ok(())
}

/// Classifies the resolved packages into install phases.
///
/// When the policy is `Ignore` and every requested package is already
/// installed, the fast path classifies everything as already installed —
/// missing dependencies included — and nothing is to install. Otherwise each
/// package lands in the bucket that the classification table assigns it,
/// with the buckets listing input indices in order. `versions[i]` is the
/// version string fetched for package `i`, where one was fetched. Planning
/// fails exactly when some resolved package would migrate between
/// repositories.
pub fn compute_install_phases(
    pkgs: &Vec<ResolvedPkg>,
    versions: &Vec<Option<String>>,
    policy: InstalledPackagesHandling,
    db: &AppData,
    repos: &Vec<Repository>,
) -> (r: Result<InstallPhases, Error>)
    requires
        versions@.len() == pkgs@.len(),
        forall|i: int| 0 <= i < pkgs@.len() ==> rp_valid(repos_seq(*repos), #[trigger] pkgs@[i]),
    ensures
        r is Ok <==> (forall|i: int|
            0 <= i < pkgs@.len() ==> match spec_installed_for(
                db@,
                repos_seq(*repos),
                #[trigger] pkgs@[i],
            ) {
                Some(rec) => rec.repo_name == repos_seq(*repos)[pkgs@[i].repo_idx as int].name,
                None => true,
            }),
        match r {
            Ok(phases) => {
                if policy is Ignore && all_requested_installed(db@, repos_seq(*repos), pkgs@) {
                    // Fast path: everything already installed, partitioned by
                    // dependency flag; nothing to install or check.
                    &&& phases.untouched.already_installed@.map_values(|u: usize| u as int)
                        == indices_not_dep(pkgs@, pkgs@.len() as int)
                    &&& phases.untouched.already_installed_deps@.map_values(|u: usize| u as int)
                        == indices_dep(pkgs@, pkgs@.len() as int)
                    &&& phases.untouched.no_update_needed@.len() == 0
                    &&& phases.untouched.update_available@.len() == 0
                    &&& phases.nothing_to_install()
                } else {
                    &&& phase_seq_is(db@, repos_seq(*repos), pkgs@, versions.deep_view(), policy,
                        Phase::AlreadyInstalled, phases.untouched.already_installed@)
                    &&& phase_seq_is(db@, repos_seq(*repos), pkgs@, versions.deep_view(), policy,
                        Phase::AlreadyInstalledDep, phases.untouched.already_installed_deps@)
                    &&& phase_seq_is(db@, repos_seq(*repos), pkgs@, versions.deep_view(), policy,
                        Phase::NoUpdateNeeded, phases.untouched.no_update_needed@)
                    &&& phase_seq_is(db@, repos_seq(*repos), pkgs@, versions.deep_view(), policy,
                        Phase::UpdateAvailable, phases.untouched.update_available@)
                    &&& phase_seq_is(db@, repos_seq(*repos), pkgs@, versions.deep_view(), policy,
                        Phase::MissingPkg, phases.to_install.missing_pkgs@)
                    &&& phase_seq_is(db@, repos_seq(*repos), pkgs@, versions.deep_view(), policy,
                        Phase::MissingDep, phases.to_install.missing_deps@)
                    &&& phase_seq_is(db@, repos_seq(*repos), pkgs@, versions.deep_view(), policy,
                        Phase::NeedsUpdating, phases.to_install.needs_updating@)
                    &&& phase_seq_is(db@, repos_seq(*repos), pkgs@, versions.deep_view(), policy,
                        Phase::Reinstall, phases.to_install.reinstall@)
                }
            },
            Err(e) => e is RepositoryMigration,
        },
{
    match check_no_repository_migration(pkgs, db, repos) {
        Ok(()) => {},
        Err(e) => {
            return Err(e);
        },
    }

    let n = pkgs.len();

    if matches!(policy, InstalledPackagesHandling::Ignore) {
        // If every requested package is already installed nothing is done;
        // missing dependencies are deliberately ignored on this path.
        let mut all_installed = true;
        let mut i: usize = 0;
        while i < n
            invariant
                0 <= i <= n,
                n == pkgs@.len(),
                forall|k: int|
                    0 <= k < pkgs@.len() ==> rp_valid(repos_seq(*repos), #[trigger] pkgs@[k]),
                all_installed == (forall|k: int|
                    0 <= k < i && !(#[trigger] pkgs@[k]).is_dep ==> installed_idx(
                        db@.installed,
                        rp_name(repos_seq(*repos), pkgs@[k]),
                    ) is Some),
            decreases n - i,
        {
            let pkg = &pkgs[i];
            if !pkg.is_dep && !db.is_installed(crate::resolver::name_of(repos, pkg)) {
                all_installed = false;
            }
            i += 1;
        }
        if all_installed {
            let mut already_installed: Vec<usize> = Vec::new();
            let mut already_installed_deps: Vec<usize> = Vec::new();
            let mut i: usize = 0;
            while i < n
                invariant
                    0 <= i <= n,
                    n == pkgs@.len(),
                    already_installed@.map_values(|u: usize| u as int) == indices_not_dep(
                        pkgs@,
                        i as int,
                    ),
                    already_installed_deps@.map_values(|u: usize| u as int) == indices_dep(
                        pkgs@,
                        i as int,
                    ),
                decreases n - i,
            {
                let ghost ai0 = already_installed@;
                let ghost ad0 = already_installed_deps@;
                if pkgs[i].is_dep {
                    already_installed_deps.push(i);
                    proof {
                        assert(already_installed_deps@.map_values(|u: usize| u as int)
                            =~= indices_dep(pkgs@, i + 1));
                        assert(already_installed@.map_values(|u: usize| u as int) =~= indices_not_dep(
                            pkgs@,
                            i + 1,
                        ));
                    }
                } else {
                    already_installed.push(i);
                    proof {
                        assert(already_installed@.map_values(|u: usize| u as int) =~= indices_not_dep(
                            pkgs@,
                            i + 1,
                        ));
                        assert(already_installed_deps@.map_values(|u: usize| u as int)
                            =~= indices_dep(pkgs@, i + 1));
                    }
                }
                i += 1;
            }
            return Ok(
                InstallPhases {
                    untouched: UntouchedPackages {
                        already_installed,
                        already_installed_deps,
                        no_update_needed: Vec::new(),
                        update_available: Vec::new(),
                    },
                    to_install: PackagesToInstall {
                        missing_pkgs: Vec::new(),
                        missing_deps: Vec::new(),
                        needs_updating: Vec::new(),
                        reinstall: Vec::new(),
                    },
                },
            );
        }
    }

    let mut already_installed: Vec<usize> = Vec::new();
    let mut already_installed_deps: Vec<usize> = Vec::new();
    let mut no_update_needed: Vec<usize> = Vec::new();
    let mut update_available: Vec<usize> = Vec::new();
    let mut missing_pkgs: Vec<usize> = Vec::new();
    let mut missing_deps: Vec<usize> = Vec::new();
    let mut needs_updating: Vec<usize> = Vec::new();
    let mut reinstall: Vec<usize> = Vec::new();

    let mut i: usize = 0;
    while i < n
        invariant
            0 <= i <= n,
            n == pkgs@.len(),
            versions@.len() == pkgs@.len(),
            forall|k: int|
                0 <= k < pkgs@.len() ==> rp_valid(repos_seq(*repos), #[trigger] pkgs@[k]),
            already_installed@.map_values(|u: usize| u as int) == indices_in_phase(db@, repos_seq(*repos),
                pkgs@, versions.deep_view(), policy, Phase::AlreadyInstalled, i as int),
            already_installed_deps@.map_values(|u: usize| u as int) == indices_in_phase(db@,
                repos_seq(*repos), pkgs@, versions.deep_view(), policy, Phase::AlreadyInstalledDep,
                i as int),
            no_update_needed@.map_values(|u: usize| u as int) == indices_in_phase(db@, repos_seq(*repos),
                pkgs@, versions.deep_view(), policy, Phase::NoUpdateNeeded, i as int),
            update_available@.map_values(|u: usize| u as int) == indices_in_phase(db@, repos_seq(*repos),
                pkgs@, versions.deep_view(), policy, Phase::UpdateAvailable, i as int),
            missing_pkgs@.map_values(|u: usize| u as int) == indices_in_phase(db@, repos_seq(*repos),
                pkgs@, versions.deep_view(), policy, Phase::MissingPkg, i as int),
            missing_deps@.map_values(|u: usize| u as int) == indices_in_phase(db@, repos_seq(*repos),
                pkgs@, versions.deep_view(), policy, Phase::MissingDep, i as int),
            needs_updating@.map_values(|u: usize| u as int) == indices_in_phase(db@, repos_seq(*repos),
                pkgs@, versions.deep_view(), policy, Phase::NeedsUpdating, i as int),
            reinstall@.map_values(|u: usize| u as int) == indices_in_phase(db@, repos_seq(*repos),
                pkgs@, versions.deep_view(), policy, Phase::Reinstall, i as int),
        decreases n - i,
    {
        let fetched: Option<&String> = match versions[i] {
            Some(ref v) => Some(v),
            None => None,
        };
        let phase = classify_package(&pkgs[i], fetched, policy, db, repos);
        proof {
            assert(versions.deep_view()[i as int] == (match versions@[i as int] {
                Some(v) => Some(v@),
                None => None::<Seq<char>>,
            }));
        }
        let ghost snaps = (already_installed@, already_installed_deps@, no_update_needed@,
            update_available@, missing_pkgs@, missing_deps@, needs_updating@, reinstall@);
        match phase {
            Phase::AlreadyInstalled => already_installed.push(i),
            Phase::AlreadyInstalledDep => already_installed_deps.push(i),
            Phase::NoUpdateNeeded => no_update_needed.push(i),
            Phase::UpdateAvailable => update_available.push(i),
            Phase::MissingPkg => missing_pkgs.push(i),
            Phase::MissingDep => missing_deps.push(i),
            Phase::NeedsUpdating => needs_updating.push(i),
            Phase::Reinstall => reinstall.push(i),
        }
        proof {
            assert(already_installed@.map_values(|u: usize| u as int) =~= indices_in_phase(db@,
                repos_seq(*repos), pkgs@, versions.deep_view(), policy, Phase::AlreadyInstalled,
                i + 1));
            assert(already_installed_deps@.map_values(|u: usize| u as int) =~= indices_in_phase(db@,
                repos_seq(*repos), pkgs@, versions.deep_view(), policy, Phase::AlreadyInstalledDep,
                i + 1));
            assert(no_update_needed@.map_values(|u: usize| u as int) =~= indices_in_phase(db@,
                repos_seq(*repos), pkgs@, versions.deep_view(), policy, Phase::NoUpdateNeeded,
                i + 1));
            assert(update_available@.map_values(|u: usize| u as int) =~= indices_in_phase(db@,
                repos_seq(*repos), pkgs@, versions.deep_view(), policy, Phase::UpdateAvailable,
                i + 1));
            assert(missing_pkgs@.map_values(|u: usize| u as int) =~= indices_in_phase(db@,
                repos_seq(*repos), pkgs@, versions.deep_view(), policy, Phase::MissingPkg, i + 1));
            assert(missing_deps@.map_values(|u: usize| u as int) =~= indices_in_phase(db@,
                repos_seq(*repos), pkgs@, versions.deep_view(), policy, Phase::MissingDep, i + 1));
            assert(needs_updating@.map_values(|u: usize| u as int) =~= indices_in_phase(db@,
                repos_seq(*repos), pkgs@, versions.deep_view(), policy, Phase::NeedsUpdating,
                i + 1));
            assert(reinstall@.map_values(|u: usize| u as int) =~= indices_in_phase(db@,
                repos_seq(*repos), pkgs@, versions.deep_view(), policy, Phase::Reinstall, i + 1));
        }
        i += 1;
    }

    Ok(
        InstallPhases {
            untouched: UntouchedPackages {
                already_installed,
                already_installed_deps,
                no_update_needed,
                update_available,
            },
            to_install: PackagesToInstall { missing_pkgs, missing_deps, needs_updating, reinstall },
        },
    )
}

/// The bucket vector for `phase` holds exactly the classified input indices.
pub open spec fn phase_seq_is(
    d: crate::database::AppDataView,
    rs: Seq<crate::manifest::RepositoryView>,
    pkgs: Seq<ResolvedPkg>,
    versions: Seq<Option<Seq<char>>>,
    policy: InstalledPackagesHandling,
    phase: Phase,
    bucket: Seq<usize>,
) -> bool {
    bucket.map_values(|u: usize| u as int) == indices_in_phase(
        d,
        rs,
        pkgs,
        versions,
        policy,
        phase,
        pkgs.len() as int,
    )
}

/// The indices in `0..n` of packages that were requested (not dependencies).
pub open spec fn indices_not_dep(pkgs: Seq<ResolvedPkg>, n: int) -> Seq<int>
    decreases n,
{
    if n <= 0 {
        Seq::empty()
    } else {
        let rest = indices_not_dep(pkgs, n - 1);
        if !pkgs[n - 1].is_dep {
            rest.push(n - 1)
        } else {
            rest
        }
    }
}

/// The indices in `0..n` of packages pulled in as dependencies.
pub open spec fn indices_dep(pkgs: Seq<ResolvedPkg>, n: int) -> Seq<int>
    decreases n,
{
    if n <= 0 {
        Seq::empty()
    } else {
        let rest = indices_dep(pkgs, n - 1);
        if pkgs[n - 1].is_dep {
            rest.push(n - 1)
        } else {
            rest
        }
    }
}

/// Installing a package and installing it again is a no-op under policy
/// `Ignore`: after a commit that records the package, it is installed, so a
/// second plan for the same requested set takes the fast path and installs
/// nothing.
pub proof fn lemma_second_install_is_noop(
    d: crate::database::AppDataView,
    rec: InstalledPackageView,
)
    ensures
        installed_idx(
            crate::database::spec_upsert_installed(d, rec).installed,
            rec.manifest.name,
        ) is Some,
{
    crate::database::lemma_installed_idx(d.installed, rec.manifest.name);
    match installed_idx(d.installed, rec.manifest.name) {
        Some(i) => {
            let d2 = crate::database::spec_upsert_installed(d, rec);
            crate::database::lemma_installed_idx_first(d2.installed, rec.manifest.name, i);
        },
        None => {
            let d2 = crate::database::spec_upsert_installed(d, rec);
            crate::database::lemma_installed_idx(d2.installed, rec.manifest.name);
            if installed_idx(d2.installed, rec.manifest.name) is None {
                assert(d2.installed[d.installed.len() as int].manifest.name == rec.manifest.name);
            }
        },
    }
}

} // verus!
