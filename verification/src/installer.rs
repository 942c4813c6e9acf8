//! The installer's decision core: the binary-collision check that runs
//! between extraction and copying, the database commits of install and
//! uninstall commands, and the reverse-dependency analysis of uninstalls.

use vstd::prelude::*;
use crate::database::{installed_idx, spec_remove_installed, spec_upsert_installed, AppData,
    AppDataView, InstalledPackage, InstalledPackageView};
use crate::error::Error;
use crate::manifest::PackageManifest;
use crate::util::str_eq;

verus! {

/// Configures the package installation process.
#[derive(Debug, Clone, Copy, PartialEq, Eq, Structural)]
pub struct InstallOpts {
    /// Show less information.
    pub discreet: bool,
    /// Perform installation without asking for user confirmation.
    pub no_confirm: bool,
}

/// What an install command does with already-installed packages.
#[derive(Debug, Clone, Copy, PartialEq, Eq, Structural)]
pub enum InstalledPackagesAction {
    Ignore,
    Update,
    Reinstall,
}

/// One package about to be installed: its name and the binary filenames its
/// asset places into the binary directory.
#[derive(Debug)]
pub struct PlannedInstall {
    pub name: String,
    pub binaries: Vec<String>,
}

pub struct PlannedInstallView {
    pub name: Seq<char>,
    pub binaries: Seq<Seq<char>>,
}

impl View for PlannedInstall {
    type V = PlannedInstallView;

    open spec fn view(&self) -> PlannedInstallView {
        PlannedInstallView { name: self.name@, binaries: self.binaries.deep_view() }
    }
}

impl DeepView for PlannedInstall {
    type V = PlannedInstallView;

    open spec fn deep_view(&self) -> PlannedInstallView {
        self.view()
    }
}

// ---------------------------------------------------------------------------
// Binary collisions
// ---------------------------------------------------------------------------
/// Two binary filename lists share a name.
pub open spec fn share_bin(a: Seq<Seq<char>>, b: Seq<Seq<char>>) -> bool {
    exists|x: int, y: int| 0 <= x < a.len() && 0 <= y < b.len() && a[x] == b[y]
}

/// A binary filename list has no duplicates.
pub open spec fn bins_unique(a: Seq<Seq<char>>) -> bool {
    forall|x: int, y: int| 0 <= x < y < a.len() ==> a[x] != a[y]
}

/// No two installed packages share a binary filename.
pub open spec fn binaries_disjoint(s: Seq<InstalledPackageView>) -> bool {
    forall|i: int, j: int|
        0 <= i < j < s.len() ==> !share_bin(
            (#[trigger] s[i]).binaries,
            (#[trigger] s[j]).binaries,
        )
}

/// The planned installs are free of binary collisions against the installed
/// set and among themselves: no planned package lists a binary twice, no two
/// planned packages share a binary, and no planned binary is owned by a
/// different installed package.
pub open spec fn collision_free(
    installed: Seq<InstalledPackageView>,
    planned: Seq<PlannedInstallView>,
) -> bool {
    &&& forall|p: int| 0 <= p < planned.len() ==> bins_unique((#[trigger] planned[p]).binaries)
    &&& forall|p: int, q: int|
        0 <= p < q < planned.len() ==> !share_bin(
            (#[trigger] planned[p]).binaries,
            (#[trigger] planned[q]).binaries,
        )
    &&& forall|p: int, i: int|
        0 <= p < planned.len() && 0 <= i < installed.len() && (#[trigger] installed[i]).manifest.name
            != (#[trigger] planned[p]).name ==> !share_bin(planned[p].binaries, installed[i].binaries)
}

/// The first binary filename the two lists share, if any.
fn find_shared(a: &Vec<String>, b: &Vec<String>) -> (r: Option<usize>)
    ensures
        match r {
            Some(x) => x < a@.len() && exists|y: int|
                0 <= y < b.deep_view().len() && a.deep_view()[x as int] == #[trigger] b.deep_view()[y],
            None => !share_bin(a.deep_view(), b.deep_view()),
        },
{
    let mut x: usize = 0;
    while x < a.len()
        invariant
            0 <= x <= a@.len(),
            forall|x2: int, y: int|
                0 <= x2 < x && 0 <= y < b.deep_view().len() ==> #[trigger] a.deep_view()[x2] != (
                #[trigger] b.deep_view()[y]),
        decreases a@.len() - x,
    {
        let mut y: usize = 0;
        while y < b.len()
            invariant
                0 <= y <= b@.len(),
                0 <= x < a@.len(),
                forall|y2: int|
                    0 <= y2 < y ==> a.deep_view()[x as int] != #[trigger] b.deep_view()[y2],
            decreases b@.len() - y,
        {
            proof {
                assert(a.deep_view()[x as int] == a@[x as int]@);
                assert(b.deep_view()[y as int] == b@[y as int]@);
            }
            if str_eq(a[x].as_str(), b[y].as_str()) {
                return Some(x);
            }
            y += 1;
        }
        x += 1;
    }
    None
}

/// The first duplicated binary filename in the list, if any.
fn find_duplicate(a: &Vec<String>) -> (r: Option<usize>)
    ensures
        match r {
            Some(x) => x < a@.len() && exists|y: int|
                x < y < a.deep_view().len() && a.deep_view()[x as int]
                    == #[trigger] a.deep_view()[y],
            None => bins_unique(a.deep_view()),
        },
{
    let mut x: usize = 0;
    while x < a.len()
        invariant
            0 <= x <= a@.len(),
            forall|x2: int, y: int|
                0 <= x2 < x && x2 < y < a.deep_view().len() ==> #[trigger] a.deep_view()[x2] != (
                #[trigger] a.deep_view()[y]),
        decreases a@.len() - x,
    {
        let mut y: usize = x + 1;
        while y < a.len()
            invariant
                x < y <= a@.len(),
                0 <= x < a@.len(),
                forall|y2: int|
                    x < y2 < y ==> a.deep_view()[x as int] != #[trigger] a.deep_view()[y2],
            decreases a@.len() - y,
        {
            proof {
                assert(a.deep_view()[x as int] == a@[x as int]@);
                assert(a.deep_view()[y as int] == a@[y as int]@);
            }
            if str_eq(a[x].as_str(), a[y].as_str()) {
                return Some(x);
            }
            y += 1;
        }
        x += 1;
    }
    None
}

/// The fields of a collision error name a real violation: a package listing
/// one filename twice, two planned packages sharing a filename, or a planned
/// filename owned by a differently-named installed package. In each case
/// `pkg` is the planned package, `binary` the clashing filename, and `owner`
/// the package that already holds it.
pub open spec fn collision_witness(
    installed: Seq<InstalledPackageView>,
    planned: Seq<PlannedInstallView>,
    pkg: Seq<char>,
    binary: Seq<char>,
    owner: Seq<char>,
) -> bool {
    ||| exists|p: int, x: int, y: int|
        #![trigger planned[p].binaries[x], planned[p].binaries[y]]
        0 <= p < planned.len() && 0 <= x < y < planned[p].binaries.len() && planned[p].binaries[x]
            == planned[p].binaries[y] && pkg == planned[p].name && owner == planned[p].name
            && binary == planned[p].binaries[x]
    ||| exists|p: int, q: int, x: int, y: int|
        #![trigger planned[q].binaries[x], planned[p].binaries[y]]
        0 <= q < p < planned.len() && 0 <= x < planned[q].binaries.len() && 0 <= y < planned[
            p
        ].binaries.len() && planned[q].binaries[x] == planned[p].binaries[y] && pkg == planned[
            p
        ].name && owner == planned[q].name && binary == planned[q].binaries[x]
    ||| exists|p: int, i: int, x: int, y: int|
        #![trigger planned[p].binaries[x], installed[i].binaries[y]]
        0 <= p < planned.len() && 0 <= i < installed.len() && installed[i].manifest.name
            != planned[p].name && 0 <= x < planned[p].binaries.len() && 0 <= y < installed[
            i
        ].binaries.len() && planned[p].binaries[x] == installed[i].binaries[y] && pkg == planned[
            p
        ].name && owner == installed[i].manifest.name && binary == planned[p].binaries[x]
}

/// Checks the planned installs against the current database and against each
/// other, before anything is copied: any two packages exposing the same
/// binary filename — and any package exposing one filename twice — are a
/// fatal `BinaryCollision`, naming the package, the filename and its owner.
pub fn check_binary_collisions(db: &AppData, planned: &Vec<PlannedInstall>) -> (r: Result<
    (),
    Error,
>)
    ensures
        r is Ok <==> collision_free(db@.installed, planned.deep_view()),
        r matches Err(e) ==> (e matches Error::BinaryCollision { pkg, binary, owner }
            && collision_witness(
            db@.installed,
            planned.deep_view(),
            pkg@,
            binary@,
            owner@,
        )),
{
    let n = planned.len();
    let mut p: usize = 0;
    while p < n
        invariant
            0 <= p <= n,
            n == planned@.len(),
            forall|p2: int| 0 <= p2 < p ==> bins_unique((#[trigger] planned.deep_view()[p2]).binaries),
            forall|p2: int, q: int|
                0 <= p2 < q < p ==> !share_bin(
                    (#[trigger] planned.deep_view()[p2]).binaries,
                    (#[trigger] planned.deep_view()[q]).binaries,
                ),
            forall|p2: int, i: int|
                0 <= p2 < p && 0 <= i < db@.installed.len() && (
                #[trigger] db@.installed[i]).manifest.name != (
                #[trigger] planned.deep_view()[p2]).name ==> !share_bin(
                    planned.deep_view()[p2].binaries,
                    db@.installed[i].binaries,
                ),
        decreases n - p,
    {
        let pkg = &planned[p];
        proof {
            assert(planned.deep_view()[p as int] == planned@[p as int]@);
        }

        // A package may not expose the same binary filename twice.
        match find_duplicate(&pkg.binaries) {
            Some(x) => {
                proof {
                    let pv = planned.deep_view();
                    let y = choose|y: int|
                        x < y < pkg.binaries.deep_view().len() && pkg.binaries.deep_view()[
                            x as int
                        ] == #[trigger] pkg.binaries.deep_view()[y];
                    assert(pv[p as int].binaries[x as int] == pv[p as int].binaries[y]);
                    assert(pkg.binaries.deep_view()[x as int] == pkg.binaries@[x as int]@);
                }
                return Err(
                    Error::BinaryCollision {
                        pkg: pkg.name.clone(),
                        binary: pkg.binaries[x].clone(),
                        owner: pkg.name.clone(),
                    },
                );
            },
            None => {},
        }

        // Two planned packages may not share a binary filename.
        let mut q: usize = 0;
        while q < p
            invariant
                0 <= q <= p < n,
                n == planned@.len(),
                pkg == &planned@[p as int],
                planned.deep_view()[p as int] == planned@[p as int]@,
                forall|q2: int|
                    0 <= q2 < q ==> !share_bin(
                        (#[trigger] planned.deep_view()[q2]).binaries,
                        planned.deep_view()[p as int].binaries,
                    ),
            decreases p - q,
        {
            proof {
                assert(planned.deep_view()[q as int] == planned@[q as int]@);
            }
            match find_shared(&planned[q].binaries, &pkg.binaries) {
                Some(x) => {
                    proof {
                        let pv = planned.deep_view();
                        let y = choose|y: int|
                            0 <= y < pkg.binaries.deep_view().len() && planned@[
                                q as int
                            ].binaries.deep_view()[x as int] == #[trigger] pkg.binaries.deep_view()[y];
                        assert(pv[q as int].binaries[x as int] == pv[p as int].binaries[y]);
                        assert(planned@[q as int].binaries.deep_view()[x as int] == planned@[
                            q as int
                        ].binaries@[x as int]@);
                    }
                    return Err(
                        Error::BinaryCollision {
                            pkg: pkg.name.clone(),
                            binary: planned[q].binaries[x].clone(),
                            owner: planned[q].name.clone(),
                        },
                    );
                },
                None => {},
            }
            q += 1;
        }

        // A planned binary may not be owned by a different installed package.
        let m = db.installed.len();
        let mut i: usize = 0;
        while i < m
            invariant
                0 <= i <= m,
                m == db.installed@.len(),
                0 <= p < n,
                n == planned@.len(),
                pkg == &planned@[p as int],
                planned.deep_view()[p as int] == planned@[p as int]@,
                forall|i2: int|
                    0 <= i2 < i && (#[trigger] db@.installed[i2]).manifest.name
                        != planned.deep_view()[p as int].name ==> !share_bin(
                        planned.deep_view()[p as int].binaries,
                        db@.installed[i2].binaries,
                    ),
            decreases m - i,
        {
            let rec = &db.installed[i];
            proof {
                assert(db@.installed[i as int] == db.installed@[i as int]@);
            }
            if !str_eq(rec.manifest.name.as_str(), pkg.name.as_str()) {
                match find_shared(&pkg.binaries, &rec.binaries) {
                    Some(x) => {
                        proof {
                            let pv = planned.deep_view();
                            let y = choose|y: int|
                                0 <= y < rec.binaries.deep_view().len()
                                    && pkg.binaries.deep_view()[x as int]
                                    == #[trigger] rec.binaries.deep_view()[y];
                            assert(pv[p as int].binaries[x as int] == db@.installed[
                                i as int
                            ].binaries[y]);
                            assert(pkg.binaries.deep_view()[x as int] == pkg.binaries@[x as int]@);
                        }
                        return Err(
                            Error::BinaryCollision {
                                pkg: pkg.name.clone(),
                                binary: pkg.binaries[x].clone(),
                                owner: rec.manifest.name.clone(),
                            },
                        );
                    },
                    None => {},
                }
            }
            i += 1;
        }

        proof {
            assert forall|q2: int, p2: int| 0 <= q2 < p2 < p + 1 implies !share_bin(
                (#[trigger] planned.deep_view()[q2]).binaries,
                (#[trigger] planned.deep_view()[p2]).binaries,
            ) by {
                if p2 == p as int {
                    assert(!share_bin(planned.deep_view()[q2].binaries, planned.deep_view()[
                        p as int
                    ].binaries));
                }
            }
        }
        p += 1;
    }
    Ok(())
}

// ---------------------------------------------------------------------------
// Database commits
// ---------------------------------------------------------------------------
/// The record views of a commit batch.
pub open spec fn recs_views(recs: Seq<InstalledPackage>) -> Seq<InstalledPackageView> {
    recs.map_values(|r: InstalledPackage| r@)
}

/// The state after committing a batch of installed records, in order.
pub open spec fn spec_commit_installs(d: AppDataView, recs: Seq<InstalledPackageView>) -> AppDataView
    decreases recs.len(),
{
    if recs.len() == 0 {
        d
    } else {
        spec_commit_installs(spec_upsert_installed(d, recs[0]), recs.drop_first())
    }
}

/// Builds the installed record of a package that has been placed on disk,
/// snapshotting its manifest.
pub fn make_install_record(
    manifest: &PackageManifest,
    repo_name: &str,
    version: &str,
    at: i64,
    binaries: Vec<String>,
    installed_as_dep: bool,
) -> (r: InstalledPackage)
    ensures
        r@.manifest == manifest@,
        r@.repo_name == repo_name@,
        r@.version == version@,
        r@.at == at as int,
        r@.binaries == binaries.deep_view(),
        r@.installed_as_dep == installed_as_dep,
{
    InstalledPackage {
        manifest: manifest.clone(),
        repo_name: crate::util::copy_str(repo_name),
        version: crate::util::copy_str(version),
        at,
        binaries,
        installed_as_dep,
    }
}

/// Applies one logical database update for the packages that succeeded end
/// to end: each record is upserted in order, preserving the existing
/// `installed_as_dep` flag on replacement.
pub fn commit_installs(db: &mut AppData, recs: Vec<InstalledPackage>)
    ensures
        final(db)@ == spec_commit_installs(old(db)@, recs_views(recs@)),
{
    let ghost all = recs_views(recs@);
    let mut recs = recs;
    proof {
        assert(all.skip(0) =~= all);
    }
    let n = recs.len();
    let mut i: usize = 0;
    while i < n
        invariant
            0 <= i <= n,
            n == all.len(),
            recs@.len() == n - i,
            recs_views(recs@) =~= all.skip(i as int),
            spec_commit_installs(old(db)@, all) == spec_commit_installs(db@, recs_views(recs@)),
        decreases n - i,
    {
        let ghost r0 = recs@;
        let rec = recs.remove(0);
        proof {
            assert(rec@ == recs_views(r0)[0]);
            assert(rec@ == all.skip(i as int)[0]);
            assert(recs@ =~= r0.drop_first());
            assert forall|j: int| 0 <= j < recs@.len() implies recs_views(recs@)[j] == all.skip(
                i + 1,
            )[j] by {
                assert(recs@[j] == r0[j + 1]);
                assert(recs_views(r0)[j + 1] == all.skip(i as int)[j + 1]);
            }
            assert(recs_views(recs@) =~= all.skip(i + 1));
            assert(all.skip(i as int).drop_first() =~= all.skip(i + 1));
        }
        db.upsert_installed(rec);
        i += 1;
    }
    proof {
        assert(recs_views(recs@).len() == 0);
    }
}

/// Every name of the batch is installed at its step: each removal finds its
/// record in the state the previous removals left.
pub open spec fn removals_ok(d: AppDataView, names: Seq<Seq<char>>) -> bool
    decreases names.len(),
{
    if names.len() == 0 {
        true
    } else {
        installed_idx(d.installed, names[0]) is Some && removals_ok(
            spec_remove_installed(d, names[0]),
            names.drop_first(),
        )
    }
}

/// Removing one more name removes it from the state the batch left.
proof fn lemma_commit_removals_push(d: AppDataView, s: Seq<Seq<char>>, x: Seq<char>)
    ensures
        spec_commit_removals(d, s.push(x)) == spec_remove_installed(spec_commit_removals(d, s), x),
    decreases s.len(),
{
    if s.len() == 0 {
        assert(s.push(x)[0] == x);
        assert(s.push(x).drop_first() =~= Seq::<Seq<char>>::empty());
        assert(spec_commit_removals(d, s.push(x)) == spec_commit_removals(
            spec_remove_installed(d, x),
            s.push(x).drop_first(),
        ));
        assert(spec_commit_removals(spec_remove_installed(d, x), s.push(x).drop_first())
            == spec_remove_installed(d, x));
        assert(spec_commit_removals(d, s) == d);
    } else {
        assert(s.push(x)[0] == s[0]);
        assert(s.push(x).drop_first() =~= s.drop_first().push(x));
        assert(spec_commit_removals(d, s.push(x)) == spec_commit_removals(
            spec_remove_installed(d, s[0]),
            s.drop_first().push(x),
        ));
        assert(spec_commit_removals(d, s) == spec_commit_removals(
            spec_remove_installed(d, s[0]),
            s.drop_first(),
        ));
        lemma_commit_removals_push(spec_remove_installed(d, s[0]), s.drop_first(), x);
    }
}

/// A batch with one more name is fine exactly when the batch is fine and the
/// extra name is installed in the state the batch leaves.
proof fn lemma_removals_ok_push(d: AppDataView, s: Seq<Seq<char>>, x: Seq<char>)
    ensures
        removals_ok(d, s.push(x)) == (removals_ok(d, s) && installed_idx(
            spec_commit_removals(d, s).installed,
            x,
        ) is Some),
    decreases s.len(),
{
    if s.len() == 0 {
        assert(s.push(x)[0] == x);
        assert(s.push(x).drop_first() =~= Seq::<Seq<char>>::empty());
        assert(removals_ok(d, s.push(x)) == (installed_idx(d.installed, x) is Some
            && removals_ok(spec_remove_installed(d, x), s.push(x).drop_first())));
        assert(removals_ok(spec_remove_installed(d, x), s.push(x).drop_first()));
        assert(removals_ok(d, s));
        assert(spec_commit_removals(d, s) == d);
    } else {
        assert(s.push(x)[0] == s[0]);
        assert(s.push(x).drop_first() =~= s.drop_first().push(x));
        assert(removals_ok(d, s.push(x)) == (installed_idx(d.installed, s[0]) is Some
            && removals_ok(spec_remove_installed(d, s[0]), s.drop_first().push(x))));
        assert(removals_ok(d, s) == (installed_idx(d.installed, s[0]) is Some && removals_ok(
            spec_remove_installed(d, s[0]),
            s.drop_first(),
        )));
        assert(spec_commit_removals(d, s) == spec_commit_removals(
            spec_remove_installed(d, s[0]),
            s.drop_first(),
        ));
        lemma_removals_ok_push(spec_remove_installed(d, s[0]), s.drop_first(), x);
    }
}

/// A fine batch stays fine when truncated.
proof fn lemma_removals_ok_prefix(d: AppDataView, s: Seq<Seq<char>>, k: int)
    requires
        removals_ok(d, s),
        0 <= k <= s.len(),
    ensures
        removals_ok(d, s.take(k)),
    decreases s.len(),
{
    if k == 0 {
        assert(s.take(0) =~= Seq::<Seq<char>>::empty());
    } else {
        assert(s.take(k)[0] == s[0]);
        assert(s.take(k).drop_first() =~= s.drop_first().take(k - 1));
        lemma_removals_ok_prefix(spec_remove_installed(d, s[0]), s.drop_first(), k - 1);
    }
}

/// Removes the records of an uninstall batch, in order. The batch succeeds
/// exactly when every name is installed at its step; on failure the database
/// holds the result of the removals up to the first missing name.
pub fn commit_removals(db: &mut AppData, names: &Vec<String>) -> (r: Result<
    Vec<InstalledPackage>,
    Error,
>)
    ensures
        r is Ok <==> removals_ok(old(db)@, names.deep_view()),
        r is Ok ==> final(db)@ == spec_commit_removals(old(db)@, names.deep_view()),
        r is Err ==> exists|k: int|
            0 <= k <= names@.len() && final(db)@ == spec_commit_removals(
                old(db)@,
                names.deep_view().take(k),
            ),
        r matches Err(e) ==> e is NotInstalled,
{
    let ghost all = names.deep_view();
    proof {
        assert(all.take(0) =~= Seq::<Seq<char>>::empty());
    }
    let mut out: Vec<InstalledPackage> = Vec::new();
    let n = names.len();
    let mut i: usize = 0;
    while i < n
        invariant
            0 <= i <= n,
            n == names@.len(),
            all == names.deep_view(),
            db@ == spec_commit_removals(old(db)@, all.take(i as int)),
            removals_ok(old(db)@, all.take(i as int)),
        decreases n - i,
    {
        proof {
            assert(all[i as int] == names@[i as int]@);
            assert(all.take(i + 1) =~= all.take(i as int).push(all[i as int]));
            lemma_commit_removals_push(old(db)@, all.take(i as int), all[i as int]);
            lemma_removals_ok_push(old(db)@, all.take(i as int), all[i as int]);
        }
        match db.remove_installed(names[i].as_str()) {
            Ok(rec) => {
                out.push(rec);
            },
            Err(e) => {
                proof {
                    assert(!removals_ok(old(db)@, all)) by {
                        if removals_ok(old(db)@, all) {
                            lemma_removals_ok_prefix(old(db)@, all, i + 1);
                        }
                    }
                }
                return Err(e);
            },
        }
        i += 1;
    }
    proof {
        assert(all.take(n as int) =~= all);
    }
    Ok(out)
}

/// The state after removing a batch of names, in order; absent names leave
/// the state unchanged.
pub open spec fn spec_commit_removals(d: AppDataView, names: Seq<Seq<char>>) -> AppDataView
    decreases names.len(),
{
    if names.len() == 0 {
        d
    } else {
        spec_commit_removals(spec_remove_installed(d, names[0]), names.drop_first())
    }
}

// ---------------------------------------------------------------------------
// Collision checking keeps the database invariant
// ---------------------------------------------------------------------------
/// An upsert keeps installed binaries pairwise disjoint and installed names
/// unique, provided the record's binaries clash with no differently-named
/// record, and every entry of the result is an old entry or carries the
/// record's name and binaries.
proof fn lemma_upsert_keeps_disjoint(d: AppDataView, rec: InstalledPackageView)
    requires
        binaries_disjoint(d.installed),
        crate::database::installed_unique(d.installed),
        forall|i: int|
            0 <= i < d.installed.len() && (#[trigger] d.installed[i]).manifest.name
                != rec.manifest.name ==> !share_bin(rec.binaries, d.installed[i].binaries),
    ensures
        binaries_disjoint(spec_upsert_installed(d, rec).installed),
        crate::database::installed_unique(spec_upsert_installed(d, rec).installed),
        forall|j: int|
            0 <= j < spec_upsert_installed(d, rec).installed.len() ==> {
                let e = #[trigger] spec_upsert_installed(d, rec).installed[j];
                (exists|i: int| 0 <= i < d.installed.len() && #[trigger] d.installed[i] == e) || (
                e.manifest.name == rec.manifest.name && e.binaries == rec.binaries)
            },
{
    crate::database::lemma_installed_idx(d.installed, rec.manifest.name);
    let s2 = spec_upsert_installed(d, rec).installed;
    match installed_idx(d.installed, rec.manifest.name) {
        Some(i) => {
            assert(s2 == d.installed.update(
                i,
                InstalledPackageView { installed_as_dep: d.installed[i].installed_as_dep, ..rec },
            ));
            assert forall|a: int, b: int| 0 <= a < b < s2.len() implies !share_bin(
                (#[trigger] s2[a]).binaries,
                (#[trigger] s2[b]).binaries,
            ) by {
                if a != i && b != i {
                    assert(s2[a] == d.installed[a] && s2[b] == d.installed[b]);
                } else if a == i {
                    assert(s2[b] == d.installed[b]);
                    assert(d.installed[b].manifest.name != rec.manifest.name);
                    assert(s2[a].binaries == rec.binaries);
                } else {
                    assert(s2[a] == d.installed[a]);
                    assert(d.installed[a].manifest.name != rec.manifest.name);
                    assert(s2[b].binaries == rec.binaries);
                }
            }
            assert forall|a: int, b: int| 0 <= a < b < s2.len() implies (
            #[trigger] s2[a]).manifest.name != (#[trigger] s2[b]).manifest.name by {
                if a != i && b != i {
                    assert(s2[a] == d.installed[a] && s2[b] == d.installed[b]);
                } else if a == i {
                    assert(s2[a].manifest.name == rec.manifest.name && s2[b] == d.installed[b]);
                } else {
                    assert(s2[b].manifest.name == rec.manifest.name && s2[a] == d.installed[a]);
                }
            }
        },
        None => {
            assert(s2 == d.installed.push(rec));
            assert forall|a: int, b: int| 0 <= a < b < s2.len() implies !share_bin(
                (#[trigger] s2[a]).binaries,
                (#[trigger] s2[b]).binaries,
            ) by {
                if b == d.installed.len() {
                    assert(s2[a] == d.installed[a] && s2[b] == rec);
                    assert(d.installed[a].manifest.name != rec.manifest.name);
                } else {
                    assert(s2[a] == d.installed[a] && s2[b] == d.installed[b]);
                }
            }
            assert forall|a: int, b: int| 0 <= a < b < s2.len() implies (
            #[trigger] s2[a]).manifest.name != (#[trigger] s2[b]).manifest.name by {
                if b == d.installed.len() {
                    assert(s2[a] == d.installed[a] && s2[b] == rec);
                } else {
                    assert(s2[a] == d.installed[a] && s2[b] == d.installed[b]);
                }
            }
        },
    }
}

/// After a successful install commit, no two installed packages share a
/// binary filename: committing records that passed the collision check
/// keeps the installed binaries pairwise disjoint.
pub proof fn lemma_commit_keeps_binaries_disjoint(
    d: AppDataView,
    recs: Seq<InstalledPackageView>,
    planned: Seq<PlannedInstallView>,
)
    requires
        binaries_disjoint(d.installed),
        crate::database::installed_unique(d.installed),
        collision_free(d.installed, planned),
        recs.len() == planned.len(),
        forall|j: int|
            0 <= j < recs.len() ==> (#[trigger] recs[j]).manifest.name == planned[j].name && recs[
                j
            ].binaries == planned[j].binaries,
        forall|j1: int, j2: int|
            0 <= j1 < j2 < recs.len() ==> (#[trigger] recs[j1]).manifest.name != (
            #[trigger] recs[j2]).manifest.name,
    ensures
        binaries_disjoint(spec_commit_installs(d, recs).installed),
        crate::database::installed_unique(spec_commit_installs(d, recs).installed),
    decreases recs.len(),
{
    if recs.len() > 0 {
        let rec = recs[0];
        let d2 = spec_upsert_installed(d, rec);
        assert forall|i: int|
            0 <= i < d.installed.len() && (#[trigger] d.installed[i]).manifest.name
                != rec.manifest.name implies !share_bin(rec.binaries, d.installed[i].binaries) by {
            assert(planned[0].binaries == rec.binaries && planned[0].name == rec.manifest.name);
        }
        lemma_upsert_keeps_disjoint(d, rec);
        let rest = recs.drop_first();
        let planned_rest = planned.drop_first();
        assert forall|j: int|
            0 <= j < rest.len() implies (#[trigger] rest[j]).manifest.name == planned_rest[j].name
                && rest[j].binaries == planned_rest[j].binaries by {
            assert(rest[j] == recs[j + 1] && planned_rest[j] == planned[j + 1]);
        }
        assert forall|p: int, i: int|
            0 <= p < planned_rest.len() && 0 <= i < d2.installed.len() && (
            #[trigger] d2.installed[i]).manifest.name != (
            #[trigger] planned_rest[p]).name implies !share_bin(
            planned_rest[p].binaries,
            d2.installed[i].binaries,
        ) by {
            assert(planned_rest[p] == planned[p + 1]);
            let e = d2.installed[i];
            if exists|i0: int| 0 <= i0 < d.installed.len() && #[trigger] d.installed[i0] == e {
                let i0 = choose|i0: int|
                    0 <= i0 < d.installed.len() && #[trigger] d.installed[i0] == e;
                assert(!share_bin(planned[p + 1].binaries, d.installed[i0].binaries));
            } else {
                assert(e.manifest.name == rec.manifest.name && e.binaries == rec.binaries);
                assert(!share_bin(planned[0].binaries, planned[p + 1].binaries));
                lemma_share_bin_sym(planned[p + 1].binaries, planned[0].binaries);
            }
        }
        assert forall|p: int, q: int| 0 <= p < q < planned_rest.len() implies !share_bin(
            (#[trigger] planned_rest[p]).binaries,
            (#[trigger] planned_rest[q]).binaries,
        ) by {
            assert(planned_rest[p] == planned[p + 1] && planned_rest[q] == planned[q + 1]);
        }
        assert forall|p: int| 0 <= p < planned_rest.len() implies bins_unique(
            (#[trigger] planned_rest[p]).binaries,
        ) by {
            assert(planned_rest[p] == planned[p + 1]);
        }
        assert forall|j1: int, j2: int| 0 <= j1 < j2 < rest.len() implies (
        #[trigger] rest[j1]).manifest.name != (#[trigger] rest[j2]).manifest.name by {
            assert(rest[j1] == recs[j1 + 1] && rest[j2] == recs[j2 + 1]);
        }
        lemma_commit_keeps_binaries_disjoint(d2, rest, planned_rest);
    }
}

/// Sharing a binary is symmetric.
proof fn lemma_share_bin_sym(a: Seq<Seq<char>>, b: Seq<Seq<char>>)
    ensures
        share_bin(a, b) == share_bin(b, a),
{
    if share_bin(a, b) {
        let (x, y) = choose|x: int, y: int|
            0 <= x < a.len() && 0 <= y < b.len() && a[x] == b[y];
        assert(0 <= y < b.len() && 0 <= x < a.len() && b[y] == a[x]);
    }
    if share_bin(b, a) {
        let (x, y) = choose|x: int, y: int|
            0 <= x < b.len() && 0 <= y < a.len() && b[x] == a[y];
        assert(0 <= y < a.len() && 0 <= x < b.len() && a[y] == b[x]);
    }
}

// ---------------------------------------------------------------------------
// Uninstalling: reverse dependencies and orphaned dependencies
// ---------------------------------------------------------------------------
/// Whether a name occurs in a list of names.
pub open spec fn names_contain(names: Seq<Seq<char>>, x: Seq<char>) -> bool {
    exists|k: int| 0 <= k < names.len() && names[k] == x
}

/// Removing the requested set breaks no installed package: every installed
/// package that depends on a requested name is itself requested.
pub open spec fn no_breaking_dependents(
    installed: Seq<InstalledPackageView>,
    requested: Seq<Seq<char>>,
) -> bool {
    forall|r: int, i: int|
        0 <= r < requested.len() && 0 <= i < installed.len() && (
        #[trigger] installed[i]).manifest.depends_on.contains(#[trigger] requested[r])
            ==> names_contain(requested, installed[i].manifest.name)
}

/// Whether a name is in the list.
fn names_contain_exec(names: &Vec<String>, x: &str) -> (r: bool)
    ensures
        r == names_contain(names.deep_view(), x@),
{
    let mut k: usize = 0;
    while k < names.len()
        invariant
            0 <= k <= names@.len(),
            forall|j: int| 0 <= j < k ==> #[trigger] names.deep_view()[j] != x@,
        decreases names@.len() - k,
    {
        proof {
            assert(names.deep_view()[k as int] == names@[k as int]@);
        }
        if str_eq(names[k].as_str(), x) {
            return true;
        }
        k += 1;
    }
    false
}

/// Whether the manifest depends on the name.
fn depends_on_exec(rec: &InstalledPackage, dep: &str) -> (r: bool)
    ensures
        r == rec@.manifest.depends_on.contains(dep@),
{
    let deps = &rec.manifest.depends_on;
    let mut k: usize = 0;
    while k < deps.len()
        invariant
            0 <= k <= deps@.len(),
            deps == &rec.manifest.depends_on,
            forall|j: int| 0 <= j < k ==> #[trigger] rec@.manifest.depends_on[j] != dep@,
        decreases deps@.len() - k,
    {
        proof {
            assert(rec@.manifest.depends_on[k as int] == rec.manifest.depends_on@[k as int]@);
        }
        if str_eq(deps[k].as_str(), dep) {
            proof {
                assert(rec@.manifest.depends_on[k as int] == dep@);
            }
            return true;
        }
        k += 1;
    }
    proof {
        if rec@.manifest.depends_on.contains(dep@) {
            let j = choose|j: int|
                0 <= j < rec@.manifest.depends_on.len() && rec@.manifest.depends_on[j] == dep@;
            assert(false);
        }
    }
    false
}

/// Plans an uninstall: every requested name must be installed, and removing
/// the requested set must break no other installed package. An installed
/// package that depends on a requested name and is not itself requested is a
/// `WouldBreakDependents`, listing the blockers.
/// The names of the installed packages, in database order, that depend on
/// `name` and are not themselves requested: the packages that removing
/// `name` would break.
pub open spec fn spec_blockers(
    installed: Seq<InstalledPackageView>,
    requested: Seq<Seq<char>>,
    name: Seq<char>,
) -> Seq<Seq<char>>
    decreases installed.len(),
{
    if installed.len() == 0 {
        Seq::empty()
    } else {
        let rest = spec_blockers(installed.drop_last(), requested, name);
        let lastp = installed.last();
        if lastp.manifest.depends_on.contains(name) && !names_contain(
            requested,
            lastp.manifest.name,
        ) {
            rest.push(lastp.manifest.name)
        } else {
            rest
        }
    }
}

pub fn plan_uninstall(names: &Vec<String>, db: &AppData) -> (r: Result<(), Error>)
    ensures
        r is Ok <==> (forall|k: int|
            0 <= k < names.deep_view().len() ==> installed_idx(
                db@.installed,
                #[trigger] names.deep_view()[k],
            ) is Some) && no_breaking_dependents(db@.installed, names.deep_view()),
        r matches Err(e) ==> (e is NotInstalled || e is WouldBreakDependents),
        r matches Err(e) ==> (e matches Error::NotInstalled { name } ==> installed_idx(
            db@.installed,
            name@,
        ) is None),
        r matches Err(e) ==> (e matches Error::WouldBreakDependents { name, dependents } ==> (
        exists|k: int|
            0 <= k < names@.len() && name@ == #[trigger] names.deep_view()[k]) && dependents.deep_view()
            == spec_blockers(db@.installed, names.deep_view(), name@) && dependents.deep_view().len()
            > 0),
{
    let n = names.len();
    let mut k: usize = 0;
    while k < n
        invariant
            0 <= k <= n,
            n == names@.len(),
            forall|j: int|
                0 <= j < k ==> installed_idx(db@.installed, #[trigger] names.deep_view()[j]) is Some,
        decreases n - k,
    {
        proof {
            assert(names.deep_view()[k as int] == names@[k as int]@);
        }
        if !db.is_installed(names[k].as_str()) {
            return Err(Error::NotInstalled { name: names[k].clone() });
        }
        k += 1;
    }

    let m = db.installed.len();
    let mut k: usize = 0;
    while k < n
        invariant
            0 <= k <= n,
            n == names@.len(),
            m == db.installed@.len(),
            forall|r2: int, i: int|
                0 <= r2 < k && 0 <= i < db@.installed.len() && (
                #[trigger] db@.installed[i]).manifest.depends_on.contains(
                    #[trigger] names.deep_view()[r2],
                ) ==> names_contain(names.deep_view(), db@.installed[i].manifest.name),
        decreases n - k,
    {
        proof {
            assert(names.deep_view()[k as int] == names@[k as int]@);
        }
        let mut blockers: Vec<String> = Vec::new();
        let mut i: usize = 0;
        proof {
            assert(db@.installed.take(0) =~= Seq::<InstalledPackageView>::empty());
        }
        while i < m
            invariant
                0 <= i <= m,
                0 <= k < n,
                n == names@.len(),
                m == db.installed@.len(),
                names.deep_view()[k as int] == names@[k as int]@,
                blockers.deep_view() == spec_blockers(
                    db@.installed.take(i as int),
                    names.deep_view(),
                    names.deep_view()[k as int],
                ),
                blockers@.len() == 0 ==> forall|i2: int|
                    0 <= i2 < i && (#[trigger] db@.installed[i2]).manifest.depends_on.contains(
                        names.deep_view()[k as int],
                    ) ==> names_contain(names.deep_view(), db@.installed[i2].manifest.name),
                blockers@.len() > 0 ==> !no_breaking_dependents(db@.installed, names.deep_view()),
            decreases m - i,
        {
            let rec = &db.installed[i];
            proof {
                assert(db@.installed[i as int] == db.installed@[i as int]@);
                assert(db@.installed.take(i + 1).drop_last() =~= db@.installed.take(i as int));
                assert(db@.installed.take(i + 1).last() == db@.installed[i as int]);
            }
            let ghost b0 = blockers.deep_view();
            if depends_on_exec(rec, names[k].as_str()) && !names_contain_exec(
                names,
                rec.manifest.name.as_str(),
            ) {
                blockers.push(rec.manifest.name.clone());
                proof {
                    assert(db@.installed[i as int].manifest.depends_on.contains(
                        names.deep_view()[k as int],
                    ) && !names_contain(names.deep_view(), db@.installed[i as int].manifest.name));
                    assert(!no_breaking_dependents(db@.installed, names.deep_view()));
                    assert(blockers.deep_view() =~= b0.push(
                        db@.installed[i as int].manifest.name,
                    ));
                }
            }
            i += 1;
        }
        if blockers.len() > 0 {
            proof {
                assert(db@.installed.take(m as int) =~= db@.installed);
            }
            return Err(Error::WouldBreakDependents { name: names[k].clone(), dependents: blockers });
        }
        k += 1;
    }
    Ok(())
}

/// Position `k` of the orphan list is justified: it names an installed
/// dependency, neither requested nor already listed, all of whose dependents
/// are requested or listed before it.
pub open spec fn orphan_ok(
    installed: Seq<InstalledPackageView>,
    uninstalling: Seq<Seq<char>>,
    out: Seq<Seq<char>>,
    k: int,
) -> bool {
    &&& exists|i: int|
        0 <= i < installed.len() && (#[trigger] installed[i]).manifest.name == out[k]
            && installed[i].installed_as_dep
    &&& !names_contain(uninstalling, out[k])
    &&& !names_contain(out.take(k), out[k])
    &&& forall|p: int|
        0 <= p < installed.len() && (#[trigger] installed[p]).manifest.depends_on.contains(out[k])
            ==> names_contain(uninstalling, installed[p].manifest.name) || names_contain(
            out.take(k),
            installed[p].manifest.name,
        )
}

/// The orphan list is maximal: every installed dependency outside the
/// requested and orphan sets keeps a dependent outside both.
pub open spec fn orphans_maximal(
    installed: Seq<InstalledPackageView>,
    uninstalling: Seq<Seq<char>>,
    out: Seq<Seq<char>>,
) -> bool {
    forall|i: int|
        0 <= i < installed.len() && (#[trigger] installed[i]).installed_as_dep && !names_contain(
            uninstalling,
            installed[i].manifest.name,
        ) && !names_contain(out, installed[i].manifest.name) ==> exists|p: int|
            0 <= p < installed.len() && (#[trigger] installed[p]).manifest.depends_on.contains(
                installed[i].manifest.name,
            ) && !names_contain(uninstalling, installed[p].manifest.name) && !names_contain(
                out,
                installed[p].manifest.name,
            )
}

/// The cardinality of the set a sequence covers is at most its length.
proof fn lemma_to_set_len<A>(s: Seq<A>)
    ensures
        s.to_set().finite(),
        s.to_set().len() <= s.len(),
    decreases s.len(),
{
    if s.len() == 0 {
        assert(s.to_set() =~= Set::<A>::empty());
    } else {
        lemma_to_set_len(s.drop_last());
        assert forall|x: A| s.to_set().contains(x) implies s.drop_last().to_set().insert(
            s.last(),
        ).contains(x) by {
            let k = choose|k: int| 0 <= k < s.len() && s[k] == x;
            if k < s.len() - 1 {
                assert(s.drop_last()[k] == x);
            }
        }
        assert forall|x: A| s.drop_last().to_set().insert(s.last()).contains(x) implies s.to_set().contains(
            x,
        ) by {
            if s.drop_last().to_set().contains(x) {
                let k = choose|k: int| 0 <= k < s.drop_last().len() && s.drop_last()[k] == x;
                assert(s[k] == x);
            } else {
                assert(s.last() == x);
            }
        }
        assert(s.to_set() =~= s.drop_last().to_set().insert(s.last()));
    }
}

/// Distinct names that all occur among the installed records are no more
/// numerous than the records.
proof fn lemma_orphans_bounded(installed: Seq<InstalledPackageView>, out: Seq<Seq<char>>)
    requires
        forall|k1: int, k2: int| 0 <= k1 < k2 < out.len() ==> out[k1] != out[k2],
        forall|k: int|
            #![trigger out[k]]
            0 <= k < out.len() ==> exists|i: int|
                0 <= i < installed.len() && (#[trigger] installed[i]).manifest.name == out[k],
    ensures
        out.len() <= installed.len(),
{
    let names = installed.map_values(|p: InstalledPackageView| p.manifest.name);
    assert forall|k1: int, k2: int|
        0 <= k1 < out.len() && 0 <= k2 < out.len() && k1 != k2 implies out[k1] != out[k2] by {}
    assert(out.no_duplicates());
    out.unique_seq_to_set();
    lemma_to_set_len(names);
    assert forall|x: Seq<char>| out.to_set().contains(x) implies names.to_set().contains(x) by {
        let k = choose|k: int| 0 <= k < out.len() && out[k] == x;
        let i = choose|i: int|
            0 <= i < installed.len() && (#[trigger] installed[i]).manifest.name == out[k];
        assert(names[i] == x);
    }
    vstd::set_lib::lemma_len_subset(out.to_set(), names.to_set());
}

/// Computes the dependencies that are no longer needed once the requested
/// set is removed: iteratively, every installed package that was installed
/// as a dependency, is not being removed already, and has no dependent
/// outside the removal set, joins the removal set, until a fixed point.
///
/// Every listed orphan is justified by the packages removed before it, and
/// the list is maximal: nothing else qualifies.
pub fn compute_no_longer_needed_deps(db: &AppData, uninstalling: &Vec<String>) -> (r: Vec<String>)
    ensures
        forall|k: int|
            0 <= k < r.deep_view().len() ==> orphan_ok(
                db@.installed,
                uninstalling.deep_view(),
                r.deep_view(),
                k,
            ),
        orphans_maximal(db@.installed, uninstalling.deep_view(), r.deep_view()),
{
    let ghost installed = db@.installed;
    let ghost u = uninstalling.deep_view();
    let m = db.installed.len();
    let mut out: Vec<String> = Vec::new();
    let mut changed = true;
    while changed
        invariant
            installed == db@.installed,
            u == uninstalling.deep_view(),
            m == db.installed@.len(),
            forall|k: int|
                0 <= k < out.deep_view().len() ==> orphan_ok(installed, u, out.deep_view(), k),
            forall|k1: int, k2: int|
                0 <= k1 < k2 < out.deep_view().len() ==> out.deep_view()[k1] != out.deep_view()[k2],
            out.deep_view().len() <= installed.len(),
            !changed ==> orphans_maximal(installed, u, out.deep_view()),
        decreases installed.len() + 1 - out.deep_view().len(), (if changed {
            1int
        } else {
            0int
        }),
    {
        changed = false;
        let ghost out_start = out.deep_view();
        let mut i: usize = 0;
        while i < m
            invariant
                installed == db@.installed,
                u == uninstalling.deep_view(),
                m == db.installed@.len(),
                0 <= i <= m,
                forall|k: int|
                    0 <= k < out.deep_view().len() ==> orphan_ok(installed, u, out.deep_view(), k),
                forall|k1: int, k2: int|
                    0 <= k1 < k2 < out.deep_view().len() ==> out.deep_view()[k1]
                        != out.deep_view()[k2],
                out.deep_view().len() <= installed.len(),
                out_start.len() <= out.deep_view().len(),
                changed ==> out.deep_view().len() > out_start.len(),
                !changed ==> out.deep_view() == out_start,
                !changed ==> forall|i2: int|
                    0 <= i2 < i && (#[trigger] installed[i2]).installed_as_dep && !names_contain(
                        u,
                        installed[i2].manifest.name,
                    ) && !names_contain(out.deep_view(), installed[i2].manifest.name)
                        ==> exists|p: int|
                        0 <= p < installed.len() && (
                        #[trigger] installed[p]).manifest.depends_on.contains(
                            installed[i2].manifest.name,
                        ) && !names_contain(u, installed[p].manifest.name) && !names_contain(
                            out.deep_view(),
                            installed[p].manifest.name,
                        ),
            decreases m - i,
        {
            let rec = &db.installed[i];
            proof {
                assert(installed[i as int] == db.installed@[i as int]@);
            }
            if rec.installed_as_dep && !names_contain_exec(
                uninstalling,
                rec.manifest.name.as_str(),
            ) && !names_contain_exec(&out, rec.manifest.name.as_str()) {
                // Does any dependent of this package survive the removal?
                let mut survivor = false;
                let ghost mut survivor_witness: int = 0;
                let mut p: usize = 0;
                while p < m
                    invariant
                        installed == db@.installed,
                        u == uninstalling.deep_view(),
                        m == db.installed@.len(),
                        0 <= i < m,
                        0 <= p <= m,
                        rec == &db.installed@[i as int],
                        installed[i as int] == db.installed@[i as int]@,
                        survivor ==> 0 <= survivor_witness < installed.len() && installed[
                            survivor_witness
                        ].manifest.depends_on.contains(installed[i as int].manifest.name)
                            && !names_contain(u, installed[survivor_witness].manifest.name)
                            && !names_contain(
                            out.deep_view(),
                            installed[survivor_witness].manifest.name,
                        ),
                        !survivor ==> forall|p2: int|
                            0 <= p2 < p && (#[trigger] installed[p2]).manifest.depends_on.contains(
                                installed[i as int].manifest.name,
                            ) ==> names_contain(u, installed[p2].manifest.name) || names_contain(
                                out.deep_view(),
                                installed[p2].manifest.name,
                            ),
                    decreases m - p,
                {
                    let dep_rec = &db.installed[p];
                    proof {
                        assert(installed[p as int] == db.installed@[p as int]@);
                    }
                    if depends_on_exec(dep_rec, rec.manifest.name.as_str()) {
                        if !names_contain_exec(uninstalling, dep_rec.manifest.name.as_str())
                            && !names_contain_exec(&out, dep_rec.manifest.name.as_str()) {
                            survivor = true;
                            proof {
                                survivor_witness = p as int;
                            }
                        }
                    }
                    p += 1;
                }
                if !survivor {
                    let ghost out0 = out.deep_view();
                    out.push(rec.manifest.name.clone());
                    changed = true;
                    proof {
                        assert(out.deep_view() =~= out0.push(installed[i as int].manifest.name));
                        assert(out.deep_view().take(out0.len() as int) =~= out0);
                        assert forall|k: int| 0 <= k < out.deep_view().len() implies orphan_ok(
                            installed,
                            u,
                            out.deep_view(),
                            k,
                        ) by {
                            if k < out0.len() {
                                assert(orphan_ok(installed, u, out0, k));
                                assert(out.deep_view().take(k) =~= out0.take(k));
                                assert(out.deep_view()[k] == out0[k]);
                            } else {
                                assert(out.deep_view()[k] == installed[i as int].manifest.name);
                            }
                        }
                        assert forall|k1: int, k2: int|
                            0 <= k1 < k2 < out.deep_view().len() implies out.deep_view()[k1]
                            != out.deep_view()[k2] by {
                            if k2 == out0.len() {
                                assert(!names_contain(out0, installed[i as int].manifest.name));
                                assert(out.deep_view()[k1] == out0[k1]);
                            }
                        }
                        assert forall|k: int|
                            #![trigger out.deep_view()[k]]
                            0 <= k < out.deep_view().len() implies exists|i2: int|
                            0 <= i2 < installed.len() && (#[trigger] installed[i2]).manifest.name
                                == out.deep_view()[k] by {
                            assert(orphan_ok(installed, u, out.deep_view(), k));
                        }
                        lemma_orphans_bounded(installed, out.deep_view());
                    }
                }
            }
            i += 1;
        }
    }
    out
}

} // verus!
