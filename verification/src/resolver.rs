//! The resolver: expands a set of requested package names (and installed
//! packages) into a de-duplicated set of resolved packages with dependency
//! annotation. A resolved package is an index-based handle into the
//! repository snapshot of the running command.

use vstd::prelude::*;
use crate::error::Error;
use crate::manifest::{PackageManifest, Repository, RepositoryView};
use crate::util::str_eq;

verus! {

/// A package resolved from exactly one repository: the indices of the
/// repository and of the package entry inside it, and whether the package
/// was pulled in as a dependency rather than requested.
#[derive(Debug, Clone, Copy, PartialEq, Eq, Structural)]
pub struct ResolvedPkg {
    pub repo_idx: usize,
    pub pkg_idx: usize,
    pub is_dep: bool,
}

/// The views of a repository snapshot, in order.
pub open spec fn repos_seq(repos: Vec<Repository>) -> Seq<RepositoryView> {
    repos@.map_values(|r: Repository| r@)
}

/// Whether the handle points inside the snapshot.
pub open spec fn rp_valid(rs: Seq<RepositoryView>, rp: ResolvedPkg) -> bool {
    rp.repo_idx < rs.len() && rp.pkg_idx < rs[rp.repo_idx as int].packages.len()
}

/// The key under which the resolved package is registered.
pub open spec fn rp_name(rs: Seq<RepositoryView>, rp: ResolvedPkg) -> Seq<char> {
    rs[rp.repo_idx as int].packages[rp.pkg_idx as int].key
}

/// The resolved package's manifest.
pub open spec fn rp_manifest(rs: Seq<RepositoryView>, rp: ResolvedPkg) -> crate::manifest::ManifestView {
    rs[rp.repo_idx as int].packages[rp.pkg_idx as int].manifest
}

/// A canonical handle: valid, and pointing at the first entry of its
/// repository that carries its key.
pub open spec fn rp_canonical(rs: Seq<RepositoryView>, rp: ResolvedPkg) -> bool {
    rp_valid(rs, rp) && forall|j: int|
        0 <= j < rp.pkg_idx ==> (#[trigger] rs[rp.repo_idx as int].packages[j]).key != rp_name(
            rs,
            rp,
        )
}

/// One dependency step: `b` resolves, inside the same repository, a name
/// that `a`'s manifest depends on.
pub open spec fn dep_step(rs: Seq<RepositoryView>, a: ResolvedPkg, b: ResolvedPkg) -> bool {
    &&& rp_valid(rs, a)
    &&& rp_canonical(rs, b)
    &&& b.repo_idx == a.repo_idx
    &&& b.is_dep
    &&& rp_manifest(rs, a).depends_on.contains(rp_name(rs, b))
}

/// A dependency path: it starts at one of the inputs and each later element
/// resolves a dependency of the previous one.
pub open spec fn dep_path_ok(
    rs: Seq<RepositoryView>,
    inputs: Seq<ResolvedPkg>,
    p: Seq<ResolvedPkg>,
) -> bool {
    &&& p.len() > 0
    &&& inputs.contains(p[0])
    &&& forall|k: int| 0 <= k < p.len() - 1 ==> dep_step(rs, #[trigger] p[k], p[k + 1])
}

/// Whether `t` is reachable from the inputs along dependency steps.
#[verifier::opaque]
pub open spec fn reachable(rs: Seq<RepositoryView>, inputs: Seq<ResolvedPkg>, t: ResolvedPkg) -> bool {
    exists|p: Seq<ResolvedPkg>| dep_path_ok(rs, inputs, p) && p.last() == t
}

/// No package name exists in two different repositories of the snapshot.
pub open spec fn repos_names_disjoint(rs: Seq<RepositoryView>) -> bool {
    forall|i: int, j: int, n: Seq<char>|
        0 <= i < rs.len() && 0 <= j < rs.len() && i != j && (#[trigger] rs[i].has_pkg(n)) ==> !(
        #[trigger] rs[j].has_pkg(n))
}

/// Every repository of the snapshot has its dependencies closed.
pub open spec fn repos_deps_closed(rs: Seq<RepositoryView>) -> bool {
    forall|i: int| 0 <= i < rs.len() ==> crate::validate::repo_deps_closed(#[trigger] rs[i])
}

/// The requested closure is clean: every dependency of a package reachable
/// from the inputs exists in that package's repository, and no two reachable
/// handles resolve the same name from different repositories.
pub open spec fn closure_clean(rs: Seq<RepositoryView>, inputs: Seq<ResolvedPkg>) -> bool {
    &&& forall|a: ResolvedPkg, d: int|
        #![trigger reachable(rs, inputs, a), rp_manifest(rs, a).depends_on[d]]
        reachable(rs, inputs, a) && rp_valid(rs, a) && 0 <= d < rp_manifest(rs, a).depends_on.len()
            ==> rs[a.repo_idx as int].has_pkg(rp_manifest(rs, a).depends_on[d])
    &&& forall|a: ResolvedPkg, b: ResolvedPkg|
        #![trigger reachable(rs, inputs, a), reachable(rs, inputs, b)]
        reachable(rs, inputs, a) && reachable(rs, inputs, b) && rp_valid(rs, a) && rp_valid(rs, b)
            && rp_name(rs, a) == rp_name(rs, b) ==> a.repo_idx == b.repo_idx
}

/// The manifest a resolved handle points at.
pub fn manifest_of<'a>(repos: &'a Vec<Repository>, rp: &ResolvedPkg) -> (r: &'a PackageManifest)
    requires
        rp_valid(repos_seq(*repos), *rp),
    ensures
        r@ == rp_manifest(repos_seq(*repos), *rp),
        r@.name == rp_manifest(repos_seq(*repos), *rp).name,
{
    &repos[rp.repo_idx].packages[rp.pkg_idx].manifest
}

/// The key a resolved handle is registered under.
pub fn name_of<'a>(repos: &'a Vec<Repository>, rp: &ResolvedPkg) -> (r: &'a str)
    requires
        rp_valid(repos_seq(*repos), *rp),
    ensures
        r@ == rp_name(repos_seq(*repos), *rp),
{
    repos[rp.repo_idx].packages[rp.pkg_idx].key.as_str()
}

/// Exactly one repository of the snapshot carries this name.
pub open spec fn uniquely_owned(rs: Seq<RepositoryView>, name: Seq<char>) -> bool {
    exists|i: int|
        0 <= i < rs.len() && (#[trigger] rs[i]).has_pkg(name) && (forall|j: int|
            0 <= j < rs.len() && j != i ==> !(#[trigger] rs[j]).has_pkg(name))
}

/// Resolves one requested name across all repositories.
///
/// The name must be satisfied by exactly one repository — success comes
/// exactly when it is — and the result points at the first entry for the
/// name in that repository. `PackageNotFound` reports a name no repository
/// has; `AmbiguousPackage` a name that more than one repository has, listing
/// those repositories.
#[verifier::rlimit(60)]
pub fn resolve_pkg_by_name(name: &str, repos: &Vec<Repository>) -> (r: Result<ResolvedPkg, Error>)
    ensures
        r is Ok <==> uniquely_owned(repos_seq(*repos), name@),
        match r {
            Ok(rp) => {
                &&& rp_canonical(repos_seq(*repos), rp)
                &&& rp_name(repos_seq(*repos), rp) == name@
                &&& !rp.is_dep
                &&& forall|i: int|
                    0 <= i < repos_seq(*repos).len() && i != rp.repo_idx ==> !(
                    #[trigger] repos_seq(*repos)[i]).has_pkg(name@)
            },
            Err(e) => {
                &&& (e matches Error::PackageNotFound { name: n } ==> n@ == name@ && forall|i: int|
                    0 <= i < repos_seq(*repos).len() ==> !(#[trigger] repos_seq(
                        *repos,
                    )[i]).has_pkg(name@))
                &&& (e matches Error::AmbiguousPackage { name: n, .. } ==> n@ == name@ && exists|
                    i: int,
                    j: int,
                |
                    0 <= i < j < repos_seq(*repos).len() && (#[trigger] repos_seq(
                        *repos,
                    )[i]).has_pkg(name@) && (#[trigger] repos_seq(*repos)[j]).has_pkg(name@))
                &&& (e is PackageNotFound || e is AmbiguousPackage)
            },
        },
{
    let ghost rs = repos_seq(*repos);
    let n = repos.len();
    let mut found: Option<ResolvedPkg> = None;
    let mut i: usize = 0;
    while i < n
        invariant
            0 <= i <= n,
            n == repos@.len(),
            rs == repos_seq(*repos),
            match found {
                Some(rp) => {
                    &&& rp_canonical(rs, rp)
                    &&& rp.repo_idx < i
                    &&& rp_name(rs, rp) == name@
                    &&& !rp.is_dep
                    &&& forall|k: int|
                        0 <= k < i && k != rp.repo_idx ==> !(#[trigger] rs[k]).has_pkg(name@)
                },
                None => forall|k: int| 0 <= k < i ==> !(#[trigger] rs[k]).has_pkg(name@),
            },
        decreases n - i,
    {
        match repos[i].find_pkg_idx(name) {
            Some(j) => {
                proof {
                    assert(rs[i as int] == repos@[i as int]@);
                }
                match found {
                    None => {
                        found = Some(ResolvedPkg { repo_idx: i, pkg_idx: j, is_dep: false });
                    },
                    Some(first) => {
                        // The name exists in at least two repositories: collect
                        // every repository that has it for the diagnostic.
                        let mut names: Vec<String> = Vec::new();
                        let mut k: usize = 0;
                        while k < n
                            invariant
                                0 <= k <= n,
                                n == repos@.len(),
                            decreases n - k,
                        {
                            if repos[k].find_pkg_idx(name).is_some() {
                                names.push(repos[k].name.clone());
                            }
                            k += 1;
                        }
                        proof {
                            assert(rs[first.repo_idx as int].has_pkg(name@));
                            assert(rs[i as int].has_pkg(name@));
                            assert(!uniquely_owned(rs, name@)) by {
                                if uniquely_owned(rs, name@) {
                                    let w = choose|w: int|
                                        0 <= w < rs.len() && (#[trigger] rs[w]).has_pkg(name@) && (
                                        forall|j: int|
                                            0 <= j < rs.len() && j != w ==> !(
                                            #[trigger] rs[j]).has_pkg(name@));
                                    assert(first.repo_idx != i);
                                    if w != first.repo_idx as int {
                                        assert(!rs[first.repo_idx as int].has_pkg(name@));
                                    } else {
                                        assert(!rs[i as int].has_pkg(name@));
                                    }
                                }
                            }
                        }
                        return Err(
                            Error::AmbiguousPackage {
                                name: crate::util::copy_str(name),
                                repos: names,
                            },
                        );
                    },
                }
            },
            None => {
                proof {
                    assert(rs[i as int] == repos@[i as int]@);
                }
            },
        }
        i += 1;
    }
    match found {
        Some(rp) => {
            proof {
                assert(rs[rp.repo_idx as int].packages[rp.pkg_idx as int].key == name@);
                assert(rs[rp.repo_idx as int].has_pkg(name@));
                assert(uniquely_owned(rs, name@));
            }
            Ok(rp)
        },
        None => {
            proof {
                assert(!uniquely_owned(rs, name@)) by {
                    if uniquely_owned(rs, name@) {
                        let w = choose|w: int|
                            0 <= w < rs.len() && (#[trigger] rs[w]).has_pkg(name@) && (forall|
                                j: int,
                            |
                                0 <= j < rs.len() && j != w ==> !(#[trigger] rs[j]).has_pkg(name@));
                        assert(!rs[w].has_pkg(name@));
                    }
                }
            }
            Err(Error::PackageNotFound { name: crate::util::copy_str(name) })
        },
    }
}

// ---------------------------------------------------------------------------
// Counting packages: the termination measure of the expansion
// ---------------------------------------------------------------------------
/// The number of package entries in the first `i` repositories.
pub open spec fn pkgs_before(rs: Seq<RepositoryView>, i: int) -> int
    decreases i,
{
    if i <= 0 {
        0
    } else {
        pkgs_before(rs, i - 1) + rs[i - 1].packages.len()
    }
}

/// The number of package entries in the whole snapshot.
pub open spec fn total_pkgs(rs: Seq<RepositoryView>) -> int {
    pkgs_before(rs, rs.len() as int)
}

/// A handle's position in the flattened enumeration of all entries.
pub open spec fn flat_idx(rs: Seq<RepositoryView>, rp: ResolvedPkg) -> int {
    pkgs_before(rs, rp.repo_idx as int) + rp.pkg_idx
}

proof fn lemma_pkgs_before_mono(rs: Seq<RepositoryView>, i: int, j: int)
    requires
        0 <= i <= j <= rs.len(),
    ensures
        pkgs_before(rs, i) <= pkgs_before(rs, j),
    decreases j - i,
{
    if i < j {
        lemma_pkgs_before_mono(rs, i, j - 1);
    }
}

proof fn lemma_flat_idx_bound(rs: Seq<RepositoryView>, rp: ResolvedPkg)
    requires
        rp_valid(rs, rp),
    ensures
        0 <= flat_idx(rs, rp) < total_pkgs(rs),
{
    lemma_pkgs_before_mono(rs, 0, rp.repo_idx as int);
    lemma_pkgs_before_mono(rs, rp.repo_idx + 1, rs.len() as int);
}

proof fn lemma_flat_idx_injective(rs: Seq<RepositoryView>, a: ResolvedPkg, b: ResolvedPkg)
    requires
        rp_valid(rs, a),
        rp_valid(rs, b),
        flat_idx(rs, a) == flat_idx(rs, b),
    ensures
        a.repo_idx == b.repo_idx && a.pkg_idx == b.pkg_idx,
{
    if a.repo_idx < b.repo_idx {
        lemma_pkgs_before_mono(rs, a.repo_idx + 1, b.repo_idx as int);
        assert(false);
    }
    if b.repo_idx < a.repo_idx {
        lemma_pkgs_before_mono(rs, b.repo_idx + 1, a.repo_idx as int);
        assert(false);
    }
}

/// A sequence of valid handles with pairwise distinct names cannot be longer
/// than the total number of package entries.
proof fn lemma_distinct_names_bound(rs: Seq<RepositoryView>, out: Seq<ResolvedPkg>)
    requires
        forall|m: int| 0 <= m < out.len() ==> rp_valid(rs, #[trigger] out[m]),
        forall|m1: int, m2: int|
            0 <= m1 < m2 < out.len() ==> rp_name(rs, #[trigger] out[m1]) != rp_name(
                rs,
                #[trigger] out[m2],
            ),
    ensures
        out.len() <= total_pkgs(rs),
{
    lemma_pkgs_before_mono(rs, 0, rs.len() as int);
    let flats = out.map_values(|rp: ResolvedPkg| flat_idx(rs, rp));
    assert forall|m1: int, m2: int| 0 <= m1 < flats.len() && 0 <= m2 < flats.len() && m1 != m2
        implies flats[m1] != flats[m2] by {
        if flats[m1] == flats[m2] {
            lemma_flat_idx_injective(rs, out[m1], out[m2]);
            assert(rp_name(rs, out[m1]) == rp_name(rs, out[m2]));
        }
    }
    assert(flats.no_duplicates());
    flats.unique_seq_to_set();
    assert forall|x: int| flats.to_set().contains(x) implies vstd::set_lib::set_int_range(
        0,
        total_pkgs(rs),
    ).contains(x) by {
        let m = choose|m: int| 0 <= m < flats.len() && flats[m] == x;
        lemma_flat_idx_bound(rs, out[m]);
    }
    vstd::set_lib::lemma_int_range(0, total_pkgs(rs));
    vstd::set_lib::lemma_len_subset(
        flats.to_set(),
        vstd::set_lib::set_int_range(0, total_pkgs(rs)),
    );
}

// ---------------------------------------------------------------------------
// Dependency expansion
// ---------------------------------------------------------------------------
/// Some output element resolves the same name as `x`, from `x`'s repository.
#[verifier::opaque]
pub open spec fn name_handled(rs: Seq<RepositoryView>, out: Seq<ResolvedPkg>, x: ResolvedPkg) -> bool {
    exists|m: int|
        0 <= m < out.len() && rp_name(rs, #[trigger] out[m]) == rp_name(rs, x) && out[m].repo_idx
            == x.repo_idx
}

/// Some output element resolves the same name as `x`, from `x`'s repository,
/// and is itself one of the inputs.
#[verifier::opaque]
pub open spec fn input_represented(
    rs: Seq<RepositoryView>,
    inputs: Seq<ResolvedPkg>,
    out: Seq<ResolvedPkg>,
    x: ResolvedPkg,
) -> bool {
    exists|m: int|
        0 <= m < out.len() && rp_name(rs, #[trigger] out[m]) == rp_name(rs, x) && out[m].repo_idx
            == x.repo_idx && inputs.contains(out[m])
}

/// Some element of `s` resolves the name `dep` from `owner`'s repository.
#[verifier::opaque]
pub open spec fn dep_covered(
    rs: Seq<RepositoryView>,
    s: Seq<ResolvedPkg>,
    owner: ResolvedPkg,
    dep: Seq<char>,
) -> bool {
    exists|t: int|
        0 <= t < s.len() && rp_name(rs, #[trigger] s[t]) == dep && s[t].repo_idx == owner.repo_idx
}

/// What a successful expansion returns, relative to its inputs: canonical
/// handles with pairwise distinct names; every input represented, by name
/// and repository, through an input of that name; dependency-closed; every
/// element reachable from the inputs; and nothing marked requested that was
/// not an input.
pub open spec fn resolution_ok(
    rs: Seq<RepositoryView>,
    inputs: Seq<ResolvedPkg>,
    out: Seq<ResolvedPkg>,
) -> bool {
    &&& forall|m: int| 0 <= m < out.len() ==> rp_canonical(rs, #[trigger] out[m])
    &&& forall|m1: int, m2: int|
        0 <= m1 < m2 < out.len() ==> rp_name(rs, #[trigger] out[m1]) != rp_name(
            rs,
            #[trigger] out[m2],
        )
    &&& forall|i: int|
        0 <= i < inputs.len() ==> input_represented(rs, inputs, out, #[trigger] inputs[i])
    &&& forall|m: int, d: int|
        #![trigger rp_manifest(rs, out[m]).depends_on[d]]
        0 <= m < out.len() && 0 <= d < rp_manifest(rs, out[m]).depends_on.len() ==> dep_covered(
            rs,
            out,
            out[m],
            rp_manifest(rs, out[m]).depends_on[d],
        )
    &&& forall|m: int| 0 <= m < out.len() ==> reachable(rs, inputs, #[trigger] out[m])
    &&& forall|m: int| 0 <= m < out.len() && !(#[trigger] out[m]).is_dep ==> inputs.contains(out[m])
}

/// Finds a handle by name in the expansion output.
fn find_resolved_by_name(out: &Vec<ResolvedPkg>, repos: &Vec<Repository>, name: &str) -> (r:
    Option<usize>)
    requires
        forall|m: int| 0 <= m < out@.len() ==> rp_valid(repos_seq(*repos), #[trigger] out@[m]),
    ensures
        match r {
            Some(m) => m < out@.len() && rp_name(repos_seq(*repos), out@[m as int]) == name@,
            None => forall|m: int|
                0 <= m < out@.len() ==> rp_name(repos_seq(*repos), #[trigger] out@[m]) != name@,
        },
{
    let mut m: usize = 0;
    while m < out.len()
        invariant
            0 <= m <= out@.len(),
            forall|k: int| 0 <= k < out@.len() ==> rp_valid(repos_seq(*repos), #[trigger] out@[k]),
            forall|k: int|
                0 <= k < m ==> rp_name(repos_seq(*repos), #[trigger] out@[k]) != name@,
        decreases out@.len() - m,
    {
        if str_eq(name_of(repos, &out[m]), name) {
            return Some(m);
        }
        m += 1;
    }
    None
}

/// Re-establishes the expansion bookkeeping after one package was inserted
/// into the output and its dependencies were enqueued.
#[verifier::rlimit(100)]
proof fn lemma_after_insert(
    rs: Seq<RepositoryView>,
    inputs: Seq<ResolvedPkg>,
    queue_snap: Seq<ResolvedPkg>,
    queue: Seq<ResolvedPkg>,
    out0: Seq<ResolvedPkg>,
    out: Seq<ResolvedPkg>,
    current: ResolvedPkg,
    qi0: int,
)
    requires
        out == out0.push(current),
        0 <= qi0 < queue_snap.len(),
        inputs.len() <= queue_snap.len(),
        queue_snap.len() <= queue.len(),
        forall|t: int| 0 <= t < queue_snap.len() ==> queue[t] == #[trigger] queue_snap[t],
        forall|i: int| 0 <= i < inputs.len() ==> queue_snap[i] == #[trigger] inputs[i],
        forall|t: int| inputs.len() <= t < queue_snap.len() ==> (#[trigger] queue_snap[t]).is_dep,
        queue_snap[qi0] == current,
        rp_canonical(rs, current),
        forall|m: int| 0 <= m < out0.len() ==> rp_canonical(rs, #[trigger] out0[m]),
        forall|m: int| 0 <= m < out0.len() ==> rp_name(rs, #[trigger] out0[m]) != rp_name(rs, current),
        forall|m1: int, m2: int|
            0 <= m1 < m2 < out0.len() ==> rp_name(rs, #[trigger] out0[m1]) != rp_name(
                rs,
                #[trigger] out0[m2],
            ),
        forall|t: int| 0 <= t < qi0 ==> name_handled(rs, out0, #[trigger] queue_snap[t]),
        forall|m: int, d: int|
            #![trigger rp_manifest(rs, out0[m]).depends_on[d]]
            0 <= m < out0.len() && 0 <= d < rp_manifest(rs, out0[m]).depends_on.len()
                ==> dep_covered(rs, queue_snap, out0[m], rp_manifest(rs, out0[m]).depends_on[d]),
        forall|d: int|
            #![trigger rp_manifest(rs, current).depends_on[d]]
            0 <= d < rp_manifest(rs, current).depends_on.len() ==> dep_covered(
                rs,
                queue,
                current,
                rp_manifest(rs, current).depends_on[d],
            ),
        forall|m: int| 0 <= m < out0.len() ==> inputs.contains(#[trigger] out0[m]) || out0[m].is_dep,
        qi0 <= inputs.len() ==> (forall|m: int|
            0 <= m < out0.len() ==> inputs.contains(#[trigger] out0[m])),
        forall|m: int| 0 <= m < out0.len() ==> reachable(rs, inputs, #[trigger] out0[m]),
        reachable(rs, inputs, current),
        forall|i: int|
            0 <= i < qi0 && i < inputs.len() ==> input_represented(
                rs,
                inputs,
                out0,
                #[trigger] inputs[i],
            ),
    ensures
        forall|m: int| 0 <= m < out.len() ==> rp_canonical(rs, #[trigger] out[m]),
        forall|m1: int, m2: int|
            0 <= m1 < m2 < out.len() ==> rp_name(rs, #[trigger] out[m1]) != rp_name(
                rs,
                #[trigger] out[m2],
            ),
        forall|t: int| 0 <= t < qi0 + 1 ==> name_handled(rs, out, #[trigger] queue[t]),
        forall|m: int, d: int|
            #![trigger rp_manifest(rs, out[m]).depends_on[d]]
            0 <= m < out.len() && 0 <= d < rp_manifest(rs, out[m]).depends_on.len()
                ==> dep_covered(rs, queue, out[m], rp_manifest(rs, out[m]).depends_on[d]),
        forall|m: int| 0 <= m < out.len() ==> inputs.contains(#[trigger] out[m]) || out[m].is_dep,
        qi0 + 1 <= inputs.len() ==> (forall|m: int|
            0 <= m < out.len() ==> inputs.contains(#[trigger] out[m])),
        forall|m: int| 0 <= m < out.len() ==> reachable(rs, inputs, #[trigger] out[m]),
        forall|i: int|
            0 <= i < qi0 + 1 && i < inputs.len() ==> input_represented(
                rs,
                inputs,
                out,
                #[trigger] inputs[i],
            ),
        out.len() <= total_pkgs(rs),
{
    reveal(name_handled);
    reveal(input_represented);
    reveal(dep_covered);
    assert forall|m: int| 0 <= m < out.len() implies rp_canonical(rs, #[trigger] out[m])
        && reachable(rs, inputs, out[m]) && (inputs.contains(out[m]) || out[m].is_dep) by {
        if m < out0.len() {
            assert(out[m] == out0[m]);
        } else {
            assert(out[m] == current);
            if qi0 < inputs.len() {
                assert(current == inputs[qi0]);
                assert(inputs.contains(current));
            } else {
                assert(current.is_dep);
            }
        }
    }
    assert forall|m1: int, m2: int| 0 <= m1 < m2 < out.len() implies rp_name(
        rs,
        #[trigger] out[m1],
    ) != rp_name(rs, #[trigger] out[m2]) by {
        if m2 == out0.len() {
            assert(out[m1] == out0[m1] && out[m2] == current);
        } else {
            assert(out[m1] == out0[m1] && out[m2] == out0[m2]);
        }
    }
    assert forall|t: int| 0 <= t < qi0 + 1 implies name_handled(rs, out, #[trigger] queue[t]) by {
        if t < qi0 {
            assert(name_handled(rs, out0, queue_snap[t]));
            let m = choose|m: int|
                0 <= m < out0.len() && rp_name(rs, out0[m]) == rp_name(rs, queue_snap[t]) && out0[
                    m
                ].repo_idx == queue_snap[t].repo_idx;
            assert(out[m] == out0[m] && queue[t] == queue_snap[t]);
            assert(0 <= m < out.len() && rp_name(rs, out[m]) == rp_name(rs, queue[t]) && out[
                m
            ].repo_idx == queue[t].repo_idx);
        } else {
            assert(queue[t] == current);
            let m = out0.len() as int;
            assert(out[m] == current);
            assert(0 <= m < out.len() && rp_name(rs, out[m]) == rp_name(rs, queue[t]) && out[
                m
            ].repo_idx == queue[t].repo_idx);
        }
    }
    assert forall|m: int, d: int|
        #![trigger rp_manifest(rs, out[m]).depends_on[d]]
        0 <= m < out.len() && 0 <= d < rp_manifest(rs, out[m]).depends_on.len() implies dep_covered(
        rs,
        queue,
        out[m],
        rp_manifest(rs, out[m]).depends_on[d],
    ) by {
        if m < out0.len() {
            assert(out[m] == out0[m]);
            assert(dep_covered(rs, queue_snap, out0[m], rp_manifest(rs, out0[m]).depends_on[d]));
            let t = choose|t: int|
                0 <= t < queue_snap.len() && rp_name(rs, queue_snap[t]) == rp_manifest(
                    rs,
                    out0[m],
                ).depends_on[d] && queue_snap[t].repo_idx == out0[m].repo_idx;
            assert(queue[t] == queue_snap[t]);
            assert(0 <= t < queue.len() && rp_name(rs, queue[t]) == rp_manifest(
                rs,
                out[m],
            ).depends_on[d] && queue[t].repo_idx == out[m].repo_idx);
        } else {
            assert(out[m] == current);
        }
    }
    if qi0 + 1 <= inputs.len() {
        assert forall|m: int| 0 <= m < out.len() implies inputs.contains(#[trigger] out[m]) by {
            if m < out0.len() {
                assert(out[m] == out0[m]);
            } else {
                assert(out[m] == current && current == inputs[qi0]);
            }
        }
    }
    assert forall|i: int| 0 <= i < qi0 + 1 && i < inputs.len() implies input_represented(
        rs,
        inputs,
        out,
        #[trigger] inputs[i],
    ) by {
        if i < qi0 {
            assert(input_represented(rs, inputs, out0, inputs[i]));
            let m = choose|m: int|
                0 <= m < out0.len() && rp_name(rs, out0[m]) == rp_name(rs, inputs[i]) && out0[
                    m
                ].repo_idx == inputs[i].repo_idx && inputs.contains(out0[m]);
            assert(out[m] == out0[m]);
            assert(0 <= m < out.len() && rp_name(rs, out[m]) == rp_name(rs, inputs[i]) && out[
                m
            ].repo_idx == inputs[i].repo_idx && inputs.contains(out[m]));
        } else {
            assert(current == queue_snap[qi0] && queue_snap[qi0] == inputs[qi0]);
            let m = out0.len() as int;
            assert(out[m] == current);
            assert(inputs.contains(current));
            assert(0 <= m < out.len() && rp_name(rs, out[m]) == rp_name(rs, inputs[i]) && out[
                m
            ].repo_idx == inputs[i].repo_idx && inputs.contains(out[m]));
        }
    }
    lemma_distinct_names_bound(rs, out);
}

/// When the work queue is exhausted, the per-dependency queue witnesses
/// compose with the processed-name bookkeeping into dependency closedness.
#[verifier::rlimit(100)]
proof fn lemma_expansion_complete(
    rs: Seq<RepositoryView>,
    queue: Seq<ResolvedPkg>,
    out: Seq<ResolvedPkg>,
)
    requires
        forall|t: int| 0 <= t < queue.len() ==> name_handled(rs, out, #[trigger] queue[t]),
        forall|m: int, d: int|
            #![trigger rp_manifest(rs, out[m]).depends_on[d]]
            0 <= m < out.len() && 0 <= d < rp_manifest(rs, out[m]).depends_on.len()
                ==> dep_covered(rs, queue, out[m], rp_manifest(rs, out[m]).depends_on[d]),
    ensures
        forall|m: int, d: int|
            #![trigger rp_manifest(rs, out[m]).depends_on[d]]
            0 <= m < out.len() && 0 <= d < rp_manifest(rs, out[m]).depends_on.len()
                ==> dep_covered(rs, out, out[m], rp_manifest(rs, out[m]).depends_on[d]),
{
    reveal(name_handled);
    reveal(dep_covered);
    assert forall|m: int, d: int|
        #![trigger rp_manifest(rs, out[m]).depends_on[d]]
        0 <= m < out.len() && 0 <= d < rp_manifest(rs, out[m]).depends_on.len() implies dep_covered(
        rs,
        out,
        out[m],
        rp_manifest(rs, out[m]).depends_on[d],
    ) by {
        let t = choose|t: int|
            0 <= t < queue.len() && rp_name(rs, queue[t]) == rp_manifest(rs, out[m]).depends_on[d]
                && queue[t].repo_idx == out[m].repo_idx;
        assert(name_handled(rs, out, queue[t]));
        let m2 = choose|m2: int|
            0 <= m2 < out.len() && rp_name(rs, out[m2]) == rp_name(rs, queue[t]) && out[
                m2
            ].repo_idx == queue[t].repo_idx;
        assert(0 <= m2 < out.len() && rp_name(rs, out[m2]) == rp_manifest(rs, out[m]).depends_on[d]
            && out[m2].repo_idx == out[m].repo_idx);
    }
}

/// Inserts one yet-unseen package into the expansion output and enqueues
/// its dependencies, preserving the expansion bookkeeping.
#[verifier::rlimit(100)]
fn expand_one(
    repos: &Vec<Repository>,
    current: ResolvedPkg,
    queue: &mut Vec<ResolvedPkg>,
    out: &mut Vec<ResolvedPkg>,
    Ghost(inputs): Ghost<Seq<ResolvedPkg>>,
    Ghost(qi0): Ghost<int>,
) -> (r: Result<(), Error>)
    requires
        0 <= qi0 < old(queue)@.len(),
        old(queue)@[qi0] == current,
        inputs.len() <= old(queue)@.len(),
        forall|i: int| 0 <= i < inputs.len() ==> old(queue)@[i] == #[trigger] inputs[i],
        forall|t: int|
            0 <= t < old(queue)@.len() ==> rp_canonical(
                repos_seq(*repos),
                #[trigger] old(queue)@[t],
            ),
        forall|t: int|
            inputs.len() <= t < old(queue)@.len() ==> (#[trigger] old(queue)@[t]).is_dep,
        forall|t: int|
            0 <= t < old(queue)@.len() ==> reachable(
                repos_seq(*repos),
                inputs,
                #[trigger] old(queue)@[t],
            ),
        forall|m: int|
            0 <= m < old(out)@.len() ==> rp_canonical(repos_seq(*repos), #[trigger] old(out)@[m]),
        forall|m1: int, m2: int|
            0 <= m1 < m2 < old(out)@.len() ==> rp_name(repos_seq(*repos), #[trigger] old(out)@[m1])
                != rp_name(repos_seq(*repos), #[trigger] old(out)@[m2]),
        forall|m: int|
            0 <= m < old(out)@.len() ==> rp_name(repos_seq(*repos), #[trigger] old(out)@[m])
                != rp_name(repos_seq(*repos), current),
        forall|t: int|
            0 <= t < qi0 ==> name_handled(repos_seq(*repos), old(out)@, #[trigger] old(queue)@[t]),
        forall|m: int, d: int|
            #![trigger rp_manifest(repos_seq(*repos), old(out)@[m]).depends_on[d]]
            0 <= m < old(out)@.len() && 0 <= d < rp_manifest(
                repos_seq(*repos),
                old(out)@[m],
            ).depends_on.len() ==> dep_covered(
                repos_seq(*repos),
                old(queue)@,
                old(out)@[m],
                rp_manifest(repos_seq(*repos), old(out)@[m]).depends_on[d],
            ),
        forall|m: int|
            0 <= m < old(out)@.len() ==> inputs.contains(#[trigger] old(out)@[m]) || old(out)@[
                m
            ].is_dep,
        qi0 <= inputs.len() ==> (forall|m: int|
            0 <= m < old(out)@.len() ==> inputs.contains(#[trigger] old(out)@[m])),
        forall|m: int|
            0 <= m < old(out)@.len() ==> reachable(
                repos_seq(*repos),
                inputs,
                #[trigger] old(out)@[m],
            ),
        forall|i: int|
            0 <= i < qi0 && i < inputs.len() ==> input_represented(
                repos_seq(*repos),
                inputs,
                old(out)@,
                #[trigger] inputs[i],
            ),
        old(out)@.len() <= total_pkgs(repos_seq(*repos)),
    ensures
        match r {
            Ok(()) => {
                &&& final(out)@.len() == old(out)@.len() + 1
                &&& final(queue)@.len() >= old(queue)@.len()
                &&& forall|t: int|
                    0 <= t < old(queue)@.len() ==> final(queue)@[t] == #[trigger] old(queue)@[t]
                &&& forall|t: int|
                    old(queue)@.len() <= t < final(queue)@.len() ==> (#[trigger] final(
                    queue)@[t]).is_dep
                &&& forall|t: int|
                    0 <= t < final(queue)@.len() ==> rp_canonical(
                        repos_seq(*repos),
                        #[trigger] final(queue)@[t],
                    )
                &&& forall|t: int|
                    0 <= t < final(queue)@.len() ==> reachable(
                        repos_seq(*repos),
                        inputs,
                        #[trigger] final(queue)@[t],
                    )
                &&& forall|m: int|
                    0 <= m < final(out)@.len() ==> rp_canonical(
                        repos_seq(*repos),
                        #[trigger] final(out)@[m],
                    )
                &&& forall|m1: int, m2: int|
                    0 <= m1 < m2 < final(out)@.len() ==> rp_name(
                        repos_seq(*repos),
                        #[trigger] final(out)@[m1],
                    ) != rp_name(repos_seq(*repos), #[trigger] final(out)@[m2])
                &&& forall|t: int|
                    0 <= t < qi0 + 1 ==> name_handled(
                        repos_seq(*repos),
                        final(out)@,
                        #[trigger] final(queue)@[t],
                    )
                &&& forall|m: int, d: int|
                    #![trigger rp_manifest(repos_seq(*repos), final(out)@[m]).depends_on[d]]
                    0 <= m < final(out)@.len() && 0 <= d < rp_manifest(
                        repos_seq(*repos),
                        final(out)@[m],
                    ).depends_on.len() ==> dep_covered(
                        repos_seq(*repos),
                        final(queue)@,
                        final(out)@[m],
                        rp_manifest(repos_seq(*repos), final(out)@[m]).depends_on[d],
                    )
                &&& forall|m: int|
                    0 <= m < final(out)@.len() ==> inputs.contains(#[trigger] final(out)@[m])
                        || final(out)@[m].is_dep
                &&& (qi0 + 1 <= inputs.len() ==> (forall|m: int|
                    0 <= m < final(out)@.len() ==> inputs.contains(#[trigger] final(out)@[m])))
                &&& forall|m: int|
                    0 <= m < final(out)@.len() ==> reachable(
                        repos_seq(*repos),
                        inputs,
                        #[trigger] final(out)@[m],
                    )
                &&& forall|i: int|
                    0 <= i < qi0 + 1 && i < inputs.len() ==> input_represented(
                        repos_seq(*repos),
                        inputs,
                        final(out)@,
                        #[trigger] inputs[i],
                    )
                &&& final(out)@.len() <= total_pkgs(repos_seq(*repos))
            },
            Err(e) => (e is MissingDependency || e is RepositoryConflict) && !(
            repos_names_disjoint(repos_seq(*repos)) && repos_deps_closed(repos_seq(*repos)))
                && !closure_clean(repos_seq(*repos), inputs),
        },
{
    let ghost rs = repos_seq(*repos);
    let ghost out0 = out@;
    out.push(current);
    let deps_n = manifest_of(repos, &current).depends_on.len();
    let mut k: usize = 0;
    let ghost queue_snap = queue@;
    while k < deps_n
        invariant
            rs == repos_seq(*repos),
            rp_canonical(rs, current),
            deps_n == rp_manifest(rs, current).depends_on.len(),
            0 <= k <= deps_n,
            queue_snap == old(queue)@,
            queue_snap.len() <= queue@.len(),
            forall|t: int| 0 <= t < queue_snap.len() ==> queue@[t] == #[trigger] queue_snap[t],
            forall|t: int| 0 <= t < queue@.len() ==> rp_canonical(rs, #[trigger] queue@[t]),
            forall|t: int|
                queue_snap.len() <= t < queue@.len() ==> (#[trigger] queue@[t]).is_dep,
            forall|t: int| 0 <= t < queue@.len() ==> reachable(rs, inputs, #[trigger] queue@[t]),
            reachable(rs, inputs, current),
            forall|d: int|
                #![trigger rp_manifest(rs, current).depends_on[d]]
                0 <= d < k ==> dep_covered(
                    rs,
                    queue@,
                    current,
                    rp_manifest(rs, current).depends_on[d],
                ),
        decreases deps_n - k,
    {
        let dep_name = &manifest_of(repos, &current).depends_on[k];
        match repos[current.repo_idx].find_pkg_idx(dep_name.as_str()) {
            Some(j) => {
                let dep = ResolvedPkg { repo_idx: current.repo_idx, pkg_idx: j, is_dep: true };
                proof {
                    reveal(reachable);
                    assert(rs[current.repo_idx as int] == repos@[current.repo_idx as int]@);
                    assert(rp_canonical(rs, dep));
                    assert(rp_manifest(rs, current).depends_on[k as int] == dep_name@);
                    assert(dep_step(rs, current, dep));
                    let p = choose|p: Seq<ResolvedPkg>|
                        dep_path_ok(rs, inputs, p) && p.last() == current;
                    let p2 = p.push(dep);
                    assert(p2[0] == p[0]);
                    assert forall|x: int| 0 <= x < p2.len() - 1 implies dep_step(
                        rs,
                        #[trigger] p2[x],
                        p2[x + 1],
                    ) by {
                        if x < p.len() - 1 {
                            assert(p2[x] == p[x] && p2[x + 1] == p[x + 1]);
                        } else {
                            assert(p2[x] == p.last() && p2[x + 1] == dep);
                        }
                    }
                    assert(dep_path_ok(rs, inputs, p2) && p2.last() == dep);
                    assert(reachable(rs, inputs, dep));
                }
                let ghost q0 = queue@;
                queue.push(dep);
                proof {
                    reveal(dep_covered);
                    assert(queue@[q0.len() as int] == dep);
                    assert(rp_name(rs, dep) == rp_manifest(rs, current).depends_on[k as int]);
                    assert forall|d: int|
                        #![trigger rp_manifest(rs, current).depends_on[d]]
                        0 <= d < k + 1 implies dep_covered(
                        rs,
                        queue@,
                        current,
                        rp_manifest(rs, current).depends_on[d],
                    ) by {
                        if d < k {
                            assert(dep_covered(rs, q0, current, rp_manifest(rs, current).depends_on[d]));
                            let t = choose|t: int|
                                0 <= t < q0.len() && rp_name(rs, q0[t]) == rp_manifest(
                                    rs,
                                    current,
                                ).depends_on[d] && q0[t].repo_idx == current.repo_idx;
                            assert(queue@[t] == q0[t]);
                            assert(0 <= t < queue@.len() && rp_name(rs, queue@[t]) == rp_manifest(
                                rs,
                                current,
                            ).depends_on[d] && queue@[t].repo_idx == current.repo_idx);
                        } else {
                            let t = q0.len() as int;
                            assert(0 <= t < queue@.len() && rp_name(rs, queue@[t]) == rp_manifest(
                                rs,
                                current,
                            ).depends_on[d] && queue@[t].repo_idx == current.repo_idx);
                        }
                    }
                }
            },
            None => {
                proof {
                    assert(rs[current.repo_idx as int] == repos@[current.repo_idx as int]@);
                    assert(rp_manifest(rs, current).depends_on[k as int] == dep_name@);
                    assert(!rs[current.repo_idx as int].has_pkg(dep_name@));
                    assert(!crate::validate::repo_deps_closed(rs[current.repo_idx as int]));
                    assert(!repos_deps_closed(rs));
                    assert(!closure_clean(rs, inputs)) by {
                        if closure_clean(rs, inputs) {
                            assert(reachable(rs, inputs, current));
                            assert(rs[current.repo_idx as int].has_pkg(
                                rp_manifest(rs, current).depends_on[k as int],
                            ));
                        }
                    }
                }
                return Err(
                    Error::MissingDependency {
                        name: dep_name.clone(),
                        required_by: crate::util::copy_str(name_of(repos, &current)),
                        repo: repos[current.repo_idx].name.clone(),
                    },
                );
            },
        }
        k += 1;
    }
    proof {
        lemma_after_insert(rs, inputs, queue_snap, queue@, out0, out@, current, qi0);
    }
    Ok(())
}

/// Expands a set of resolved packages into the full set with all transitive
/// dependencies, visiting each name at most once. Dependencies stay within
/// the repository of the package that names them and are marked as
/// dependencies; names that arrive bound to two different repositories are a
/// `RepositoryConflict`, and a dependency name absent from its repository a
/// `MissingDependency`. An error certifies that the requested closure itself
/// is not clean: the expansion succeeds on every input set whose closure
/// resolves each dependency inside its repository without binding one name
/// to two repositories.
#[verifier::rlimit(100)]
#[verifier::loop_isolation(false)]
pub fn resolve_pkgs_with_deps(pkgs: &Vec<ResolvedPkg>, repos: &Vec<Repository>) -> (r: Result<
    Vec<ResolvedPkg>,
    Error,
>)
    requires
        forall|i: int|
            0 <= i < pkgs@.len() ==> rp_canonical(repos_seq(*repos), #[trigger] pkgs@[i]),
    ensures
        match r {
            Ok(out) => resolution_ok(repos_seq(*repos), pkgs@, out@),
            Err(e) => (e is MissingDependency || e is RepositoryConflict) && !(
            repos_names_disjoint(repos_seq(*repos)) && repos_deps_closed(repos_seq(*repos)))
                && !closure_clean(repos_seq(*repos), pkgs@),
        },
{
    let ghost rs = repos_seq(*repos);
    let ghost inputs = pkgs@;
    let mut queue: Vec<ResolvedPkg> = pkgs.clone();
    proof {
        assert(queue@ =~= inputs);
    }
    let mut out: Vec<ResolvedPkg> = Vec::new();
    let mut qi: usize = 0;
    proof {
        assert forall|t: int| 0 <= t < queue@.len() implies reachable(
            rs,
            inputs,
            #[trigger] queue@[t],
        ) by {
            reveal(reachable);
            let p = seq![queue@[t]];
            assert(p[0] == queue@[t] && inputs.contains(p[0]));
            assert(dep_path_ok(rs, inputs, p) && p.last() == queue@[t]);
        }
        lemma_pkgs_before_mono(rs, 0, rs.len() as int);
    }
    while qi < queue.len()
        invariant
            rs == repos_seq(*repos),
            inputs == pkgs@,
            0 <= qi <= queue@.len(),
            inputs.len() <= queue@.len(),
            forall|i: int| 0 <= i < inputs.len() ==> queue@[i] == #[trigger] inputs[i],
            forall|t: int| 0 <= t < queue@.len() ==> rp_canonical(rs, #[trigger] queue@[t]),
            forall|t: int| inputs.len() <= t < queue@.len() ==> (#[trigger] queue@[t]).is_dep,
            forall|t: int| 0 <= t < queue@.len() ==> reachable(rs, inputs, #[trigger] queue@[t]),
            forall|m: int| 0 <= m < out@.len() ==> rp_canonical(rs, #[trigger] out@[m]),
            forall|m1: int, m2: int|
                0 <= m1 < m2 < out@.len() ==> rp_name(rs, #[trigger] out@[m1]) != rp_name(
                    rs,
                    #[trigger] out@[m2],
                ),
            forall|t: int| 0 <= t < qi ==> name_handled(rs, out@, #[trigger] queue@[t]),
            forall|m: int, d: int|
                #![trigger rp_manifest(rs, out@[m]).depends_on[d]]
                0 <= m < out@.len() && 0 <= d < rp_manifest(rs, out@[m]).depends_on.len()
                    ==> dep_covered(rs, queue@, out@[m], rp_manifest(rs, out@[m]).depends_on[d]),
            forall|m: int|
                0 <= m < out@.len() ==> inputs.contains(#[trigger] out@[m]) || out@[m].is_dep,
            qi <= inputs.len() ==> (forall|m: int|
                0 <= m < out@.len() ==> inputs.contains(#[trigger] out@[m])),
            forall|m: int| 0 <= m < out@.len() ==> reachable(rs, inputs, #[trigger] out@[m]),
            forall|i: int|
                0 <= i < qi && i < inputs.len() ==> input_represented(
                    rs,
                    inputs,
                    out@,
                    #[trigger] inputs[i],
                ),
            out@.len() <= total_pkgs(rs),
        decreases total_pkgs(rs) - out@.len(), queue@.len() - qi,
    {
        let current = queue[qi];
        let ghost qi0 = qi as int;
        qi += 1;
        let found = find_resolved_by_name(&out, repos, name_of(repos, &current));
        match found {
            Some(m) => {
                if out[m].repo_idx != current.repo_idx {
                    proof {
                        let a = out@[m as int];
                        assert(rs[a.repo_idx as int].packages[a.pkg_idx as int].key == rp_name(
                            rs,
                            a,
                        ));
                        assert(rs[a.repo_idx as int].has_pkg(rp_name(rs, a)));
                        assert(rs[current.repo_idx as int].packages[current.pkg_idx as int].key
                            == rp_name(rs, current));
                        assert(rs[current.repo_idx as int].has_pkg(rp_name(rs, current)));
                        assert(!repos_names_disjoint(rs));
                        assert(!closure_clean(rs, inputs)) by {
                            if closure_clean(rs, inputs) {
                                assert(reachable(rs, inputs, a) && reachable(rs, inputs, current));
                                assert(a.repo_idx == current.repo_idx);
                            }
                        }
                    }
                    return Err(
                        Error::RepositoryConflict {
                            name: crate::util::copy_str(name_of(repos, &current)),
                            repo_a: repos[out[m].repo_idx].name.clone(),
                            repo_b: repos[current.repo_idx].name.clone(),
                        },
                    );
                }
                // Already resolved from the same repository: nothing to add.
                proof {
                    reveal(name_handled);
                    reveal(input_represented);
                    assert(rp_name(rs, out@[m as int]) == rp_name(rs, queue@[qi0]) && out@[
                        m as int
                    ].repo_idx == queue@[qi0].repo_idx);
                    assert(name_handled(rs, out@, queue@[qi0]));
                    if qi0 < inputs.len() {
                        assert(queue@[qi0] == inputs[qi0]);
                        assert(inputs.contains(out@[m as int]));
                        assert(input_represented(rs, inputs, out@, inputs[qi0]));
                    }
                }
            },
            None => {
                let ghost q_before = queue@;
                match expand_one(repos, current, &mut queue, &mut out, Ghost(inputs), Ghost(qi0)) {
                    Ok(()) => {
                        proof {
                            assert forall|t: int|
                                inputs.len() <= t < queue@.len() implies (#[trigger] queue@[t]).is_dep by {
                                if t < q_before.len() {
                                    assert(queue@[t] == q_before[t]);
                                }
                            }
                        }
                    },
                    Err(e) => {
                        return Err(e);
                    },
                }
            },
        }
    }
    proof {
        lemma_expansion_complete(rs, queue@, out@);
        assert forall|i: int| 0 <= i < inputs.len() implies input_represented(
            rs,
            inputs,
            out@,
            #[trigger] inputs[i],
        ) by {}
    }
    Ok(out)
}

/// Resolves each requested name; success comes exactly when every name is
/// carried by exactly one repository.
pub fn resolve_pkgs_by_name(names: &Vec<String>, repos: &Vec<Repository>) -> (r: Result<
    Vec<ResolvedPkg>,
    Error,
>)
    ensures
        r is Ok <==> (forall|i: int|
            0 <= i < names@.len() ==> uniquely_owned(
                repos_seq(*repos),
                #[trigger] names.deep_view()[i],
            )),
        match r {
            Ok(v) => {
                &&& v@.len() == names@.len()
                &&& forall|i: int|
                    0 <= i < v@.len() ==> rp_canonical(repos_seq(*repos), #[trigger] v@[i])
                        && rp_name(repos_seq(*repos), v@[i]) == names@[i]@ && !v@[i].is_dep
            },
            Err(e) => e is PackageNotFound || e is AmbiguousPackage,
        },
{
    let mut out: Vec<ResolvedPkg> = Vec::new();
    let mut i: usize = 0;
    while i < names.len()
        invariant
            0 <= i <= names@.len(),
            out@.len() == i,
            forall|j: int|
                0 <= j < i ==> uniquely_owned(repos_seq(*repos), #[trigger] names.deep_view()[j]),
            forall|j: int|
                0 <= j < i ==> rp_canonical(repos_seq(*repos), #[trigger] out@[j]) && rp_name(
                    repos_seq(*repos),
                    out@[j],
                ) == names@[j]@ && !out@[j].is_dep,
        decreases names@.len() - i,
    {
        proof {
            assert(names.deep_view()[i as int] == names@[i as int]@);
        }
        match resolve_pkg_by_name(names[i].as_str(), repos) {
            Ok(rp) => {
                out.push(rp);
            },
            Err(e) => {
                return Err(e);
            },
        }
        i += 1;
    }
    proof {
        assert(names.deep_view().len() == names@.len());
    }
    Ok(out)
}

// ---------------------------------------------------------------------------
// Resolving installed packages
// ---------------------------------------------------------------------------
/// An installed package refreshed against the repository snapshot: the
/// resolved handle of its current manifest and the index of its database
/// record.
#[derive(Debug, Clone, Copy, PartialEq, Eq, Structural)]
pub struct ResolvedInstalled {
    pub pkg: ResolvedPkg,
    pub installed_idx: usize,
}

/// The installed record can be refreshed against the snapshot: the first
/// repository carrying its recorded name is registered and still carries a
/// manifest under the record's name.
pub open spec fn record_refreshable(
    rs: Seq<RepositoryView>,
    rec: crate::database::InstalledPackageView,
) -> bool {
    exists|i: int|
        0 <= i < rs.len() && (#[trigger] rs[i]).name == rec.repo_name && (forall|j: int|
            0 <= j < i ==> (#[trigger] rs[j]).name != rec.repo_name) && rs[i].has_pkg(
            rec.manifest.name,
        )
}

/// The name is installed and its record can be refreshed.
pub open spec fn name_refreshable(
    rs: Seq<RepositoryView>,
    installed: Seq<crate::database::InstalledPackageView>,
    name: Seq<char>,
) -> bool {
    match crate::database::installed_idx(installed, name) {
        Some(i) => record_refreshable(rs, installed[i]),
        None => false,
    }
}

/// The index of the first repository of the snapshot carrying this name.
fn find_repo_idx(repos: &Vec<Repository>, name: &str) -> (r: Option<usize>)
    ensures
        match r {
            Some(i) => i < repos_seq(*repos).len() && repos_seq(*repos)[i as int].name == name@
                && forall|j: int|
                0 <= j < i ==> (#[trigger] repos_seq(*repos)[j]).name != name@,
            None => forall|j: int|
                0 <= j < repos_seq(*repos).len() ==> (#[trigger] repos_seq(*repos)[j]).name
                    != name@,
        },
{
    let n = repos.len();
    let mut i: usize = 0;
    while i < n
        invariant
            0 <= i <= n,
            n == repos@.len(),
            forall|j: int| 0 <= j < i ==> (#[trigger] repos_seq(*repos)[j]).name != name@,
        decreases n - i,
    {
        proof {
            assert(repos_seq(*repos)[i as int] == repos@[i as int]@);
        }
        if str_eq(repos[i].name.as_str(), name) {
            return Some(i);
        }
        i += 1;
    }
    None
}

/// Refreshes one installed record against the repositories: the record's
/// repository must still be registered and must still carry a manifest under
/// the record's name; the handle keeps the record's dependency flag. A
/// missing repository or manifest is an `OrphanedInstall`.
pub fn resolve_installed_pkg(
    db: &crate::database::AppData,
    installed_i: usize,
    repos: &Vec<Repository>,
) -> (r: Result<ResolvedPkg, Error>)
    requires
        installed_i < db@.installed.len(),
    ensures
        r is Ok <==> record_refreshable(repos_seq(*repos), db@.installed[installed_i as int]),
        match r {
            Ok(rp) => {
                &&& rp_canonical(repos_seq(*repos), rp)
                &&& rp_name(repos_seq(*repos), rp) == db@.installed[
                    installed_i as int
                ].manifest.name
                &&& repos_seq(*repos)[rp.repo_idx as int].name == db@.installed[
                    installed_i as int
                ].repo_name
                &&& rp.is_dep == db@.installed[installed_i as int].installed_as_dep
            },
            Err(e) => e is OrphanedInstall,
        },
{
    let ghost rs = repos_seq(*repos);
    let rec = &db.installed[installed_i];
    let ghost recv = db@.installed[installed_i as int];
    proof {
        assert(recv == db.installed@[installed_i as int]@);
    }
    let repo_idx = match find_repo_idx(repos, rec.repo_name.as_str()) {
        Some(i) => i,
        None => {
            proof {
                assert(!record_refreshable(rs, recv)) by {
                    if record_refreshable(rs, recv) {
                        let w = choose|w: int|
                            0 <= w < rs.len() && (#[trigger] rs[w]).name == recv.repo_name && (
                            forall|j: int|
                                0 <= j < w ==> (#[trigger] rs[j]).name != recv.repo_name) && rs[
                                w
                            ].has_pkg(recv.manifest.name);
                        assert(rs[w].name != recv.repo_name);
                    }
                }
            }
            return Err(
                Error::OrphanedInstall {
                    name: rec.manifest.name.clone(),
                    repo: rec.repo_name.clone(),
                },
            );
        },
    };
    let pkg_idx = match repos[repo_idx].find_pkg_idx(rec.manifest.name.as_str()) {
        Some(j) => j,
        None => {
            proof {
                assert(repos_seq(*repos)[repo_idx as int] == repos@[repo_idx as int]@);
                assert(!record_refreshable(rs, recv)) by {
                    if record_refreshable(rs, recv) {
                        let w = choose|w: int|
                            0 <= w < rs.len() && (#[trigger] rs[w]).name == recv.repo_name && (
                            forall|j: int|
                                0 <= j < w ==> (#[trigger] rs[j]).name != recv.repo_name) && rs[
                                w
                            ].has_pkg(recv.manifest.name);
                        if w < repo_idx as int {
                            assert(rs[w].name != recv.repo_name);
                        } else if repo_idx < w {
                            assert(rs[repo_idx as int].name != recv.repo_name);
                        } else {
                            assert(!rs[repo_idx as int].has_pkg(recv.manifest.name));
                        }
                    }
                }
            }
            return Err(
                Error::OrphanedInstall {
                    name: rec.manifest.name.clone(),
                    repo: rec.repo_name.clone(),
                },
            );
        },
    };
    proof {
        assert(repos_seq(*repos)[repo_idx as int] == repos@[repo_idx as int]@);
        assert(rs[repo_idx as int].packages[pkg_idx as int].key == recv.manifest.name);
        assert(rs[repo_idx as int].has_pkg(recv.manifest.name));
        assert(record_refreshable(rs, recv));
    }
    Ok(ResolvedPkg { repo_idx, pkg_idx, is_dep: rec.installed_as_dep })
}

/// Refreshes every installed record against the repositories; success comes
/// exactly when every record's repository and manifest are still registered.
pub fn resolve_installed_pkgs(db: &crate::database::AppData, repos: &Vec<Repository>) -> (r: Result<
    Vec<ResolvedInstalled>,
    Error,
>)
    ensures
        r is Ok <==> (forall|k: int|
            0 <= k < db@.installed.len() ==> record_refreshable(
                repos_seq(*repos),
                #[trigger] db@.installed[k],
            )),
        match r {
            Ok(v) => v@.len() == db@.installed.len() && forall|k: int|
                0 <= k < v@.len() ==> {
                    let ri = #[trigger] v@[k];
                    &&& ri.installed_idx == k
                    &&& rp_canonical(repos_seq(*repos), ri.pkg)
                    &&& rp_name(repos_seq(*repos), ri.pkg) == db@.installed[k].manifest.name
                    &&& ri.pkg.is_dep == db@.installed[k].installed_as_dep
                },
            Err(e) => e is OrphanedInstall,
        },
{
    let n = db.installed.len();
    let mut out: Vec<ResolvedInstalled> = Vec::new();
    let mut i: usize = 0;
    while i < n
        invariant
            0 <= i <= n,
            n == db@.installed.len(),
            out@.len() == i,
            forall|k: int|
                0 <= k < i ==> record_refreshable(repos_seq(*repos), #[trigger] db@.installed[k]),
            forall|k: int|
                0 <= k < i ==> {
                    let ri = #[trigger] out@[k];
                    &&& ri.installed_idx == k
                    &&& rp_canonical(repos_seq(*repos), ri.pkg)
                    &&& rp_name(repos_seq(*repos), ri.pkg) == db@.installed[k].manifest.name
                    &&& ri.pkg.is_dep == db@.installed[k].installed_as_dep
                },
        decreases n - i,
    {
        match resolve_installed_pkg(db, i, repos) {
            Ok(pkg) => {
                out.push(ResolvedInstalled { pkg, installed_idx: i });
            },
            Err(e) => {
                return Err(e);
            },
        }
        i += 1;
    }
    Ok(out)
}

/// Refreshes the installed record of one requested name; a name that is not
/// installed is `NotInstalled`, and success comes exactly when the name is
/// installed and its record's repository and manifest are still registered.
pub fn resolve_installed_pkg_by_name(
    name: &str,
    db: &crate::database::AppData,
    repos: &Vec<Repository>,
) -> (r: Result<ResolvedInstalled, Error>)
    ensures
        r is Ok <==> name_refreshable(repos_seq(*repos), db@.installed, name@),
        match r {
            Ok(ri) => {
                &&& crate::database::installed_idx(db@.installed, name@) == Some(
                    ri.installed_idx as int,
                )
                &&& ri.installed_idx < db@.installed.len()
                &&& rp_canonical(repos_seq(*repos), ri.pkg)
                &&& rp_name(repos_seq(*repos), ri.pkg) == db@.installed[
                    ri.installed_idx as int
                ].manifest.name
                &&& ri.pkg.is_dep == db@.installed[ri.installed_idx as int].installed_as_dep
            },
            Err(e) => {
                &&& (e is NotInstalled <==> crate::database::installed_idx(
                    db@.installed,
                    name@,
                ) is None)
                &&& (e is NotInstalled || e is OrphanedInstall)
            },
        },
{
    proof {
        crate::database::lemma_installed_idx(db@.installed, name@);
    }
    let n = db.installed.len();
    let mut i: usize = 0;
    while i < n
        invariant
            0 <= i <= n,
            n == db@.installed.len(),
            forall|j: int| 0 <= j < i ==> (#[trigger] db@.installed[j]).manifest.name != name@,
        decreases n - i,
    {
        proof {
            assert(db@.installed[i as int] == db.installed@[i as int]@);
        }
        if str_eq(db.installed[i].manifest.name.as_str(), name) {
            proof {
                crate::database::lemma_installed_idx_first(db@.installed, name@, i as int);
            }
            match resolve_installed_pkg(db, i, repos) {
                Ok(pkg) => {
                    return Ok(ResolvedInstalled { pkg, installed_idx: i });
                },
                Err(e) => {
                    return Err(e);
                },
            }
        }
        i += 1;
    }
    Err(Error::NotInstalled { name: crate::util::copy_str(name) })
}

/// Refreshes the installed records of the requested names; success comes
/// exactly when every name is installed and refreshable.
pub fn resolve_installed_pkgs_by_name(
    names: &Vec<String>,
    db: &crate::database::AppData,
    repos: &Vec<Repository>,
) -> (r: Result<Vec<ResolvedInstalled>, Error>)
    ensures
        r is Ok <==> (forall|k: int|
            0 <= k < names@.len() ==> name_refreshable(
                repos_seq(*repos),
                db@.installed,
                #[trigger] names.deep_view()[k],
            )),
        match r {
            Ok(v) => v@.len() == names@.len() && forall|k: int|
                0 <= k < v@.len() ==> {
                    let ri = #[trigger] v@[k];
                    &&& crate::database::installed_idx(db@.installed, names.deep_view()[k]) == Some(
                        ri.installed_idx as int,
                    )
                    &&& ri.installed_idx < db@.installed.len()
                    &&& rp_canonical(repos_seq(*repos), ri.pkg)
                    &&& rp_name(repos_seq(*repos), ri.pkg) == db@.installed[
                        ri.installed_idx as int
                    ].manifest.name
                },
            Err(e) => e is NotInstalled || e is OrphanedInstall,
        },
{
    let mut out: Vec<ResolvedInstalled> = Vec::new();
    let mut i: usize = 0;
    while i < names.len()
        invariant
            0 <= i <= names@.len(),
            out@.len() == i,
            forall|k: int|
                0 <= k < i ==> name_refreshable(
                    repos_seq(*repos),
                    db@.installed,
                    #[trigger] names.deep_view()[k],
                ),
            forall|k: int|
                0 <= k < i ==> {
                    let ri = #[trigger] out@[k];
                    &&& crate::database::installed_idx(db@.installed, names.deep_view()[k]) == Some(
                        ri.installed_idx as int,
                    )
                    &&& ri.installed_idx < db@.installed.len()
                    &&& rp_canonical(repos_seq(*repos), ri.pkg)
                    &&& rp_name(repos_seq(*repos), ri.pkg) == db@.installed[
                        ri.installed_idx as int
                    ].manifest.name
                },
        decreases names@.len() - i,
    {
        proof {
            assert(names.deep_view()[i as int] == names@[i as int]@);
        }
        match resolve_installed_pkg_by_name(names[i].as_str(), db, repos) {
            Ok(ri) => {
                out.push(ri);
            },
            Err(e) => {
                return Err(e);
            },
        }
        i += 1;
    }
    Ok(out)
}

/// Re-resolves a handle against the current content of its repository: a
/// valid handle's name is always registered there, so this succeeds,
/// yielding the canonical entry for the name with the dependency flag kept.
pub fn refresh_pkg(resolved: ResolvedPkg, repos: &Vec<Repository>) -> (r: Result<
    ResolvedPkg,
    Error,
>)
    requires
        rp_valid(repos_seq(*repos), resolved),
    ensures
        r is Ok,
        match r {
            Ok(rp) => {
                &&& rp_canonical(repos_seq(*repos), rp)
                &&& rp.repo_idx == resolved.repo_idx
                &&& rp_name(repos_seq(*repos), rp) == rp_name(repos_seq(*repos), resolved)
                &&& rp.is_dep == resolved.is_dep
            },
            Err(e) => e is PackageNotFound,
        },
{
    let name = repos[resolved.repo_idx].packages[resolved.pkg_idx].key.clone();
    match repos[resolved.repo_idx].find_pkg_idx(name.as_str()) {
        Some(j) => {
            proof {
                assert(repos_seq(*repos)[resolved.repo_idx as int] == repos@[
                    resolved.repo_idx as int
                ]@);
            }
            Ok(ResolvedPkg { repo_idx: resolved.repo_idx, pkg_idx: j, is_dep: resolved.is_dep })
        },
        None => {
            proof {
                assert(repos_seq(*repos)[resolved.repo_idx as int] == repos@[
                    resolved.repo_idx as int
                ]@);
                assert(repos_seq(*repos)[resolved.repo_idx as int].packages[
                    resolved.pkg_idx as int
                ].key == name@);
                assert(repos_seq(*repos)[resolved.repo_idx as int].has_pkg(name@));
                assert(false);
            }
            Err(Error::PackageNotFound { name })
        },
    }
}

/// Resolves the requested names together with all their transitive
/// dependencies. An error certifies its cause: a name that is not carried by
/// exactly one repository, or a requested closure that is not clean.
pub fn resolve_pkgs_by_name_with_deps(names: &Vec<String>, repos: &Vec<Repository>) -> (r: Result<
    Vec<ResolvedPkg>,
    Error,
>)
    ensures
        match r {
            Ok(out) => exists|inputs: Seq<ResolvedPkg>|
                {
                    &&& inputs.len() == names@.len()
                    &&& (forall|i: int|
                        0 <= i < inputs.len() ==> rp_canonical(repos_seq(*repos), #[trigger] inputs[i])
                            && rp_name(repos_seq(*repos), inputs[i]) == names.deep_view()[i]
                            && !inputs[i].is_dep)
                    &&& resolution_ok(repos_seq(*repos), inputs, out@)
                },
            Err(e) => {
                &&& (e is PackageNotFound || e is AmbiguousPackage || e is MissingDependency
                    || e is RepositoryConflict)
                &&& ((e is PackageNotFound || e is AmbiguousPackage) ==> !(forall|i: int|
                    0 <= i < names@.len() ==> uniquely_owned(
                        repos_seq(*repos),
                        #[trigger] names.deep_view()[i],
                    )))
                &&& ((e is MissingDependency || e is RepositoryConflict) ==> exists|
                    inputs: Seq<ResolvedPkg>,
                |
                    {
                        &&& inputs.len() == names@.len()
                        &&& (forall|i: int|
                            0 <= i < inputs.len() ==> rp_canonical(
                                repos_seq(*repos),
                                #[trigger] inputs[i],
                            ) && rp_name(repos_seq(*repos), inputs[i]) == names.deep_view()[i]
                                && !inputs[i].is_dep)
                        &&& !closure_clean(repos_seq(*repos), inputs)
                    })
            },
        },
{
    let pkgs = match resolve_pkgs_by_name(names, repos) {
        Ok(p) => p,
        Err(e) => {
            return Err(e);
        },
    };
    proof {
        assert forall|i: int| 0 <= i < pkgs@.len() implies rp_canonical(
            repos_seq(*repos),
            #[trigger] pkgs@[i],
        ) && rp_name(repos_seq(*repos), pkgs@[i]) == names.deep_view()[i] && !pkgs@[i].is_dep by {
            assert(names.deep_view()[i] == names@[i]@);
        }
    }
    match resolve_pkgs_with_deps(&pkgs, repos) {
        Ok(out) => Ok(out),
        Err(e) => Err(e),
    }
}

// ---------------------------------------------------------------------------
// Idempotence of resolution
// ---------------------------------------------------------------------------
/// Two canonical handles in the same repository with the same name are the
/// same entry.
proof fn lemma_canonical_unique(rs: Seq<RepositoryView>, a: ResolvedPkg, b: ResolvedPkg)
    requires
        rp_canonical(rs, a),
        rp_canonical(rs, b),
        a.repo_idx == b.repo_idx,
        rp_name(rs, a) == rp_name(rs, b),
    ensures
        a.pkg_idx == b.pkg_idx,
{
    if a.pkg_idx < b.pkg_idx {
        assert(rs[b.repo_idx as int].packages[a.pkg_idx as int].key == rp_name(rs, b));
    }
    if b.pkg_idx < a.pkg_idx {
        assert(rs[a.repo_idx as int].packages[b.pkg_idx as int].key == rp_name(rs, a));
    }
}

/// A dependency path that starts in a canonical, dependency-closed set ends
/// at a name and repository that the set already resolves.
proof fn lemma_path_stays_inside(
    rs: Seq<RepositoryView>,
    base: Seq<ResolvedPkg>,
    p: Seq<ResolvedPkg>,
)
    requires
        forall|m: int| 0 <= m < base.len() ==> rp_canonical(rs, #[trigger] base[m]),
        forall|m: int, d: int|
            #![trigger rp_manifest(rs, base[m]).depends_on[d]]
            0 <= m < base.len() && 0 <= d < rp_manifest(rs, base[m]).depends_on.len()
                ==> dep_covered(rs, base, base[m], rp_manifest(rs, base[m]).depends_on[d]),
        dep_path_ok(rs, base, p),
    ensures
        exists|m: int|
            0 <= m < base.len() && rp_name(rs, #[trigger] base[m]) == rp_name(rs, p.last())
                && base[m].repo_idx == p.last().repo_idx,
    decreases p.len(),
{
    reveal(dep_covered);
    if p.len() == 1 {
        let m = choose|m: int| 0 <= m < base.len() && base[m] == p[0];
        assert(0 <= m < base.len() && rp_name(rs, base[m]) == rp_name(rs, p.last()) && base[
            m
        ].repo_idx == p.last().repo_idx);
    } else {
        let q = p.drop_last();
        assert forall|k: int| 0 <= k < q.len() - 1 implies dep_step(rs, #[trigger] q[k], q[k + 1]) by {
            assert(q[k] == p[k] && q[k + 1] == p[k + 1]);
        }
        assert(q[0] == p[0]);
        assert(dep_path_ok(rs, base, q));
        lemma_path_stays_inside(rs, base, q);
        let m0 = choose|m0: int|
            0 <= m0 < base.len() && rp_name(rs, #[trigger] base[m0]) == rp_name(rs, q.last())
                && base[m0].repo_idx == q.last().repo_idx;
        let prev = q.last();
        let lastp = p.last();
        assert(prev == p[p.len() - 2] && dep_step(rs, p[p.len() - 2], p[p.len() - 1]));
        assert(lastp == p[p.len() - 1]);
        // The predecessor is canonical: it is either the path's start, an
        // element of the base, or the target of a dependency step.
        if p.len() >= 3 {
            assert(dep_step(rs, p[p.len() - 3], p[p.len() - 2]));
            assert(rp_canonical(rs, prev));
        } else {
            let ms = choose|ms: int| 0 <= ms < base.len() && base[ms] == p[0];
            assert(rp_canonical(rs, prev));
        }
        lemma_canonical_unique(rs, base[m0], prev);
        assert(rp_manifest(rs, base[m0]) == rp_manifest(rs, prev));
        let dep_name = rp_name(rs, lastp);
        assert(rp_manifest(rs, prev).depends_on.contains(dep_name));
        let d = choose|d: int|
            0 <= d < rp_manifest(rs, base[m0]).depends_on.len() && rp_manifest(
                rs,
                base[m0],
            ).depends_on[d] == dep_name;
        assert(dep_covered(rs, base, base[m0], rp_manifest(rs, base[m0]).depends_on[d]));
        let m = choose|m: int|
            0 <= m < base.len() && rp_name(rs, #[trigger] base[m]) == rp_manifest(
                rs,
                base[m0],
            ).depends_on[d] && base[m].repo_idx == base[m0].repo_idx;
        assert(0 <= m < base.len() && rp_name(rs, base[m]) == rp_name(rs, p.last()) && base[
            m
        ].repo_idx == p.last().repo_idx);
    }
}

/// Some element of `a` resolves the same name as `x` from `x`'s repository.
pub open spec fn resolved_in(rs: Seq<RepositoryView>, a: Seq<ResolvedPkg>, x: ResolvedPkg) -> bool {
    exists|k: int|
        0 <= k < a.len() && rp_name(rs, #[trigger] a[k]) == rp_name(rs, x) && a[k].repo_idx
            == x.repo_idx
}

/// Every element of `b` is resolved, by name and repository, by some
/// element of `a`.
pub open spec fn covers(rs: Seq<RepositoryView>, a: Seq<ResolvedPkg>, b: Seq<ResolvedPkg>) -> bool {
    forall|m: int| 0 <= m < b.len() ==> resolved_in(rs, a, #[trigger] b[m])
}

/// Resolution is idempotent: expanding a resolution's own output again
/// yields the same set of resolved names, each from the same repository.
pub proof fn lemma_resolution_idempotent(
    rs: Seq<RepositoryView>,
    inputs: Seq<ResolvedPkg>,
    out1: Seq<ResolvedPkg>,
    out2: Seq<ResolvedPkg>,
)
    requires
        resolution_ok(rs, inputs, out1),
        resolution_ok(rs, out1, out2),
    ensures
        covers(rs, out2, out1),
        covers(rs, out1, out2),
{
    assert forall|m: int| 0 <= m < out1.len() implies resolved_in(rs, out2, #[trigger] out1[m]) by {
        reveal(input_represented);
        assert(input_represented(rs, out1, out2, out1[m]));
        let k = choose|k: int|
            0 <= k < out2.len() && rp_name(rs, out2[k]) == rp_name(rs, out1[m]) && out2[k].repo_idx
                == out1[m].repo_idx && out1.contains(out2[k]);
        assert(0 <= k < out2.len() && rp_name(rs, out2[k]) == rp_name(rs, out1[m])
            && out2[k].repo_idx == out1[m].repo_idx);
    }
    assert forall|k: int| 0 <= k < out2.len() implies resolved_in(rs, out1, #[trigger] out2[k]) by {
        reveal(reachable);
        assert(reachable(rs, out1, out2[k]));
        let p = choose|p: Seq<ResolvedPkg>| dep_path_ok(rs, out1, p) && p.last() == out2[k];
        lemma_path_stays_inside(rs, out1, p);
        let m = choose|m: int|
            0 <= m < out1.len() && rp_name(rs, #[trigger] out1[m]) == rp_name(rs, p.last())
                && out1[m].repo_idx == p.last().repo_idx;
        assert(0 <= m < out1.len() && rp_name(rs, out1[m]) == rp_name(rs, out2[k])
            && out1[m].repo_idx == out2[k].repo_idx);
    }
}

} // verus!
