//! Backtracking search for dependency-consistent release assignments.
use vstd::prelude::*;
use crate::model::{
    ContentProvider, InstanceUpgradeAction, InstanceUpgradeDependencyRequirement,
    InstanceUpgradeFixedConstraint, InstanceUpgradeIssue, InstanceUpgradeIssueCode,
    InstanceUpgradePrereleaseConfirmation,
};
use crate::upgrade::candidates::{
    CandView, CandidateChannel, CandidateDependencyKind, DepView, KeyView, NodeKey,
    UpgradeCandidate, UpgradeCatalog, PoolView, cands_view, copy_cands, copy_opt, in_catalog,
    opt_view, catalog_wf, pool_of,
};
use crate::upgrade::issues::{copy_requirements_details, issue, issue_with_requirements};
use crate::upgrade::search_spec::{
    admits, cands_for, env_of, first_in, first_key, first_out, full_req, full_reqs, lemma_first_key,
    spec_incompatible,
};

verus! {

/// Upper bound on the search states the solver visits.
pub const MAX_SEARCH_STATES: usize = 10000;

/// A root content item the plan must place.
#[derive(Debug)]
pub struct RootRequest {
    pub content_id: String,
    pub key: NodeKey,
    pub current_release_id: String,
    pub enabled: bool,
    pub action: InstanceUpgradeAction,
    pub allow_prerelease: bool,
}

/// A project that some chosen release (or the user) needs.
#[derive(Debug)]
pub struct Requirement {
    pub key: NodeKey,
    pub version_id: Option<String>,
    pub explicit_prerelease: bool,
    pub preserve_unsafe: bool,
    pub root_content_id: String,
    pub root_key: NodeKey,
    pub origins: Vec<InstanceUpgradeDependencyRequirement>,
}

pub struct ReqView {
    pub key: KeyView,
    pub version_id: Option<Seq<char>>,
    pub preserve_unsafe: bool,
}

pub open spec fn req_view(r: Requirement) -> ReqView {
    ReqView { key: r.key@, version_id: opt_view(r.version_id), preserve_unsafe: r.preserve_unsafe }
}

pub open spec fn reqs_view(s: Seq<Requirement>) -> Seq<ReqView> {
    s.map_values(|r: Requirement| req_view(r))
}

/// One assignment of releases found by the search.
#[derive(Debug)]
pub struct SolverResult {
    /// Chosen releases; each project occurs once.
    pub assignments: Vec<UpgradeCandidate>,
    /// Projects kept at a release that may not fit the target environment.
    pub preserved_unsafe: Vec<NodeKey>,
}

pub open spec fn result_view(r: SolverResult) -> Seq<CandView> {
    cands_view(r.assignments@)
}

#[derive(Debug)]
pub struct SearchState {
    pub visited: usize,
    pub limit_reached: bool,
    pub first_issue: Option<InstanceUpgradeIssue>,
}

#[derive(Debug)]
pub struct SolveOutcome {
    pub solutions: Vec<SolverResult>,
    pub issues: Vec<InstanceUpgradeIssue>,
}

/// `a` declares itself incompatible with `b`'s release.
pub open spec fn incompatible_pair(a: CandView, b: CandView) -> bool {
    exists|i: int|
        0 <= i < a.dependencies.len() && #[trigger] a.dependencies[i].kind
            == CandidateDependencyKind::Incompatible && a.dependencies[i].key == b.key && (
        a.dependencies[i].version_id is None || a.dependencies[i].version_id == Some(
            b.version_id,
        ))
}

pub open spec fn distinct_keys(s: Seq<CandView>) -> bool {
    forall|i: int, j: int| 0 <= i < s.len() && 0 <= j < s.len() && i != j ==> s[i].key != s[j].key
}

pub open spec fn conflict_free(s: Seq<CandView>) -> bool {
    forall|i: int, j: int|
        0 <= i < s.len() && 0 <= j < s.len() && i != j ==> !incompatible_pair(s[i], s[j])
}

pub open spec fn all_in_catalog(s: Seq<CandView>, c: Seq<PoolView>) -> bool {
    forall|i: int| 0 <= i < s.len() ==> in_catalog(#[trigger] s[i], c)
}

/// A consistent assignment: one release per project, no declared
/// incompatibility between two chosen releases, every release from the
/// catalog.
pub open spec fn valid_assignment(s: Seq<CandView>, c: Seq<PoolView>) -> bool {
    distinct_keys(s) && conflict_free(s) && all_in_catalog(s, c)
}

/// The assignment has a release of `key`, of version `version` when one is
/// given.
pub open spec fn assigned_with(s: Seq<CandView>, key: KeyView, version: Option<Seq<char>>) -> bool {
    exists|j: int|
        0 <= j < s.len() && #[trigger] s[j].key == key && (version is None || version == Some(
            s[j].version_id,
        ))
}

pub open spec fn req_sat(r: ReqView, s: Seq<CandView>) -> bool {
    r.preserve_unsafe || assigned_with(s, r.key, r.version_id)
}

/// `big` keeps every release of `small`, at the same positions.
pub open spec fn extends(big: Seq<CandView>, small: Seq<CandView>) -> bool {
    small.len() <= big.len() && forall|i: int| 0 <= i < small.len() ==> big[i] == small[i]
}

pub proof fn lemma_assigned_extends(big: Seq<CandView>, small: Seq<CandView>, key: KeyView, version: Option<Seq<char>>)
    requires
        extends(big, small),
        assigned_with(small, key, version),
    ensures
        assigned_with(big, key, version),
{
    let j = choose|j: int|
        0 <= j < small.len() && #[trigger] small[j].key == key && (version is None || version == Some(
            small[j].version_id,
        ));
    assert(big[j] == small[j]);
}

pub fn copy_key_vec(v: &Vec<NodeKey>) -> (r: Vec<NodeKey>)
    ensures
        r@.len() == v@.len(),
        forall|i: int| 0 <= i < v@.len() ==> (#[trigger] r@[i])@ == v@[i]@,
{
    let mut r: Vec<NodeKey> = Vec::new();
    let mut i: usize = 0;
    while i < v.len()
        invariant
            i <= v.len(),
            r@.len() == i,
            forall|k: int| 0 <= k < i ==> (#[trigger] r@[k])@ == v@[k]@,
        decreases v.len() - i,
    {
        r.push(v[i].copy());
        i += 1;
    }
    r
}

pub fn contains_key(v: &Vec<NodeKey>, key: &NodeKey) -> (r: bool)
    ensures
        r == exists|i: int| 0 <= i < v@.len() && (#[trigger] v@[i])@ == key@,
{
    let mut i: usize = 0;
    while i < v.len()
        invariant
            i <= v.len(),
            forall|k: int| 0 <= k < i ==> (#[trigger] v@[k])@ != key@,
        decreases v.len() - i,
    {
        if v[i].same(key) {
            return true;
        }
        i += 1;
    }
    false
}

/// Position of the release chosen for `key` (the first, where several are).
pub fn find_assignment(assignments: &Vec<UpgradeCandidate>, key: &NodeKey) -> (r: Option<usize>)
    ensures
        r matches Some(j) ==> j < assignments@.len() && assignments@[j as int].key@ == key@ && forall|k: int|
            0 <= k < j ==> (#[trigger] assignments@[k]).key@ != key@,
        r is None ==> forall|j: int| 0 <= j < assignments@.len() ==> (#[trigger] assignments@[j]).key@ != key@,
{
    let mut i: usize = 0;
    while i < assignments.len()
        invariant
            i <= assignments.len(),
            forall|j: int| 0 <= j < i ==> (#[trigger] assignments@[j]).key@ != key@,
        decreases assignments.len() - i,
    {
        if assignments[i].key.same(key) {
            return Some(i);
        }
        i += 1;
    }
    None
}

/// The version the user fixed for `key`: the last constraint on the project
/// wins.
pub open spec fn fixed_spec(fixed: Seq<InstanceUpgradeFixedConstraint>, key: KeyView) -> Option<
    Seq<char>,
>
    decreases fixed.len(),
{
    if fixed.len() == 0 {
        None
    } else if (fixed.last().provider, fixed.last().project_id@) == key {
        Some(fixed.last().version_id@)
    } else {
        fixed_spec(fixed.drop_last(), key)
    }
}

/// The fixed version the user chose for `key` (the last one given).
pub fn fixed_version(fixed: &Vec<InstanceUpgradeFixedConstraint>, key: &NodeKey) -> (r: Option<String>)
    ensures
        opt_view(r) == fixed_spec(fixed@, key@),
{
    let mut i = fixed.len();
    assert(fixed@.subrange(0, i as int) =~= fixed@);
    while i > 0
        invariant
            i <= fixed.len(),
            fixed_spec(fixed@, key@) == fixed_spec(fixed@.subrange(0, i as int), key@),
        decreases i,
    {
        let ghost pre = fixed@.subrange(0, i as int);
        assert(pre.drop_last() =~= fixed@.subrange(0, i - 1));
        i -= 1;
        if fixed[i].provider == key.provider && fixed[i].project_id == key.project_id {
            let v = fixed[i].version_id.clone();
            return Some(v);
        }
    }
    None
}

pub fn is_confirmed(
    confirmed: &Vec<InstanceUpgradePrereleaseConfirmation>,
    key: &NodeKey,
    version_id: &String,
) -> (r: bool)
    ensures
        r == exists|i: int|
            0 <= i < confirmed@.len() && (#[trigger] confirmed@[i]).provider == key.provider
                && confirmed@[i].project_id@ == key.project_id@ && confirmed@[i].version_id@
                == version_id@,
{
    let mut i: usize = 0;
    while i < confirmed.len()
        invariant
            i <= confirmed.len(),
            forall|k: int|
                0 <= k < i ==> !((#[trigger] confirmed@[k]).provider == key.provider
                    && confirmed@[k].project_id@ == key.project_id@ && confirmed@[k].version_id@
                    == version_id@),
        decreases confirmed.len() - i,
    {
        if confirmed[i].provider == key.provider && confirmed[i].project_id == key.project_id
            && confirmed[i].version_id == *version_id {
            return true;
        }
        i += 1;
    }
    false
}

/// The first root of `key`.
pub fn find_root(roots: &Vec<RootRequest>, key: &NodeKey) -> (r: Option<usize>)
    ensures
        r matches Some(j) ==> j < roots@.len() && roots@[j as int].key@ == key@ && forall|k: int|
            0 <= k < j ==> (#[trigger] roots@[k]).key@ != key@,
        r is None ==> forall|k: int| 0 <= k < roots@.len() ==> (#[trigger] roots@[k]).key@ != key@,
{
    let mut i: usize = 0;
    while i < roots.len()
        invariant
            i <= roots.len(),
            forall|k: int| 0 <= k < i ==> (#[trigger] roots@[k]).key@ != key@,
        decreases roots.len() - i,
    {
        if roots[i].key.same(key) {
            return Some(i);
        }
        i += 1;
    }
    None
}

/// Whether `requirement` admits `candidate` (the root of the requirement's
/// project, if any, and the confirmed prereleases decide).
pub open spec fn admitted(
    req: ReqView,
    explicit_prerelease: bool,
    root: Option<RootRequest>,
    confirmed: Seq<InstanceUpgradePrereleaseConfirmation>,
    c: CandView,
) -> bool {
    &&& (req.version_id matches Some(v) ==> c.version_id == v)
    &&& match root {
        Some(root) => if root.action == InstanceUpgradeAction::Keep || root.action
            == InstanceUpgradeAction::Disable {
            c.version_id == root.current_release_id@
        } else {
            c.compatible && (c.channel == CandidateChannel::Release || root.allow_prerelease
                || explicit_prerelease)
        },
        None => if req.preserve_unsafe {
            c.installed_current
        } else {
            c.compatible && (c.channel == CandidateChannel::Release || exists|i: int|
                0 <= i < confirmed.len() && (confirmed[i].provider, #[trigger] confirmed[i].project_id@)
                    == c.key && confirmed[i].version_id@ == c.version_id)
        },
    }
}

/// The candidates of the requirement's project that it admits, in pool order.
pub fn candidates_for_requirement(
    requirement: &Requirement,
    roots: &Vec<RootRequest>,
    catalog: &UpgradeCatalog,
    confirmed: &Vec<InstanceUpgradePrereleaseConfirmation>,
) -> (r: Vec<UpgradeCandidate>)
    ensures
        catalog_wf(catalog@),
        cands_view(r@) == cands_for(full_req(*requirement), env_of(roots@, catalog@, confirmed@)),
        forall|i: int|
            0 <= i < r@.len() ==> in_catalog((#[trigger] r@[i])@, catalog@) && r@[i]@.key
                == requirement.key@ && (requirement.version_id matches Some(v) ==> r@[i]@.version_id
                == v@),
        cands_view(r@) == pool_of(catalog@, requirement.key@).filter(
            |c: CandView|
                admitted(
                    req_view(*requirement),
                    requirement.explicit_prerelease,
                    match find_root_spec(roots@, requirement.key@) {
                        Some(j) => Some(roots@[j]),
                        None => None,
                    },
                    confirmed@,
                    c,
                ),
        ),
{
    let root_index = find_root(roots, &requirement.key);
    let ghost root = match root_index {
        Some(j) => Some(roots@[j as int]),
        None => None,
    };
    proof {
        lemma_find_root_spec(roots@, requirement.key@, root_index);
    }
    let ghost pred = |c: CandView|
        admitted(req_view(*requirement), requirement.explicit_prerelease, root, confirmed@, c);
    assert(pred =~= (|c: CandView|
        admitted(
            req_view(*requirement),
            requirement.explicit_prerelease,
            match find_root_spec(roots@, requirement.key@) {
                Some(j) => Some(roots@[j]),
                None => None,
            },
            confirmed@,
            c,
        )));
    assert(admits(full_req(*requirement), env_of(roots@, catalog@, confirmed@)) =~= pred);
    let mut result: Vec<UpgradeCandidate> = Vec::new();
    match catalog.get(&requirement.key) {
        None => {
            proof {
                reveal(Seq::filter);
                assert(pool_of(catalog@, requirement.key@) =~= Seq::<CandView>::empty());
                assert(Seq::<CandView>::empty().filter(pred) =~= Seq::<CandView>::empty());
            }
            result
        },
        Some(pool) => {
            let ghost e = choose|e: int|
                0 <= e < catalog@.len() && catalog@[e].key == requirement.key@ && #[trigger] catalog@[e].candidates
                    == cands_view(pool.candidates@) && catalog@[e].exploration_limited
                    == pool.exploration_limited;
            assert(pool_of(catalog@, requirement.key@) == cands_view(pool.candidates@)) by {
                let f = choose|f: int| 0 <= f < catalog@.len() && catalog@[f].key == requirement.key@;
                assert(f == e);
            }
            let ghost cv = cands_view(pool.candidates@);
            let mut i: usize = 0;
            while i < pool.candidates.len()
                invariant
                    i <= pool.candidates.len(),
                    catalog_wf(catalog@),
                    0 <= e < catalog@.len(),
                    catalog@[e].key == requirement.key@,
                    catalog@[e].candidates == cv,
                    cv == cands_view(pool.candidates@),
                    pred == (|c: CandView|
                        admitted(req_view(*requirement), requirement.explicit_prerelease, root, confirmed@, c)),
                    root_index matches Some(j) ==> j < roots@.len() && root == Some(roots@[j as int]),
                    root_index is None ==> root is None,
                    cands_view(result@) == cv.subrange(0, i as int).filter(pred),
                    forall|k: int|
                        0 <= k < result@.len() ==> in_catalog((#[trigger] result@[k])@, catalog@)
                            && result@[k]@.key == requirement.key@ && (
                        requirement.version_id matches Some(v) ==> result@[k]@.version_id == v@),
                decreases pool.candidates.len() - i,
            {
                let candidate = &pool.candidates[i];
                assert(cv[i as int] == candidate@);
                let mut accept = true;
                match &requirement.version_id {
                    Some(v) => {
                        if candidate.version_id != *v {
                            accept = false;
                        }
                    },
                    None => {},
                }
                if accept {
                    match root_index {
                        Some(j) => {
                            let root_ref = &roots[j];
                            if root_ref.action == InstanceUpgradeAction::Keep || root_ref.action
                                == InstanceUpgradeAction::Disable {
                                accept = candidate.version_id == root_ref.current_release_id;
                            } else {
                                accept = candidate.compatible && (!candidate.channel.is_prerelease()
                                    || root_ref.allow_prerelease || requirement.explicit_prerelease);
                            }
                        },
                        None => {
                            if requirement.preserve_unsafe {
                                accept = candidate.installed_current;
                            } else {
                                accept = candidate.compatible && (!candidate.channel.is_prerelease()
                                    || is_confirmed(confirmed, &candidate.key, &candidate.version_id));
                            }
                        },
                    }
                }
                assert(accept == pred(cv[i as int]));
                proof {
                    let s1 = cv.subrange(0, i + 1);
                    assert(s1.drop_last() =~= cv.subrange(0, i as int));
                    reveal(Seq::filter);
                }
                if accept {
                    let c = candidate.copy();
                    let ghost before = result@;
                    result.push(c);
                    assert(result@ =~= before.push(c));
                    assert(cands_view(result@) =~= cands_view(before).push(c@));
                    assert(in_catalog(c@, catalog@)) by {
                        assert(catalog@[e].candidates[i as int] == c@);
                    }
                    assert(c@.key == requirement.key@);
                }
                i += 1;
            }
            assert(cv.subrange(0, cv.len() as int) == cv);
            result
        },
    }
}

/// Index of the first root of `key`, in spec.
pub open spec fn find_root_spec(roots: Seq<RootRequest>, key: KeyView) -> Option<int> {
    if exists|j: int| 0 <= j < roots.len() && roots[j].key@ == key {
        Some(
            choose|j: int|
                0 <= j < roots.len() && roots[j].key@ == key && forall|k: int|
                    0 <= k < j ==> (#[trigger] roots[k]).key@ != key,
        )
    } else {
        None
    }
}

pub proof fn lemma_find_root_spec(roots: Seq<RootRequest>, key: KeyView, r: Option<usize>)
    requires
        r matches Some(j) ==> j < roots.len() && roots[j as int].key@ == key && forall|k: int|
            0 <= k < j ==> (#[trigger] roots[k]).key@ != key,
        r is None ==> forall|k: int| 0 <= k < roots.len() ==> (#[trigger] roots[k]).key@ != key,
    ensures
        find_root_spec(roots, key) == match r {
            Some(j) => Some(j as int),
            None => None::<int>,
        },
{
    match r {
        Some(j) => {
            assert(exists|j: int| 0 <= j < roots.len() && roots[j].key@ == key);
            let c = choose|c: int|
                0 <= c < roots.len() && roots[c].key@ == key && forall|k: int|
                    0 <= k < c ==> (#[trigger] roots[k]).key@ != key;
            assert(roots[j as int].key@ == key);
            if c < j {
            } else if c > j {
                assert(roots[j as int].key@ != key);
            }
        },
        None => {},
    }
}

/// The key of an assigned release that conflicts with `candidate`, in
/// either direction.
pub fn incompatible_with_assignments(
    candidate: &UpgradeCandidate,
    assignments: &Vec<UpgradeCandidate>,
) -> (r: Option<NodeKey>)
    requires
        distinct_keys(cands_view(assignments@)),
    ensures
        r is None <==> forall|j: int|
            0 <= j < assignments@.len() ==> !incompatible_pair(candidate@, (#[trigger] assignments@[j])@)
                && !incompatible_pair(assignments@[j]@, candidate@),
        match r {
            Some(k) => spec_incompatible(candidate@, cands_view(assignments@)) == Some(k@),
            None => spec_incompatible(candidate@, cands_view(assignments@)) is None,
        },
        r matches Some(k) ==> exists|j: int|
            0 <= j < assignments@.len() && (#[trigger] assignments@[j]).key@ == k@ && (
            incompatible_pair(candidate@, assignments@[j]@) || incompatible_pair(
                assignments@[j]@,
                candidate@,
            )),
{
    let ghost av = cands_view(assignments@);
    let ghost deps = candidate@.dependencies;
    assert(deps.skip(0) =~= deps);
    let mut d: usize = 0;
    while d < candidate.dependencies.len()
        invariant
            d <= candidate.dependencies.len(),
            av == cands_view(assignments@),
            deps == candidate@.dependencies,
            first_out(deps, av) == first_out(deps.skip(d as int), av),
            distinct_keys(av),
            forall|i: int, j: int|
                0 <= i < d && 0 <= j < assignments@.len() ==> !({
                    let dep = #[trigger] candidate@.dependencies[i];
                    dep.kind == CandidateDependencyKind::Incompatible && dep.key == (
                    #[trigger] assignments@[j])@.key && (dep.version_id is None || dep.version_id
                        == Some(assignments@[j]@.version_id))
                }),
        decreases candidate.dependencies.len() - d,
    {
        let dependency = &candidate.dependencies[d];
        assert(candidate@.dependencies[d as int] == dependency@);
        assert(deps.skip(d as int)[0] == dependency@);
        assert(deps.skip(d as int).drop_first() =~= deps.skip(d + 1));
        if dependency.kind == CandidateDependencyKind::Incompatible {
            let found = find_assignment(assignments, &dependency.key);
            proof {
                match found {
                    Some(j) => lemma_first_key(av, dependency@.key, j as int),
                    None => lemma_first_key(av, dependency@.key, av.len() as int),
                }
            }
            match found {
                Some(j) => {
                    let matches = match &dependency.version_id {
                        None => true,
                        Some(v) => *v == assignments[j].version_id,
                    };
                    if matches {
                        assert(incompatible_pair(candidate@, assignments@[j as int]@));
                        return Some(dependency.key.copy());
                    }
                    assert forall|k: int| 0 <= k < assignments@.len() implies !({
                        let dep = #[trigger] candidate@.dependencies[d as int];
                        dep.kind == CandidateDependencyKind::Incompatible && dep.key == (
                        #[trigger] assignments@[k])@.key && (dep.version_id is None
                            || dep.version_id == Some(assignments@[k]@.version_id))
                    }) by {
                        if k != j {
                            assert(av[k].key != av[j as int].key);
                        }
                    }
                },
                None => {},
            }
        }
        d += 1;
    }
    assert(deps.skip(d as int) =~= Seq::<DepView>::empty());
    assert forall|j: int| 0 <= j < assignments@.len() implies !incompatible_pair(candidate@, (
    #[trigger] assignments@[j])@) by {
        if incompatible_pair(candidate@, assignments@[j]@) {
            let i = choose|i: int|
                0 <= i < candidate@.dependencies.len() && #[trigger] candidate@.dependencies[i].kind
                    == CandidateDependencyKind::Incompatible && candidate@.dependencies[i].key
                    == assignments@[j]@.key && (candidate@.dependencies[i].version_id is None
                    || candidate@.dependencies[i].version_id == Some(assignments@[j]@.version_id));
            assert(candidate@.dependencies.len() == candidate.dependencies@.len());
        }
    }
    assert(av.skip(0) =~= av);
    let mut j: usize = 0;
    while j < assignments.len()
        invariant
            j <= assignments.len(),
            av == cands_view(assignments@),
            first_out(candidate@.dependencies, av) is None,
            first_in(av, candidate@) == first_in(av.skip(j as int), candidate@),
            forall|k: int| 0 <= k < assignments@.len() ==> !incompatible_pair(candidate@, (#[trigger] assignments@[k])@),
            forall|k: int| 0 <= k < j ==> !incompatible_pair((#[trigger] assignments@[k])@, candidate@),
        decreases assignments.len() - j,
    {
        let selected = &assignments[j];
        assert(av.skip(j as int)[0] == selected@);
        assert(av.skip(j as int).drop_first() =~= av.skip(j + 1));
        let mut e: usize = 0;
        while e < selected.dependencies.len()
            invariant
                e <= selected.dependencies.len(),
                j < assignments@.len(),
                *selected == assignments@[j as int],
                av == cands_view(assignments@),
                first_out(candidate@.dependencies, av) is None,
                first_in(av, candidate@) == first_in(av.skip(j as int), candidate@),
                av.skip(j as int)[0] == selected@,
                forall|i: int| 0 <= i < e ==> !({
                    let dep = #[trigger] selected@.dependencies[i];
                    dep.kind == CandidateDependencyKind::Incompatible && dep.key == candidate@.key && (
                    dep.version_id is None || dep.version_id == Some(candidate@.version_id))
                }),
            decreases selected.dependencies.len() - e,
        {
            let dependency = &selected.dependencies[e];
            assert(selected@.dependencies[e as int] == dependency@);
            if dependency.kind == CandidateDependencyKind::Incompatible && dependency.key.same(
                &candidate.key,
            ) {
                let matches = match &dependency.version_id {
                    None => true,
                    Some(v) => *v == candidate.version_id,
                };
                if matches {
                    assert(incompatible_pair(selected@, candidate@));
                    assert(assignments@[j as int].key@ == selected.key@);
                    return Some(selected.key.copy());
                }
            }
            e += 1;
        }
        assert(!incompatible_pair(selected@, candidate@)) by {
            if incompatible_pair(selected@, candidate@) {
                let i = choose|i: int|
                    0 <= i < selected@.dependencies.len() && #[trigger] selected@.dependencies[i].kind
                        == CandidateDependencyKind::Incompatible && selected@.dependencies[i].key
                        == candidate@.key && (selected@.dependencies[i].version_id is None
                        || selected@.dependencies[i].version_id == Some(candidate@.version_id));
                assert(selected@.dependencies.len() == selected.dependencies@.len());
            }
        }
        j += 1;
    }
    assert(av.skip(j as int) =~= Seq::<CandView>::empty());
    None
}

pub proof fn lemma_lift(
    sol: Seq<CandView>,
    assigns: Seq<CandView>,
    cand: CandView,
    rest: Seq<ReqView>,
    next_reqs: Seq<ReqView>,
    popped: ReqView,
)
    requires
        extends(sol, assigns.push(cand)),
        forall|i: int| 0 <= i < next_reqs.len() ==> req_sat(#[trigger] next_reqs[i], sol),
        rest.len() <= next_reqs.len(),
        forall|i: int| 0 <= i < rest.len() ==> next_reqs[i] == rest[i],
        cand.key == popped.key,
        popped.version_id matches Some(v) ==> cand.version_id == v,
    ensures
        extends(sol, assigns),
        forall|i: int| 0 <= i < rest.push(popped).len() ==> req_sat(#[trigger] rest.push(popped)[i], sol),
{
    assert(sol[assigns.len() as int] == cand);
    assert forall|i: int| 0 <= i < rest.push(popped).len() implies req_sat(#[trigger] rest.push(popped)[i], sol) by {
        if i < rest.len() {
            assert(next_reqs[i] == rest[i]);
        } else {
            assert(rest.push(popped)[i] == popped);
            assert(sol[assigns.len() as int].key == popped.key);
        }
    }
}

/// What the search promises of every solution it adds.
pub open spec fn solution_ok(
    sol: Seq<CandView>,
    assigns: Seq<CandView>,
    reqs: Seq<ReqView>,
    c: Seq<PoolView>,
) -> bool {
    &&& valid_assignment(sol, c)
    &&& extends(sol, assigns)
    &&& forall|i: int| 0 <= i < reqs.len() ==> req_sat(#[trigger] reqs[i], sol)
}

pub fn copy_requirement(r: &Requirement) -> (c: Requirement)
    ensures
        req_view(c) == req_view(*r),
        c.explicit_prerelease == r.explicit_prerelease,
        full_req(c) == full_req(*r),
{
    Requirement {
        key: r.key.copy(),
        version_id: copy_opt(&r.version_id),
        explicit_prerelease: r.explicit_prerelease,
        preserve_unsafe: r.preserve_unsafe,
        root_content_id: r.root_content_id.clone(),
        root_key: r.root_key.copy(),
        origins: copy_requirements_details(&r.origins),
    }
}

pub fn copy_requirements(v: &Vec<Requirement>) -> (r: Vec<Requirement>)
    ensures
        reqs_view(r@) == reqs_view(v@),
        full_reqs(r@) == full_reqs(v@),
{
    let mut r: Vec<Requirement> = Vec::new();
    let mut i: usize = 0;
    while i < v.len()
        invariant
            i <= v.len(),
            reqs_view(r@) == reqs_view(v@.subrange(0, i as int)),
            full_reqs(r@) == full_reqs(v@.subrange(0, i as int)),
        decreases v.len() - i,
    {
        let c = copy_requirement(&v[i]);
        let ghost before = r@;
        r.push(c);
        assert(r@ =~= before.push(c));
        assert(full_reqs(r@) =~= full_reqs(before).push(full_req(c)));
        assert(full_reqs(v@.subrange(0, i + 1)) =~= full_reqs(v@.subrange(0, i as int)).push(full_req(v@[i as int])));
        assert(reqs_view(v@.subrange(0, i + 1)) =~= reqs_view(v@.subrange(0, i as int)).push(req_view(v@[i as int])));
        assert(reqs_view(r@) =~= reqs_view(before).push(req_view(c)));
        i += 1;
    }
    assert(v@.subrange(0, v@.len() as int) =~= v@);
    r
}

/// Dependency edges recorded for an assigned project.
#[derive(Debug)]
pub struct OriginEntry {
    pub key: NodeKey,
    pub origins: Vec<InstanceUpgradeDependencyRequirement>,
}

/// The recorded edges as plain values: project and edges, entry by entry.
pub open spec fn origins_view(e: Seq<OriginEntry>) -> Seq<(KeyView, Seq<InstanceUpgradeDependencyRequirement>)> {
    e.map_values(|x: OriginEntry| (x.key@, x.origins@))
}

/// The position of the first entry of `key` (the length where there is none).
pub open spec fn first_origin<T>(e: Seq<(KeyView, T)>, key: KeyView) -> int
    decreases e.len(),
{
    if e.len() == 0 {
        0
    } else if e[0].0 == key {
        0
    } else {
        1 + first_origin(e.drop_first(), key)
    }
}

pub proof fn lemma_first_origin<T>(e: Seq<(KeyView, T)>, key: KeyView)
    ensures
        0 <= first_origin(e, key) <= e.len(),
        first_origin(e, key) < e.len() ==> e[first_origin(e, key)].0 == key,
        forall|k: int| 0 <= k < first_origin(e, key) ==> (#[trigger] e[k]).0 != key,
    decreases e.len(),
{
    if e.len() > 0 && e[0].0 != key {
        lemma_first_origin(e.drop_first(), key);
        assert forall|k: int| 0 <= k < first_origin(e, key) implies (#[trigger] e[k]).0 != key by {
            if k > 0 {
                assert(e[k] == e.drop_first()[k - 1]);
            }
        }
    }
}

/// The edges recorded for `key`: those of its first entry, none without one.
pub open spec fn spec_origins_of<T>(e: Seq<(KeyView, Seq<T>)>, key: KeyView) -> Seq<T> {
    if first_origin(e, key) < e.len() {
        e[first_origin(e, key)].1
    } else {
        Seq::empty()
    }
}

/// The entries once the edges `origins` are recorded for `key`: its first
/// entry's edges replaced by them (`replace`) or extended with them, or a new
/// entry at the end.
pub open spec fn spec_record_origins<T>(
    e: Seq<(KeyView, Seq<T>)>,
    key: KeyView,
    origins: Seq<T>,
    replace: bool,
) -> Seq<(KeyView, Seq<T>)> {
    let i = first_origin(e, key);
    if i < e.len() {
        e.update(i, (e[i].0, (if replace { Seq::empty() } else { e[i].1 }) + origins))
    } else {
        e.push((key, origins))
    }
}

fn origin_position(entries: &Vec<OriginEntry>, key: &NodeKey) -> (r: Option<usize>)
    ensures
        match r {
            Some(i) => i == first_origin(origins_view(entries@), key@) && i < entries@.len(),
            None => first_origin(origins_view(entries@), key@) == entries@.len(),
        },
{
    let ghost ev = origins_view(entries@);
    proof {
        lemma_first_origin(ev, key@);
    }
    let mut i: usize = 0;
    while i < entries.len()
        invariant
            i <= entries.len(),
            ev == origins_view(entries@),
            0 <= first_origin(ev, key@) <= ev.len(),
            first_origin(ev, key@) < ev.len() ==> ev[first_origin(ev, key@)].0 == key@,
            forall|k: int| 0 <= k < first_origin(ev, key@) ==> (#[trigger] ev[k]).0 != key@,
            forall|k: int| 0 <= k < i ==> (#[trigger] entries@[k]).key@ != key@,
        decreases entries.len() - i,
    {
        if entries[i].key.same(key) {
            proof {
                let f = first_origin(ev, key@);
                assert(ev[i as int].0 == key@);
                if f < i {
                    assert(entries@[f].key@ == ev[f].0);
                }
            }
            return Some(i);
        }
        i += 1;
    }
    proof {
        let f = first_origin(ev, key@);
        if f < ev.len() {
            assert(entries@[f].key@ == ev[f].0);
        }
    }
    None
}

/// The edges recorded for `key`.
pub fn origins_of(entries: &Vec<OriginEntry>, key: &NodeKey) -> (r: Vec<InstanceUpgradeDependencyRequirement>)
    ensures
        r@ == spec_origins_of(origins_view(entries@), key@),
{
    match origin_position(entries, key) {
        Some(i) => copy_requirements_details(&entries[i].origins),
        None => Vec::new(),
    }
}

/// A copy of the recorded edges.
pub fn copy_origins(entries: &Vec<OriginEntry>) -> (r: Vec<OriginEntry>)
    ensures
        origins_view(r@) == origins_view(entries@),
{
    let mut r: Vec<OriginEntry> = Vec::new();
    let mut i: usize = 0;
    while i < entries.len()
        invariant
            i <= entries.len(),
            origins_view(r@) == origins_view(entries@.subrange(0, i as int)),
        decreases entries.len() - i,
    {
        let ghost before = r@;
        r.push(OriginEntry { key: entries[i].key.copy(), origins: copy_requirements_details(&entries[i].origins) });
        assert(origins_view(r@) =~= origins_view(before).push((entries@[i as int].key@, entries@[i as int].origins@)));
        assert(origins_view(entries@.subrange(0, i + 1)) =~= origins_view(entries@.subrange(0, i as int)).push(
            (entries@[i as int].key@, entries@[i as int].origins@),
        ));
        i += 1;
    }
    assert(entries@.subrange(0, entries@.len() as int) =~= entries@);
    r
}

/// Sets (`replace`) or extends the recorded edges of `key`.
pub fn record_origins(
    entries: Vec<OriginEntry>,
    key: &NodeKey,
    origins: Vec<InstanceUpgradeDependencyRequirement>,
    replace: bool,
) -> (r: Vec<OriginEntry>)
    ensures
        origins_view(r@) == spec_record_origins(origins_view(entries@), key@, origins@, replace),
{
    let mut entries = entries;
    let mut origins = origins;
    let ghost ev = origins_view(entries@);
    let ghost ov = origins@;
    match origin_position(&entries, key) {
        Some(i) => {
            let mut merged = if replace {
                Vec::new()
            } else {
                copy_requirements_details(&entries[i].origins)
            };
            let ghost start = merged@;
            merged.append(&mut origins);
            let k = entries[i].key.copy();
            let ghost new_entry = OriginEntry { key: k, origins: merged };
            entries.set(i, OriginEntry { key: k, origins: merged });
            proof {
                assert(merged@ == start + ov);
                assert(start =~= (if replace { Seq::<InstanceUpgradeDependencyRequirement>::empty() } else { ev[i as int].1 }));
                assert(origins_view(entries@) =~= ev.update(i as int, (ev[i as int].0, start + ov)));
            }
            entries
        },
        None => {
            let ghost before = entries@;
            entries.push(OriginEntry { key: key.copy(), origins });
            assert(origins_view(entries@) =~= ev.push((key@, ov)));
            entries
        },
    }
}

pub(crate) fn record_issue(state: &mut SearchState, issue: InstanceUpgradeIssue)
    ensures
        final(state).visited == old(state).visited,
        final(state).limit_reached == old(state).limit_reached,
        final(state).first_issue == (if old(state).first_issue is Some {
            old(state).first_issue
        } else {
            Some(issue)
        }),
{
    if state.first_issue.is_none() {
        state.first_issue = Some(issue);
    }
}

/// The edge from `parent` to `dependency_key`, explained by the root it
/// was reached from.
pub open spec fn spec_dependency_requirement(
    root_content_id: String,
    root_key: NodeKey,
    parent: UpgradeCandidate,
    dependency_key: NodeKey,
    required_release_id: Option<String>,
    candidate_release_id: Option<String>,
) -> InstanceUpgradeDependencyRequirement {
    InstanceUpgradeDependencyRequirement {
        root_content_id,
        root_provider: root_key.provider,
        root_project_id: root_key.project_id,
        parent_provider: parent.key.provider,
        parent_project_id: parent.key.project_id,
        parent_release_id: parent.version_id,
        dependency_provider: dependency_key.provider,
        dependency_project_id: dependency_key.project_id,
        required_release_id,
        candidate_release_id,
    }
}

pub(crate) fn dependency_requirement(
    root_content_id: &String,
    root_key: &NodeKey,
    parent: &UpgradeCandidate,
    dependency_key: &NodeKey,
    required_release_id: Option<String>,
    candidate_release_id: Option<String>,
) -> (r: InstanceUpgradeDependencyRequirement)
    ensures
        r == spec_dependency_requirement(
            *root_content_id,
            *root_key,
            *parent,
            *dependency_key,
            required_release_id,
            candidate_release_id,
        ),
{
    InstanceUpgradeDependencyRequirement {
        root_content_id: root_content_id.clone(),
        root_provider: root_key.provider,
        root_project_id: root_key.project_id.clone(),
        parent_provider: parent.key.provider,
        parent_project_id: parent.key.project_id.clone(),
        parent_release_id: parent.version_id.clone(),
        dependency_provider: dependency_key.provider,
        dependency_project_id: dependency_key.project_id.clone(),
        required_release_id,
        candidate_release_id,
    }
}

} // verus!
