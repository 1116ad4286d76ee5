//! The backtracking search over candidate releases and the laws its
//! solutions obey.
use vstd::prelude::*;
use crate::model::{
    InstanceUpgradeAction, InstanceUpgradeDependencyRequirement, InstanceUpgradeFixedConstraint, InstanceUpgradeIssue,
    InstanceUpgradeIssueCode, InstanceUpgradePrereleaseConfirmation,
};
use crate::upgrade::candidates::{
    CandView, CandidateChannel, CandidateDependencyKind, KeyView, NodeKey, PoolView, UpgradeCandidate,
    UpgradeCatalog, cands_view, copy_cands, in_catalog, opt_view, pool_of,
};
use crate::upgrade::issues::{copy_requirement_detail, copy_requirements_details, issue, issue_with_requirements};
use crate::upgrade::search_spec::{
    DetailView, SearchNode, SolView, child, conflict_view, dep_req, dep_reqs, detail_view, details_view,
    env_of, exact_conflict_issue, full_req, full_reqs, incompatible_issue, issue_spec, lemma_dmap_origins,
    lemma_first_key, no_release_issue, node_of, cands_for, first_key, FullReq, root_reqs, initial_node,
    origins_dview, SearchSt, plan_search, issues_spec, outcome_issues, any_limited, note, root_req, sol_view, sols_view, spec_search, spec_try,
    st_view, with_candidate, admits, SearchEnv,
};
use crate::upgrade::solver::{
    MAX_SEARCH_STATES, OriginEntry, ReqView, Requirement, RootRequest, SearchState, SolverResult,
    assigned_with, candidates_for_requirement, conflict_free, contains_key, copy_key_vec,
    copy_origins, copy_requirements, distinct_keys, extends, find_assignment, find_root, spec_record_origins,
    origins_view,
    incompatible_pair, incompatible_with_assignments, lemma_assigned_extends, lemma_lift,
    origins_of, record_issue, record_origins, req_sat, req_view, reqs_view, result_view,
    solution_ok, valid_assignment, all_in_catalog, find_root_spec, dependency_requirement,
    SolveOutcome, fixed_spec,
    fixed_version,
};

verus! {

pub open spec fn keys_view(v: Seq<NodeKey>) -> Seq<KeyView> {
    v.map_values(|k: NodeKey| k@)
}

/// Every required dependency of a release chosen for a project outside
/// `preserved` is chosen as well, at the pinned release when the edge pins
/// one.
pub open spec fn dependency_closed(s: Seq<CandView>, preserved: Seq<KeyView>) -> bool {
    forall|i: int, d: int|
        0 <= i < s.len() && !preserved.contains(s[i].key) && 0 <= d < s[i].dependencies.len()
            && (#[trigger] s[i].dependencies[d]).kind == CandidateDependencyKind::Required
            ==> assigned_with(s, s[i].dependencies[d].key, s[i].dependencies[d].version_id)
}

/// A requirement for `key` at `version` that may not be skipped is still
/// waiting.
pub open spec fn safe_pending(reqs: Seq<ReqView>, key: KeyView, version: Option<Seq<char>>) -> bool {
    exists|r: int|
        0 <= r < reqs.len() && !(#[trigger] reqs[r]).preserve_unsafe && reqs[r].key == key
            && reqs[r].version_id == version
}

/// Each required edge of a safely chosen release is met or still waiting.
pub open spec fn closure_pending(s: Seq<CandView>, preserved: Seq<KeyView>, reqs: Seq<ReqView>) -> bool {
    forall|i: int, d: int|
        0 <= i < s.len() && !preserved.contains(s[i].key) && 0 <= d < s[i].dependencies.len()
            && (#[trigger] s[i].dependencies[d]).kind == CandidateDependencyKind::Required
            ==> assigned_with(s, s[i].dependencies[d].key, s[i].dependencies[d].version_id)
            || safe_pending(reqs, s[i].dependencies[d].key, s[i].dependencies[d].version_id)
}

/// What the search promises of each solution it reports.
pub open spec fn result_ok(
    r: SolverResult,
    assigns: Seq<CandView>,
    reqs: Seq<ReqView>,
    c: Seq<PoolView>,
) -> bool {
    &&& solution_ok(result_view(r), assigns, reqs, c)
    &&& dependency_closed(result_view(r), keys_view(r.preserved_unsafe@))
}

proof fn lemma_pending_pop(s: Seq<CandView>, pv: Seq<KeyView>, rest: Seq<ReqView>, popped: ReqView)
    requires
        closure_pending(s, pv, rest.push(popped)),
        popped.preserve_unsafe || assigned_with(s, popped.key, popped.version_id),
    ensures
        closure_pending(s, pv, rest),
{
    let all = rest.push(popped);
    assert forall|i: int, d: int|
        0 <= i < s.len() && !pv.contains(s[i].key) && 0 <= d < s[i].dependencies.len()
            && (#[trigger] s[i].dependencies[d]).kind
            == CandidateDependencyKind::Required implies assigned_with(
        s,
        s[i].dependencies[d].key,
        s[i].dependencies[d].version_id,
    ) || safe_pending(rest, s[i].dependencies[d].key, s[i].dependencies[d].version_id) by {
        let dep = s[i].dependencies[d];
        if !assigned_with(s, dep.key, dep.version_id) {
            assert(safe_pending(all, dep.key, dep.version_id));
            let r = choose|r: int|
                0 <= r < all.len() && !(#[trigger] all[r]).preserve_unsafe && all[r].key == dep.key
                    && all[r].version_id == dep.version_id;
            if r < rest.len() {
                assert(all[r] == rest[r]);
            } else {
                assert(all[r] == popped);
            }
        }
    }
}

proof fn lemma_done(s: Seq<CandView>, pv: Seq<KeyView>, reqs: Seq<ReqView>)
    requires
        closure_pending(s, pv, reqs),
        reqs.len() == 0,
    ensures
        dependency_closed(s, pv),
{
}

proof fn lemma_pending_step(
    av: Seq<CandView>,
    cand: CandView,
    pv: Seq<KeyView>,
    pv2: Seq<KeyView>,
    rest: Seq<ReqView>,
    popped: ReqView,
    next: Seq<ReqView>,
)
    requires
        closure_pending(av, pv, rest.push(popped)),
        cand.key == popped.key,
        popped.version_id matches Some(v) ==> cand.version_id == v,
        pv2 == (if popped.preserve_unsafe {
            pv.push(cand.key)
        } else {
            pv
        }),
        rest.len() <= next.len(),
        forall|i: int| 0 <= i < rest.len() ==> next[i] == rest[i],
        !popped.preserve_unsafe ==> forall|d: int|
            0 <= d < cand.dependencies.len() && (#[trigger] cand.dependencies[d]).kind
                == CandidateDependencyKind::Required ==> safe_pending(
                next,
                cand.dependencies[d].key,
                cand.dependencies[d].version_id,
            ),
    ensures
        closure_pending(av.push(cand), pv2, next),
{
    let s = av.push(cand);
    let all = rest.push(popped);
    assert forall|i: int, d: int|
        0 <= i < s.len() && !pv2.contains(s[i].key) && 0 <= d < s[i].dependencies.len()
            && (#[trigger] s[i].dependencies[d]).kind
            == CandidateDependencyKind::Required implies assigned_with(
        s,
        s[i].dependencies[d].key,
        s[i].dependencies[d].version_id,
    ) || safe_pending(next, s[i].dependencies[d].key, s[i].dependencies[d].version_id) by {
        let dep = s[i].dependencies[d];
        if i < av.len() {
            assert(s[i] == av[i]);
            assert(!pv.contains(av[i].key)) by {
                if pv.contains(av[i].key) {
                    let w = choose|w: int| 0 <= w < pv.len() && pv[w] == av[i].key;
                    if popped.preserve_unsafe {
                        assert(pv2[w] == pv[w]);
                    }
                }
            }
            assert(av[i].dependencies[d] == dep);
            if assigned_with(av, dep.key, dep.version_id) {
                lemma_assigned_extends(s, av, dep.key, dep.version_id);
            } else {
                assert(safe_pending(all, dep.key, dep.version_id));
                let r = choose|r: int|
                    0 <= r < all.len() && !(#[trigger] all[r]).preserve_unsafe && all[r].key
                        == dep.key && all[r].version_id == dep.version_id;
                if r < rest.len() {
                    assert(all[r] == rest[r]);
                    assert(next[r] == rest[r]);
                } else {
                    assert(all[r] == popped);
                    assert(s[av.len() as int] == cand);
                }
            }
        } else {
            assert(s[i] == cand);
            if popped.preserve_unsafe {
                assert(pv2[pv.len() as int] == cand.key);
            }
            assert(cand.dependencies[d] == dep);
        }
    }
}

proof fn lemma_valid_push(av: Seq<CandView>, cand: CandView, c: Seq<PoolView>)
    requires
        valid_assignment(av, c),
        in_catalog(cand, c),
        forall|j: int| 0 <= j < av.len() ==> (#[trigger] av[j]).key != cand.key,
        forall|j: int|
            0 <= j < av.len() ==> !incompatible_pair(cand, #[trigger] av[j]) && !incompatible_pair(
                av[j],
                cand,
            ),
    ensures
        valid_assignment(av.push(cand), c),
{
    let s = av.push(cand);
    assert(distinct_keys(s)) by {
        assert forall|i: int, j: int| 0 <= i < s.len() && 0 <= j < s.len() && i != j implies s[i].key
            != s[j].key by {
            if i < av.len() && j < av.len() {
                assert(s[i] == av[i] && s[j] == av[j]);
            } else if i < av.len() {
                assert(s[i] == av[i]);
            } else {
                assert(s[j] == av[j]);
            }
        }
    }
    assert(conflict_free(s)) by {
        assert forall|i: int, j: int| 0 <= i < s.len() && 0 <= j < s.len() && i != j implies !incompatible_pair(
            s[i],
            s[j],
        ) by {
            if i < av.len() && j < av.len() {
                assert(s[i] == av[i] && s[j] == av[j]);
            } else if i < av.len() {
                assert(s[i] == av[i]);
            } else {
                assert(s[j] == av[j]);
            }
        }
    }
    assert(all_in_catalog(s, c)) by {
        assert forall|i: int| 0 <= i < s.len() implies in_catalog(#[trigger] s[i], c) by {
            if i < av.len() {
                assert(s[i] == av[i]);
            }
        }
    }
}

proof fn lemma_sat_pop(sol: Seq<CandView>, av: Seq<CandView>, rest: Seq<ReqView>, popped: ReqView)
    requires
        extends(sol, av),
        forall|i: int| 0 <= i < rest.len() ==> req_sat(#[trigger] rest[i], sol),
        popped.preserve_unsafe || assigned_with(av, popped.key, popped.version_id),
    ensures
        forall|i: int| 0 <= i < rest.push(popped).len() ==> req_sat(#[trigger] rest.push(popped)[i], sol),
{
    if !popped.preserve_unsafe {
        lemma_assigned_extends(sol, av, popped.key, popped.version_id);
    }
    assert forall|i: int| 0 <= i < rest.push(popped).len() implies req_sat(#[trigger] rest.push(popped)[i], sol) by {
        if i < rest.len() {
            assert(rest.push(popped)[i] == rest[i]);
        }
    }
}

/// The user keeps or disables the first root of `key`.
pub open spec fn kept_root(roots: Seq<RootRequest>, key: KeyView) -> bool {
    match find_root_spec(roots, key) {
        Some(j) => roots[j].action != InstanceUpgradeAction::Upgrade,
        None => false,
    }
}

/// Every chosen release is one the catalog marks compatible with the target,
/// unless its project is preserved as installed or is a root the user keeps
/// or disables.
pub open spec fn fits_target(s: Seq<CandView>, preserved: Seq<KeyView>, roots: Seq<RootRequest>) -> bool {
    forall|i: int|
        0 <= i < s.len() ==> (#[trigger] s[i]).compatible || preserved.contains(s[i].key) || kept_root(
            roots,
            s[i].key,
        )
}

proof fn lemma_fits_push(
    av: Seq<CandView>,
    cand: CandView,
    pv: Seq<KeyView>,
    pv2: Seq<KeyView>,
    fr: FullReq,
    env: SearchEnv,
)
    requires
        fits_target(av, pv, env.roots),
        admits(fr, env)(cand),
        cand.key == fr.key,
        pv2 == (if fr.preserve_unsafe {
            pv.push(cand.key)
        } else {
            pv
        }),
    ensures
        fits_target(av.push(cand), pv2, env.roots),
{
    let s = av.push(cand);
    assert forall|i: int| 0 <= i < s.len() implies (#[trigger] s[i]).compatible || pv2.contains(s[i].key)
        || kept_root(env.roots, s[i].key) by {
        if i < av.len() {
            assert(s[i] == av[i]);
            if pv.contains(av[i].key) {
                let w = choose|w: int| 0 <= w < pv.len() && pv[w] == av[i].key;
                if fr.preserve_unsafe {
                    assert(pv2[w] == pv[w]);
                }
            }
        } else {
            assert(s[i] == cand);
            if fr.preserve_unsafe {
                assert(pv2[pv.len() as int] == cand.key);
            }
        }
    }
}

/// Queues one requirement for each required dependency of `candidate`,
/// after the requirements already queued.
fn push_dependency_requirements(
    reqs: &mut Vec<Requirement>,
    requirement: &Requirement,
    candidate: &UpgradeCandidate,
)
    ensures
        old(reqs)@.len() <= final(reqs)@.len(),
        forall|i: int|
            0 <= i < old(reqs)@.len() ==> #[trigger] reqs_view(final(reqs)@)[i] == reqs_view(
                old(reqs)@,
            )[i],
        !requirement.preserve_unsafe ==> forall|d: int|
            0 <= d < candidate@.dependencies.len() && (#[trigger] candidate@.dependencies[d]).kind
                == CandidateDependencyKind::Required ==> safe_pending(
                reqs_view(final(reqs)@),
                candidate@.dependencies[d].key,
                candidate@.dependencies[d].version_id,
            ),
        full_reqs(final(reqs)@) == full_reqs(old(reqs)@) + dep_reqs(
            candidate@.dependencies,
            full_req(*requirement),
            candidate@,
        ),
{
    let ghost start = reqs_view(reqs@);
    let ghost fr = full_req(*requirement);
    let ghost deps = candidate@.dependencies;
    assert(full_reqs(reqs@) + dep_reqs(deps.take(0), fr, candidate@) =~= full_reqs(old(reqs)@));
    let mut d: usize = 0;
    while d < candidate.dependencies.len()
        invariant
            d <= candidate.dependencies.len(),
            start.len() <= reqs@.len(),
            start == reqs_view(old(reqs)@),
            fr == full_req(*requirement),
            deps == candidate@.dependencies,
            full_reqs(reqs@) == full_reqs(old(reqs)@) + dep_reqs(deps.take(d as int), fr, candidate@),
            forall|i: int| 0 <= i < start.len() ==> #[trigger] reqs_view(reqs@)[i] == start[i],
            !requirement.preserve_unsafe ==> forall|k: int|
                0 <= k < d && (#[trigger] candidate@.dependencies[k]).kind
                    == CandidateDependencyKind::Required ==> safe_pending(
                    reqs_view(reqs@),
                    candidate@.dependencies[k].key,
                    candidate@.dependencies[k].version_id,
                ),
        decreases candidate.dependencies.len() - d,
    {
        let dependency = &candidate.dependencies[d];
        assert(candidate@.dependencies[d as int] == dependency@);
        assert(deps.take(d + 1).drop_last() =~= deps.take(d as int));
        assert(deps.take(d + 1).last() == dependency@);
        let ghost before_full = full_reqs(reqs@);
        if dependency.kind == CandidateDependencyKind::Required {
            let origin = dependency_requirement(
                &requirement.root_content_id,
                &requirement.root_key,
                candidate,
                &dependency.key,
                crate::upgrade::candidates::copy_opt(&dependency.version_id),
                None,
            );
            let next = Requirement {
                key: dependency.key.copy(),
                version_id: crate::upgrade::candidates::copy_opt(&dependency.version_id),
                explicit_prerelease: false,
                preserve_unsafe: requirement.preserve_unsafe,
                root_content_id: requirement.root_content_id.clone(),
                root_key: requirement.root_key.copy(),
                origins: vec![origin],
            };
            let ghost before = reqs_view(reqs@);
            let ghost nv = req_view(next);
            proof {
                assert(details_view(next.origins@) =~= seq![detail_view(origin)]);
                assert(full_req(next) == dep_req(fr, candidate@, dependency@));
            }
            let ghost next_full = full_req(next);
            reqs.push(next);
            proof {
                assert(full_reqs(reqs@) =~= before_full.push(next_full));
                assert(reqs_view(reqs@) =~= before.push(nv));
                let after = reqs_view(reqs@);
                assert forall|k: int|
                    0 <= k <= d && (#[trigger] candidate@.dependencies[k]).kind
                        == CandidateDependencyKind::Required && !requirement.preserve_unsafe implies safe_pending(
                    after,
                    candidate@.dependencies[k].key,
                    candidate@.dependencies[k].version_id,
                ) by {
                    if k < d {
                        let dep = candidate@.dependencies[k];
                        let r = choose|r: int|
                            0 <= r < before.len() && !(#[trigger] before[r]).preserve_unsafe
                                && before[r].key == dep.key && before[r].version_id == dep.version_id;
                        assert(after[r] == before[r]);
                    } else {
                        assert(after[before.len() as int] == nv);
                    }
                }
            }
        }
        d += 1;
    }
    assert(deps.take(deps.len() as int) =~= deps);
}


/// A release that the prerelease hint may name: compatible, not stable, and
/// of the pinned version where one is pinned.
pub open spec fn prerelease_fits(c: CandView, version: Option<Seq<char>>) -> bool {
    &&& c.compatible
    &&& c.channel != CandidateChannel::Release
    &&& version matches Some(v) ==> v == c.version_id
}

/// The version of the first release of `cands` that the hint may name.
pub open spec fn spec_first_prerelease(cands: Seq<CandView>, version: Option<Seq<char>>) -> Option<Seq<char>>
    decreases cands.len(),
{
    if cands.len() == 0 {
        None
    } else if prerelease_fits(cands[0], version) {
        Some(cands[0].version_id)
    } else {
        spec_first_prerelease(cands.drop_first(), version)
    }
}

/// The first compatible prerelease of the requirement's project that its
/// pinned release (if any) allows.
fn first_prerelease_candidate(catalog: &UpgradeCatalog, requirement: &Requirement) -> (r: Option<
    String,
>)
    ensures
        opt_view(r) == spec_first_prerelease(
            pool_of(catalog@, requirement.key@),
            opt_view(requirement.version_id),
        ),
{
    let ghost version = opt_view(requirement.version_id);
    match catalog.get(&requirement.key) {
        None => {
            assert(pool_of(catalog@, requirement.key@) =~= Seq::<CandView>::empty());
            None
        },
        Some(pool) => {
            let ghost cands = cands_view(pool.candidates@);
            proof {
                let c = catalog@;
                let e = choose|e: int|
                    0 <= e < c.len() && c[e].key == requirement.key@ && #[trigger] c[e].candidates
                        == cands_view(pool.candidates@) && c[e].exploration_limited == pool.exploration_limited;
                let e2 = choose|e: int| 0 <= e < c.len() && c[e].key == requirement.key@;
                assert(c[e2].key == requirement.key@);
                if e2 != e {
                    assert(c[e].key != c[e2].key);
                }
                assert(pool_of(c, requirement.key@) == cands);
                assert(cands.skip(0) =~= cands);
            }
            let mut i: usize = 0;
            while i < pool.candidates.len()
                invariant
                    i <= pool.candidates.len(),
                    cands == cands_view(pool.candidates@),
                    pool_of(catalog@, requirement.key@) == cands,
                    version == opt_view(requirement.version_id),
                    spec_first_prerelease(cands, version) == spec_first_prerelease(cands.skip(i as int), version),
                decreases pool.candidates.len() - i,
            {
                let candidate = &pool.candidates[i];
                assert(cands.skip(i as int)[0] == candidate@);
                assert(cands.skip(i as int).drop_first() =~= cands.skip(i + 1));
                let version_ok = match &requirement.version_id {
                    None => true,
                    Some(v) => *v == candidate.version_id,
                };
                if candidate.compatible && candidate.channel.is_prerelease() && version_ok {
                    proof {
                        assert(prerelease_fits(candidate@, version));
                    }
                    let found = candidate.version_id.clone();
                    assert(found@ == cands.skip(i as int)[0].version_id);
                    return Some(found);
                }
                proof {
                    assert(!prerelease_fits(cands.skip(i as int)[0], version));
                }
                i += 1;
            }
            assert(cands.skip(i as int) =~= Seq::<CandView>::empty());
            None
        },
    }
}

/// The first root of `key` (the length where there is none).
pub open spec fn first_root(roots: Seq<RootRequest>, key: KeyView) -> int
    decreases roots.len(),
{
    if roots.len() == 0 {
        0
    } else if roots[0].key@ == key {
        0
    } else {
        1 + first_root(roots.drop_first(), key)
    }
}

proof fn lemma_first_root(s: Seq<RootRequest>, key: KeyView, j: int)
    requires
        0 <= j <= s.len(),
        j < s.len() ==> s[j].key@ == key,
        forall|k: int| 0 <= k < j ==> (#[trigger] s[k]).key@ != key,
    ensures
        first_root(s, key) == j,
    decreases s.len(),
{
    if s.len() > 0 && j > 0 {
        assert(s[0].key@ != key);
        assert forall|k: int| 0 <= k < j - 1 implies (#[trigger] s.drop_first()[k]).key@ != key by {
            assert(s.drop_first()[k] == s[k + 1]);
        }
        lemma_first_root(s.drop_first(), key, j - 1);
    }
}

/// The edges that explain why `candidate` cannot join the assignment that
/// holds `conflict`: those that led to the requirement, the edge from
/// `candidate` to the conflicting project (with the release chosen for it,
/// if any), and, where that project is a root with a chosen release, the
/// edge from that release back to `candidate`.
fn conflict_details(
    requirement: &Requirement,
    candidate: &UpgradeCandidate,
    conflict: &NodeKey,
    assignments: &Vec<UpgradeCandidate>,
    roots: &Vec<RootRequest>,
) -> (r: Vec<InstanceUpgradeDependencyRequirement>)
    ensures
        details_view(r@) == conflict_view(
            full_req(*requirement),
            candidate@,
            conflict@,
            cands_view(assignments@),
            roots@,
        ),
{
    let ghost av = cands_view(assignments@);
    let mut details = copy_requirements_details(&requirement.origins);
    let selected = find_assignment(assignments, conflict);
    proof {
        match selected {
            Some(j) => lemma_first_key(av, conflict@, j as int),
            None => lemma_first_key(av, conflict@, av.len() as int),
        }
    }
    let selected_release = match selected {
        Some(j) => Some(assignments[j].version_id.clone()),
        None => None,
    };
    let first_edge = dependency_requirement(
        &requirement.root_content_id,
        &requirement.root_key,
        candidate,
        conflict,
        None,
        selected_release,
    );
    let ghost base = details@;
    details.push(first_edge);
    let ghost first = details@;
    proof {
        assert(first =~= base.push(first_edge));
        assert(details_view(first) =~= details_view(base).push(detail_view(first_edge)));
    }
    let root = find_root(roots, conflict);
    proof {
        match root {
            Some(k) => lemma_first_root(roots@, conflict@, k as int),
            None => lemma_first_root(roots@, conflict@, roots@.len() as int),
        }
    }
    match root {
        Some(k) => match selected {
            Some(j) => {
                let back_edge = dependency_requirement(
                    &roots[k].content_id,
                    &roots[k].key,
                    &assignments[j],
                    &candidate.key,
                    None,
                    Some(candidate.version_id.clone()),
                );
                details.push(back_edge);
                proof {
                    assert(details@ =~= first.push(back_edge));
                    assert(details_view(details@) =~= details_view(first).push(detail_view(back_edge)));
                }
            },
            None => {},
        },
        None => {},
    }
    details
}

/// The edges `v` with `version` named as the release the user could
/// confirm.
fn with_candidate_release(v: &Vec<InstanceUpgradeDependencyRequirement>, version: &String) -> (r: Vec<
    InstanceUpgradeDependencyRequirement,
>)
    ensures
        details_view(r@) == details_view(v@).map_values(|d: DetailView| with_candidate(d, version@)),
{
    let mut out: Vec<InstanceUpgradeDependencyRequirement> = Vec::new();
    let mut k: usize = 0;
    while k < v.len()
        invariant
            k <= v.len(),
            details_view(out@) == details_view(v@.subrange(0, k as int)).map_values(
                |d: DetailView| with_candidate(d, version@),
            ),
        decreases v.len() - k,
    {
        let mut detail = copy_requirement_detail(&v[k]);
        detail.candidate_release_id = Some(version.clone());
        let ghost before = out@;
        out.push(detail);
        proof {
            assert(out@ =~= before.push(detail));
            assert(v@.subrange(0, k + 1) =~= v@.subrange(0, k as int).push(v@[k as int]));
            assert(details_view(out@) =~= details_view(before).push(detail_view(detail)));
            assert(details_view(v@.subrange(0, k + 1)) =~= details_view(v@.subrange(0, k as int)).push(
                detail_view(v@[k as int]),
            ));
            assert(detail_view(detail) == with_candidate(detail_view(v@[k as int]), version@));
            assert(details_view(out@) =~= details_view(v@.subrange(0, k + 1)).map_values(
                |d: DetailView| with_candidate(d, version@),
            ));
        }
        k += 1;
    }
    assert(v@.subrange(0, v@.len() as int) =~= v@);
    out
}

/// Explores every way to meet `requirements` on top of `assignments`,
/// appending each complete assignment to `solutions`, in the order and
/// with the counters of `spec_search`. The last requirement is taken first.
/// The search stops once `MAX_SEARCH_STATES` states were visited; the first
/// dead end is recorded in `state`.
#[verifier::rlimit(80)]
pub fn search_solutions(
    requirements: Vec<Requirement>,
    assignments: Vec<UpgradeCandidate>,
    origins: Vec<OriginEntry>,
    preserved_unsafe: Vec<NodeKey>,
    roots: &Vec<RootRequest>,
    catalog: &UpgradeCatalog,
    confirmed: &Vec<InstanceUpgradePrereleaseConfirmation>,
    state: &mut SearchState,
    solutions: &mut Vec<SolverResult>,
)
    requires
        old(state).visited <= MAX_SEARCH_STATES,
        valid_assignment(cands_view(assignments@), catalog@),
        closure_pending(
            cands_view(assignments@),
            keys_view(preserved_unsafe@),
            reqs_view(requirements@),
        ),
        fits_target(cands_view(assignments@), keys_view(preserved_unsafe@), roots@),
    ensures
        forall|i: int|
            old(solutions)@.len() <= i < final(solutions)@.len() ==> fits_target(
                result_view(#[trigger] final(solutions)@[i]),
                keys_view(final(solutions)@[i].preserved_unsafe@),
                roots@,
            ),
        ({
            let r = spec_search(
                node_of(requirements@, assignments@, origins@, preserved_unsafe@),
                env_of(roots@, catalog@, confirmed@),
                st_view(*old(state)),
            );
            st_view(*final(state)) == r.0 && sols_view(final(solutions)@) == sols_view(old(solutions)@) + r.1
        }),
        old(state).visited <= final(state).visited <= MAX_SEARCH_STATES,
        old(solutions)@.len() <= final(solutions)@.len(),
        forall|i: int| 0 <= i < old(solutions)@.len() ==> final(solutions)@[i] == old(solutions)@[i],
        forall|i: int|
            old(solutions)@.len() <= i < final(solutions)@.len() ==> result_ok(
                #[trigger] final(solutions)@[i],
                cands_view(assignments@),
                reqs_view(requirements@),
                catalog@,
            ),
        old(state).visited >= MAX_SEARCH_STATES ==> final(state).visited == old(state).visited
            && final(state).limit_reached && final(state).first_issue == old(state).first_issue
            && final(solutions)@ == old(solutions)@,
        old(state).visited < MAX_SEARCH_STATES ==> old(state).visited < final(state).visited,
        old(state).visited < MAX_SEARCH_STATES && requirements@.len() == 0 ==> final(state).visited
            == old(state).visited + 1 && final(state).limit_reached == old(state).limit_reached
            && final(state).first_issue == old(state).first_issue && final(solutions)@ == old(solutions)@.push(
            (SolverResult { assignments, preserved_unsafe }),
        ),
        old(state).first_issue is Some ==> final(state).first_issue == old(state).first_issue,
        old(state).limit_reached ==> final(state).limit_reached,
        final(state).limit_reached ==> old(state).limit_reached || final(state).visited == MAX_SEARCH_STATES,
        final(solutions)@.len() > old(solutions)@.len() || final(state).limit_reached
            || final(state).first_issue is Some,
    decreases MAX_SEARCH_STATES - old(state).visited, 1int,
{
    let ghost env = env_of(roots@, catalog@, confirmed@);
    let ghost node = node_of(requirements@, assignments@, origins@, preserved_unsafe@);
    let ghost st0 = st_view(*state);
    let ghost ov = origins_view(origins@);
    let ghost old_sols = solutions@;
    let ghost orig_reqs = requirements@;
    if state.visited >= MAX_SEARCH_STATES {
        state.limit_reached = true;
        assert(sols_view(solutions@) =~= sols_view(old_sols) + Seq::<SolView>::empty());
        return;
    }
    state.visited = state.visited + 1;
    let ghost st1 = st_view(*state);
    let ghost av = cands_view(assignments@);
    let ghost pv = keys_view(preserved_unsafe@);
    let ghost rv = reqs_view(requirements@);
    let mut requirements = requirements;
    let requirement = match requirements.pop() {
        None => {
            proof {
                lemma_done(av, pv, rv);
            }
            let ghost before = solutions@;
            let found = SolverResult { assignments, preserved_unsafe };
            proof {
                assert(sol_view(found) == (av, pv));
            }
            solutions.push(found);
            proof {
                assert(solutions@ == before.push(solutions@.last()));
                assert(sols_view(solutions@) =~= sols_view(before) + seq![(av, pv)]);
            }
            return ;
        },
        Some(r) => r,
    };
    let ghost rest = reqs_view(requirements@);
    let ghost popped = req_view(requirement);
    let ghost fr = full_req(requirement);
    let ghost rest_f = full_reqs(requirements@);
    assert(rv =~= rest.push(popped));
    assert(node.reqs =~= rest_f.push(fr));
    match find_assignment(&assignments, &requirement.key) {
        Some(j) => {
            proof {
                lemma_first_key(av, fr.key, j as int);
            }
            let exact = match &requirement.version_id {
                None => true,
                Some(v) => *v == assignments[j].version_id,
            };
            let in_preserved = contains_key(&preserved_unsafe, &requirement.key);
            proof {
                if in_preserved {
                    let w = choose|w: int| 0 <= w < preserved_unsafe@.len() && (#[trigger] preserved_unsafe@[w])@ == requirement.key@;
                    assert(pv[w] == fr.key);
                }
                if pv.contains(fr.key) {
                    let w = choose|w: int| 0 <= w < pv.len() && pv[w] == fr.key;
                    assert(preserved_unsafe@[w]@ == requirement.key@);
                }
                assert(in_preserved == pv.contains(fr.key));
            }
            let safe_satisfies = requirement.preserve_unsafe && !in_preserved;
            if exact || safe_satisfies {
                proof {
                    if exact {
                        assert(av[j as int].key == popped.key);
                        assert(assigned_with(av, popped.key, popped.version_id));
                    }
                    lemma_pending_pop(av, pv, rest, popped);
                }
                let Requirement { key, origins: extra, .. } = requirement;
                let ghost extra_v = extra@;
                let next_origins = record_origins(origins, &key, extra, false);
                let ghost next_node = node_of(requirements@, assignments@, next_origins@, preserved_unsafe@);
                proof {
                    lemma_dmap_origins(ov, fr.key, extra_v, false);
                    assert(next_node == (SearchNode {
                        reqs: rest_f,
                        assigns: node.assigns,
                        origins: spec_record_origins(node.origins, fr.key, fr.origins, false),
                        preserved: node.preserved,
                    }));
                    assert(node.reqs.last() == fr && node.reqs.drop_last() =~= rest_f);
                    assert(first_key(node.assigns, fr.key) == j);
                    assert(spec_search(node, env, st0) == spec_search(next_node, env, st1));
                }
                search_solutions(
                    requirements,
                    assignments,
                    next_origins,
                    preserved_unsafe,
                    roots,
                    catalog,
                    confirmed,
                    state,
                    solutions,
                );
                proof {
                    assert forall|i: int|
                        old(solutions)@.len() <= i < solutions@.len() implies result_ok(
                        #[trigger] solutions@[i],
                        av,
                        rv,
                        catalog@,
                    ) by {
                        lemma_sat_pop(result_view(solutions@[i]), av, rest, popped);
                    }
                }
            } else {
                let mut details = origins_of(&origins, &requirement.key);
                let mut extra = copy_requirements_details(&requirement.origins);
                let ghost d1 = details@;
                let ghost d2 = extra@;
                details.append(&mut extra);
                let label = requirement.key.label();
                let message = crate::text::concat(
                    label.as_str(),
                    " requires conflicting exact dependency versions",
                );
                let found = issue_with_requirements(
                    InstanceUpgradeIssueCode::DependencyConflict,
                    message,
                    Some(&requirement.key),
                    Some(requirement.key.project_id.as_str()),
                    None,
                    details,
                );
                proof {
                    lemma_dmap_origins(ov, fr.key, requirement.origins@, false);
                    assert(details_view(d1 + d2) =~= details_view(d1) + details_view(d2));
                    assert(issue_spec(found) == exact_conflict_issue(fr, node.origins));
                }
                record_issue(state, found);
                assert(sols_view(solutions@) =~= sols_view(old_sols) + Seq::<SolView>::empty());
            }
            return ;
        },
        None => {},
    }
    proof {
        lemma_first_key(av, fr.key, av.len() as int);
    }
    let candidates = candidates_for_requirement(&requirement, roots, catalog, confirmed);
    if candidates.len() == 0 {
        if requirement.preserve_unsafe {
            proof {
                lemma_pending_pop(av, pv, rest, popped);
                let next_node = node_of(requirements@, assignments@, origins@, preserved_unsafe@);
                assert(next_node == (SearchNode {
                    reqs: rest_f,
                    assigns: node.assigns,
                    origins: node.origins,
                    preserved: node.preserved,
                }));
                assert(node.reqs.last() == fr && node.reqs.drop_last() =~= rest_f);
                assert(cands_for(fr, env).len() == 0);
                assert(spec_search(node, env, st0) == spec_search(next_node, env, st1));
            }
            search_solutions(
                requirements,
                assignments,
                origins,
                preserved_unsafe,
                roots,
                catalog,
                confirmed,
                state,
                solutions,
            );
            proof {
                assert forall|i: int|
                    old(solutions)@.len() <= i < solutions@.len() implies result_ok(
                    #[trigger] solutions@[i],
                    av,
                    rv,
                    catalog@,
                ) by {
                    lemma_sat_pop(result_view(solutions@[i]), av, rest, popped);
                }
            }
            return ;
        }
        let prerelease = first_prerelease_candidate(catalog, &requirement);
        let root_index = find_root(roots, &requirement.key);
        proof {
            match root_index {
                Some(k) => lemma_first_root(roots@, fr.key, k as int),
                None => lemma_first_root(roots@, fr.key, roots@.len() as int),
            }
        }
        let code = if prerelease.is_some() {
            InstanceUpgradeIssueCode::PrereleaseOnly
        } else if root_index.is_some() {
            InstanceUpgradeIssueCode::NoCompatibleRelease
        } else {
            InstanceUpgradeIssueCode::MissingRequiredDependency
        };
        let details = match &prerelease {
            Some(version) => with_candidate_release(&requirement.origins, version),
            None => copy_requirements_details(&requirement.origins),
        };
        let label = requirement.key.label();
        let message = crate::text::concat(
            "No compatible release satisfies required project ",
            label.as_str(),
        );
        let found = issue_with_requirements(
            code,
            message,
            Some(&requirement.key),
            Some(requirement.key.project_id.as_str()),
            None,
            details,
        );
        proof {
            assert(issue_spec(found) == no_release_issue(fr, env));
        }
        record_issue(state, found);
        assert(sols_view(solutions@) =~= sols_view(old_sols) + Seq::<SolView>::empty());
        return ;
    }
    proof {
        assert(requirements@.push(requirement) =~= orig_reqs);
        assert(node.reqs.last() == fr && node.reqs.drop_last() =~= rest_f);
        assert(cands_view(candidates@) == cands_for(fr, env));
        assert(spec_search(node, env, st0) == spec_try(node, rest_f, fr, cands_view(candidates@), 0, env, st1));
    }
    try_candidates(
        &requirement,
        &requirements,
        &candidates,
        &assignments,
        &origins,
        &preserved_unsafe,
        roots,
        catalog,
        confirmed,
        state,
        solutions,
    );
}

/// Tries the candidates of `requirement` in turn on top of `assignments`:
/// one that conflicts with a chosen release is recorded as a dead end; the
/// search goes on below each of the others.
#[verifier::rlimit(80)]
fn try_candidates(
    requirement: &Requirement,
    requirements: &Vec<Requirement>,
    candidates: &Vec<UpgradeCandidate>,
    assignments: &Vec<UpgradeCandidate>,
    origins: &Vec<OriginEntry>,
    preserved_unsafe: &Vec<NodeKey>,
    roots: &Vec<RootRequest>,
    catalog: &UpgradeCatalog,
    confirmed: &Vec<InstanceUpgradePrereleaseConfirmation>,
    state: &mut SearchState,
    solutions: &mut Vec<SolverResult>,
)
    requires
        old(state).visited <= MAX_SEARCH_STATES,
        valid_assignment(cands_view(assignments@), catalog@),
        closure_pending(
            cands_view(assignments@),
            keys_view(preserved_unsafe@),
            reqs_view(requirements@.push(*requirement)),
        ),
        fits_target(cands_view(assignments@), keys_view(preserved_unsafe@), roots@),
        cands_view(candidates@) == cands_for(full_req(*requirement), env_of(roots@, catalog@, confirmed@)),
        forall|j: int| 0 <= j < assignments@.len() ==> (#[trigger] assignments@[j]).key@ != requirement.key@,
        forall|k: int|
            0 <= k < candidates@.len() ==> in_catalog((#[trigger] candidates@[k])@, catalog@)
                && candidates@[k]@.key == requirement.key@ && (requirement.version_id matches Some(v)
                ==> candidates@[k]@.version_id == v@),
    ensures
        forall|i: int|
            old(solutions)@.len() <= i < final(solutions)@.len() ==> fits_target(
                result_view(#[trigger] final(solutions)@[i]),
                keys_view(final(solutions)@[i].preserved_unsafe@),
                roots@,
            ),
        ({
            let r = spec_try(
                node_of(requirements@.push(*requirement), assignments@, origins@, preserved_unsafe@),
                full_reqs(requirements@),
                full_req(*requirement),
                cands_view(candidates@),
                0,
                env_of(roots@, catalog@, confirmed@),
                st_view(*old(state)),
            );
            st_view(*final(state)) == r.0 && sols_view(final(solutions)@) == sols_view(old(solutions)@) + r.1
        }),
        old(state).visited <= final(state).visited <= MAX_SEARCH_STATES,
        old(state).first_issue is Some ==> final(state).first_issue == old(state).first_issue,
        old(state).limit_reached ==> final(state).limit_reached,
        final(state).limit_reached ==> old(state).limit_reached || final(state).visited == MAX_SEARCH_STATES,
        candidates@.len() > 0 ==> final(solutions)@.len() > old(solutions)@.len() || final(state).limit_reached
            || final(state).first_issue is Some,
        old(solutions)@.len() <= final(solutions)@.len(),
        forall|i: int| 0 <= i < old(solutions)@.len() ==> final(solutions)@[i] == old(solutions)@[i],
        forall|i: int|
            old(solutions)@.len() <= i < final(solutions)@.len() ==> result_ok(
                #[trigger] final(solutions)@[i],
                cands_view(assignments@),
                reqs_view(requirements@.push(*requirement)),
                catalog@,
            ),
    decreases MAX_SEARCH_STATES - old(state).visited, 2int,
{
    let ghost env = env_of(roots@, catalog@, confirmed@);
    let ghost n = node_of(requirements@.push(*requirement), assignments@, origins@, preserved_unsafe@);
    let ghost rest_f = full_reqs(requirements@);
    let ghost fr = full_req(*requirement);
    let ghost cv = cands_view(candidates@);
    let ghost total = spec_try(n, rest_f, fr, cv, 0, env, st_view(*state));
    let ghost av = cands_view(assignments@);
    let ghost pv = keys_view(preserved_unsafe@);
    let ghost rest = reqs_view(requirements@);
    let ghost popped = req_view(*requirement);
    let ghost rv = reqs_view(requirements@.push(*requirement));
    let ghost ov = origins_view(origins@);
    assert(rv =~= rest.push(popped));
    assert(sols_view(solutions@) + total.1 =~= sols_view(old(solutions)@) + total.1);
    let mut idx: usize = 0;
    while idx < candidates.len()
        invariant
            idx <= candidates.len(),
            old(state).visited <= state.visited <= MAX_SEARCH_STATES,
            old(state).first_issue is Some ==> state.first_issue == old(state).first_issue,
            old(state).limit_reached ==> state.limit_reached,
            state.limit_reached ==> old(state).limit_reached || state.visited == MAX_SEARCH_STATES,
            idx > 0 ==> solutions@.len() > old(solutions)@.len() || state.limit_reached || state.first_issue is Some,
            old(solutions)@.len() <= solutions@.len(),
            forall|i: int| 0 <= i < old(solutions)@.len() ==> solutions@[i] == old(solutions)@[i],
            forall|i: int|
                old(solutions)@.len() <= i < solutions@.len() ==> result_ok(
                    #[trigger] solutions@[i],
                    av,
                    rv,
                    catalog@,
                ),
            env == env_of(roots@, catalog@, confirmed@),
            n == node_of(requirements@.push(*requirement), assignments@, origins@, preserved_unsafe@),
            rest_f == full_reqs(requirements@),
            fr == full_req(*requirement),
            cv == cands_view(candidates@),
            ov == origins_view(origins@),
            total == spec_try(n, rest_f, fr, cv, 0, env, st_view(*old(state))),
            spec_try(n, rest_f, fr, cv, idx as int, env, st_view(*state)).0 == total.0,
            sols_view(old(solutions)@) + total.1 == sols_view(solutions@) + spec_try(
                n,
                rest_f,
                fr,
                cv,
                idx as int,
                env,
                st_view(*state),
            ).1,
            av == cands_view(assignments@),
            pv == keys_view(preserved_unsafe@),
            rest == reqs_view(requirements@),
            popped == req_view(*requirement),
            rv == rest.push(popped),
            valid_assignment(av, catalog@),
            closure_pending(av, pv, rv),
            fits_target(av, pv, roots@),
            cv == cands_for(fr, env),
            forall|i: int|
                old(solutions)@.len() <= i < solutions@.len() ==> fits_target(
                    result_view(#[trigger] solutions@[i]),
                    keys_view(solutions@[i].preserved_unsafe@),
                    roots@,
                ),
            forall|j: int| 0 <= j < assignments@.len() ==> (#[trigger] assignments@[j]).key@ != requirement.key@,
            forall|k: int|
                0 <= k < candidates@.len() ==> in_catalog((#[trigger] candidates@[k])@, catalog@)
                    && candidates@[k]@.key == requirement.key@ && (
                requirement.version_id matches Some(v) ==> candidates@[k]@.version_id == v@),
        decreases candidates.len() - idx,
    {
        let candidate = &candidates[idx];
        let ghost cand = candidate@;
        let ghost st_before = st_view(*state);
        let ghost sols_before = solutions@;
        assert(cv[idx as int] == cand);
        match incompatible_with_assignments(candidate, assignments) {
            Some(conflict) => {
                let details = conflict_details(requirement, candidate, &conflict, assignments, roots);
                let a = crate::text::concat(candidate.key.label().as_str(), " is incompatible with ");
                let message = crate::text::concat(a.as_str(), conflict.label().as_str());
                let found = issue_with_requirements(
                    InstanceUpgradeIssueCode::IncompatibleDependency,
                    message,
                    Some(&candidate.key),
                    Some(candidate.key.project_id.as_str()),
                    Some(conflict.project_id.as_str()),
                    details,
                );
                proof {
                    assert(issue_spec(found) == incompatible_issue(fr, cand, conflict@, av, roots@));
                }
                record_issue(state, found);
                proof {
                    assert(st_view(*state) == note(st_before, incompatible_issue(fr, cand, conflict@, av, roots@)));
                }
            },
            None => {
                let mut next_assignments = copy_cands(assignments);
                next_assignments.push(candidate.copy());
                assert(cands_view(next_assignments@) =~= av.push(cand));
                let next_origins = record_origins(
                    copy_origins(origins),
                    &candidate.key,
                    copy_requirements_details(&requirement.origins),
                    true,
                );
                let mut next_preserved = copy_key_vec(preserved_unsafe);
                assert(keys_view(next_preserved@) =~= pv);
                if requirement.preserve_unsafe {
                    next_preserved.push(candidate.key.copy());
                    assert(keys_view(next_preserved@) =~= pv.push(cand.key));
                }
                let mut next_requirements = copy_requirements(requirements);
                push_dependency_requirements(&mut next_requirements, requirement, candidate);
                proof {
                    lemma_valid_push(av, cand, catalog@);
                    lemma_pending_step(
                        av,
                        cand,
                        pv,
                        keys_view(next_preserved@),
                        rest,
                        popped,
                        reqs_view(next_requirements@),
                    );
                    lemma_dmap_origins(ov, cand.key, requirement.origins@, true);
                    assert(node_of(next_requirements@, next_assignments@, next_origins@, next_preserved@)
                        == child(n, rest_f, fr, cand));
                    pool_of(catalog@, fr.key).lemma_filter_pred(admits(fr, env), idx as int);
                    lemma_fits_push(av, cand, pv, keys_view(next_preserved@), fr, env);
                }
                search_solutions(
                    next_requirements,
                    next_assignments,
                    next_origins,
                    next_preserved,
                    roots,
                    catalog,
                    confirmed,
                    state,
                    solutions,
                );
                proof {
                    let next_rv = reqs_view(next_requirements@);
                    assert forall|i: int|
                        old(solutions)@.len() <= i < solutions@.len() implies result_ok(
                        #[trigger] solutions@[i],
                        av,
                        rv,
                        catalog@,
                    ) by {
                        if i < sols_before.len() {
                            assert(solutions@[i] == sols_before[i]);
                        } else {
                            assert(result_ok(solutions@[i], av.push(cand), next_rv, catalog@));
                            lemma_lift(result_view(solutions@[i]), av, cand, rest, next_rv, popped);
                        }
                    }
                    let inner = spec_search(child(n, rest_f, fr, cand), env, st_before);
                    let more = spec_try(n, rest_f, fr, cv, idx + 1, env, inner.0);
                    assert(spec_try(n, rest_f, fr, cv, idx as int, env, st_before) == (more.0, inner.1 + more.1));
                    assert(sols_view(sols_before) + (inner.1 + more.1) =~= (sols_view(sols_before) + inner.1)
                        + more.1);
                }
            },
        }
        idx += 1;
    }
    proof {
        assert(sols_view(solutions@) + Seq::<SolView>::empty() =~= sols_view(solutions@));
    }
}

/// The requirement a root places on the search.
fn root_requirement(root: &RootRequest, fixed: &Vec<InstanceUpgradeFixedConstraint>) -> (r:
    Requirement)
    ensures
        req_view(r) == (ReqView {
            key: root.key@,
            version_id: fixed_spec(fixed@, root.key@),
            preserve_unsafe: root.action != InstanceUpgradeAction::Upgrade,
        }),
        full_req(r) == root_req(*root, fixed@),
{
    let version_id = fixed_version(fixed, &root.key);
    let explicit_prerelease = version_id.is_some();
    assert(details_view(Seq::<InstanceUpgradeDependencyRequirement>::empty()) =~= Seq::<DetailView>::empty());
    Requirement {
        key: root.key.copy(),
        version_id,
        explicit_prerelease,
        preserve_unsafe: root.action != InstanceUpgradeAction::Upgrade,
        root_content_id: root.content_id.clone(),
        root_key: root.key.copy(),
        origins: Vec::new(),
    }
}

/// What every solution of a plan obeys: a consistent assignment from the
/// catalog, closed under required dependencies (but for preserved
/// projects), fitting the target (but for preserved projects and kept or
/// disabled roots), and giving each root to upgrade a release (the fixed
/// one, where the user fixed one).
pub open spec fn solution_law(
    r: SolverResult,
    roots: Seq<RootRequest>,
    fixed: Seq<InstanceUpgradeFixedConstraint>,
    c: Seq<PoolView>,
) -> bool {
    &&& valid_assignment(result_view(r), c)
    &&& dependency_closed(result_view(r), keys_view(r.preserved_unsafe@))
    &&& fits_target(result_view(r), keys_view(r.preserved_unsafe@), roots)
    &&& forall|i: int|
        0 <= i < roots.len() && (#[trigger] roots[i]).action == InstanceUpgradeAction::Upgrade
            ==> assigned_with(result_view(r), roots[i].key@, fixed_spec(fixed, roots[i].key@))
}

/// Searches for every consistent assignment of releases to the roots and
/// their required dependencies, in the order of `plan_search`. Roots the
/// user keeps or disables are resolved first and may stay at a release
/// outside the target; the others must receive a release that the catalog
/// marks compatible (the fixed one, where the user fixed one).
pub fn solve_upgrade(
    roots: &Vec<RootRequest>,
    catalog: &UpgradeCatalog,
    fixed: &Vec<InstanceUpgradeFixedConstraint>,
    confirmed: &Vec<InstanceUpgradePrereleaseConfirmation>,
) -> (out: SolveOutcome)
    ensures
        forall|s: int|
            0 <= s < out.solutions@.len() ==> solution_law(
                #[trigger] out.solutions@[s],
                roots@,
                fixed@,
                catalog@,
            ),
        out.solutions@.len() > 0 ==> out.issues@.len() <= 1 && forall|i: int|
            0 <= i < out.issues@.len() ==> (#[trigger] out.issues@[i]).code
                == InstanceUpgradeIssueCode::SearchLimitReached,
        out.solutions@.len() == 0 ==> out.issues@.len() == 1,
        out.solutions@.len() == 0 && (exists|e: int|
            0 <= e < catalog@.len() && #[trigger] catalog@[e].exploration_limited)
            ==> out.issues@[0].code == InstanceUpgradeIssueCode::SearchLimitReached,
        sols_view(out.solutions@) == plan_search(roots@, fixed@, catalog@, confirmed@).1,
        issues_spec(out.issues@) == ({
            let plan = plan_search(roots@, fixed@, catalog@, confirmed@);
            outcome_issues(plan.0, plan.1.len() == 0, any_limited(catalog@))
        }),
{
    let requirements = root_requirements(roots, fixed);
    let ghost rv = reqs_view(requirements@);
    let mut state = SearchState { visited: 0, limit_reached: false, first_issue: None };
    let mut solutions: Vec<SolverResult> = Vec::new();
    let assignments: Vec<UpgradeCandidate> = Vec::new();
    let preserved: Vec<NodeKey> = Vec::new();
    let ghost empty = cands_view(assignments@);
    let no_origins: Vec<OriginEntry> = Vec::new();
    let ghost plan = plan_search(roots@, fixed@, catalog@, confirmed@);
    proof {
        reveal(plan_search);
        assert(empty =~= Seq::<CandView>::empty());
        assert(valid_assignment(empty, catalog@));
        assert(closure_pending(empty, keys_view(preserved@), rv));
        assert(keys_view(preserved@) =~= Seq::<KeyView>::empty());
        assert(fits_target(empty, keys_view(preserved@), roots@));
        assert(origins_dview(no_origins@) =~= Seq::<(KeyView, Seq<DetailView>)>::empty());
        assert(node_of(requirements@, assignments@, no_origins@, preserved@) == initial_node(roots@, fixed@));
        assert(st_view(state) == (SearchSt { visited: 0, limit_reached: false, first_issue: None }));
    }
    search_solutions(
        requirements,
        assignments,
        no_origins,
        preserved,
        roots,
        catalog,
        confirmed,
        &mut state,
        &mut solutions,
    );
    proof {
        assert forall|s: int| 0 <= s < solutions@.len() implies solution_law(
            #[trigger] solutions@[s],
            roots@,
            fixed@,
            catalog@,
        ) by {
            let sol = result_view(solutions@[s]);
            assert(result_ok(solutions@[s], empty, rv, catalog@));
            assert forall|k: int|
                0 <= k < roots@.len() && (#[trigger] roots@[k]).action
                    == InstanceUpgradeAction::Upgrade implies assigned_with(
                sol,
                roots@[k].key@,
                fixed_spec(fixed@, roots@[k].key@),
            ) by {
                let r = choose|r: int|
                    0 <= r < rv.len() && !(#[trigger] rv[r]).preserve_unsafe && rv[r].key
                        == roots@[k].key@ && rv[r].version_id == fixed_spec(fixed@, roots@[k].key@);
                assert(req_sat(rv[r], sol));
            }
        }
    }
    assert(sols_view(solutions@) =~= plan.1);
    let none_found = solutions.len() == 0;
    let candidate_limit_reached = none_found && catalog.any_exploration_limited();
    let ghost final_state = st_view(state);
    let issues = plan_issues(state, none_found, candidate_limit_reached);
    proof {
        assert(final_state == plan.0);
        assert(none_found == (plan.1.len() == 0));
        assert(outcome_issues(final_state, none_found, candidate_limit_reached) == outcome_issues(
            plan.0,
            plan.1.len() == 0,
            any_limited(catalog@),
        ));
    }
    SolveOutcome { solutions, issues }
}

/// The requirements of the roots: those of the kept and disabled roots
/// first, then those of the roots to upgrade, each in root order.
fn root_requirements(roots: &Vec<RootRequest>, fixed: &Vec<InstanceUpgradeFixedConstraint>) -> (requirements:
    Vec<Requirement>)
    ensures
        full_reqs(requirements@) == root_reqs(roots@, fixed@, false) + root_reqs(roots@, fixed@, true),
        forall|k: int|
            0 <= k < roots@.len() && (#[trigger] roots@[k]).action == InstanceUpgradeAction::Upgrade
                ==> safe_pending(
                reqs_view(requirements@),
                roots@[k].key@,
                fixed_spec(fixed@, roots@[k].key@),
            ),
{
    let mut requirements: Vec<Requirement> = Vec::new();
    let mut i: usize = 0;
    assert(roots@.take(0) =~= Seq::<RootRequest>::empty());
    assert(full_reqs(requirements@) =~= Seq::<FullReq>::empty());
    while i < roots.len()
        invariant
            i <= roots.len(),
            full_reqs(requirements@) == root_reqs(roots@.take(i as int), fixed@, false),
        decreases roots.len() - i,
    {
        let ghost before = requirements@;
        assert(roots@.take(i + 1).drop_last() =~= roots@.take(i as int));
        assert(roots@.take(i + 1).last() == roots@[i as int]);
        if roots[i].action != InstanceUpgradeAction::Upgrade {
            let next = root_requirement(&roots[i], fixed);
            requirements.push(next);
            assert(full_reqs(requirements@) =~= full_reqs(before).push(full_req(next)));
        }
        i += 1;
    }
    assert(roots@.take(roots@.len() as int) =~= roots@);
    assert(full_reqs(requirements@) + root_reqs(roots@.take(0), fixed@, true) =~= full_reqs(requirements@));
    i = 0;
    while i < roots.len()
        invariant
            i <= roots.len(),
            full_reqs(requirements@) == root_reqs(roots@, fixed@, false) + root_reqs(
                roots@.take(i as int),
                fixed@,
                true,
            ),
            forall|k: int|
                0 <= k < i && (#[trigger] roots@[k]).action == InstanceUpgradeAction::Upgrade
                    ==> safe_pending(
                    reqs_view(requirements@),
                    roots@[k].key@,
                    fixed_spec(fixed@, roots@[k].key@),
                ),
        decreases roots.len() - i,
    {
        let ghost before_full = full_reqs(requirements@);
        assert(roots@.take(i + 1).drop_last() =~= roots@.take(i as int));
        assert(roots@.take(i + 1).last() == roots@[i as int]);
        if roots[i].action == InstanceUpgradeAction::Upgrade {
            let ghost before = reqs_view(requirements@);
            let next = root_requirement(&roots[i], fixed);
            let ghost nv = req_view(next);
            requirements.push(next);
            proof {
                assert(full_reqs(requirements@) =~= before_full.push(full_req(next)));
                assert(root_reqs(roots@.take(i + 1), fixed@, true) == root_reqs(roots@.take(i as int), fixed@, true).push(
                    root_req(roots@[i as int], fixed@),
                ));
                assert(full_reqs(requirements@) =~= root_reqs(roots@, fixed@, false) + root_reqs(
                    roots@.take(i + 1),
                    fixed@,
                    true,
                ));
                let after = reqs_view(requirements@);
                assert(after =~= before.push(nv));
                assert forall|k: int|
                    0 <= k <= i && (#[trigger] roots@[k]).action == InstanceUpgradeAction::Upgrade
                        implies safe_pending(after, roots@[k].key@, fixed_spec(fixed@, roots@[k].key@)) by {
                    if k < i {
                        let r = choose|r: int|
                            0 <= r < before.len() && !(#[trigger] before[r]).preserve_unsafe
                                && before[r].key == roots@[k].key@ && before[r].version_id
                                == fixed_spec(fixed@, roots@[k].key@);
                        assert(after[r] == before[r]);
                    } else {
                        assert(after[before.len() as int] == nv);
                    }
                }
            }
        }
        i += 1;
    }
    assert(roots@.take(roots@.len() as int) =~= roots@);
    requirements
}

/// The issues of a plan's search: the search limit where it was reached (or
/// where nothing was found and some pool stopped exploring early), else,
/// where nothing was found, the first dead end (or a general conflict where
/// none was recorded).
fn plan_issues(state: SearchState, none_found: bool, candidate_limit_reached: bool) -> (issues: Vec<
    InstanceUpgradeIssue,
>)
    requires
        candidate_limit_reached ==> none_found,
    ensures
        issues_spec(issues@) == outcome_issues(st_view(state), none_found, candidate_limit_reached),
        !none_found ==> issues@.len() <= 1 && forall|i: int|
            0 <= i < issues@.len() ==> (#[trigger] issues@[i]).code == InstanceUpgradeIssueCode::SearchLimitReached,
        none_found ==> issues@.len() == 1,
        candidate_limit_reached ==> issues@[0].code == InstanceUpgradeIssueCode::SearchLimitReached,
{
    let mut issues: Vec<InstanceUpgradeIssue> = Vec::new();
    assert(details_view(Seq::<InstanceUpgradeDependencyRequirement>::empty()) =~= Seq::<DetailView>::empty());
    if state.limit_reached || candidate_limit_reached {
        let message = if state.limit_reached {
            crate::text::to_owned("Upgrade dependency search reached its global state limit")
        } else {
            crate::text::to_owned(
                "Upgrade dependency search exhausted its bounded candidate exploration and cannot prove the plan is unsatisfiable",
            )
        };
        let limit = issue(InstanceUpgradeIssueCode::SearchLimitReached, message, None, None, None);
        assert(limit.dependency_requirements@ =~= Seq::<InstanceUpgradeDependencyRequirement>::empty());
        issues.push(limit);
    }
    if none_found && !state.limit_reached && !candidate_limit_reached {
        let first = state.first_issue;
        match first {
            Some(found) => issues.push(found),
            None => {
                let general = issue(
                    InstanceUpgradeIssueCode::DependencyConflict,
                    crate::text::to_owned("No globally compatible dependency solution exists"),
                    None,
                    None,
                    None,
                );
                assert(general.dependency_requirements@ =~= Seq::<InstanceUpgradeDependencyRequirement>::empty());
                issues.push(general);
            },
        }
    }
    assert(issues_spec(issues@) =~= outcome_issues(st_view(state), none_found, candidate_limit_reached));
    issues
}

} // verus!
