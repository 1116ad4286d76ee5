//! The depth-first search of the upgrade planner as a mathematical
//! function: which assignments it reports, in which order, how many states
//! it visits, and which dead end it explains first.
use vstd::prelude::*;
use crate::model::{
    ContentProvider, InstanceUpgradeAction, InstanceUpgradeDependencyRequirement, InstanceUpgradeFixedConstraint,
    InstanceUpgradeIssue, InstanceUpgradeIssueCode, InstanceUpgradePrereleaseConfirmation,
};
use crate::upgrade::candidates::{opt_view, pool_of, CandView, CandidateDependencyKind, DepView, KeyView, NodeKey, PoolView};
use crate::upgrade::search::{first_root, keys_view, spec_first_prerelease};
use crate::upgrade::solver::{
    admitted, find_root_spec, first_origin, fixed_spec, incompatible_pair, origins_view, result_view,
    spec_origins_of, spec_record_origins, OriginEntry, ReqView, Requirement, RootRequest, SearchState,
    SolverResult, MAX_SEARCH_STATES,
};

verus! {

/// A dependency edge of an issue, by its texts.
pub struct DetailView {
    pub root_content_id: Seq<char>,
    pub root_key: KeyView,
    pub parent_key: KeyView,
    pub parent_release_id: Seq<char>,
    pub dependency_key: KeyView,
    pub required_release_id: Option<Seq<char>>,
    pub candidate_release_id: Option<Seq<char>>,
}

pub open spec fn detail_view(d: InstanceUpgradeDependencyRequirement) -> DetailView {
    DetailView {
        root_content_id: d.root_content_id@,
        root_key: (d.root_provider, d.root_project_id@),
        parent_key: (d.parent_provider, d.parent_project_id@),
        parent_release_id: d.parent_release_id@,
        dependency_key: (d.dependency_provider, d.dependency_project_id@),
        required_release_id: opt_view(d.required_release_id),
        candidate_release_id: opt_view(d.candidate_release_id),
    }
}

pub open spec fn details_view(s: Seq<InstanceUpgradeDependencyRequirement>) -> Seq<DetailView> {
    s.map_values(|d: InstanceUpgradeDependencyRequirement| detail_view(d))
}

/// A requirement with everything the search reads of it.
pub struct FullReq {
    pub key: KeyView,
    pub version_id: Option<Seq<char>>,
    pub explicit_prerelease: bool,
    pub preserve_unsafe: bool,
    pub root_content_id: Seq<char>,
    pub root_key: KeyView,
    pub origins: Seq<DetailView>,
}

pub open spec fn full_req(r: Requirement) -> FullReq {
    FullReq {
        key: r.key@,
        version_id: opt_view(r.version_id),
        explicit_prerelease: r.explicit_prerelease,
        preserve_unsafe: r.preserve_unsafe,
        root_content_id: r.root_content_id@,
        root_key: r.root_key@,
        origins: details_view(r.origins@),
    }
}

pub open spec fn full_reqs(s: Seq<Requirement>) -> Seq<FullReq> {
    s.map_values(|r: Requirement| full_req(r))
}

pub open spec fn short_req(r: FullReq) -> ReqView {
    ReqView { key: r.key, version_id: r.version_id, preserve_unsafe: r.preserve_unsafe }
}

/// An issue by its texts.
pub struct IssueSpec {
    pub code: InstanceUpgradeIssueCode,
    pub message: Seq<char>,
    pub content_id: Option<Seq<char>>,
    pub provider: Option<ContentProvider>,
    pub project_id: Option<Seq<char>>,
    pub conflicting_project_id: Option<Seq<char>>,
    pub details: Seq<DetailView>,
}

pub open spec fn issue_spec(i: InstanceUpgradeIssue) -> IssueSpec {
    IssueSpec {
        code: i.code,
        message: i.message@,
        content_id: opt_view(i.content_id),
        provider: i.provider,
        project_id: opt_view(i.project_id),
        conflicting_project_id: opt_view(i.conflicting_project_id),
        details: details_view(i.dependency_requirements@),
    }
}

pub open spec fn issues_spec(s: Seq<InstanceUpgradeIssue>) -> Seq<IssueSpec> {
    s.map_values(|i: InstanceUpgradeIssue| issue_spec(i))
}

/// An issue about the project `key`.
pub open spec fn project_issue(
    code: InstanceUpgradeIssueCode,
    message: Seq<char>,
    key: KeyView,
    conflicting_project_id: Option<Seq<char>>,
    details: Seq<DetailView>,
) -> IssueSpec {
    IssueSpec {
        code,
        message,
        content_id: None,
        provider: Some(key.0),
        project_id: Some(key.1),
        conflicting_project_id,
        details,
    }
}

/// The counters of a search.
pub struct SearchSt {
    pub visited: int,
    pub limit_reached: bool,
    pub first_issue: Option<IssueSpec>,
}

pub open spec fn st_view(s: SearchState) -> SearchSt {
    SearchSt {
        visited: s.visited as int,
        limit_reached: s.limit_reached,
        first_issue: match s.first_issue {
            Some(i) => Some(issue_spec(i)),
            None => None,
        },
    }
}

/// The counters once a dead end is explained: only the first one is kept.
pub open spec fn note(st: SearchSt, i: IssueSpec) -> SearchSt {
    SearchSt {
        visited: st.visited,
        limit_reached: st.limit_reached,
        first_issue: if st.first_issue is Some {
            st.first_issue
        } else {
            Some(i)
        },
    }
}

/// The recorded edges by project, by their texts.
pub open spec fn origins_dview(e: Seq<OriginEntry>) -> Seq<(KeyView, Seq<DetailView>)> {
    dmap(origins_view(e))
}

pub open spec fn dmap(e: Seq<(KeyView, Seq<InstanceUpgradeDependencyRequirement>)>) -> Seq<
    (KeyView, Seq<DetailView>),
> {
    e.map_values(|x: (KeyView, Seq<InstanceUpgradeDependencyRequirement>)| (x.0, details_view(x.1)))
}

pub proof fn lemma_dmap_first(e: Seq<(KeyView, Seq<InstanceUpgradeDependencyRequirement>)>, key: KeyView)
    ensures
        first_origin(dmap(e), key) == first_origin(e, key),
    decreases e.len(),
{
    if e.len() > 0 {
        assert(dmap(e).drop_first() =~= dmap(e.drop_first()));
        lemma_dmap_first(e.drop_first(), key);
    }
}

pub proof fn lemma_dmap_origins(
    e: Seq<(KeyView, Seq<InstanceUpgradeDependencyRequirement>)>,
    key: KeyView,
    o: Seq<InstanceUpgradeDependencyRequirement>,
    replace: bool,
)
    ensures
        details_view(spec_origins_of(e, key)) == spec_origins_of(dmap(e), key),
        dmap(spec_record_origins(e, key, o, replace)) == spec_record_origins(dmap(e), key, details_view(o), replace),
{
    lemma_dmap_first(e, key);
    crate::upgrade::solver::lemma_first_origin(e, key);
    let i = first_origin(e, key);
    if i >= e.len() {
        assert(details_view(Seq::<InstanceUpgradeDependencyRequirement>::empty()) =~= Seq::<DetailView>::empty());
        assert(dmap(e.push((key, o))) =~= dmap(e).push((key, details_view(o))));
    } else {
        let base = if replace {
            Seq::<InstanceUpgradeDependencyRequirement>::empty()
        } else {
            e[i].1
        };
        assert(details_view(base + o) =~= details_view(base) + details_view(o));
        assert(details_view(Seq::<InstanceUpgradeDependencyRequirement>::empty()) =~= Seq::<DetailView>::empty());
        assert(dmap(e.update(i, (e[i].0, base + o))) =~= dmap(e).update(
            i,
            (dmap(e)[i].0, (if replace {
                Seq::<DetailView>::empty()
            } else {
                dmap(e)[i].1
            }) + details_view(o)),
        ));
    }
}

/// What the search reads besides the node it is at.
pub struct SearchEnv {
    pub roots: Seq<RootRequest>,
    pub catalog: Seq<PoolView>,
    pub confirmed: Seq<InstanceUpgradePrereleaseConfirmation>,
}

/// A point of the search: the requirements still to meet (the last one is
/// taken first), the releases chosen, the edges recorded for them, and the
/// projects kept at a release that may not fit the target.
pub struct SearchNode {
    pub reqs: Seq<FullReq>,
    pub assigns: Seq<CandView>,
    pub origins: Seq<(KeyView, Seq<DetailView>)>,
    pub preserved: Seq<KeyView>,
}

/// A reported solution: the releases chosen and the preserved projects.
pub type SolView = (Seq<CandView>, Seq<KeyView>);

pub open spec fn sol_view(r: SolverResult) -> SolView {
    (result_view(r), keys_view(r.preserved_unsafe@))
}

pub open spec fn sols_view(s: Seq<SolverResult>) -> Seq<SolView> {
    s.map_values(|r: SolverResult| sol_view(r))
}

/// The first position of `s` whose release is of `key` (the length where
/// there is none).
pub open spec fn first_key(s: Seq<CandView>, key: KeyView) -> int
    decreases s.len(),
{
    if s.len() == 0 {
        0
    } else if s[0].key == key {
        0
    } else {
        1 + first_key(s.drop_first(), key)
    }
}

pub proof fn lemma_first_key(s: Seq<CandView>, key: KeyView, j: int)
    requires
        0 <= j <= s.len(),
        j < s.len() ==> s[j].key == key,
        forall|k: int| 0 <= k < j ==> (#[trigger] s[k]).key != key,
    ensures
        first_key(s, key) == j,
    decreases s.len(),
{
    if s.len() > 0 && j > 0 {
        assert(s[0].key != key);
        assert forall|k: int| 0 <= k < j - 1 implies (#[trigger] s.drop_first()[k]).key != key by {
            assert(s.drop_first()[k] == s[k + 1]);
        }
        lemma_first_key(s.drop_first(), key, j - 1);
    }
}

/// The requirement for one required dependency `d` of `cand`, chosen for
/// `req`.
pub open spec fn dep_req(req: FullReq, cand: CandView, d: DepView) -> FullReq {
    FullReq {
        key: d.key,
        version_id: d.version_id,
        explicit_prerelease: false,
        preserve_unsafe: req.preserve_unsafe,
        root_content_id: req.root_content_id,
        root_key: req.root_key,
        origins: seq![
            DetailView {
                root_content_id: req.root_content_id,
                root_key: req.root_key,
                parent_key: cand.key,
                parent_release_id: cand.version_id,
                dependency_key: d.key,
                required_release_id: d.version_id,
                candidate_release_id: None,
            },
        ],
    }
}

/// The requirements the required dependencies among `deps` add, in order.
pub open spec fn dep_reqs(deps: Seq<DepView>, req: FullReq, cand: CandView) -> Seq<FullReq>
    decreases deps.len(),
{
    if deps.len() == 0 {
        Seq::empty()
    } else {
        let prev = dep_reqs(deps.drop_last(), req, cand);
        if deps.last().kind == CandidateDependencyKind::Required {
            prev.push(dep_req(req, cand, deps.last()))
        } else {
            prev
        }
    }
}

/// Whether `req` admits a release (the root of its project, if any, and the
/// confirmed prereleases decide).
pub open spec fn admits(req: FullReq, env: SearchEnv) -> spec_fn(CandView) -> bool {
    |c: CandView|
        admitted(
            short_req(req),
            req.explicit_prerelease,
            match find_root_spec(env.roots, req.key) {
                Some(j) => Some(env.roots[j]),
                None => None,
            },
            env.confirmed,
            c,
        )
}

/// The releases of the requirement's project that it admits, in pool order.
pub open spec fn cands_for(req: FullReq, env: SearchEnv) -> Seq<CandView> {
    pool_of(env.catalog, req.key).filter(admits(req, env))
}

/// The first dependency among `deps` that declares a chosen release
/// incompatible, by its project.
pub open spec fn first_out(deps: Seq<DepView>, assigns: Seq<CandView>) -> Option<KeyView>
    decreases deps.len(),
{
    if deps.len() == 0 {
        None
    } else {
        let d = deps[0];
        let j = first_key(assigns, d.key);
        if d.kind == CandidateDependencyKind::Incompatible && j < assigns.len() && (d.version_id is None
            || d.version_id == Some(assigns[j].version_id)) {
            Some(d.key)
        } else {
            first_out(deps.drop_first(), assigns)
        }
    }
}

/// The first chosen release that declares `cand` incompatible, by its
/// project.
pub open spec fn first_in(assigns: Seq<CandView>, cand: CandView) -> Option<KeyView>
    decreases assigns.len(),
{
    if assigns.len() == 0 {
        None
    } else if incompatible_pair(assigns[0], cand) {
        Some(assigns[0].key)
    } else {
        first_in(assigns.drop_first(), cand)
    }
}

/// The project that keeps `cand` out of the assignment: first one that
/// `cand` declares incompatible, then one that declares `cand`
/// incompatible.
pub open spec fn spec_incompatible(cand: CandView, assigns: Seq<CandView>) -> Option<KeyView> {
    match first_out(cand.dependencies, assigns) {
        Some(k) => Some(k),
        None => first_in(assigns, cand),
    }
}

/// The edges that explain why `cand` cannot join an assignment that holds
/// `conflict`.
pub open spec fn conflict_view(
    req: FullReq,
    cand: CandView,
    conflict: KeyView,
    assigns: Seq<CandView>,
    roots: Seq<RootRequest>,
) -> Seq<DetailView> {
    let j = first_key(assigns, conflict);
    let selected = if j < assigns.len() {
        Some(assigns[j].version_id)
    } else {
        None
    };
    let first = req.origins.push(
        DetailView {
            root_content_id: req.root_content_id,
            root_key: req.root_key,
            parent_key: cand.key,
            parent_release_id: cand.version_id,
            dependency_key: conflict,
            required_release_id: None,
            candidate_release_id: selected,
        },
    );
    let k = first_root(roots, conflict);
    if k < roots.len() && j < assigns.len() {
        first.push(
            DetailView {
                root_content_id: roots[k].content_id@,
                root_key: roots[k].key@,
                parent_key: assigns[j].key,
                parent_release_id: assigns[j].version_id,
                dependency_key: cand.key,
                required_release_id: None,
                candidate_release_id: Some(cand.version_id),
            },
        )
    } else {
        first
    }
}

/// An edge with the prerelease the user could confirm.
pub open spec fn with_candidate(d: DetailView, v: Seq<char>) -> DetailView {
    DetailView { candidate_release_id: Some(v), ..d }
}

/// The dead end of a requirement that no release meets.
pub open spec fn no_release_issue(req: FullReq, env: SearchEnv) -> IssueSpec {
    let prerelease = spec_first_prerelease(pool_of(env.catalog, req.key), req.version_id);
    let code = if prerelease is Some {
        InstanceUpgradeIssueCode::PrereleaseOnly
    } else if first_root(env.roots, req.key) < env.roots.len() {
        InstanceUpgradeIssueCode::NoCompatibleRelease
    } else {
        InstanceUpgradeIssueCode::MissingRequiredDependency
    };
    let details = match prerelease {
        Some(v) => req.origins.map_values(|d: DetailView| with_candidate(d, v)),
        None => req.origins,
    };
    project_issue(
        code,
        "No compatible release satisfies required project "@ + NodeKey::spec_label(req.key),
        req.key,
        None,
        details,
    )
}

/// The dead end of a requirement whose project is chosen at another
/// version.
pub open spec fn exact_conflict_issue(req: FullReq, origins: Seq<(KeyView, Seq<DetailView>)>) -> IssueSpec {
    project_issue(
        InstanceUpgradeIssueCode::DependencyConflict,
        NodeKey::spec_label(req.key) + " requires conflicting exact dependency versions"@,
        req.key,
        None,
        spec_origins_of(origins, req.key) + req.origins,
    )
}

/// The dead end of a release that conflicts with the assignment.
pub open spec fn incompatible_issue(req: FullReq, cand: CandView, conflict: KeyView, assigns: Seq<CandView>, roots: Seq<RootRequest>) -> IssueSpec {
    project_issue(
        InstanceUpgradeIssueCode::IncompatibleDependency,
        NodeKey::spec_label(cand.key) + " is incompatible with "@ + NodeKey::spec_label(conflict),
        cand.key,
        Some(conflict.1),
        conflict_view(req, cand, conflict, assigns, roots),
    )
}

/// The search from node `n` with counters `st`: the counters after it and
/// the solutions it reports, in order. Each node costs one visit; once
/// `MAX_SEARCH_STATES` nodes were visited the search stops and says so.
pub open spec fn spec_search(n: SearchNode, env: SearchEnv, st: SearchSt) -> (SearchSt, Seq<SolView>)
    decreases MAX_SEARCH_STATES - st.visited, 0int, 0int,
{
    if st.visited >= MAX_SEARCH_STATES {
        (SearchSt { limit_reached: true, ..st }, Seq::empty())
    } else {
        let st1 = SearchSt { visited: st.visited + 1, ..st };
        if n.reqs.len() == 0 {
            (st1, seq![(n.assigns, n.preserved)])
        } else {
            let req = n.reqs.last();
            let rest = n.reqs.drop_last();
            let j = first_key(n.assigns, req.key);
            if j < n.assigns.len() {
                let exact = req.version_id is None || req.version_id == Some(n.assigns[j].version_id);
                let safe = req.preserve_unsafe && !n.preserved.contains(req.key);
                if exact || safe {
                    spec_search(
                        SearchNode {
                            reqs: rest,
                            assigns: n.assigns,
                            origins: spec_record_origins(n.origins, req.key, req.origins, false),
                            preserved: n.preserved,
                        },
                        env,
                        st1,
                    )
                } else {
                    (note(st1, exact_conflict_issue(req, n.origins)), Seq::empty())
                }
            } else {
                let cands = cands_for(req, env);
                if cands.len() == 0 {
                    if req.preserve_unsafe {
                        spec_search(
                            SearchNode { reqs: rest, assigns: n.assigns, origins: n.origins, preserved: n.preserved },
                            env,
                            st1,
                        )
                    } else {
                        (note(st1, no_release_issue(req, env)), Seq::empty())
                    }
                } else {
                    spec_try(n, rest, req, cands, 0, env, st1)
                }
            }
        }
    }
}

/// The node after `cand` is chosen for `req`.
pub open spec fn child(n: SearchNode, rest: Seq<FullReq>, req: FullReq, cand: CandView) -> SearchNode {
    SearchNode {
        reqs: rest + dep_reqs(cand.dependencies, req, cand),
        assigns: n.assigns.push(cand),
        origins: spec_record_origins(n.origins, cand.key, req.origins, true),
        preserved: if req.preserve_unsafe {
            n.preserved.push(cand.key)
        } else {
            n.preserved
        },
    }
}

/// The candidates of `req` from position `idx` on, tried in turn.
pub open spec fn spec_try(
    n: SearchNode,
    rest: Seq<FullReq>,
    req: FullReq,
    cands: Seq<CandView>,
    idx: int,
    env: SearchEnv,
    st: SearchSt,
) -> (SearchSt, Seq<SolView>)
    decreases MAX_SEARCH_STATES - st.visited, 1int, cands.len() - idx,
{
    if idx < 0 || idx >= cands.len() || st.visited > MAX_SEARCH_STATES {
        (st, Seq::empty())
    } else {
        let cand = cands[idx];
        match spec_incompatible(cand, n.assigns) {
            Some(conflict) => spec_try(
                n,
                rest,
                req,
                cands,
                idx + 1,
                env,
                note(st, incompatible_issue(req, cand, conflict, n.assigns, env.roots)),
            ),
            None => {
                let inner = spec_search(child(n, rest, req, cand), env, st);
                // the counters never go back; the guard only makes that visible here
                let st2 = if st.visited <= inner.0.visited <= MAX_SEARCH_STATES {
                    inner.0
                } else {
                    st
                };
                let more = spec_try(n, rest, req, cands, idx + 1, env, st2);
                (more.0, inner.1 + more.1)
            },
        }
    }
}

/// `sol` completes the search at `n` along `path`: meeting the
/// requirements in turn, and wherever a release must be chosen taking the
/// one at the next position of `path` among those the search tries, which
/// must conflict with nothing chosen, ends with the releases and preserved
/// projects of `sol`.
pub open spec fn completes(n: SearchNode, env: SearchEnv, sol: SolView, path: Seq<int>) -> bool
    decreases path.len(), n.reqs.len(),
{
    if n.reqs.len() == 0 {
        sol == (n.assigns, n.preserved)
    } else {
        let req = n.reqs.last();
        let rest = n.reqs.drop_last();
        let j = first_key(n.assigns, req.key);
        if j < n.assigns.len() {
            let exact = req.version_id is None || req.version_id == Some(n.assigns[j].version_id);
            let safe = req.preserve_unsafe && !n.preserved.contains(req.key);
            (exact || safe) && completes(
                SearchNode {
                    reqs: rest,
                    assigns: n.assigns,
                    origins: spec_record_origins(n.origins, req.key, req.origins, false),
                    preserved: n.preserved,
                },
                env,
                sol,
                path,
            )
        } else {
            let cands = cands_for(req, env);
            if cands.len() == 0 {
                req.preserve_unsafe && completes(
                    SearchNode { reqs: rest, assigns: n.assigns, origins: n.origins, preserved: n.preserved },
                    env,
                    sol,
                    path,
                )
            } else {
                &&& path.len() > 0
                &&& 0 <= path[0] < cands.len()
                &&& spec_incompatible(cands[path[0]], n.assigns) is None
                &&& completes(child(n, rest, req, cands[path[0]]), env, sol, path.drop_first())
            }
        }
    }
}

/// The counters of a search only move forward and stay within the bound,
/// and a search that started at the limit ends there.
pub proof fn lemma_search_counters(n: SearchNode, env: SearchEnv, st: SearchSt)
    requires
        st.visited <= MAX_SEARCH_STATES,
    ensures
        st.visited <= spec_search(n, env, st).0.visited <= MAX_SEARCH_STATES,
        st.limit_reached ==> spec_search(n, env, st).0.limit_reached,
    decreases MAX_SEARCH_STATES - st.visited, 0int, 0int,
{
    if st.visited < MAX_SEARCH_STATES {
        let st1 = SearchSt { visited: st.visited + 1, ..st };
        if n.reqs.len() > 0 {
            let req = n.reqs.last();
            let rest = n.reqs.drop_last();
            let j = first_key(n.assigns, req.key);
            if j < n.assigns.len() {
                lemma_search_counters(
                    SearchNode {
                        reqs: rest,
                        assigns: n.assigns,
                        origins: spec_record_origins(n.origins, req.key, req.origins, false),
                        preserved: n.preserved,
                    },
                    env,
                    st1,
                );
            } else {
                let cands = cands_for(req, env);
                if cands.len() == 0 {
                    lemma_search_counters(
                        SearchNode { reqs: rest, assigns: n.assigns, origins: n.origins, preserved: n.preserved },
                        env,
                        st1,
                    );
                } else {
                    lemma_try_counters(n, rest, req, cands, 0, env, st1);
                }
            }
        }
    }
}

pub proof fn lemma_try_counters(
    n: SearchNode,
    rest: Seq<FullReq>,
    req: FullReq,
    cands: Seq<CandView>,
    idx: int,
    env: SearchEnv,
    st: SearchSt,
)
    requires
        st.visited <= MAX_SEARCH_STATES,
    ensures
        st.visited <= spec_try(n, rest, req, cands, idx, env, st).0.visited <= MAX_SEARCH_STATES,
        st.limit_reached ==> spec_try(n, rest, req, cands, idx, env, st).0.limit_reached,
    decreases MAX_SEARCH_STATES - st.visited, 1int, cands.len() - idx,
{
    if 0 <= idx < cands.len() {
        let cand = cands[idx];
        match spec_incompatible(cand, n.assigns) {
            Some(conflict) => {
                lemma_try_counters(
                    n,
                    rest,
                    req,
                    cands,
                    idx + 1,
                    env,
                    note(st, incompatible_issue(req, cand, conflict, n.assigns, env.roots)),
                );
            },
            None => {
                let inner = spec_search(child(n, rest, req, cand), env, st);
                lemma_search_counters(child(n, rest, req, cand), env, st);
                lemma_try_counters(n, rest, req, cands, idx + 1, env, inner.0);
            },
        }
    }
}

proof fn lemma_search_finds(n: SearchNode, env: SearchEnv, st: SearchSt, sol: SolView, path: Seq<int>)
    requires
        st.visited <= MAX_SEARCH_STATES,
        completes(n, env, sol, path),
        !spec_search(n, env, st).0.limit_reached,
    ensures
        spec_search(n, env, st).1.contains(sol),
    decreases MAX_SEARCH_STATES - st.visited, 0int, path.len(),
{
    let st1 = SearchSt { visited: st.visited + 1, ..st };
    if n.reqs.len() == 0 {
        assert(spec_search(n, env, st).1[0] == sol);
    } else {
        let req = n.reqs.last();
        let rest = n.reqs.drop_last();
        let j = first_key(n.assigns, req.key);
        if j < n.assigns.len() {
            lemma_search_finds(
                SearchNode {
                    reqs: rest,
                    assigns: n.assigns,
                    origins: spec_record_origins(n.origins, req.key, req.origins, false),
                    preserved: n.preserved,
                },
                env,
                st1,
                sol,
                path,
            );
        } else {
            let cands = cands_for(req, env);
            if cands.len() == 0 {
                lemma_search_finds(
                    SearchNode { reqs: rest, assigns: n.assigns, origins: n.origins, preserved: n.preserved },
                    env,
                    st1,
                    sol,
                    path,
                );
            } else {
                lemma_try_finds(n, rest, req, cands, 0, env, st1, sol, path[0], path.drop_first());
            }
        }
    }
}

proof fn lemma_try_finds(
    n: SearchNode,
    rest: Seq<FullReq>,
    req: FullReq,
    cands: Seq<CandView>,
    idx: int,
    env: SearchEnv,
    st: SearchSt,
    sol: SolView,
    i: int,
    path: Seq<int>,
)
    requires
        st.visited <= MAX_SEARCH_STATES,
        0 <= idx <= i < cands.len(),
        spec_incompatible(cands[i], n.assigns) is None,
        completes(child(n, rest, req, cands[i]), env, sol, path),
        !spec_try(n, rest, req, cands, idx, env, st).0.limit_reached,
    ensures
        spec_try(n, rest, req, cands, idx, env, st).1.contains(sol),
    decreases MAX_SEARCH_STATES - st.visited, 1int, cands.len() - idx,
{
    let cand = cands[idx];
    match spec_incompatible(cand, n.assigns) {
        Some(conflict) => {
            lemma_try_finds(
                n,
                rest,
                req,
                cands,
                idx + 1,
                env,
                note(st, incompatible_issue(req, cand, conflict, n.assigns, env.roots)),
                sol,
                i,
                path,
            );
        },
        None => {
            let inner = spec_search(child(n, rest, req, cand), env, st);
            lemma_search_counters(child(n, rest, req, cand), env, st);
            let more = spec_try(n, rest, req, cands, idx + 1, env, inner.0);
            lemma_try_counters(n, rest, req, cands, idx + 1, env, inner.0);
            assert(spec_try(n, rest, req, cands, idx, env, st) == (more.0, inner.1 + more.1));
            if idx == i {
                lemma_search_finds(child(n, rest, req, cand), env, st, sol, path);
                let w = choose|w: int| 0 <= w < inner.1.len() && inner.1[w] == sol;
                assert((inner.1 + more.1)[w] == sol);
            } else {
                lemma_try_finds(n, rest, req, cands, idx + 1, env, inner.0, sol, i, path);
                let w = choose|w: int| 0 <= w < more.1.len() && more.1[w] == sol;
                assert((inner.1 + more.1)[inner.1.len() + w] == sol);
            }
        },
    }
}

proof fn lemma_found_completes(n: SearchNode, env: SearchEnv, st: SearchSt, w: int) -> (path: Seq<int>)
    requires
        st.visited <= MAX_SEARCH_STATES,
        0 <= w < spec_search(n, env, st).1.len(),
    ensures
        completes(n, env, spec_search(n, env, st).1[w], path),
    decreases MAX_SEARCH_STATES - st.visited, 0int, 0int,
{
    let st1 = SearchSt { visited: st.visited + 1, ..st };
    if n.reqs.len() == 0 {
        Seq::empty()
    } else {
        let req = n.reqs.last();
        let rest = n.reqs.drop_last();
        let j = first_key(n.assigns, req.key);
        if j < n.assigns.len() {
            lemma_found_completes(
                SearchNode {
                    reqs: rest,
                    assigns: n.assigns,
                    origins: spec_record_origins(n.origins, req.key, req.origins, false),
                    preserved: n.preserved,
                },
                env,
                st1,
                w,
            )
        } else {
            let cands = cands_for(req, env);
            if cands.len() == 0 {
                lemma_found_completes(
                    SearchNode { reqs: rest, assigns: n.assigns, origins: n.origins, preserved: n.preserved },
                    env,
                    st1,
                    w,
                )
            } else {
                let (i, p) = lemma_try_found(n, rest, req, cands, 0, env, st1, w);
                let path = seq![i] + p;
                assert(path.drop_first() =~= p);
                path
            }
        }
    }
}

proof fn lemma_try_found(
    n: SearchNode,
    rest: Seq<FullReq>,
    req: FullReq,
    cands: Seq<CandView>,
    idx: int,
    env: SearchEnv,
    st: SearchSt,
    w: int,
) -> (r: (int, Seq<int>))
    requires
        st.visited <= MAX_SEARCH_STATES,
        0 <= w < spec_try(n, rest, req, cands, idx, env, st).1.len(),
    ensures
        idx <= r.0 < cands.len(),
        spec_incompatible(cands[r.0], n.assigns) is None,
        completes(child(n, rest, req, cands[r.0]), env, spec_try(n, rest, req, cands, idx, env, st).1[w], r.1),
    decreases MAX_SEARCH_STATES - st.visited, 1int, cands.len() - idx,
{
    let cand = cands[idx];
    match spec_incompatible(cand, n.assigns) {
        Some(conflict) => {
            lemma_try_found(
                n,
                rest,
                req,
                cands,
                idx + 1,
                env,
                note(st, incompatible_issue(req, cand, conflict, n.assigns, env.roots)),
                w,
            )
        },
        None => {
            let inner = spec_search(child(n, rest, req, cand), env, st);
            lemma_search_counters(child(n, rest, req, cand), env, st);
            let more = spec_try(n, rest, req, cands, idx + 1, env, inner.0);
            assert(spec_try(n, rest, req, cands, idx, env, st) == (more.0, inner.1 + more.1));
            if w < inner.1.len() {
                assert((inner.1 + more.1)[w] == inner.1[w]);
                (idx, lemma_found_completes(child(n, rest, req, cand), env, st, w))
            } else {
                assert((inner.1 + more.1)[w] == more.1[w - inner.1.len()]);
                lemma_try_found(n, rest, req, cands, idx + 1, env, inner.0, w - inner.1.len())
            }
        },
    }
}

/// The search reports nothing else: each assignment it reports completes
/// the node it starts from.
pub proof fn search_reports_only_completions(n: SearchNode, env: SearchEnv, st: SearchSt, w: int)
    requires
        st.visited <= MAX_SEARCH_STATES,
        0 <= w < spec_search(n, env, st).1.len(),
    ensures
        exists|path: Seq<int>| completes(n, env, spec_search(n, env, st).1[w], path),
{
    let path = lemma_found_completes(n, env, st, w);
}

/// The search misses nothing: unless it reached the state limit, it reports
/// every assignment that completes the node it starts from.
pub proof fn search_reports_every_completion(n: SearchNode, env: SearchEnv, st: SearchSt, sol: SolView, path: Seq<int>)
    requires
        st.visited <= MAX_SEARCH_STATES,
        completes(n, env, sol, path),
        !spec_search(n, env, st).0.limit_reached,
    ensures
        spec_search(n, env, st).1.contains(sol),
{
    lemma_search_finds(n, env, st, sol, path);
}

/// A plan's search misses nothing: unless it reached the state limit, every
/// assignment that completes the plan's initial node is among its
/// solutions.
pub proof fn plan_reports_every_completion(
    roots: Seq<RootRequest>,
    fixed: Seq<InstanceUpgradeFixedConstraint>,
    catalog: Seq<PoolView>,
    confirmed: Seq<InstanceUpgradePrereleaseConfirmation>,
    sol: SolView,
    path: Seq<int>,
)
    requires
        completes(initial_node(roots, fixed), env_of(roots, catalog, confirmed), sol, path),
        !plan_search(roots, fixed, catalog, confirmed).0.limit_reached,
    ensures
        plan_search(roots, fixed, catalog, confirmed).1.contains(sol),
{
    reveal(plan_search);
    lemma_search_finds(
        initial_node(roots, fixed),
        env_of(roots, catalog, confirmed),
        SearchSt { visited: 0, limit_reached: false, first_issue: None },
        sol,
        path,
    );
}

/// A plan's search reports nothing else: each of its solutions completes
/// the plan's initial node.
pub proof fn plan_reports_only_completions(
    roots: Seq<RootRequest>,
    fixed: Seq<InstanceUpgradeFixedConstraint>,
    catalog: Seq<PoolView>,
    confirmed: Seq<InstanceUpgradePrereleaseConfirmation>,
    w: int,
)
    requires
        0 <= w < plan_search(roots, fixed, catalog, confirmed).1.len(),
    ensures
        exists|path: Seq<int>|
            completes(
                initial_node(roots, fixed),
                env_of(roots, catalog, confirmed),
                plan_search(roots, fixed, catalog, confirmed).1[w],
                path,
            ),
{
    reveal(plan_search);
    let path = lemma_found_completes(
        initial_node(roots, fixed),
        env_of(roots, catalog, confirmed),
        SearchSt { visited: 0, limit_reached: false, first_issue: None },
        w,
    );
}

/// The requirement a root places on the search.
pub open spec fn root_req(root: RootRequest, fixed: Seq<InstanceUpgradeFixedConstraint>) -> FullReq {
    FullReq {
        key: root.key@,
        version_id: fixed_spec(fixed, root.key@),
        explicit_prerelease: fixed_spec(fixed, root.key@) is Some,
        preserve_unsafe: root.action != InstanceUpgradeAction::Upgrade,
        root_content_id: root.content_id@,
        root_key: root.key@,
        origins: Seq::empty(),
    }
}

/// The requirements of the roots to upgrade (`upgrade`) or of the others,
/// in root order.
pub open spec fn root_reqs(roots: Seq<RootRequest>, fixed: Seq<InstanceUpgradeFixedConstraint>, upgrade: bool) -> Seq<
    FullReq,
>
    decreases roots.len(),
{
    if roots.len() == 0 {
        Seq::empty()
    } else {
        let prev = root_reqs(roots.drop_last(), fixed, upgrade);
        if (roots.last().action == InstanceUpgradeAction::Upgrade) == upgrade {
            prev.push(root_req(roots.last(), fixed))
        } else {
            prev
        }
    }
}

/// The node a plan's search starts from: the requirements of the kept and
/// disabled roots, then those of the roots to upgrade (the last requirement
/// is taken first), and nothing chosen yet.
pub open spec fn initial_node(roots: Seq<RootRequest>, fixed: Seq<InstanceUpgradeFixedConstraint>) -> SearchNode {
    SearchNode {
        reqs: root_reqs(roots, fixed, false) + root_reqs(roots, fixed, true),
        assigns: Seq::empty(),
        origins: Seq::empty(),
        preserved: Seq::empty(),
    }
}

/// The node of the search that `search_solutions` is called on.
pub open spec fn node_of(
    reqs: Seq<Requirement>,
    assigns: Seq<crate::upgrade::candidates::UpgradeCandidate>,
    origins: Seq<OriginEntry>,
    preserved: Seq<NodeKey>,
) -> SearchNode {
    SearchNode {
        reqs: full_reqs(reqs),
        assigns: crate::upgrade::candidates::cands_view(assigns),
        origins: origins_dview(origins),
        preserved: keys_view(preserved),
    }
}

pub open spec fn env_of(
    roots: Seq<RootRequest>,
    catalog: Seq<PoolView>,
    confirmed: Seq<InstanceUpgradePrereleaseConfirmation>,
) -> SearchEnv {
    SearchEnv { roots, catalog, confirmed }
}

/// The search of a whole plan: from its initial node, with no state visited.
#[verifier::opaque]
pub open spec fn plan_search(
    roots: Seq<RootRequest>,
    fixed: Seq<InstanceUpgradeFixedConstraint>,
    catalog: Seq<PoolView>,
    confirmed: Seq<InstanceUpgradePrereleaseConfirmation>,
) -> (SearchSt, Seq<SolView>) {
    spec_search(
        initial_node(roots, fixed),
        env_of(roots, catalog, confirmed),
        SearchSt { visited: 0, limit_reached: false, first_issue: None },
    )
}

/// Some pool of the catalog stopped exploring its releases early.
pub open spec fn any_limited(catalog: Seq<PoolView>) -> bool {
    exists|e: int| 0 <= e < catalog.len() && #[trigger] catalog[e].exploration_limited
}

/// The outcome of a plan's search from no visits, its solutions and the
/// issues it reports: the search limit where it was reached (or where no
/// solution was found and some pool stopped exploring early), else, where
/// nothing was found, the first dead end (or a general conflict where none
/// was recorded).
pub open spec fn outcome_issues(st: SearchSt, none_found: bool, exploration_limited: bool) -> Seq<IssueSpec> {
    let candidate_limit = none_found && exploration_limited;
    if st.limit_reached || candidate_limit {
        seq![
            IssueSpec {
                code: InstanceUpgradeIssueCode::SearchLimitReached,
                message: if st.limit_reached {
                    "Upgrade dependency search reached its global state limit"@
                } else {
                    "Upgrade dependency search exhausted its bounded candidate exploration and cannot prove the plan is unsatisfiable"@
                },
                content_id: None,
                provider: None,
                project_id: None,
                conflicting_project_id: None,
                details: Seq::empty(),
            },
        ]
    } else if none_found {
        seq![
            match st.first_issue {
                Some(i) => i,
                None => IssueSpec {
                    code: InstanceUpgradeIssueCode::DependencyConflict,
                    message: "No globally compatible dependency solution exists"@,
                    content_id: None,
                    provider: None,
                    project_id: None,
                    conflicting_project_id: None,
                    details: Seq::empty(),
                },
            },
        ]
    } else {
        Seq::empty()
    }
}

} // verus!
