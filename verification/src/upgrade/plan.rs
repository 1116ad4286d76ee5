//! Assembling an upgrade plan from the classified items, the catalog and
//! the user's constraints.
use vstd::prelude::*;
use crate::model::{
    InstanceUpgradeDependencyChange, InstanceUpgradeFixedConstraint, InstanceUpgradeIssue,
    InstanceUpgradeItem, InstanceUpgradePlan, InstanceUpgradeSolution, InstanceUpgradeSolutionKind,
};
use crate::upgrade::candidates::UpgradeCatalog;
use crate::upgrade::classify::{
    classified, classify_items, confirmed_prereleases, root_view, roots_from_items, same_item_except_status, spec_roots,
    spec_confirmations,
};
use crate::upgrade::item_issues::{
    apply_solver_issues_to_items, dedup_issues, deduplicate_issues, issue_key, issues_match, status_after,
    item_blocking_spec, item_issue, item_warnings_spec, item_warnings_with_fixed,
    push_item_blocking_issues,
};
use crate::upgrade::materialize::{changes_view, change_view, materialize_solution, materialized_as};
use crate::upgrade::ranking::{lt4, lt5, minimal_key, newest_key, pick_minimal, pick_newest};
use crate::upgrade::search::{solve_upgrade, solution_law};
use crate::upgrade::search_spec::{any_limited, issues_spec, outcome_issues, plan_search, sols_view};
use crate::upgrade::snapshot::{nodes_view, InstalledNode};
use crate::upgrade::solver::{RootRequest, SolverResult, valid_assignment, distinct_keys, result_view};

verus! {

fn copy_changes(v: &Vec<InstanceUpgradeDependencyChange>) -> (r: Vec<InstanceUpgradeDependencyChange>)
    ensures
        changes_view(r@) == changes_view(v@),
{
    let mut r: Vec<InstanceUpgradeDependencyChange> = Vec::new();
    let mut i: usize = 0;
    while i < v.len()
        invariant
            i <= v.len(),
            changes_view(r@) == changes_view(v@.subrange(0, i as int)),
        decreases v.len() - i,
    {
        let c = InstanceUpgradeDependencyChange {
            provider: v[i].provider,
            project_id: v[i].project_id.clone(),
            current_release_id: crate::upgrade::candidates::copy_opt(&v[i].current_release_id),
            target_release_id: crate::upgrade::candidates::copy_opt(&v[i].target_release_id),
            kind: v[i].kind,
            enabled: v[i].enabled,
        };
        let ghost before = r@;
        r.push(c);
        assert(changes_view(r@) =~= changes_view(before).push(change_view(c)));
        assert(changes_view(v@.subrange(0, i + 1)) =~= changes_view(v@.subrange(0, i as int)).push(change_view(v@[i as int])));
        i += 1;
    }
    assert(v@.subrange(0, v@.len() as int) =~= v@);
    r
}

/// Whether a plan may be made for an instance: only for an unmanaged
/// instance whose applied content set is local, and only while the content
/// read for it is still at the applied set's revision.
pub fn check_plan_source(
    unmanaged: bool,
    local_content_set: bool,
    snapshot_revision: u64,
    applied_revision: u64,
) -> (r: Result<(), String>)
    ensures
        !unmanaged ==> (r matches Err(m) && m@ == "Instance upgrade planner only supports unmanaged instances"@),
        unmanaged && !local_content_set ==> (r matches Err(m) && m@
            == "Instance upgrade planner only supports local content sets"@),
        unmanaged && local_content_set && snapshot_revision != applied_revision ==> (r matches Err(m) && m@
            == "Instance content changed while the upgrade plan was being created; retry planning"@),
        unmanaged && local_content_set && snapshot_revision == applied_revision ==> r is Ok,
{
    if !unmanaged {
        return Err(crate::text::to_owned("Instance upgrade planner only supports unmanaged instances"));
    }
    if !local_content_set {
        return Err(crate::text::to_owned("Instance upgrade planner only supports local content sets"));
    }
    if snapshot_revision != applied_revision {
        return Err(
            crate::text::to_owned(
                "Instance content changed while the upgrade plan was being created; retry planning",
            ),
        );
    }
    Ok(())
}

/// Solution `k` is the one a plan offers as `kind`: for the newest, the
/// last of those whose newest key no other solution beats; for the minimal
/// change, the first of those whose key beats every other or ties; for a
/// custom plan, the first solution found.
pub open spec fn picked(
    kind: InstanceUpgradeSolutionKind,
    sols: Seq<SolverResult>,
    roots: Seq<RootRequest>,
    installed: Seq<InstalledNode>,
    k: int,
) -> bool {
    &&& 0 <= k < sols.len()
    &&& match kind {
        InstanceUpgradeSolutionKind::Newest => (forall|j: int|
            0 <= j < sols.len() ==> !lt4(
                newest_key(result_view(sols[k]), roots),
                newest_key(result_view(#[trigger] sols[j]), roots),
            )) && (forall|j: int|
            k < j < sols.len() ==> lt4(
                newest_key(result_view(#[trigger] sols[j]), roots),
                newest_key(result_view(sols[k]), roots),
            )),
        InstanceUpgradeSolutionKind::MinimalChange => (forall|j: int|
            0 <= j < sols.len() ==> !lt5(
                minimal_key(result_view(#[trigger] sols[j]), roots, nodes_view(installed)),
                minimal_key(result_view(sols[k]), roots, nodes_view(installed)),
            )) && (forall|j: int|
            0 <= j < k ==> lt5(
                minimal_key(result_view(sols[k]), roots, nodes_view(installed)),
                minimal_key(result_view(#[trigger] sols[j]), roots, nodes_view(installed)),
            )),
        InstanceUpgradeSolutionKind::Custom => k == 0,
    }
}

/// What a plan keeps as its solution of `kind`: none where no solution was
/// found, else the picked solution, materialized.
pub open spec fn kept_solution(
    choice: Option<InstanceUpgradeSolution>,
    kind: InstanceUpgradeSolutionKind,
    sols: Seq<SolverResult>,
    roots: Seq<RootRequest>,
    installed: Seq<InstalledNode>,
) -> bool {
    match choice {
        None => sols.len() == 0,
        Some(s) => exists|k: int|
            #[trigger] picked(kind, sols, roots, installed, k) && materialized_as(s, kind, sols[k], roots, installed),
    }
}

/// The solution of `kind` at `index`, materialized.
fn solution_at(
    kind: InstanceUpgradeSolutionKind,
    solutions: &Vec<SolverResult>,
    index: Option<usize>,
    roots: &Vec<RootRequest>,
    installed: &Vec<InstalledNode>,
) -> (r: Option<InstanceUpgradeSolution>)
    requires
        index matches Some(k) ==> k < solutions@.len() && distinct_keys(result_view(solutions@[k as int])),
    ensures
        r is Some <==> index is Some,
        r matches Some(s) ==> s.kind == kind,
        r matches Some(s) ==> materialized_as(s, kind, solutions@[index->0 as int], roots@, installed@),
{
    match index {
        Some(k) => Some(materialize_solution(kind, &solutions[k], roots, installed)),
        None => None,
    }
}

/// Recomputes the plan's classification, issues, warnings and solutions
/// against `catalog` and the versions the user fixed, and selects the
/// solution of `selected_kind` (for a custom plan, the first solution found).
pub fn recompute_plan_from_catalog(
    plan: &mut InstanceUpgradePlan,
    installed: &Vec<InstalledNode>,
    catalog: &UpgradeCatalog,
    fixed: &Vec<InstanceUpgradeFixedConstraint>,
    selected_kind: InstanceUpgradeSolutionKind,
)
    ensures
        final(plan).id == old(plan).id,
        final(plan).instance_id == old(plan).instance_id,
        final(plan).source_revision == old(plan).source_revision,
        final(plan).custom_constraints == old(plan).custom_constraints,
        final(plan).items@.len() == old(plan).items@.len(),
        forall|i: int|
            0 <= i < old(plan).items@.len() ==> same_item_except_status(
                #[trigger] final(plan).items@[i],
                old(plan).items@[i],
            ),
        final(plan).warnings@.len() == item_warnings_spec(final(plan).items@, fixed@).len(),
        forall|i: int|
            0 <= i < final(plan).warnings@.len() ==> item_issue(
                #[trigger] final(plan).warnings@[i],
                item_warnings_spec(final(plan).items@, fixed@)[i].0,
                item_warnings_spec(final(plan).items@, fixed@)[i].1,
                item_warnings_spec(final(plan).items@, fixed@)[i].2,
            ),
        final(plan).newest_solution is Some <==> final(plan).minimal_change_solution is Some,
        final(plan).newest_solution matches Some(s) ==> s.kind == InstanceUpgradeSolutionKind::Newest,
        final(plan).minimal_change_solution matches Some(s) ==> s.kind
            == InstanceUpgradeSolutionKind::MinimalChange,
        final(plan).selected_solution is Some <==> final(plan).newest_solution is Some,
        final(plan).selected_solution matches Some(s) ==> s.kind == selected_kind,
        final(plan).selected_solution matches Some(s) ==> changes_view(final(plan).dependency_changes@)
            == changes_view(s.dependency_changes@),
        final(plan).selected_solution is None ==> final(plan).dependency_changes@.len() == 0,
        exists|
            classified_items: Seq<InstanceUpgradeItem>,
            roots: Seq<RootRequest>,
            sols: Seq<SolverResult>,
            solver_issues: Seq<InstanceUpgradeIssue>,
            item_blocking: Seq<InstanceUpgradeIssue>,
        |
            #![trigger kept_solution(final(plan).newest_solution, InstanceUpgradeSolutionKind::Newest, sols, roots, installed@), spec_roots(classified_items, nodes_view(installed@)), dedup_issues(solver_issues + item_blocking)]
            final(plan).blocking_issues@ == dedup_issues(solver_issues + item_blocking) && issues_match(
                item_blocking,
                item_blocking_spec(final(plan).items@, fixed@),
            ) && sols_view(sols) == plan_search(roots, fixed@, catalog@, spec_confirmations(classified_items)).1
                && issues_spec(solver_issues) == ({
                let search = plan_search(roots, fixed@, catalog@, spec_confirmations(classified_items));
                outcome_issues(search.0, search.1.len() == 0, any_limited(catalog@))
            }) && (forall|i: int|
                0 <= i < classified_items.len() ==> (#[trigger] final(plan).items@[i]).status == status_after(
                    classified_items[i].status,
                    classified_items[i],
                    solver_issues,
                )) && classified_items.len() == old(plan).items@.len() && (forall|i: int|
                0 <= i < classified_items.len() ==> classified(
                    #[trigger] classified_items[i],
                    old(plan).items@[i],
                    nodes_view(installed@),
                    catalog@,
                    old(plan).target_environment.shader_runtime,
                )) && roots.map_values(|x: RootRequest| root_view(x)) == spec_roots(
                classified_items,
                nodes_view(installed@),
            ) && (forall|k: int| 0 <= k < sols.len() ==> solution_law(#[trigger] sols[k], roots, fixed@, catalog@))
                && kept_solution(final(plan).newest_solution, InstanceUpgradeSolutionKind::Newest, sols, roots, installed@)
                && kept_solution(
                final(plan).minimal_change_solution,
                InstanceUpgradeSolutionKind::MinimalChange,
                sols,
                roots,
                installed@,
            ) && kept_solution(final(plan).selected_solution, selected_kind, sols, roots, installed@),
        final(plan).newest_solution is None ==> final(plan).blocking_issues@.len() > 0,
{
    classify_items(&mut plan.items, installed, catalog, &plan.target_environment);
    let ghost classified_items = plan.items@;
    let roots = roots_from_items(&plan.items, installed);
    let confirmed = confirmed_prereleases(&plan.items);
    let outcome = solve_upgrade(&roots, catalog, fixed, &confirmed);
    let crate::upgrade::solver::SolveOutcome { solutions, issues } = outcome;
    apply_solver_issues_to_items(&mut plan.items, &issues);
    let mut blocking = issues;
    let ghost solver_issues = blocking@;
    push_item_blocking_issues(&mut blocking, &plan.items, fixed);
    let ghost before_dedup = blocking@;
    assert(before_dedup =~= solver_issues + before_dedup.subrange(solver_issues.len() as int, before_dedup.len() as int));
    deduplicate_issues(&mut blocking);
    plan.warnings = item_warnings_with_fixed(&plan.items, fixed);
    plan.blocking_issues = blocking;
    proof {
        assert forall|s: int| 0 <= s < solutions@.len() implies distinct_keys(
            result_view(#[trigger] solutions@[s]),
        ) by {
            assert(solution_law(solutions@[s], roots@, fixed@, catalog@));
        }
    }
    let newest = pick_newest(&solutions, &roots);
    let minimal = pick_minimal(&solutions, &roots, installed);
    plan.newest_solution = solution_at(InstanceUpgradeSolutionKind::Newest, &solutions, newest, &roots, installed);
    plan.minimal_change_solution = solution_at(
        InstanceUpgradeSolutionKind::MinimalChange,
        &solutions,
        minimal,
        &roots,
        installed,
    );
    let first = if solutions.len() > 0 {
        Some(0usize)
    } else {
        None
    };
    let chosen = match selected_kind {
        InstanceUpgradeSolutionKind::Newest => newest,
        InstanceUpgradeSolutionKind::MinimalChange => minimal,
        InstanceUpgradeSolutionKind::Custom => first,
    };
    let selected = solution_at(selected_kind, &solutions, chosen, &roots, installed);
    plan.dependency_changes = match &selected {
        Some(s) => copy_changes(&s.dependency_changes),
        None => Vec::new(),
    };
    plan.selected_solution = selected;
    proof {
        if newest is None {
            lemma_dedup_nonempty(before_dedup);
        }
        match newest {
            Some(k) => assert(picked(InstanceUpgradeSolutionKind::Newest, solutions@, roots@, installed@, k as int)),
            None => {},
        }
        match minimal {
            Some(k) => assert(picked(InstanceUpgradeSolutionKind::MinimalChange, solutions@, roots@, installed@, k as int)),
            None => {},
        }
        match chosen {
            Some(k) => assert(picked(selected_kind, solutions@, roots@, installed@, k as int)),
            None => {},
        }
        assert(kept_solution(plan.newest_solution, InstanceUpgradeSolutionKind::Newest, solutions@, roots@, installed@));
        assert(spec_roots(classified_items, nodes_view(installed@)) == roots@.map_values(|x: RootRequest| root_view(x)));
        let item_blocking = before_dedup.subrange(solver_issues.len() as int, before_dedup.len() as int);
        assert(plan.blocking_issues@ == dedup_issues(solver_issues + item_blocking));
    }
}

proof fn lemma_dedup_nonempty(s: Seq<InstanceUpgradeIssue>)
    requires
        s.len() > 0,
    ensures
        dedup_issues(s).len() > 0,
    decreases s.len(),
{
    if exists|k: int| 0 <= k < s.len() - 1 && issue_key(#[trigger] s[k]) == issue_key(s.last()) {
        lemma_dedup_nonempty(s.drop_last());
    }
}

} // verus!
