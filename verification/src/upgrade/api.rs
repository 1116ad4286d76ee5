//! Checks and edits of a stored upgrade plan that the plan API performs
//! before and after recomputing it.
use vstd::prelude::*;
use crate::model::{
    ContentProvider, InstanceUpgradeAction, InstanceUpgradeDependencyChange,
    InstanceUpgradeDependencyRequirement, InstanceUpgradeFixedConstraint, InstanceUpgradeIssue,
    InstanceUpgradeIssueCode, InstanceUpgradePlan, InstanceUpgradeResolution, InstanceUpgradeSelection,
    InstanceUpgradeSolution, InstanceUpgradeSolutionChoice, InstanceUpgradeSolutionKind, opt_str_view,
};
use crate::upgrade::candidates::copy_opt;
use crate::upgrade::issues::copy_requirements_details;
use crate::upgrade::materialize::{ChangeView, change_view, changes_view};

verus! {

/// Why a plan request was refused.
#[derive(Debug)]
pub enum UpgradeApiError {
    /// The instance's content changed since the plan was made.
    StaleInstanceUpgradePlan { planned_revision: u64, current_revision: u64 },
    /// The request does not fit the plan.
    InputError(String),
}

impl UpgradeApiError {
    pub open spec fn spec_message(&self) -> Seq<char> {
        match self {
            UpgradeApiError::StaleInstanceUpgradePlan { planned_revision, current_revision } =>
                "The instance upgrade plan is stale (planned revision "@
                + crate::text::spec_decimal(*planned_revision as nat) + ", current revision "@
                + crate::text::spec_decimal(*current_revision as nat) + ")"@,
            UpgradeApiError::InputError(message) => message@,
        }
    }

    /// The error as the user reads it.
    pub fn message(&self) -> (r: String)
        ensures
            r@ == self.spec_message(),
    {
        match self {
            UpgradeApiError::StaleInstanceUpgradePlan { planned_revision, current_revision } => {
                let a = crate::text::concat(
                    "The instance upgrade plan is stale (planned revision ",
                    crate::text::decimal(*planned_revision).as_str(),
                );
                let b = crate::text::concat(a.as_str(), ", current revision ");
                let c = crate::text::concat(b.as_str(), crate::text::decimal(*current_revision).as_str());
                crate::text::concat(c.as_str(), ")")
            },
            UpgradeApiError::InputError(message) => message.clone(),
        }
    }
}

/// A plan may only be used while the instance's content is at the revision
/// it was planned for.
pub fn ensure_instance_upgrade_revision(planned_revision: u64, current_revision: u64) -> (r: Result<
    (),
    UpgradeApiError,
>)
    ensures
        r is Ok <==> planned_revision == current_revision,
        r matches Err(e) ==> e == (UpgradeApiError::StaleInstanceUpgradePlan {
            planned_revision,
            current_revision,
        }),
{
    if planned_revision == current_revision {
        return Ok(());
    }
    Err(UpgradeApiError::StaleInstanceUpgradePlan { planned_revision, current_revision })
}

pub type ConstraintView = (ContentProvider, Seq<char>, Seq<char>);

pub open spec fn constraint_view(c: InstanceUpgradeFixedConstraint) -> ConstraintView {
    (c.provider, c.project_id@, c.version_id@)
}

pub open spec fn constraints_view(v: Seq<InstanceUpgradeFixedConstraint>) -> Seq<ConstraintView> {
    v.map_values(|c: InstanceUpgradeFixedConstraint| constraint_view(c))
}

pub fn copy_constraints(v: &Vec<InstanceUpgradeFixedConstraint>) -> (r: Vec<InstanceUpgradeFixedConstraint>)
    ensures
        constraints_view(r@) == constraints_view(v@),
{
    let mut r: Vec<InstanceUpgradeFixedConstraint> = Vec::new();
    let mut i: usize = 0;
    while i < v.len()
        invariant
            i <= v.len(),
            constraints_view(r@) == constraints_view(v@.subrange(0, i as int)),
        decreases v.len() - i,
    {
        let c = InstanceUpgradeFixedConstraint {
            provider: v[i].provider,
            project_id: v[i].project_id.clone(),
            version_id: v[i].version_id.clone(),
        };
        let ghost before = r@;
        r.push(c);
        assert(constraints_view(r@) =~= constraints_view(before).push(constraint_view(c)));
        assert(constraints_view(v@.subrange(0, i + 1)) =~= constraints_view(v@.subrange(0, i as int)).push(
            constraint_view(v@[i as int]),
        ));
        i += 1;
    }
    assert(v@.subrange(0, v@.len() as int) =~= v@);
    r
}

/// The solution kind a recomputation keeps, and the constraints it uses:
/// only a custom selection carries the plan's stored constraints.
pub fn selected_kind_and_constraints(plan: &InstanceUpgradePlan) -> (r: (
    InstanceUpgradeSolutionKind,
    Vec<InstanceUpgradeFixedConstraint>,
))
    ensures
        plan.selected_solution is None ==> r.0 == InstanceUpgradeSolutionKind::Newest
            && r.1@.len() == 0,
        plan.selected_solution matches Some(s) ==> r.0 == s.kind,
        (plan.selected_solution matches Some(s) && s.kind == InstanceUpgradeSolutionKind::Custom)
            ==> constraints_view(r.1@) == constraints_view(plan.custom_constraints@),
        (plan.selected_solution matches Some(s) && s.kind != InstanceUpgradeSolutionKind::Custom)
            ==> r.1@.len() == 0,
{
    match &plan.selected_solution {
        None => (InstanceUpgradeSolutionKind::Newest, Vec::new()),
        Some(solution) => {
            if solution.kind != InstanceUpgradeSolutionKind::Custom {
                (solution.kind, Vec::new())
            } else {
                (InstanceUpgradeSolutionKind::Custom, copy_constraints(&plan.custom_constraints))
            }
        },
    }
}

/// The version that the last constraint before `i` on the same project
/// fixes.
pub open spec fn previous_version(cs: Seq<ConstraintView>, i: int, j: int) -> Option<Seq<char>>
    decreases j,
{
    if j <= 0 {
        None
    } else if cs[j - 1].0 == cs[i].0 && cs[j - 1].1 == cs[i].1 {
        Some(cs[j - 1].2)
    } else {
        previous_version(cs, i, j - 1)
    }
}

/// A root item of the plan (one the user added) is the constraint's project.
pub open spec fn constraint_has_root(plan: InstanceUpgradePlan, c: ConstraintView) -> bool {
    exists|k: int|
        0 <= k < plan.items@.len() && !(#[trigger] plan.items@[k]).auto_dependency
            && plan.items@[k].provider == Some(c.0) && crate::model::opt_str_view(plan.items@[k].project_id)
            == Some(c.1)
}

/// The refusal of constraint `i`, if it is refused.
pub open spec fn constraint_error(plan: InstanceUpgradePlan, cs: Seq<ConstraintView>, i: int) -> Option<
    Seq<char>,
> {
    let c = cs[i];
    if previous_version(cs, i, i) matches Some(v) && v != c.2 {
        Some("Custom upgrade constraints select multiple versions for "@ + c.0.spec_as_str() + ":"@ + c.1)
    } else if !constraint_has_root(plan, c) {
        Some("Custom upgrade constraint is not a root content project: "@ + c.0.spec_as_str() + ":"@ + c.1)
    } else {
        None
    }
}

/// The refusal of the first refused constraint among the first `n`.
pub open spec fn first_constraint_error(plan: InstanceUpgradePlan, cs: Seq<ConstraintView>, n: int) -> Option<
    Seq<char>,
>
    decreases n,
{
    if n <= 0 {
        None
    } else {
        match first_constraint_error(plan, cs, n - 1) {
            Some(m) => Some(m),
            None => constraint_error(plan, cs, n - 1),
        }
    }
}

proof fn lemma_first_error_stays(plan: InstanceUpgradePlan, cs: Seq<ConstraintView>, m: int, n: int)
    requires
        0 <= m <= n,
        first_constraint_error(plan, cs, m) is Some,
    ensures
        first_constraint_error(plan, cs, n) == first_constraint_error(plan, cs, m),
    decreases n - m,
{
    if n > m {
        lemma_first_error_stays(plan, cs, m, n - 1);
    }
}

fn previous_version_of(cs: &Vec<InstanceUpgradeFixedConstraint>, i: usize) -> (r: Option<usize>)
    requires
        i < cs@.len(),
    ensures
        match r {
            Some(j) => j < i && previous_version(constraints_view(cs@), i as int, i as int) == Some(cs@[j as int].version_id@),
            None => previous_version(constraints_view(cs@), i as int, i as int) is None,
        },
{
    let ghost v = constraints_view(cs@);
    let mut j = i;
    while j > 0
        invariant
            j <= i,
            i < cs@.len(),
            v == constraints_view(cs@),
            previous_version(v, i as int, i as int) == previous_version(v, i as int, j as int),
        decreases j,
    {
        if cs[j - 1].provider == cs[i].provider && cs[j - 1].project_id == cs[i].project_id {
            return Some(j - 1);
        }
        j -= 1;
    }
    None
}

fn has_root(plan: &InstanceUpgradePlan, c: &InstanceUpgradeFixedConstraint) -> (r: bool)
    ensures
        r == constraint_has_root(*plan, constraint_view(*c)),
{
    let mut k: usize = 0;
    while k < plan.items.len()
        invariant
            k <= plan.items.len(),
            forall|x: int|
                0 <= x < k ==> !(!(#[trigger] plan.items@[x]).auto_dependency && plan.items@[x].provider
                    == Some(c.provider) && crate::model::opt_str_view(plan.items@[x].project_id) == Some(c.project_id@)),
        decreases plan.items.len() - k,
    {
        let item = &plan.items[k];
        if !item.auto_dependency && item.provider == Some(c.provider) {
            match &item.project_id {
                Some(p) => {
                    if *p == c.project_id {
                        return true;
                    }
                },
                None => {},
            }
        }
        k += 1;
    }
    false
}

fn constraint_label(c: &InstanceUpgradeFixedConstraint) -> (r: String)
    ensures
        r@ == c.provider.spec_as_str() + ":"@ + c.project_id@,
{
    let a = crate::text::concat(c.provider.as_str(), ":");
    crate::text::concat(a.as_str(), c.project_id.as_str())
}

/// Refuses custom constraints that fix two versions of one project or that
/// fix a project which is not a root of the plan; the first refused
/// constraint decides the error.
pub fn validate_fixed_constraints(
    plan: &InstanceUpgradePlan,
    constraints: &Vec<InstanceUpgradeFixedConstraint>,
) -> (r: Result<(), UpgradeApiError>)
    ensures
        r is Ok <==> first_constraint_error(*plan, constraints_view(constraints@), constraints@.len() as int) is None,
        r matches Err(e) ==> (e matches UpgradeApiError::InputError(m) && Some(m@) == first_constraint_error(
            *plan,
            constraints_view(constraints@),
            constraints@.len() as int,
        )),
{
    let ghost v = constraints_view(constraints@);
    let mut i: usize = 0;
    while i < constraints.len()
        invariant
            i <= constraints.len(),
            v == constraints_view(constraints@),
            first_constraint_error(*plan, v, i as int) is None,
        decreases constraints.len() - i,
    {
        let c = &constraints[i];
        assert(v[i as int] == constraint_view(*c));
        match previous_version_of(constraints, i) {
            Some(j) => {
                if constraints[j].version_id != c.version_id {
                    let label = constraint_label(c);
                    let message = crate::text::concat(
                        "Custom upgrade constraints select multiple versions for ",
                        label.as_str(),
                    );
                    assert(message@ == "Custom upgrade constraints select multiple versions for "@ + c.provider.spec_as_str() + ":"@ + c.project_id@);
                    proof {
                        assert(constraint_error(*plan, v, i as int) == Some(message@));
                        assert(first_constraint_error(*plan, v, i + 1) == Some(message@));
                        lemma_first_error_stays(*plan, v, i + 1, v.len() as int);
                    }
                    return Err(UpgradeApiError::InputError(message));
                }
            },
            None => {},
        }
        if !has_root(plan, c) {
            let label = constraint_label(c);
            let message = crate::text::concat(
                "Custom upgrade constraint is not a root content project: ",
                label.as_str(),
            );
            assert(message@ == "Custom upgrade constraint is not a root content project: "@ + c.provider.spec_as_str() + ":"@ + c.project_id@);
            proof {
                assert(constraint_error(*plan, v, i as int) == Some(message@));
                assert(first_constraint_error(*plan, v, i + 1) == Some(message@));
                lemma_first_error_stays(*plan, v, i + 1, v.len() as int);
            }
            return Err(UpgradeApiError::InputError(message));
        }
        i += 1;
    }
    Ok(())
}

/// Sets the resolution of the item it names.
pub fn apply_resolution(plan: &mut InstanceUpgradePlan, resolution: InstanceUpgradeResolution) -> (r:
    Result<(), UpgradeApiError>)
    ensures
        r is Ok <==> exists|k: int|
            0 <= k < old(plan).items@.len() && (#[trigger] old(plan).items@[k]).content_id@
                == resolution.content_id@,
        r matches Err(e) ==> e.spec_message() == "Upgrade plan has no content item "@ + resolution.content_id@,
        r is Err ==> *final(plan) == *old(plan),
        r is Ok ==> final(plan).items@.len() == old(plan).items@.len() && exists|k: int|
            0 <= k < old(plan).items@.len() && old(plan).items@[k].content_id@ == resolution.content_id@
                && (forall|x: int| 0 <= x < k ==> (#[trigger] old(plan).items@[x]).content_id@ != resolution.content_id@)
                && final(plan).items@[k].resolution == resolution && (forall|x: int|
                0 <= x < old(plan).items@.len() && x != k ==> #[trigger] final(plan).items@[x] == old(plan).items@[x]),
{
    let mut k: usize = 0;
    while k < plan.items.len()
        invariant
            k <= plan.items.len(),
            *plan == *old(plan),
            forall|x: int| 0 <= x < k ==> (#[trigger] plan.items@[x]).content_id@ != resolution.content_id@,
        decreases plan.items.len() - k,
    {
        if plan.items[k].content_id == resolution.content_id {
            let ghost before = plan.items@;
            let mut item = plan.items.remove(k);
            item.resolution = resolution;
            plan.items.insert(k, item);
            proof {
                assert(plan.items@ =~= before.update(k as int, item));
                assert(old(plan).items@[k as int].content_id@ == resolution.content_id@);
                assert(plan.items@[k as int].resolution == resolution);
                assert(forall|x: int| 0 <= x < old(plan).items@.len() && x != k ==> #[trigger] plan.items@[x] == old(plan).items@[x]);
                assert(forall|x: int| 0 <= x < k ==> (#[trigger] old(plan).items@[x]).content_id@ != resolution.content_id@);
            }
            return Ok(());
        }
        k += 1;
    }
    let message = crate::text::concat("Upgrade plan has no content item ", resolution.content_id.as_str());
    Err(UpgradeApiError::InputError(message))
}


pub struct SelectionView {
    pub content_id: Seq<char>,
    pub provider: Option<ContentProvider>,
    pub project_id: Option<Seq<char>>,
    pub current_release_id: Option<Seq<char>>,
    pub target_release_id: Option<Seq<char>>,
    pub action: InstanceUpgradeAction,
    pub enabled: bool,
}

pub open spec fn selection_view(s: InstanceUpgradeSelection) -> SelectionView {
    SelectionView {
        content_id: s.content_id@,
        provider: s.provider,
        project_id: opt_str_view(s.project_id),
        current_release_id: opt_str_view(s.current_release_id),
        target_release_id: opt_str_view(s.target_release_id),
        action: s.action,
        enabled: s.enabled,
    }
}

pub struct IssueView {
    pub code: InstanceUpgradeIssueCode,
    pub message: Seq<char>,
    pub content_id: Option<Seq<char>>,
    pub provider: Option<ContentProvider>,
    pub project_id: Option<Seq<char>>,
    pub conflicting_project_id: Option<Seq<char>>,
    pub dependency_requirements: Seq<InstanceUpgradeDependencyRequirement>,
}

pub open spec fn issue_view(i: InstanceUpgradeIssue) -> IssueView {
    IssueView {
        code: i.code,
        message: i.message@,
        content_id: opt_str_view(i.content_id),
        provider: i.provider,
        project_id: opt_str_view(i.project_id),
        conflicting_project_id: opt_str_view(i.conflicting_project_id),
        dependency_requirements: i.dependency_requirements@,
    }
}

pub struct SolutionView {
    pub kind: InstanceUpgradeSolutionKind,
    pub selections: Seq<SelectionView>,
    pub dependency_changes: Seq<ChangeView>,
    pub warnings: Seq<IssueView>,
}

pub open spec fn solution_view(s: InstanceUpgradeSolution) -> SolutionView {
    SolutionView {
        kind: s.kind,
        selections: s.selections@.map_values(|x: InstanceUpgradeSelection| selection_view(x)),
        dependency_changes: changes_view(s.dependency_changes@),
        warnings: s.warnings@.map_values(|x: InstanceUpgradeIssue| issue_view(x)),
    }
}

pub open spec fn opt_solution_view(s: Option<InstanceUpgradeSolution>) -> Option<SolutionView> {
    match s {
        Some(x) => Some(solution_view(x)),
        None => None,
    }
}

pub fn copy_issue(i: &InstanceUpgradeIssue) -> (r: InstanceUpgradeIssue)
    ensures
        issue_view(r) == issue_view(*i),
{
    InstanceUpgradeIssue {
        code: i.code,
        message: i.message.clone(),
        content_id: copy_opt(&i.content_id),
        provider: i.provider,
        project_id: copy_opt(&i.project_id),
        conflicting_project_id: copy_opt(&i.conflicting_project_id),
        dependency_requirements: copy_requirements_details(&i.dependency_requirements),
    }
}

fn copy_solution(s: &InstanceUpgradeSolution) -> (r: InstanceUpgradeSolution)
    ensures
        solution_view(r) == solution_view(*s),
{
    let mut selections: Vec<InstanceUpgradeSelection> = Vec::new();
    let mut i: usize = 0;
    while i < s.selections.len()
        invariant
            i <= s.selections.len(),
            selections@.map_values(|x: InstanceUpgradeSelection| selection_view(x))
                == s.selections@.subrange(0, i as int).map_values(|x: InstanceUpgradeSelection| selection_view(x)),
        decreases s.selections.len() - i,
    {
        let x = &s.selections[i];
        let c = InstanceUpgradeSelection {
            content_id: x.content_id.clone(),
            provider: x.provider,
            project_id: copy_opt(&x.project_id),
            current_release_id: copy_opt(&x.current_release_id),
            target_release_id: copy_opt(&x.target_release_id),
            action: x.action,
            enabled: x.enabled,
        };
        let ghost before = selections@;
        selections.push(c);
        assert(selections@.map_values(|x: InstanceUpgradeSelection| selection_view(x)) =~= before.map_values(
            |x: InstanceUpgradeSelection| selection_view(x),
        ).push(selection_view(c)));
        assert(s.selections@.subrange(0, i + 1).map_values(|x: InstanceUpgradeSelection| selection_view(x))
            =~= s.selections@.subrange(0, i as int).map_values(|x: InstanceUpgradeSelection| selection_view(x)).push(
            selection_view(*x),
        ));
        i += 1;
    }
    assert(s.selections@.subrange(0, s.selections@.len() as int) =~= s.selections@);
    let mut changes: Vec<InstanceUpgradeDependencyChange> = Vec::new();
    let mut j: usize = 0;
    while j < s.dependency_changes.len()
        invariant
            j <= s.dependency_changes.len(),
            changes_view(changes@) == changes_view(s.dependency_changes@.subrange(0, j as int)),
        decreases s.dependency_changes.len() - j,
    {
        let x = &s.dependency_changes[j];
        let c = InstanceUpgradeDependencyChange {
            provider: x.provider,
            project_id: x.project_id.clone(),
            current_release_id: copy_opt(&x.current_release_id),
            target_release_id: copy_opt(&x.target_release_id),
            kind: x.kind,
            enabled: x.enabled,
        };
        let ghost before = changes@;
        changes.push(c);
        assert(changes_view(changes@) =~= changes_view(before).push(change_view(c)));
        assert(changes_view(s.dependency_changes@.subrange(0, j + 1)) =~= changes_view(
            s.dependency_changes@.subrange(0, j as int),
        ).push(change_view(*x)));
        j += 1;
    }
    assert(s.dependency_changes@.subrange(0, s.dependency_changes@.len() as int) =~= s.dependency_changes@);
    let mut warnings: Vec<InstanceUpgradeIssue> = Vec::new();
    let mut k: usize = 0;
    while k < s.warnings.len()
        invariant
            k <= s.warnings.len(),
            warnings@.map_values(|x: InstanceUpgradeIssue| issue_view(x)) == s.warnings@.subrange(0, k as int).map_values(
                |x: InstanceUpgradeIssue| issue_view(x),
            ),
        decreases s.warnings.len() - k,
    {
        let c = copy_issue(&s.warnings[k]);
        let ghost before = warnings@;
        warnings.push(c);
        assert(warnings@.map_values(|x: InstanceUpgradeIssue| issue_view(x)) =~= before.map_values(
            |x: InstanceUpgradeIssue| issue_view(x),
        ).push(issue_view(c)));
        assert(s.warnings@.subrange(0, k + 1).map_values(|x: InstanceUpgradeIssue| issue_view(x))
            =~= s.warnings@.subrange(0, k as int).map_values(|x: InstanceUpgradeIssue| issue_view(x)).push(
            issue_view(s.warnings@[k as int]),
        ));
        k += 1;
    }
    assert(s.warnings@.subrange(0, s.warnings@.len() as int) =~= s.warnings@);
    InstanceUpgradeSolution { kind: s.kind, selections, dependency_changes: changes, warnings }
}

fn copy_opt_solution(s: &Option<InstanceUpgradeSolution>) -> (r: Option<InstanceUpgradeSolution>)
    ensures
        opt_solution_view(r) == opt_solution_view(*s),
{
    match s {
        Some(x) => Some(copy_solution(x)),
        None => None,
    }
}

/// Selects which solution of the plan applies. A custom solution can only
/// be selected once one has been resolved; the plan's dependency changes
/// follow the selected solution.
pub fn select_solution(plan: &mut InstanceUpgradePlan, choice: InstanceUpgradeSolutionChoice) -> (r:
    Result<(), UpgradeApiError>)
    ensures
        r is Err <==> (choice == InstanceUpgradeSolutionChoice::Custom && !(old(plan).selected_solution matches Some(s)
            && s.kind == InstanceUpgradeSolutionKind::Custom)),
        r matches Err(e) ==> e.spec_message() == "No custom upgrade solution has been resolved"@,
        r is Err ==> *final(plan) == *old(plan),
        r is Ok ==> opt_solution_view(final(plan).selected_solution) == match choice {
            InstanceUpgradeSolutionChoice::Newest => opt_solution_view(old(plan).newest_solution),
            InstanceUpgradeSolutionChoice::MinimalChange => opt_solution_view(old(plan).minimal_change_solution),
            InstanceUpgradeSolutionChoice::Custom => opt_solution_view(old(plan).selected_solution),
        },
        r is Ok ==> changes_view(final(plan).dependency_changes@) == match final(plan).selected_solution {
            Some(s) => changes_view(s.dependency_changes@),
            None => Seq::empty(),
        },
        final(plan).items == old(plan).items,
        opt_solution_view(final(plan).newest_solution) == opt_solution_view(old(plan).newest_solution),
        opt_solution_view(final(plan).minimal_change_solution) == opt_solution_view(old(plan).minimal_change_solution),
{
    let selected = match choice {
        InstanceUpgradeSolutionChoice::Newest => copy_opt_solution(&plan.newest_solution),
        InstanceUpgradeSolutionChoice::MinimalChange => copy_opt_solution(&plan.minimal_change_solution),
        InstanceUpgradeSolutionChoice::Custom => {
            let is_custom = match &plan.selected_solution {
                Some(s) => s.kind == InstanceUpgradeSolutionKind::Custom,
                None => false,
            };
            if !is_custom {
                return Err(
                    UpgradeApiError::InputError(
                        crate::text::to_owned("No custom upgrade solution has been resolved"),
                    ),
                );
            }
            copy_opt_solution(&plan.selected_solution)
        },
    };
    let mut changes: Vec<InstanceUpgradeDependencyChange> = Vec::new();
    match &selected {
        Some(s) => {
            let copy = copy_solution(s);
            changes = copy.dependency_changes;
        },
        None => {},
    }
    assert(changes_view(changes@) =~= match selected {
        Some(s) => changes_view(s.dependency_changes@),
        None => Seq::<ChangeView>::empty(),
    });
    plan.selected_solution = selected;
    plan.dependency_changes = changes;
    Ok(())
}

} // verus!
