//! Construction and bookkeeping of upgrade issues.
use vstd::prelude::*;
use crate::model::{
    ContentProvider, InstanceUpgradeDependencyRequirement, InstanceUpgradeIssue,
    InstanceUpgradeIssueCode,
};
use crate::upgrade::candidates::{NodeKey, copy_opt, opt_view};

verus! {

/// An issue without content id or dependency details.
pub fn issue(
    code: InstanceUpgradeIssueCode,
    message: String,
    key: Option<&NodeKey>,
    project_id: Option<&str>,
    conflicting_project_id: Option<&str>,
) -> (r: InstanceUpgradeIssue)
    ensures
        r.code == code,
        r.message == message,
        r.content_id is None,
        r.provider == (match key {
            Some(k) => Some(k.provider),
            None => None,
        }),
        opt_view(r.project_id) == (match project_id {
            Some(p) => Some(p@),
            None => None,
        }),
        opt_view(r.conflicting_project_id) == (match conflicting_project_id {
            Some(p) => Some(p@),
            None => None,
        }),
        r.dependency_requirements@.len() == 0,
{
    InstanceUpgradeIssue {
        code,
        message,
        content_id: None,
        provider: match key {
            Some(k) => Some(k.provider),
            None => None,
        },
        project_id: match project_id {
            Some(p) => Some(crate::text::to_owned(p)),
            None => None,
        },
        conflicting_project_id: match conflicting_project_id {
            Some(p) => Some(crate::text::to_owned(p)),
            None => None,
        },
        dependency_requirements: Vec::new(),
    }
}

/// An issue that carries the dependency edges that explain it.
pub fn issue_with_requirements(
    code: InstanceUpgradeIssueCode,
    message: String,
    key: Option<&NodeKey>,
    project_id: Option<&str>,
    conflicting_project_id: Option<&str>,
    dependency_requirements: Vec<InstanceUpgradeDependencyRequirement>,
) -> (r: InstanceUpgradeIssue)
    ensures
        r.code == code,
        r.message == message,
        r.content_id is None,
        r.provider == (match key {
            Some(k) => Some(k.provider),
            None => None,
        }),
        opt_view(r.project_id) == (match project_id {
            Some(p) => Some(p@),
            None => None,
        }),
        opt_view(r.conflicting_project_id) == (match conflicting_project_id {
            Some(p) => Some(p@),
            None => None,
        }),
        r.dependency_requirements == dependency_requirements,
{
    let base = issue(code, message, key, project_id, conflicting_project_id);
    InstanceUpgradeIssue { dependency_requirements, ..base }
}

pub fn copy_requirement_detail(d: &InstanceUpgradeDependencyRequirement) -> (r:
    InstanceUpgradeDependencyRequirement)
    ensures
        r == *d,
{
    InstanceUpgradeDependencyRequirement {
        root_content_id: d.root_content_id.clone(),
        root_provider: d.root_provider,
        root_project_id: d.root_project_id.clone(),
        parent_provider: d.parent_provider,
        parent_project_id: d.parent_project_id.clone(),
        parent_release_id: d.parent_release_id.clone(),
        dependency_provider: d.dependency_provider,
        dependency_project_id: d.dependency_project_id.clone(),
        required_release_id: copy_opt(&d.required_release_id),
        candidate_release_id: copy_opt(&d.candidate_release_id),
    }
}

pub fn copy_requirements_details(v: &Vec<InstanceUpgradeDependencyRequirement>) -> (r: Vec<
    InstanceUpgradeDependencyRequirement,
>)
    ensures
        r@ == v@,
{
    let mut r: Vec<InstanceUpgradeDependencyRequirement> = Vec::new();
    let mut i: usize = 0;
    while i < v.len()
        invariant
            i <= v.len(),
            r@ == v@.subrange(0, i as int),
        decreases v.len() - i,
    {
        r.push(copy_requirement_detail(&v[i]));
        assert(v@.subrange(0, i + 1) =~= v@.subrange(0, i as int).push(v@[i as int]));
        i += 1;
    }
    assert(v@.subrange(0, v@.len() as int) =~= v@);
    r
}

} // verus!
