//! Issues and warnings that plan items raise, and how solver issues mark
//! the items they concern.
use vstd::prelude::*;
use crate::model::{
    InstanceUpgradeAction, InstanceUpgradeFixedConstraint, InstanceUpgradeIssue,
    InstanceUpgradeIssueCode, InstanceUpgradeItem, InstanceUpgradeItemStatus, opt_str_view,
};
use crate::upgrade::candidates::copy_opt;

verus! {

/// The blocking code of an item the user must resolve, if it needs one.
pub open spec fn blocking_code(item: InstanceUpgradeItem, fixed_prerelease: bool) -> Option<
    InstanceUpgradeIssueCode,
> {
    if item.resolution.action != InstanceUpgradeAction::Upgrade {
        None
    } else {
        match item.status {
            InstanceUpgradeItemStatus::PrereleaseOnly => if !item.resolution.allow_prerelease
                && !fixed_prerelease {
                Some(InstanceUpgradeIssueCode::PrereleaseOnly)
            } else {
                None
            },
            InstanceUpgradeItemStatus::NoCompatibleRelease => Some(
                InstanceUpgradeIssueCode::NoCompatibleRelease,
            ),
            InstanceUpgradeItemStatus::NoCompatibleShaderRuntime => Some(
                InstanceUpgradeIssueCode::NoCompatibleShaderRuntime,
            ),
            InstanceUpgradeItemStatus::ShaderRuntimeMissing => Some(
                InstanceUpgradeIssueCode::ShaderRuntimeMissing,
            ),
            InstanceUpgradeItemStatus::ShaderRuntimeUnknown => Some(
                InstanceUpgradeIssueCode::ShaderRuntimeUnknown,
            ),
            _ => None,
        }
    }
}

/// The issue is about `item`, with `code` and `message`.
pub open spec fn item_issue(
    r: InstanceUpgradeIssue,
    item: InstanceUpgradeItem,
    code: InstanceUpgradeIssueCode,
    message: Seq<char>,
) -> bool {
    &&& r.code == code
    &&& r.message@ == message
    &&& opt_str_view(r.content_id) == Some(item.content_id@)
    &&& r.provider == item.provider
    &&& opt_str_view(r.project_id) == opt_str_view(item.project_id)
    &&& r.conflicting_project_id is None
    &&& r.dependency_requirements@.len() == 0
}

fn issue_for_item(item: &InstanceUpgradeItem, code: InstanceUpgradeIssueCode, message: String) -> (r:
    InstanceUpgradeIssue)
    ensures
        item_issue(r, *item, code, message@),
{
    InstanceUpgradeIssue {
        code,
        message,
        content_id: Some(item.content_id.clone()),
        provider: item.provider,
        project_id: copy_opt(&item.project_id),
        conflicting_project_id: None,
        dependency_requirements: Vec::new(),
    }
}

/// The issue that blocks upgrading `item` until the user resolves it.
pub fn blocking_issue_for_item(item: &InstanceUpgradeItem, fixed_prerelease: bool) -> (r: Option<
    InstanceUpgradeIssue,
>)
    ensures
        r is None <==> blocking_code(*item, fixed_prerelease) is None,
        r matches Some(i) ==> item_issue(
            i,
            *item,
            blocking_code(*item, fixed_prerelease)->0,
            item.relative_path@ + " cannot be upgraded without user resolution"@,
        ),
{
    if item.resolution.action != InstanceUpgradeAction::Upgrade {
        return None;
    }
    let code = match item.status {
        InstanceUpgradeItemStatus::PrereleaseOnly => {
            if !item.resolution.allow_prerelease && !fixed_prerelease {
                InstanceUpgradeIssueCode::PrereleaseOnly
            } else {
                return None;
            }
        },
        InstanceUpgradeItemStatus::NoCompatibleRelease => InstanceUpgradeIssueCode::NoCompatibleRelease,
        InstanceUpgradeItemStatus::NoCompatibleShaderRuntime => InstanceUpgradeIssueCode::NoCompatibleShaderRuntime,
        InstanceUpgradeItemStatus::ShaderRuntimeMissing => InstanceUpgradeIssueCode::ShaderRuntimeMissing,
        InstanceUpgradeItemStatus::ShaderRuntimeUnknown => InstanceUpgradeIssueCode::ShaderRuntimeUnknown,
        _ => {
            return None;
        },
    };
    let message = crate::text::concat(
        item.relative_path.as_str(),
        " cannot be upgraded without user resolution",
    );
    Some(issue_for_item(item, code, message))
}

/// The item names a project whose version the user fixed.
pub open spec fn fixed_for_item(item: InstanceUpgradeItem, fixed: Seq<InstanceUpgradeFixedConstraint>) -> bool {
    match (item.provider, item.project_id) {
        (Some(provider), Some(project)) => exists|i: int|
            0 <= i < fixed.len() && (#[trigger] fixed[i]).provider == provider && fixed[i].project_id@
                == project@,
        _ => false,
    }
}

pub fn fixed_for(item: &InstanceUpgradeItem, fixed: &Vec<InstanceUpgradeFixedConstraint>) -> (r: bool)
    ensures
        r == fixed_for_item(*item, fixed@),
{
    match (item.provider, &item.project_id) {
        (Some(provider), Some(project)) => {
            let mut i: usize = 0;
            while i < fixed.len()
                invariant
                    i <= fixed.len(),
                    item.provider == Some(provider),
                    item.project_id == Some(*project),
                    forall|k: int|
                        0 <= k < i ==> !((#[trigger] fixed@[k]).provider == provider && fixed@[k].project_id@
                            == project@),
                decreases fixed.len() - i,
            {
                if fixed[i].provider == provider && fixed[i].project_id == *project {
                    assert(fixed@[i as int].provider == provider && fixed@[i as int].project_id@ == project@);
                    assert(item.provider == Some(provider));
                    assert(item.project_id == Some(*project));
                    assert(fixed_for_item(*item, fixed@));
                    return true;
                }
                i += 1;
            }
            false
        },
        _ => false,
    }
}

pub open spec fn warning_code(item: InstanceUpgradeItem) -> Option<InstanceUpgradeIssueCode> {
    match item.status {
        InstanceUpgradeItemStatus::Unidentified => Some(InstanceUpgradeIssueCode::Unidentified),
        InstanceUpgradeItemStatus::UnsupportedContentType => Some(
            InstanceUpgradeIssueCode::UnsupportedContentType,
        ),
        InstanceUpgradeItemStatus::PrereleaseOnly => Some(InstanceUpgradeIssueCode::PrereleaseOnly),
        InstanceUpgradeItemStatus::NoCompatibleRelease => if item.resolution.action
            != InstanceUpgradeAction::Upgrade {
            Some(InstanceUpgradeIssueCode::KeepIncompatible)
        } else {
            None
        },
        _ => None,
    }
}

pub open spec fn warning_message(
    item: InstanceUpgradeItem,
    code: InstanceUpgradeIssueCode,
    fixed: Seq<InstanceUpgradeFixedConstraint>,
) -> Seq<char> {
    if code == InstanceUpgradeIssueCode::PrereleaseOnly {
        if item.resolution.allow_prerelease || fixed_for_item(item, fixed) {
            item.relative_path@ + " uses a confirmed prerelease"@
        } else {
            item.relative_path@ + " requires explicit prerelease confirmation"@
        }
    } else {
        item.relative_path@ + " will be preserved"@
    }
}

/// The warning of each item that has one, in item order.
pub open spec fn item_warnings_spec(items: Seq<InstanceUpgradeItem>, fixed: Seq<InstanceUpgradeFixedConstraint>) -> Seq<
    (InstanceUpgradeItem, InstanceUpgradeIssueCode, Seq<char>),
>
    decreases items.len(),
{
    if items.len() == 0 {
        Seq::empty()
    } else {
        let prev = item_warnings_spec(items.drop_last(), fixed);
        let item = items.last();
        match warning_code(item) {
            Some(code) => prev.push((item, code, warning_message(item, code, fixed))),
            None => prev,
        }
    }
}

/// The warnings of the plan's items, where `fixed` lists the versions the
/// user fixed (a fixed prerelease counts as confirmed).
pub fn item_warnings_with_fixed(
    items: &Vec<InstanceUpgradeItem>,
    fixed: &Vec<InstanceUpgradeFixedConstraint>,
) -> (r: Vec<InstanceUpgradeIssue>)
    ensures
        r@.len() == item_warnings_spec(items@, fixed@).len(),
        forall|i: int|
            0 <= i < r@.len() ==> item_issue(
                #[trigger] r@[i],
                item_warnings_spec(items@, fixed@)[i].0,
                item_warnings_spec(items@, fixed@)[i].1,
                item_warnings_spec(items@, fixed@)[i].2,
            ),
{
    let mut out: Vec<InstanceUpgradeIssue> = Vec::new();
    let mut i: usize = 0;
    assert(items@.subrange(0, 0) =~= Seq::<InstanceUpgradeItem>::empty());
    while i < items.len()
        invariant
            i <= items.len(),
            out@.len() == item_warnings_spec(items@.subrange(0, i as int), fixed@).len(),
            forall|k: int|
                0 <= k < out@.len() ==> item_issue(
                    #[trigger] out@[k],
                    item_warnings_spec(items@.subrange(0, i as int), fixed@)[k].0,
                    item_warnings_spec(items@.subrange(0, i as int), fixed@)[k].1,
                    item_warnings_spec(items@.subrange(0, i as int), fixed@)[k].2,
                ),
        decreases items.len() - i,
    {
        let item = &items[i];
        let ghost prev = item_warnings_spec(items@.subrange(0, i as int), fixed@);
        assert(items@.subrange(0, i + 1).drop_last() =~= items@.subrange(0, i as int));
        assert(items@.subrange(0, i + 1).last() == *item);
        let code = match item.status {
            InstanceUpgradeItemStatus::Unidentified => Some(InstanceUpgradeIssueCode::Unidentified),
            InstanceUpgradeItemStatus::UnsupportedContentType => Some(InstanceUpgradeIssueCode::UnsupportedContentType),
            InstanceUpgradeItemStatus::PrereleaseOnly => Some(InstanceUpgradeIssueCode::PrereleaseOnly),
            InstanceUpgradeItemStatus::NoCompatibleRelease => {
                if item.resolution.action != InstanceUpgradeAction::Upgrade {
                    Some(InstanceUpgradeIssueCode::KeepIncompatible)
                } else {
                    None
                }
            },
            _ => None,
        };
        match code {
            Some(code) => {
                let message = if code == InstanceUpgradeIssueCode::PrereleaseOnly {
                    if item.resolution.allow_prerelease || fixed_for(item, fixed) {
                        crate::text::concat(item.relative_path.as_str(), " uses a confirmed prerelease")
                    } else {
                        crate::text::concat(item.relative_path.as_str(), " requires explicit prerelease confirmation")
                    }
                } else {
                    crate::text::concat(item.relative_path.as_str(), " will be preserved")
                };
                let w = issue_for_item(item, code, message);
                let ghost before = out@;
                out.push(w);
                assert forall|k: int| 0 <= k < out@.len() implies item_issue(
                    #[trigger] out@[k],
                    item_warnings_spec(items@.subrange(0, i + 1), fixed@)[k].0,
                    item_warnings_spec(items@.subrange(0, i + 1), fixed@)[k].1,
                    item_warnings_spec(items@.subrange(0, i + 1), fixed@)[k].2,
                ) by {
                    if k < before.len() {
                        assert(out@[k] == before[k]);
                    }
                }
            },
            None => {},
        }
        i += 1;
    }
    assert(items@.subrange(0, items@.len() as int) =~= items@);
    out
}

/// The warnings of the plan's items when no version is fixed.
pub fn item_warnings(items: &Vec<InstanceUpgradeItem>) -> (r: Vec<InstanceUpgradeIssue>)
    ensures
        r@.len() == item_warnings_spec(items@, Seq::empty()).len(),
        forall|i: int|
            0 <= i < r@.len() ==> item_issue(
                #[trigger] r@[i],
                item_warnings_spec(items@, Seq::empty())[i].0,
                item_warnings_spec(items@, Seq::empty())[i].1,
                item_warnings_spec(items@, Seq::empty())[i].2,
            ),
{
    let fixed: Vec<InstanceUpgradeFixedConstraint> = Vec::new();
    assert(fixed@ =~= Seq::<InstanceUpgradeFixedConstraint>::empty());
    item_warnings_with_fixed(items, &fixed)
}

/// The item status a solver issue gives the items it concerns.
pub open spec fn issue_status(code: InstanceUpgradeIssueCode) -> Option<InstanceUpgradeItemStatus> {
    match code {
        InstanceUpgradeIssueCode::DependencyConflict => Some(InstanceUpgradeItemStatus::DependencyConflict),
        InstanceUpgradeIssueCode::MissingRequiredDependency => Some(
            InstanceUpgradeItemStatus::MissingRequiredDependency,
        ),
        InstanceUpgradeIssueCode::IncompatibleDependency => Some(
            InstanceUpgradeItemStatus::IncompatibleDependency,
        ),
        _ => None,
    }
}

/// The issue concerns the item: it names the item's project (both may name
/// none) or has a requirement rooted at the item.
pub open spec fn issue_concerns(issue: InstanceUpgradeIssue, item: InstanceUpgradeItem) -> bool {
    ||| opt_str_view(issue.project_id) == opt_str_view(item.project_id)
    ||| opt_str_view(issue.conflicting_project_id) == opt_str_view(item.project_id)
    ||| exists|r: int|
        0 <= r < issue.dependency_requirements@.len()
            && (#[trigger] issue.dependency_requirements@[r]).root_content_id@ == item.content_id@
}

/// The status of `item` after the solver issues are applied in order: the
/// last concerning issue with a status decides.
pub open spec fn status_after(
    status: InstanceUpgradeItemStatus,
    item: InstanceUpgradeItem,
    issues: Seq<InstanceUpgradeIssue>,
) -> InstanceUpgradeItemStatus
    decreases issues.len(),
{
    if issues.len() == 0 {
        status
    } else {
        let prev = status_after(status, item, issues.drop_last());
        let issue = issues.last();
        match issue_status(issue.code) {
            Some(s) => if issue_concerns(issue, item) {
                s
            } else {
                prev
            },
            None => prev,
        }
    }
}

fn concerns(issue: &InstanceUpgradeIssue, item: &InstanceUpgradeItem) -> (r: bool)
    ensures
        r == issue_concerns(*issue, *item),
{
    if crate::upgrade::candidates::same_opt(&issue.project_id, &item.project_id) {
        return true;
    }
    if crate::upgrade::candidates::same_opt(&issue.conflicting_project_id, &item.project_id) {
        return true;
    }
    let mut r: usize = 0;
    while r < issue.dependency_requirements.len()
        invariant
            r <= issue.dependency_requirements.len(),
            forall|k: int|
                0 <= k < r ==> (#[trigger] issue.dependency_requirements@[k]).root_content_id@
                    != item.content_id@,
        decreases issue.dependency_requirements.len() - r,
    {
        if issue.dependency_requirements[r].root_content_id == item.content_id {
            return true;
        }
        r += 1;
    }
    false
}

/// Marks the items that solver issues concern with the matching status.
pub fn apply_solver_issues_to_items(items: &mut Vec<InstanceUpgradeItem>, issues: &Vec<InstanceUpgradeIssue>)
    ensures
        final(items)@.len() == old(items)@.len(),
        forall|i: int|
            0 <= i < old(items)@.len() ==> (#[trigger] final(items)@[i]).status == status_after(
                old(items)@[i].status,
                old(items)@[i],
                issues@,
            ) && crate::upgrade::classify::same_item_except_status(final(items)@[i], old(items)@[i])
                && final(items)@[i].candidate_release_ids == old(items)@[i].candidate_release_ids,
{
    let mut i: usize = 0;
    while i < items.len()
        invariant
            i <= items.len(),
            items@.len() == old(items)@.len(),
            forall|k: int| i <= k < items@.len() ==> items@[k] == old(items)@[k],
            forall|k: int|
                0 <= k < i ==> (#[trigger] items@[k]).status == status_after(
                    old(items)@[k].status,
                    old(items)@[k],
                    issues@,
                ) && crate::upgrade::classify::same_item_except_status(items@[k], old(items)@[k])
                    && items@[k].candidate_release_ids == old(items)@[k].candidate_release_ids,
        decreases items.len() - i,
    {
        let mut item = items.remove(i);
        let ghost original = item;
        let mut j: usize = 0;
        assert(issues@.subrange(0, 0) =~= Seq::<InstanceUpgradeIssue>::empty());
        while j < issues.len()
            invariant
                j <= issues.len(),
                crate::upgrade::classify::same_item_except_status(item, original),
                item.candidate_release_ids == original.candidate_release_ids,
                item.status == status_after(original.status, original, issues@.subrange(0, j as int)),
            decreases issues.len() - j,
        {
            let issue = &issues[j];
            assert(issues@.subrange(0, j + 1).drop_last() =~= issues@.subrange(0, j as int));
            assert(issues@.subrange(0, j + 1).last() == *issue);
            let status = match issue.code {
                InstanceUpgradeIssueCode::DependencyConflict => Some(InstanceUpgradeItemStatus::DependencyConflict),
                InstanceUpgradeIssueCode::MissingRequiredDependency => Some(InstanceUpgradeItemStatus::MissingRequiredDependency),
                InstanceUpgradeIssueCode::IncompatibleDependency => Some(InstanceUpgradeItemStatus::IncompatibleDependency),
                _ => None,
            };
            match status {
                Some(s) => {
                    if concerns(issue, &item) {
                        item.status = s;
                    }
                },
                None => {},
            }
            j += 1;
        }
        assert(issues@.subrange(0, issues@.len() as int) =~= issues@);
        items.insert(i, item);
        i += 1;
    }
}

pub open spec fn issue_key(i: InstanceUpgradeIssue) -> (
    InstanceUpgradeIssueCode,
    Option<Seq<char>>,
    Option<Seq<char>>,
    Option<Seq<char>>,
) {
    (i.code, opt_str_view(i.content_id), opt_str_view(i.project_id), opt_str_view(i.conflicting_project_id))
}

/// The issues without repeats: an issue is dropped when an earlier one has
/// the same code, content, project and conflicting project.
pub open spec fn dedup_issues(s: Seq<InstanceUpgradeIssue>) -> Seq<InstanceUpgradeIssue>
    decreases s.len(),
{
    if s.len() == 0 {
        Seq::empty()
    } else {
        let prev = dedup_issues(s.drop_last());
        if exists|k: int| 0 <= k < s.len() - 1 && issue_key(#[trigger] s[k]) == issue_key(s.last()) {
            prev
        } else {
            prev.push(s.last())
        }
    }
}

fn same_issue_key(a: &InstanceUpgradeIssue, b: &InstanceUpgradeIssue) -> (r: bool)
    ensures
        r == (issue_key(*a) == issue_key(*b)),
{
    a.code == b.code && crate::upgrade::candidates::same_opt(&a.content_id, &b.content_id)
        && crate::upgrade::candidates::same_opt(&a.project_id, &b.project_id)
        && crate::upgrade::candidates::same_opt(&a.conflicting_project_id, &b.conflicting_project_id)
}

pub fn deduplicate_issues(issues: &mut Vec<InstanceUpgradeIssue>)
    ensures
        final(issues)@ == dedup_issues(old(issues)@),
{
    let mut input: Vec<InstanceUpgradeIssue> = Vec::new();
    std::mem::swap(&mut input, issues);
    let ghost all = input@;
    let mut kept: Vec<InstanceUpgradeIssue> = Vec::new();
    let mut flags: Vec<bool> = Vec::new();
    let mut i: usize = 0;
    while i < input.len()
        invariant
            i <= input.len(),
            all == input@,
            flags@.len() == i,
            forall|k: int|
                0 <= k < i ==> (#[trigger] flags@[k]) == !exists|m: int|
                    0 <= m < k && issue_key(#[trigger] all[m]) == issue_key(all[k]),
        decreases input.len() - i,
    {
        let mut seen = false;
        let mut m: usize = 0;
        while m < i
            invariant
                m <= i,
                i < input.len(),
                all == input@,
                seen == exists|x: int| 0 <= x < m && issue_key(#[trigger] all[x]) == issue_key(all[i as int]),
            decreases i - m,
        {
            if same_issue_key(&input[m], &input[i]) {
                seen = true;
            }
            m += 1;
        }
        flags.push(!seen);
        i += 1;
    }
    let mut n = input.len();
    let mut rest: Vec<InstanceUpgradeIssue> = Vec::new();
    assert(all.subrange(0, n as int) =~= all);
    while n > 0
        invariant
            n <= all.len(),
            input@ == all.subrange(0, n as int),
            flags@.len() == all.len(),
            forall|k: int|
                0 <= k < all.len() ==> (#[trigger] flags@[k]) == !exists|m: int|
                    0 <= m < k && issue_key(#[trigger] all[m]) == issue_key(all[k]),
            dedup_issues(all) == dedup_issues(all.subrange(0, n as int)) + rest@.reverse(),
        decreases n,
    {
        let item = input.pop().unwrap();
        let ghost pre = all.subrange(0, n as int);
        assert(pre.drop_last() =~= all.subrange(0, n - 1));
        assert(pre.last() == item);
        assert(flags@[n - 1] == !exists|k: int| 0 <= k < pre.len() - 1 && issue_key(#[trigger] pre[k]) == issue_key(pre.last())) by {
            if exists|k: int| 0 <= k < pre.len() - 1 && issue_key(#[trigger] pre[k]) == issue_key(pre.last()) {
                let k = choose|k: int| 0 <= k < pre.len() - 1 && issue_key(#[trigger] pre[k]) == issue_key(pre.last());
                assert(all[k] == pre[k]);
            }
            if exists|m: int| 0 <= m < n - 1 && issue_key(#[trigger] all[m]) == issue_key(all[n - 1]) {
                let m = choose|m: int| 0 <= m < n - 1 && issue_key(#[trigger] all[m]) == issue_key(all[n - 1]);
                assert(pre[m] == all[m]);
            }
        }
        if flags[n - 1] {
            let ghost before = rest@;
            rest.push(item);
            assert(rest@.reverse() =~= seq![item] + before.reverse());
            assert(dedup_issues(pre) == dedup_issues(all.subrange(0, n - 1)).push(item));
            assert(dedup_issues(all.subrange(0, n - 1)).push(item) + before.reverse() =~= dedup_issues(all.subrange(0, n - 1)) + (seq![item] + before.reverse()));
        }
        n -= 1;
    }
    assert(all.subrange(0, 0) =~= Seq::<InstanceUpgradeIssue>::empty());
    let mut out: Vec<InstanceUpgradeIssue> = Vec::new();
    let ghost orig = rest@;
    let ghost target = orig.reverse();
    let mut k = rest.len();
    assert(orig.subrange(0, k as int) =~= orig);
    while k > 0
        invariant
            k <= orig.len(),
            target == orig.reverse(),
            rest@ == orig.subrange(0, k as int),
            out@ == target.subrange(0, (orig.len() - k) as int),
        decreases k,
    {
        let x = rest.pop().unwrap();
        assert(x == orig[k - 1]);
        assert(target[(orig.len() - k) as int] == orig[k - 1]);
        out.push(x);
        assert(target.subrange(0, (orig.len() - k + 1) as int) =~= target.subrange(0, (orig.len() - k) as int).push(x));
        assert(rest@ =~= orig.subrange(0, k - 1));
        k -= 1;
    }
    assert(target.subrange(0, orig.len() as int) =~= target);
    *issues = out;
}


/// The blocking issue of each item that has one, in item order.
pub open spec fn item_blocking_spec(items: Seq<InstanceUpgradeItem>, fixed: Seq<InstanceUpgradeFixedConstraint>) -> Seq<
    (InstanceUpgradeItem, InstanceUpgradeIssueCode, Seq<char>),
>
    decreases items.len(),
{
    if items.len() == 0 {
        Seq::empty()
    } else {
        let prev = item_blocking_spec(items.drop_last(), fixed);
        let item = items.last();
        match blocking_code(item, fixed_for_item(item, fixed)) {
            Some(code) => prev.push(
                (item, code, item.relative_path@ + " cannot be upgraded without user resolution"@),
            ),
            None => prev,
        }
    }
}

pub open spec fn issues_match(
    t: Seq<InstanceUpgradeIssue>,
    spec: Seq<(InstanceUpgradeItem, InstanceUpgradeIssueCode, Seq<char>)>,
) -> bool {
    &&& t.len() == spec.len()
    &&& forall|i: int| 0 <= i < t.len() ==> item_issue(#[trigger] t[i], spec[i].0, spec[i].1, spec[i].2)
}

/// Appends the blocking issue of every item that has one.
pub fn push_item_blocking_issues(
    out: &mut Vec<InstanceUpgradeIssue>,
    items: &Vec<InstanceUpgradeItem>,
    fixed: &Vec<InstanceUpgradeFixedConstraint>,
)
    ensures
        final(out)@.len() >= old(out)@.len(),
        final(out)@.subrange(0, old(out)@.len() as int) == old(out)@,
        issues_match(final(out)@.subrange(old(out)@.len() as int, final(out)@.len() as int), item_blocking_spec(items@, fixed@)),
{
    let ghost start = out@;
    let mut i: usize = 0;
    assert(items@.subrange(0, 0) =~= Seq::<InstanceUpgradeItem>::empty());
    assert(out@.subrange(start.len() as int, out@.len() as int) =~= Seq::<InstanceUpgradeIssue>::empty());
    while i < items.len()
        invariant
            i <= items.len(),
            out@.len() >= start.len(),
            out@.subrange(0, start.len() as int) == start,
            issues_match(out@.subrange(start.len() as int, out@.len() as int), item_blocking_spec(items@.subrange(0, i as int), fixed@)),
        decreases items.len() - i,
    {
        let item = &items[i];
        assert(items@.subrange(0, i + 1).drop_last() =~= items@.subrange(0, i as int));
        assert(items@.subrange(0, i + 1).last() == *item);
        let fixed_prerelease = fixed_for(item, fixed);
        match blocking_issue_for_item(item, fixed_prerelease) {
            Some(issue) => {
                let ghost before = out@;
                out.push(issue);
                assert(out@.subrange(0, start.len() as int) =~= before.subrange(0, start.len() as int));
                assert(out@.subrange(start.len() as int, out@.len() as int) =~= before.subrange(start.len() as int, before.len() as int).push(issue));
            },
            None => {},
        }
        i += 1;
    }
    assert(items@.subrange(0, items@.len() as int) =~= items@);
}

} // verus!
