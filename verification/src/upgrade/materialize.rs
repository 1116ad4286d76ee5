//! Turning a solver result into the selections, dependency changes and
//! warnings the user reviews.
use vstd::prelude::*;
use vstd::set_lib::{lemma_int_range, lemma_len_subset, set_int_range};
use crate::model::{
    ContentProvider, InstanceUpgradeAction, InstanceUpgradeDependencyChange, InstanceUpgradeDependencyRequirement,
    InstanceUpgradeDependencyChangeKind, InstanceUpgradeIssue, InstanceUpgradeIssueCode,
    InstanceUpgradeSelection, InstanceUpgradeSolution, InstanceUpgradeSolutionKind, opt_str_view,
};
use crate::upgrade::candidates::CandidateChannel;
use crate::upgrade::issues::issue;
use crate::upgrade::search::keys_view;
use crate::upgrade::order::pair_lt;
use crate::upgrade::ranking::{alias_release, all_aliases, is_root, is_root_key, installed_release, removable};
use crate::upgrade::snapshot::{AliasView, InstalledNode, NodeView, nodes_view};
use crate::upgrade::order::{lex_lt, stable_order, stable_before};
use crate::upgrade::candidates::{CandView, CandidateDependencyKind, KeyView, NodeKey};
use crate::upgrade::solver::{
    RootRequest, SolverResult, contains_key, distinct_keys, find_assignment, result_view,
};

verus! {

/// A root whose dependencies start out enabled.
pub open spec fn starts_enabled(r: RootRequest) -> bool {
    r.enabled && r.action != InstanceUpgradeAction::Disable
}

pub open spec fn is_start_key(roots: Seq<RootRequest>, k: KeyView) -> bool {
    exists|i: int| 0 <= i < roots.len() && starts_enabled(#[trigger] roots[i]) && roots[i].key@ == k
}

pub open spec fn key_in(v: Seq<NodeKey>, k: KeyView) -> bool {
    exists|i: int| 0 <= i < v.len() && (#[trigger] v[i])@ == k
}

/// `k` is a required dependency of the release chosen at position `j`.
pub open spec fn required_by(s: Seq<CandView>, j: int, k: KeyView) -> bool {
    exists|d: int|
        0 <= d < s[j].dependencies.len() && (#[trigger] s[j].dependencies[d]).kind
            == CandidateDependencyKind::Required && s[j].dependencies[d].key == k
}

/// The projects that end up enabled: the enabled roots and, transitively,
/// the required dependencies of the releases chosen for enabled projects.
pub open spec fn enabled_set_ok(r: Seq<NodeKey>, s: Seq<CandView>, roots: Seq<RootRequest>) -> bool {
    &&& forall|i: int, j: int| 0 <= i < j < r.len() ==> r[i]@ != r[j]@
    &&& forall|i: int| 0 <= i < roots.len() && starts_enabled(#[trigger] roots[i]) ==> key_in(r, roots[i].key@)
    &&& forall|j: int, k: KeyView|
        0 <= j < s.len() && key_in(r, s[j].key) && #[trigger] required_by(s, j, k) ==> key_in(r, k)
    &&& forall|i: int|
        0 <= i < r.len() ==> is_start_key(roots, (#[trigger] r[i])@) || exists|j: int, w: int|
            #![trigger r[w], required_by(s, j, r[i]@)]
            0 <= j < s.len() && 0 <= w < i && r[w]@ == s[j].key && required_by(s, j, r[i]@)
}

pub fn solution_enabled_nodes(solution: &SolverResult, roots: &Vec<RootRequest>) -> (r: Vec<NodeKey>)
    requires
        distinct_keys(result_view(*solution)),
    ensures
        enabled_set_ok(r@, result_view(*solution), roots@),
{
    let ghost s = result_view(*solution);
    let n = solution.assignments.len();
    let mut enabled: Vec<NodeKey> = Vec::new();
    let mut marked: Vec<bool> = Vec::new();
    let mut m: usize = 0;
    while m < n
        invariant
            m <= n,
            n == solution.assignments@.len(),
            marked@.len() == m,
            forall|j: int| 0 <= j < m ==> !marked@[j],
        decreases n - m,
    {
        marked.push(false);
        m += 1;
    }
    let mut pending: Vec<usize> = Vec::new();
    let ghost mut done: Set<int> = Set::empty();
    let mut i: usize = 0;
    while i < roots.len()
        invariant
            i <= roots.len(),
            s == result_view(*solution),
            s.len() == n,
            distinct_keys(s),
            marked@.len() == n,
            done.finite(),
            done.subset_of(set_int_range(0, n as int)),
            forall|j: int| 0 <= j < n ==> (marked@[j] <==> done.contains(j)),
            forall|p: int| 0 <= p < pending@.len() ==> done.contains(#[trigger] pending@[p] as int) && pending@[p] < n,
            forall|a: int, b: int| 0 <= a < b < pending@.len() ==> pending@[a] != pending@[b],
            forall|j: int| 0 <= j < n && marked@[j] ==> key_in(enabled@, s[j].key),
            forall|j: int| 0 <= j < n && key_in(enabled@, #[trigger] s[j].key) ==> marked@[j],
            forall|j: int, k: KeyView|
                0 <= j < n && marked@[j] && !pending@.contains(j as usize) && #[trigger] required_by(s, j, k) ==> key_in(enabled@, k),
            forall|a: int, b: int| 0 <= a < b < enabled@.len() ==> enabled@[a]@ != enabled@[b]@,
            forall|k: int| 0 <= k < i && starts_enabled(#[trigger] roots@[k]) ==> key_in(enabled@, roots@[k].key@),
            forall|e: int| 0 <= e < enabled@.len() ==> is_start_key(roots@, (#[trigger] enabled@[e])@),
        decreases roots.len() - i,
    {
        let root = &roots[i];
        if root.enabled && root.action != InstanceUpgradeAction::Disable {
            let key = &root.key;
            if !contains_key(&enabled, key) {
                let ghost before = enabled@;
                let ghost pbefore = pending@;
                let ghost mbefore = marked@;
                enabled.push(key.copy());
                assert(enabled@[before.len() as int]@ == key@);
                assert(is_start_key(roots@, key@)) by {
                    assert(starts_enabled(roots@[i as int]));
                }
                match find_assignment(&solution.assignments, key) {
                    Some(j) => {
                        assert(s[j as int].key == key@);
                        if !marked[j] {
                            marked.set(j, true);
                            proof {
                                done = done.insert(j as int);
                            }
                            pending.push(j);
                            assert(pending@ == pbefore.push(j));
                        }
                    },
                    None => {},
                }
                proof {
                    assert forall|a: int| 0 <= a < before.len() implies enabled@[a] == before[a] by {}
                    assert forall|j: int| 0 <= j < n && key_in(enabled@, #[trigger] s[j].key) implies marked@[j] by {
                        let w = choose|w: int| 0 <= w < enabled@.len() && (#[trigger] enabled@[w])@ == s[j].key;
                        if w < before.len() {
                            assert(key_in(before, s[j].key));
                        }
                    }
                    assert forall|j: int| 0 <= j < n && marked@[j] implies key_in(enabled@, s[j].key) by {
                        if key_in(before, s[j].key) {
                            let w = choose|w: int| 0 <= w < before.len() && (#[trigger] before[w])@ == s[j].key;
                            assert(enabled@[w] == before[w]);
                        }
                    }
                    assert forall|j: int, k: KeyView|
                        0 <= j < n && marked@[j] && !pending@.contains(j as usize) && #[trigger] required_by(s, j, k) implies key_in(enabled@, k) by {
                        if !pbefore.contains(j as usize) && mbefore[j] {
                            let w = choose|w: int| 0 <= w < before.len() && (#[trigger] before[w])@ == k;
                            assert(enabled@[w] == before[w]);
                        } else if pbefore.contains(j as usize) {
                            let w = choose|w: int| 0 <= w < pbefore.len() && pbefore[w] == j as usize;
                            assert(pending@[w] == pbefore[w]);
                        } else {
                            assert(pending@.last() == j as usize);
                        }
                    }
                    assert forall|k: int| 0 <= k < i + 1 && starts_enabled(#[trigger] roots@[k]) implies key_in(enabled@, roots@[k].key@) by {
                        if k < i {
                            let w = choose|w: int| 0 <= w < before.len() && (#[trigger] before[w])@ == roots@[k].key@;
                            assert(enabled@[w] == before[w]);
                        }
                    }
                }
            }
        }
        i += 1;
    }
    while pending.len() > 0
        invariant
            s == result_view(*solution),
            s.len() == n,
            n == solution.assignments@.len(),
            distinct_keys(s),
            marked@.len() == n,
            done.finite(),
            done.subset_of(set_int_range(0, n as int)),
            forall|j: int| 0 <= j < n ==> (marked@[j] <==> done.contains(j)),
            forall|p: int| 0 <= p < pending@.len() ==> done.contains(#[trigger] pending@[p] as int) && pending@[p] < n,
            forall|a: int, b: int| 0 <= a < b < pending@.len() ==> pending@[a] != pending@[b],
            forall|j: int| 0 <= j < n && marked@[j] ==> key_in(enabled@, s[j].key),
            forall|j: int| 0 <= j < n && key_in(enabled@, #[trigger] s[j].key) ==> marked@[j],
            forall|j: int, k: KeyView|
                0 <= j < n && marked@[j] && !pending@.contains(j as usize) && #[trigger] required_by(s, j, k) ==> key_in(enabled@, k),
            forall|a: int, b: int| 0 <= a < b < enabled@.len() ==> enabled@[a]@ != enabled@[b]@,
            forall|k: int| 0 <= k < roots@.len() && starts_enabled(#[trigger] roots@[k]) ==> key_in(enabled@, roots@[k].key@),
            forall|e: int|
                0 <= e < enabled@.len() ==> is_start_key(roots@, (#[trigger] enabled@[e])@) || exists|j: int, w: int|
                    #![trigger enabled@[w], required_by(s, j, enabled@[e]@)]
                    0 <= j < n && 0 <= w < e && enabled@[w]@ == s[j].key && required_by(s, j, enabled@[e]@),
        decreases n - done.len(), pending@.len(),
    {
        proof {
            lemma_int_range(0, n as int);
            lemma_len_subset(done, set_int_range(0, n as int));
        }
        let ghost d0 = done.len();
        let ghost pfull = pending@;
        let j = pending.pop().unwrap();
        let ghost p0 = pending@.len();
        assert(pending@ =~= pfull.drop_last());
        assert(j == pfull.last());
        assert(!pending@.contains(j)) by {
            if pending@.contains(j) {
                let w = choose|w: int| 0 <= w < pending@.len() && pending@[w] == j;
                assert(pfull[w] == pfull[pfull.len() - 1]);
            }
        }
        assert(marked@[j as int]);
        assert forall|x: int, k: KeyView|
            0 <= x < n && x != j && marked@[x] && !pending@.contains(x as usize) && #[trigger] required_by(s, x, k) implies key_in(enabled@, k) by {
            if pfull.contains(x as usize) {
                let w = choose|w: int| 0 <= w < pfull.len() && pfull[w] == x as usize;
                if w < pending@.len() {
                    assert(pending@[w] == pfull[w]);
                }
            }
        }
        let candidate = &solution.assignments[j];
        assert(s[j as int] == candidate@);
        let mut d: usize = 0;
        while d < candidate.dependencies.len()
            invariant
                d <= candidate.dependencies.len(),
                s == result_view(*solution),
                s.len() == n,
                n == solution.assignments@.len(),
                j < n,
                s[j as int] == candidate@,
                distinct_keys(s),
                marked@.len() == n,
                marked@[j as int],
                done.finite(),
                done.subset_of(set_int_range(0, n as int)),
                done.len() >= d0,
                pending@.len() + d0 == p0 + done.len(),
                !pending@.contains(j),
                forall|x: int| 0 <= x < n ==> (marked@[x] <==> done.contains(x)),
                forall|p: int| 0 <= p < pending@.len() ==> done.contains(#[trigger] pending@[p] as int) && pending@[p] < n,
                forall|a: int, b: int| 0 <= a < b < pending@.len() ==> pending@[a] != pending@[b],
                forall|x: int| 0 <= x < n && marked@[x] ==> key_in(enabled@, s[x].key),
                forall|x: int| 0 <= x < n && key_in(enabled@, #[trigger] s[x].key) ==> marked@[x],
                forall|x: int, k: KeyView|
                    0 <= x < n && x != j && marked@[x] && !pending@.contains(x as usize) && #[trigger] required_by(s, x, k) ==> key_in(enabled@, k),
                forall|e: int|
                    0 <= e < d && (#[trigger] candidate@.dependencies[e]).kind == CandidateDependencyKind::Required
                        ==> key_in(enabled@, candidate@.dependencies[e].key),
                forall|a: int, b: int| 0 <= a < b < enabled@.len() ==> enabled@[a]@ != enabled@[b]@,
                forall|k: int| 0 <= k < roots@.len() && starts_enabled(#[trigger] roots@[k]) ==> key_in(enabled@, roots@[k].key@),
                forall|e: int|
                    0 <= e < enabled@.len() ==> is_start_key(roots@, (#[trigger] enabled@[e])@) || exists|x: int, w: int|
                        #![trigger enabled@[w], required_by(s, x, enabled@[e]@)]
                        0 <= x < n && 0 <= w < e && enabled@[w]@ == s[x].key && required_by(s, x, enabled@[e]@),
            decreases candidate.dependencies.len() - d,
        {
            let dependency = &candidate.dependencies[d];
            assert(candidate@.dependencies[d as int] == dependency@);
            if dependency.kind == CandidateDependencyKind::Required && !contains_key(&enabled, &dependency.key) {
                let key = &dependency.key;
                let ghost before = enabled@;
                let ghost pbefore = pending@;
                let ghost mbefore = marked@;
                enabled.push(key.copy());
                assert(enabled@[before.len() as int]@ == key@);
                assert(required_by(s, j as int, key@)) by {
                    assert(s[j as int].dependencies[d as int] == dependency@);
                }
                match find_assignment(&solution.assignments, key) {
                    Some(t) => {
                        assert(s[t as int].key == key@);
                        if !marked[t] {
                            marked.set(t, true);
                            proof {
                                assert(!done.contains(t as int));
                                done = done.insert(t as int);
                            }
                            pending.push(t);
                            assert(pending@ == pbefore.push(t));
                        }
                    },
                    None => {},
                }
                proof {
                    assert forall|a: int| 0 <= a < before.len() implies enabled@[a] == before[a] by {}
                    assert forall|x: int| 0 <= x < n && key_in(enabled@, #[trigger] s[x].key) implies marked@[x] by {
                        let w = choose|w: int| 0 <= w < enabled@.len() && (#[trigger] enabled@[w])@ == s[x].key;
                        if w < before.len() {
                            assert(key_in(before, s[x].key));
                        }
                    }
                    assert forall|x: int| 0 <= x < n && marked@[x] implies key_in(enabled@, s[x].key) by {
                        if key_in(before, s[x].key) {
                            let w = choose|w: int| 0 <= w < before.len() && (#[trigger] before[w])@ == s[x].key;
                            assert(enabled@[w] == before[w]);
                        }
                    }
                    assert forall|x: int, k: KeyView|
                        0 <= x < n && x != j && marked@[x] && !pending@.contains(x as usize) && #[trigger] required_by(s, x, k) implies key_in(enabled@, k) by {
                        if !pbefore.contains(x as usize) && mbefore[x] {
                            let w = choose|w: int| 0 <= w < before.len() && (#[trigger] before[w])@ == k;
                            assert(enabled@[w] == before[w]);
                        } else if pbefore.contains(x as usize) {
                            let w = choose|w: int| 0 <= w < pbefore.len() && pbefore[w] == x as usize;
                            assert(pending@[w] == pbefore[w]);
                        } else {
                            assert(pending@.last() == x as usize);
                        }
                    }
                    assert forall|e: int|
                        0 <= e < d + 1 && (#[trigger] candidate@.dependencies[e]).kind == CandidateDependencyKind::Required
                            implies key_in(enabled@, candidate@.dependencies[e].key) by {
                        if e < d {
                            let w = choose|w: int| 0 <= w < before.len() && (#[trigger] before[w])@ == candidate@.dependencies[e].key;
                            assert(enabled@[w] == before[w]);
                        }
                    }
                    assert forall|k: int| 0 <= k < roots@.len() && starts_enabled(#[trigger] roots@[k]) implies key_in(enabled@, roots@[k].key@) by {
                        let w = choose|w: int| 0 <= w < before.len() && (#[trigger] before[w])@ == roots@[k].key@;
                        assert(enabled@[w] == before[w]);
                    }
                    assert forall|e: int|
                        0 <= e < enabled@.len() implies is_start_key(roots@, (#[trigger] enabled@[e])@) || exists|x: int, w: int|
                            #![trigger enabled@[w], required_by(s, x, enabled@[e]@)]
                            0 <= x < n && 0 <= w < e && enabled@[w]@ == s[x].key && required_by(s, x, enabled@[e]@) by {
                        if e < before.len() {
                            assert(enabled@[e] == before[e]);
                            if !is_start_key(roots@, before[e]@) {
                                let (x, w) = choose|x: int, w: int| #![trigger before[w], required_by(s, x, before[e]@)] 0 <= x < n && 0 <= w < e && before[w]@ == s[x].key && required_by(s, x, before[e]@);
                                assert(enabled@[w] == before[w]);
                            }
                        } else {
                            assert(key_in(before, s[j as int].key));
                            let w = choose|w: int| 0 <= w < before.len() && (#[trigger] before[w])@ == s[j as int].key;
                            assert(enabled@[w] == before[w]);
                        }
                    }
                }
            } else {
                proof {
                    if dependency.kind == CandidateDependencyKind::Required {
                        assert(key_in(enabled@, dependency.key@));
                    }
                }
            }
            d += 1;
        }
        proof {
            assert forall|x: int, k: KeyView|
                0 <= x < n && marked@[x] && !pending@.contains(x as usize) && #[trigger] required_by(s, x, k) implies key_in(enabled@, k) by {
                if x == j {
                    let e = choose|e: int|
                        0 <= e < s[x].dependencies.len() && (#[trigger] s[x].dependencies[e]).kind
                            == CandidateDependencyKind::Required && s[x].dependencies[e].key == k;
                    assert(candidate@.dependencies[e] == s[x].dependencies[e]);
                }
            }
            lemma_int_range(0, n as int);
            lemma_len_subset(done, set_int_range(0, n as int));
        }
    }
    proof {
        assert forall|x: int, k: KeyView|
            0 <= x < s.len() && key_in(enabled@, s[x].key) && #[trigger] required_by(s, x, k) implies key_in(enabled@, k) by {
            assert(marked@[x]);
            assert(!pending@.contains(x as usize));
        }

    }
    enabled
}


/// The release the solution chooses for project `k`, if any.
pub open spec fn assigned_cand(s: Seq<CandView>, k: KeyView) -> Option<CandView> {
    if exists|j: int| 0 <= j < s.len() && s[j].key == k {
        Some(s[choose|j: int| 0 <= j < s.len() && s[j].key == k])
    } else {
        None
    }
}

pub proof fn lemma_assigned_cand(s: Seq<CandView>, k: KeyView, r: Option<usize>)
    requires
        distinct_keys(s),
        r matches Some(j) ==> j < s.len() && s[j as int].key == k,
        r is None ==> forall|j: int| 0 <= j < s.len() ==> (#[trigger] s[j]).key != k,
    ensures
        assigned_cand(s, k) == match r {
            Some(j) => Some(s[j as int]),
            None => None::<CandView>,
        },
{
    match r {
        Some(j) => {
            assert(s[j as int].key == k);
            let c = choose|c: int| 0 <= c < s.len() && s[c].key == k;
            if c != j {
                assert(s[c].key != s[j as int].key);
            }
        },
        None => {},
    }
}

/// What the plan does with a root: disable it when asked, keep it when the
/// solution keeps its installed release, else upgrade it.
pub open spec fn selection_action(r: RootRequest, s: Seq<CandView>) -> InstanceUpgradeAction {
    if r.action == InstanceUpgradeAction::Disable {
        InstanceUpgradeAction::Disable
    } else if (assigned_cand(s, r.key@) matches Some(c) && c.version_id == r.current_release_id@) {
        InstanceUpgradeAction::Keep
    } else {
        InstanceUpgradeAction::Upgrade
    }
}

pub open spec fn selection_matches(sel: InstanceUpgradeSelection, r: RootRequest, s: Seq<CandView>) -> bool {
    &&& sel.content_id@ == r.content_id@
    &&& sel.provider == Some(r.key.provider)
    &&& opt_str_view(sel.project_id) == Some(r.key.project_id@)
    &&& opt_str_view(sel.current_release_id) == Some(r.current_release_id@)
    &&& opt_str_view(sel.target_release_id) == match assigned_cand(s, r.key@) {
        Some(c) => Some(c.version_id),
        None => None,
    }
    &&& sel.action == selection_action(r, s)
    &&& sel.enabled == (r.enabled && sel.action != InstanceUpgradeAction::Disable)
}

/// `p` lists each index below `n` once.
pub open spec fn is_permutation(p: Seq<int>, n: int) -> bool {
    &&& p.len() == n
    &&& forall|i: int| 0 <= i < p.len() ==> 0 <= #[trigger] p[i] < n
    &&& forall|i: int, j: int| 0 <= i < j < p.len() ==> p[i] != p[j]
}

/// `a` at position `ia` comes before `b` at position `ib` in a stable sort by
/// text.
pub open spec fn text_before(a: Seq<char>, ia: int, b: Seq<char>, ib: int) -> bool {
    lex_lt(a, b) || (a == b && ia < ib)
}

fn selection_for(root: &RootRequest, solution: &SolverResult) -> (r: InstanceUpgradeSelection)
    requires
        distinct_keys(result_view(*solution)),
    ensures
        selection_matches(r, *root, result_view(*solution)),
{
    let found = find_assignment(&solution.assignments, &root.key);
    proof {
        lemma_assigned_cand(result_view(*solution), root.key@, found);
    }
    let target = match found {
        Some(j) => Some(solution.assignments[j].version_id.clone()),
        None => None,
    };
    let keeps = match found {
        Some(j) => solution.assignments[j].version_id == root.current_release_id,
        None => false,
    };
    let action = if root.action == InstanceUpgradeAction::Disable {
        InstanceUpgradeAction::Disable
    } else if keeps {
        InstanceUpgradeAction::Keep
    } else {
        InstanceUpgradeAction::Upgrade
    };
    InstanceUpgradeSelection {
        content_id: root.content_id.clone(),
        provider: Some(root.key.provider),
        project_id: Some(root.key.project_id.clone()),
        current_release_id: Some(root.current_release_id.clone()),
        target_release_id: target,
        action,
        enabled: root.enabled && action != InstanceUpgradeAction::Disable,
    }
}


pub open spec fn to_ints(v: Seq<usize>) -> Seq<int> {
    v.map_values(|x: usize| x as int)
}

proof fn lemma_stable_text(order: Seq<usize>, keys: Seq<(Vec<char>, Vec<char>)>, roots: Seq<RootRequest>)
    requires
        order.len() == roots.len(),
        keys.len() == roots.len(),
        forall|i: int| 0 <= i < order.len() ==> (#[trigger] order[i]) < keys.len(),
        forall|i: int, j: int| 0 <= i < j < order.len() ==> order[i] != order[j],
        forall|i: int|
            0 <= i < order.len() - 1 ==> #[trigger] stable_before(keys, order[i] as int, order[i + 1] as int),
        forall|k: int| 0 <= k < keys.len() ==> (#[trigger] keys[k]).0@ == roots[k].content_id@ && keys[k].1@ == Seq::<char>::empty(),
    ensures
        is_permutation(to_ints(order), roots.len() as int),
        forall|i: int|
            0 <= i < order.len() - 1 ==> #[trigger] text_before(
                roots[to_ints(order)[i]].content_id@,
                to_ints(order)[i],
                roots[to_ints(order)[i + 1]].content_id@,
                to_ints(order)[i + 1],
            ),
{
    let p = to_ints(order);
    assert forall|a: int, b: int| 0 <= a < b < p.len() implies p[a] != p[b] by {
        assert(order[a] != order[b]);
    }
    crate::upgrade::order::lemma_lex_irreflexive(Seq::<char>::empty());
    assert forall|x: int| 0 <= x < order.len() - 1 implies #[trigger] text_before(
        roots[p[x]].content_id@,
        p[x],
        roots[p[x + 1]].content_id@,
        p[x + 1],
    ) by {
        assert(stable_before(keys, order[x] as int, order[x + 1] as int));
    }
}

/// One selection per root, ordered by content id (roots with equal ids keep
/// their order).
pub fn root_selections(solution: &SolverResult, roots: &Vec<RootRequest>) -> (r: Vec<
    InstanceUpgradeSelection,
>)
    requires
        distinct_keys(result_view(*solution)),
    ensures
        exists|p: Seq<int>|
            #![trigger is_permutation(p, roots@.len() as int)]
            is_permutation(p, roots@.len() as int) && (forall|i: int|
                0 <= i < p.len() ==> selection_matches(
                    #[trigger] r@[i],
                    roots@[p[i]],
                    result_view(*solution),
                )) && (forall|i: int|
                0 <= i < p.len() - 1 ==> #[trigger] text_before(
                    roots@[p[i]].content_id@,
                    p[i],
                    roots@[p[i + 1]].content_id@,
                    p[i + 1],
                )),
        r@.len() == roots@.len(),
{
    let mut keys: Vec<(Vec<char>, Vec<char>)> = Vec::new();
    let mut i: usize = 0;
    while i < roots.len()
        invariant
            i <= roots.len(),
            keys@.len() == i,
            forall|k: int| 0 <= k < i ==> (#[trigger] keys@[k]).0@ == roots@[k].content_id@ && keys@[k].1@ == Seq::<char>::empty(),
        decreases roots.len() - i,
    {
        let empty: Vec<char> = Vec::new();
        keys.push((crate::text::chars_of(roots[i].content_id.as_str()), empty));
        i += 1;
    }
    let order = stable_order(&keys);
    let ghost p = to_ints(order@);
    let mut out: Vec<InstanceUpgradeSelection> = Vec::new();
    let mut k: usize = 0;
    while k < order.len()
        invariant
            k <= order.len(),
            order@.len() == roots@.len(),
            p == to_ints(order@),
            forall|x: int| 0 <= x < order@.len() ==> (#[trigger] order@[x]) < roots@.len(),
            distinct_keys(result_view(*solution)),
            out@.len() == k,
            forall|x: int| 0 <= x < k ==> selection_matches(#[trigger] out@[x], roots@[p[x]], result_view(*solution)),
        decreases order.len() - k,
    {
        out.push(selection_for(&roots[order[k]], solution));
        k += 1;
    }
    proof {
        lemma_stable_text(order@, keys@, roots@);
    }
    out
}


pub struct ChangeView {
    pub provider: ContentProvider,
    pub project_id: Seq<char>,
    pub current_release_id: Option<Seq<char>>,
    pub target_release_id: Option<Seq<char>>,
    pub kind: InstanceUpgradeDependencyChangeKind,
    pub enabled: bool,
}

pub open spec fn change_view(c: InstanceUpgradeDependencyChange) -> ChangeView {
    ChangeView {
        provider: c.provider,
        project_id: c.project_id@,
        current_release_id: opt_str_view(c.current_release_id),
        target_release_id: opt_str_view(c.target_release_id),
        kind: c.kind,
        enabled: c.enabled,
    }
}

pub open spec fn change_kind(current: Option<Seq<char>>, target: Seq<char>) -> InstanceUpgradeDependencyChangeKind {
    match current {
        None => InstanceUpgradeDependencyChangeKind::Add,
        Some(c) => if c == target {
            InstanceUpgradeDependencyChangeKind::Keep
        } else {
            InstanceUpgradeDependencyChangeKind::Upgrade
        },
    }
}

/// The change each chosen dependency (not a root) makes, in solution order.
pub open spec fn assignment_changes(
    s: Seq<CandView>,
    roots: Seq<RootRequest>,
    aliases: Seq<AliasView>,
    enabled: Seq<NodeKey>,
) -> Seq<ChangeView>
    decreases s.len(),
{
    if s.len() == 0 {
        Seq::empty()
    } else {
        let prev = assignment_changes(s.drop_last(), roots, aliases, enabled);
        let c = s.last();
        if is_root_key(roots, c.key) {
            prev
        } else {
            prev.push(
                ChangeView {
                    provider: c.key.0,
                    project_id: c.key.1,
                    current_release_id: alias_release(aliases, c.key),
                    target_release_id: Some(c.version_id),
                    kind: change_kind(alias_release(aliases, c.key), c.version_id),
                    enabled: key_in(enabled, c.key),
                },
            )
        }
    }
}

/// The removal of each automatically added dependency the solution drops.
pub open spec fn removal_changes(prefix: Seq<NodeView>, nodes: Seq<NodeView>, s: Seq<CandView>) -> Seq<
    ChangeView,
>
    decreases prefix.len(),
{
    if prefix.len() == 0 {
        Seq::empty()
    } else {
        let prev = removal_changes(prefix.drop_last(), nodes, s);
        let node = prefix.last();
        if removable(node, nodes, s) {
            prev.push(
                ChangeView {
                    provider: node.key.0,
                    project_id: node.key.1,
                    current_release_id: Some(node.current_release_id),
                    target_release_id: None,
                    kind: InstanceUpgradeDependencyChangeKind::Remove,
                    enabled: false,
                },
            )
        } else {
            prev
        }
    }
}

pub open spec fn change_key(c: ChangeView) -> (Seq<char>, Seq<char>) {
    (c.provider.spec_as_str(), c.project_id)
}

/// Change `a` at position `ia` comes before `b` at `ib`: by provider name,
/// then project, then position.
pub open spec fn change_before(a: ChangeView, ia: int, b: ChangeView, ib: int) -> bool {
    pair_lt(change_key(a), change_key(b)) || (change_key(a) == change_key(b) && ia < ib)
}

fn copy_change(c: &InstanceUpgradeDependencyChange) -> (r: InstanceUpgradeDependencyChange)
    ensures
        change_view(r) == change_view(*c),
{
    InstanceUpgradeDependencyChange {
        provider: c.provider,
        project_id: c.project_id.clone(),
        current_release_id: crate::upgrade::candidates::copy_opt(&c.current_release_id),
        target_release_id: crate::upgrade::candidates::copy_opt(&c.target_release_id),
        kind: c.kind,
        enabled: c.enabled,
    }
}

fn unsorted_changes(
    solution: &SolverResult,
    roots: &Vec<RootRequest>,
    installed: &Vec<InstalledNode>,
    enabled: &Vec<NodeKey>,
) -> (r: Vec<InstanceUpgradeDependencyChange>)
    ensures
        r@.map_values(|c: InstanceUpgradeDependencyChange| change_view(c)) == assignment_changes(
            result_view(*solution),
            roots@,
            all_aliases(nodes_view(installed@)),
            enabled@,
        ) + removal_changes(nodes_view(installed@), nodes_view(installed@), result_view(*solution)),
{
    let ghost s = result_view(*solution);
    let ghost nv = nodes_view(installed@);
    let ghost aliases = all_aliases(nv);
    let mut out: Vec<InstanceUpgradeDependencyChange> = Vec::new();
    let mut i: usize = 0;
    assert(s.subrange(0, 0) =~= Seq::<CandView>::empty());
    while i < solution.assignments.len()
        invariant
            i <= solution.assignments.len(),
            s == result_view(*solution),
            s.len() == solution.assignments@.len(),
            nv == nodes_view(installed@),
            aliases == all_aliases(nv),
            out@.map_values(|c: InstanceUpgradeDependencyChange| change_view(c)) == assignment_changes(
                s.subrange(0, i as int),
                roots@,
                aliases,
                enabled@,
            ),
        decreases solution.assignments.len() - i,
    {
        let c = &solution.assignments[i];
        assert(s.subrange(0, i + 1).drop_last() =~= s.subrange(0, i as int));
        assert(s[i as int] == c@);
        if !is_root(roots, &c.key) {
            let current = installed_release(installed, &c.key);
            let kind = match &current {
                None => InstanceUpgradeDependencyChangeKind::Add,
                Some(cur) => if *cur == c.version_id {
                    InstanceUpgradeDependencyChangeKind::Keep
                } else {
                    InstanceUpgradeDependencyChangeKind::Upgrade
                },
            };
            let is_enabled = contains_key(enabled, &c.key);
            let change = InstanceUpgradeDependencyChange {
                provider: c.key.provider,
                project_id: c.key.project_id.clone(),
                current_release_id: current,
                target_release_id: Some(c.version_id.clone()),
                kind,
                enabled: is_enabled,
            };
            let ghost before = out@;
            out.push(change);
            assert(out@.map_values(|c: InstanceUpgradeDependencyChange| change_view(c)) =~= before.map_values(
                |c: InstanceUpgradeDependencyChange| change_view(c),
            ).push(change_view(out@.last())));
        }
        i += 1;
    }
    assert(s.subrange(0, s.len() as int) =~= s);
    let ghost head = out@.map_values(|c: InstanceUpgradeDependencyChange| change_view(c));
    let mut k: usize = 0;
    assert(nv.subrange(0, 0) =~= Seq::<NodeView>::empty());
    assert(head + removal_changes(nv.subrange(0, 0), nv, s) =~= head);
    while k < installed.len()
        invariant
            k <= installed.len(),
            s == result_view(*solution),
            nv == nodes_view(installed@),
            out@.map_values(|c: InstanceUpgradeDependencyChange| change_view(c)) == head
                + removal_changes(nv.subrange(0, k as int), nv, s),
        decreases installed.len() - k,
    {
        let node = &installed[k];
        assert(nv.subrange(0, k + 1).drop_last() =~= nv.subrange(0, k as int));
        assert(nv[k as int] == node@);
        if node.auto_dependency && node.migratable && !node_assigned_key(node, solution)
            && !user_owned_copy(installed, &node.key) {
            let change = InstanceUpgradeDependencyChange {
                provider: node.key.provider,
                project_id: node.key.project_id.clone(),
                current_release_id: Some(node.current_release_id.clone()),
                target_release_id: None,
                kind: InstanceUpgradeDependencyChangeKind::Remove,
                enabled: false,
            };
            let ghost before = out@;
            out.push(change);
            assert(out@.map_values(|c: InstanceUpgradeDependencyChange| change_view(c)) =~= before.map_values(
                |c: InstanceUpgradeDependencyChange| change_view(c),
            ).push(change_view(out@.last())));
            assert(head + removal_changes(nv.subrange(0, k + 1), nv, s) =~= (head + removal_changes(
                nv.subrange(0, k as int),
                nv,
                s,
            )).push(change_view(out@.last())));
        } else {
            assert(removal_changes(nv.subrange(0, k + 1), nv, s) == removal_changes(nv.subrange(0, k as int), nv, s));
        }
        k += 1;
    }
    assert(nv.subrange(0, nv.len() as int) =~= nv);
    out
}

/// Whether one of `node`'s aliases is a project the solution assigns.
fn node_assigned_key(node: &InstalledNode, solution: &SolverResult) -> (r: bool)
    ensures
        r == exists|a: int, j: int|
            0 <= a < node@.aliases.len() && 0 <= j < result_view(*solution).len() && (
            #[trigger] node@.aliases[a]).0 == (#[trigger] result_view(*solution)[j]).key,
{
    let ghost s = result_view(*solution);
    let mut a: usize = 0;
    while a < node.aliases.len()
        invariant
            a <= node.aliases.len(),
            s == result_view(*solution),
            forall|x: int, j: int|
                0 <= x < a && 0 <= j < s.len() ==> (#[trigger] node@.aliases[x]).0 != (#[trigger] s[j]).key,
        decreases node.aliases.len() - a,
    {
        assert(node@.aliases[a as int] == node.aliases@[a as int]@);
        match find_assignment(&solution.assignments, &node.aliases[a].key) {
            Some(j) => {
                assert(s[j as int] == solution.assignments@[j as int]@);
                return true;
            },
            None => {
                assert forall|j: int| 0 <= j < s.len() implies node@.aliases[a as int].0 != (#[trigger] s[j]).key by {
                    assert(s[j] == solution.assignments@[j]@);
                }
            },
        }
        a += 1;
    }
    false
}

/// Whether a user-owned installed node has project `key`.
fn user_owned_copy(installed: &Vec<InstalledNode>, key: &NodeKey) -> (r: bool)
    ensures
        r == exists|o: int|
            0 <= o < installed@.len() && (#[trigger] nodes_view(installed@)[o]).key == key@
                && nodes_view(installed@)[o].user_owned,
{
    let ghost nv = nodes_view(installed@);
    let mut o: usize = 0;
    while o < installed.len()
        invariant
            o <= installed.len(),
            nv == nodes_view(installed@),
            forall|x: int| 0 <= x < o ==> !((#[trigger] nv[x]).key == key@ && nv[x].user_owned),
        decreases installed.len() - o,
    {
        assert(nv[o as int] == installed@[o as int]@);
        if installed[o].key.same(key) && installed[o].user_owned {
            return true;
        }
        o += 1;
    }
    false
}


pub open spec fn changes_view(v: Seq<InstanceUpgradeDependencyChange>) -> Seq<ChangeView> {
    v.map_values(|c: InstanceUpgradeDependencyChange| change_view(c))
}

/// `out` is `input` stably sorted by provider name and project.
pub open spec fn sorted_changes_of(out: Seq<ChangeView>, input: Seq<ChangeView>) -> bool {
    exists|p: Seq<int>|
        #![trigger is_permutation(p, input.len() as int)]
        is_permutation(p, input.len() as int) && (forall|i: int|
            0 <= i < p.len() ==> #[trigger] out[i] == input[p[i]]) && (forall|i: int|
            0 <= i < p.len() - 1 ==> #[trigger] change_before(input[p[i]], p[i], input[p[i + 1]], p[i + 1]))
}

proof fn lemma_sorted_changes(
    order: Seq<usize>,
    keys: Seq<(Vec<char>, Vec<char>)>,
    input: Seq<ChangeView>,
    out: Seq<ChangeView>,
)
    requires
        order.len() == input.len(),
        keys.len() == input.len(),
        out.len() == input.len(),
        forall|i: int| 0 <= i < order.len() ==> (#[trigger] order[i]) < keys.len(),
        forall|i: int, j: int| 0 <= i < j < order.len() ==> order[i] != order[j],
        forall|i: int|
            0 <= i < order.len() - 1 ==> #[trigger] stable_before(keys, order[i] as int, order[i + 1] as int),
        forall|k: int| 0 <= k < keys.len() ==> ((#[trigger] keys[k]).0@, keys[k].1@) == change_key(input[k]),
        forall|i: int| 0 <= i < out.len() ==> #[trigger] out[i] == input[order[i] as int],
    ensures
        sorted_changes_of(out, input),
{
    let p = to_ints(order);
    assert forall|a: int, b: int| 0 <= a < b < p.len() implies p[a] != p[b] by {
        assert(order[a] != order[b]);
    }
    assert(is_permutation(p, input.len() as int));
    assert forall|i: int| 0 <= i < p.len() implies #[trigger] out[i] == input[p[i]] by {}
    assert forall|i: int| 0 <= i < p.len() - 1 implies #[trigger] change_before(input[p[i]], p[i], input[p[i + 1]], p[i + 1]) by {
        assert(stable_before(keys, order[i] as int, order[i + 1] as int));
    }
}

fn sort_changes(changes: &Vec<InstanceUpgradeDependencyChange>) -> (r: Vec<InstanceUpgradeDependencyChange>)
    ensures
        sorted_changes_of(changes_view(r@), changes_view(changes@)),
{
    let ghost input = changes_view(changes@);
    let mut keys: Vec<(Vec<char>, Vec<char>)> = Vec::new();
    let mut i: usize = 0;
    while i < changes.len()
        invariant
            i <= changes.len(),
            input == changes_view(changes@),
            keys@.len() == i,
            forall|k: int| 0 <= k < i ==> ((#[trigger] keys@[k]).0@, keys@[k].1@) == change_key(input[k]),
        decreases changes.len() - i,
    {
        let a = crate::text::chars_of(changes[i].provider.as_str());
        let b = crate::text::chars_of(changes[i].project_id.as_str());
        keys.push((a, b));
        i += 1;
    }
    let order = stable_order(&keys);
    let mut out: Vec<InstanceUpgradeDependencyChange> = Vec::new();
    let mut k: usize = 0;
    while k < order.len()
        invariant
            k <= order.len(),
            order@.len() == changes@.len(),
            input == changes_view(changes@),
            forall|x: int| 0 <= x < order@.len() ==> (#[trigger] order@[x]) < changes@.len(),
            out@.len() == k,
            forall|x: int| 0 <= x < k ==> #[trigger] changes_view(out@)[x] == input[order@[x] as int],
        decreases order.len() - k,
    {
        let ghost before = out@;
        out.push(copy_change(&changes[order[k]]));
        assert forall|x: int| 0 <= x < k + 1 implies #[trigger] changes_view(out@)[x] == input[order@[x] as int] by {
            if x < k {
                assert(out@[x] == before[x]);
                assert(changes_view(before)[x] == input[order@[x] as int]);
            }
        }
        k += 1;
    }
    proof {
        lemma_sorted_changes(order@, keys@, input, changes_view(out@));
    }
    out
}


/// A warning by its texts.
pub struct WarnView {
    pub code: InstanceUpgradeIssueCode,
    pub content_id: Option<Seq<char>>,
    pub provider: Option<ContentProvider>,
    pub project_id: Option<Seq<char>>,
    pub conflicting_project_id: Option<Seq<char>>,
    pub message: Seq<char>,
    pub dependency_requirements: Seq<InstanceUpgradeDependencyRequirement>,
}

pub open spec fn warn_view(i: InstanceUpgradeIssue) -> WarnView {
    WarnView {
        code: i.code,
        content_id: opt_str_view(i.content_id),
        provider: i.provider,
        project_id: opt_str_view(i.project_id),
        conflicting_project_id: opt_str_view(i.conflicting_project_id),
        message: i.message@,
        dependency_requirements: i.dependency_requirements@,
    }
}

pub open spec fn warns_view(v: Seq<InstanceUpgradeIssue>) -> Seq<WarnView> {
    v.map_values(|i: InstanceUpgradeIssue| warn_view(i))
}

pub open spec fn key_warning(code: InstanceUpgradeIssueCode, k: KeyView, message: Seq<char>) -> WarnView {
    WarnView {
        code,
        content_id: None,
        provider: Some(k.0),
        project_id: Some(k.1),
        conflicting_project_id: None,
        message,
        dependency_requirements: Seq::empty(),
    }
}

/// Kept roots whose kept release does not fit the target, root by root.
pub open spec fn keep_warnings(roots: Seq<RootRequest>, s: Seq<CandView>) -> Seq<WarnView>
    decreases roots.len(),
{
    if roots.len() == 0 {
        Seq::empty()
    } else {
        let prev = keep_warnings(roots.drop_last(), s);
        let r = roots.last();
        if (assigned_cand(s, r.key@) matches Some(c) && r.action == InstanceUpgradeAction::Keep
            && !c.compatible) {
            prev.push(
                key_warning(
                    InstanceUpgradeIssueCode::KeepIncompatible,
                    r.key@,
                    NodeKey::spec_label(r.key@) + " remains incompatible with target environment"@,
                ),
            )
        } else {
            prev
        }
    }
}

pub open spec fn warned_about(w: Seq<WarnView>, k: KeyView) -> bool {
    exists|i: int| 0 <= i < w.len() && (#[trigger] w[i]).provider == Some(k.0) && w[i].project_id == Some(k.1)
}

/// Preserved projects whose release does not fit the target and that no
/// earlier warning names.
pub open spec fn preserved_warnings(keys: Seq<KeyView>, s: Seq<CandView>, base: Seq<WarnView>) -> Seq<
    WarnView,
>
    decreases keys.len(),
{
    if keys.len() == 0 {
        Seq::empty()
    } else {
        let prev = preserved_warnings(keys.drop_last(), s, base);
        let k = keys.last();
        match assigned_cand(s, k) {
            None => prev,
            Some(c) => if c.compatible || warned_about(base + prev, k) {
                prev
            } else {
                prev.push(
                    key_warning(
                        InstanceUpgradeIssueCode::KeepIncompatible,
                        k,
                        NodeKey::spec_label(k) + " is preserved despite target incompatibility"@,
                    ),
                )
            },
        }
    }
}

/// Chosen prereleases outside the preserved projects.
pub open spec fn prerelease_warnings(s: Seq<CandView>, preserved: Seq<KeyView>) -> Seq<WarnView>
    decreases s.len(),
{
    if s.len() == 0 {
        Seq::empty()
    } else {
        let prev = prerelease_warnings(s.drop_last(), preserved);
        let c = s.last();
        if c.channel != CandidateChannel::Release && !preserved.contains(c.key) {
            prev.push(
                key_warning(
                    InstanceUpgradeIssueCode::PrereleaseOnly,
                    c.key,
                    NodeKey::spec_label(c.key) + " uses explicitly confirmed prerelease "@ + c.version_id,
                ),
            )
        } else {
            prev
        }
    }
}

pub open spec fn solution_warnings(r: SolverResult, roots: Seq<RootRequest>) -> Seq<WarnView> {
    let s = result_view(r);
    let keep = keep_warnings(roots, s);
    keep + preserved_warnings(keys_view(r.preserved_unsafe@), s, keep) + prerelease_warnings(
        s,
        keys_view(r.preserved_unsafe@),
    )
}

fn key_issue(code: InstanceUpgradeIssueCode, key: &NodeKey, message: String) -> (r: InstanceUpgradeIssue)
    ensures
        warn_view(r) == key_warning(code, key@, message@),
{
    let r = issue(code, message, Some(key), Some(key.project_id.as_str()), None);
    assert(r.dependency_requirements@ =~= Seq::<InstanceUpgradeDependencyRequirement>::empty());
    r
}

fn names_key(warnings: &Vec<InstanceUpgradeIssue>, key: &NodeKey) -> (r: bool)
    ensures
        r == warned_about(warns_view(warnings@), key@),
{
    let ghost w = warns_view(warnings@);
    let mut i: usize = 0;
    while i < warnings.len()
        invariant
            i <= warnings.len(),
            w == warns_view(warnings@),
            forall|k: int| 0 <= k < i ==> !((#[trigger] w[k]).provider == Some(key@.0) && w[k].project_id == Some(key@.1)),
        decreases warnings.len() - i,
    {
        assert(w[i as int] == warn_view(warnings@[i as int]));
        if warnings[i].provider == Some(key.provider) {
            match &warnings[i].project_id {
                Some(p) => {
                    if *p == key.project_id {
                        return true;
                    }
                },
                None => {},
            }
        }
        i += 1;
    }
    false
}

fn push_warning(warnings: &mut Vec<InstanceUpgradeIssue>, w: InstanceUpgradeIssue)
    ensures
        warns_view(final(warnings)@) == warns_view(old(warnings)@).push(warn_view(w)),
{
    let ghost before = warnings@;
    warnings.push(w);
    assert(warns_view(warnings@) =~= warns_view(before).push(warn_view(w)));
}

fn build_warnings(solution: &SolverResult, roots: &Vec<RootRequest>) -> (r: Vec<InstanceUpgradeIssue>)
    requires
        distinct_keys(result_view(*solution)),
    ensures
        warns_view(r@) == solution_warnings(*solution, roots@),
{
    let ghost s = result_view(*solution);
    let ghost pv = keys_view(solution.preserved_unsafe@);
    let mut warnings: Vec<InstanceUpgradeIssue> = Vec::new();
    let mut i: usize = 0;
    assert(roots@.subrange(0, 0) =~= Seq::<RootRequest>::empty());
    assert(warns_view(warnings@) =~= Seq::<WarnView>::empty());
    while i < roots.len()
        invariant
            i <= roots.len(),
            s == result_view(*solution),
            distinct_keys(s),
            warns_view(warnings@) == keep_warnings(roots@.subrange(0, i as int), s),
        decreases roots.len() - i,
    {
        let root = &roots[i];
        assert(roots@.subrange(0, i + 1).drop_last() =~= roots@.subrange(0, i as int));
        let found = find_assignment(&solution.assignments, &root.key);
        proof {
            lemma_assigned_cand(s, root.key@, found);
        }
        match found {
            Some(j) => {
                if root.action == InstanceUpgradeAction::Keep && !solution.assignments[j].compatible {
                    let label = root.key.label();
                    let message = crate::text::concat(label.as_str(), " remains incompatible with target environment");
                    push_warning(&mut warnings, key_issue(InstanceUpgradeIssueCode::KeepIncompatible, &root.key, message));
                }
            },
            None => {},
        }
        i += 1;
    }
    assert(roots@.subrange(0, roots@.len() as int) =~= roots@);
    let ghost keep = warns_view(warnings@);
    let mut k: usize = 0;
    assert(pv.subrange(0, 0) =~= Seq::<KeyView>::empty());
    assert(keep + preserved_warnings(pv.subrange(0, 0), s, keep) =~= keep);
    while k < solution.preserved_unsafe.len()
        invariant
            k <= solution.preserved_unsafe.len(),
            s == result_view(*solution),
            pv == keys_view(solution.preserved_unsafe@),
            distinct_keys(s),
            warns_view(warnings@) == keep + preserved_warnings(pv.subrange(0, k as int), s, keep),
        decreases solution.preserved_unsafe.len() - k,
    {
        let key = &solution.preserved_unsafe[k];
        assert(pv.subrange(0, k + 1).drop_last() =~= pv.subrange(0, k as int));
        assert(pv.subrange(0, k + 1).last() == key@);
        let found = find_assignment(&solution.assignments, key);
        proof {
            lemma_assigned_cand(s, key@, found);
        }
        match found {
            Some(j) => {
                if !solution.assignments[j].compatible && !names_key(&warnings, key) {
                    let label = key.label();
                    let message = crate::text::concat(label.as_str(), " is preserved despite target incompatibility");
                    push_warning(&mut warnings, key_issue(InstanceUpgradeIssueCode::KeepIncompatible, key, message));
                    assert(keep + preserved_warnings(pv.subrange(0, k + 1), s, keep) =~= (keep
                        + preserved_warnings(pv.subrange(0, k as int), s, keep)).push(warns_view(warnings@).last()));
                }
            },
            None => {},
        }
        k += 1;
    }
    assert(pv.subrange(0, pv.len() as int) =~= pv);
    let ghost mid = warns_view(warnings@);
    let mut j: usize = 0;
    assert(s.subrange(0, 0) =~= Seq::<CandView>::empty());
    assert(mid + prerelease_warnings(s.subrange(0, 0), pv) =~= mid);
    while j < solution.assignments.len()
        invariant
            j <= solution.assignments.len(),
            s == result_view(*solution),
            s.len() == solution.assignments@.len(),
            pv == keys_view(solution.preserved_unsafe@),
            warns_view(warnings@) == mid + prerelease_warnings(s.subrange(0, j as int), pv),
        decreases solution.assignments.len() - j,
    {
        let c = &solution.assignments[j];
        assert(s.subrange(0, j + 1).drop_last() =~= s.subrange(0, j as int));
        assert(s[j as int] == c@);
        let preserved = contains_key(&solution.preserved_unsafe, &c.key);
        assert(preserved == pv.contains(c@.key)) by {
            if preserved {
                let w = choose|w: int| 0 <= w < solution.preserved_unsafe@.len() && (#[trigger] solution.preserved_unsafe@[w])@ == c.key@;
                assert(pv[w] == c@.key);
            }
            if pv.contains(c@.key) {
                let w = choose|w: int| 0 <= w < pv.len() && pv[w] == c@.key;
                assert(solution.preserved_unsafe@[w]@ == c.key@);
            }
        }
        if c.channel.is_prerelease() && !preserved {
            let label = c.key.label();
            let a = crate::text::concat(label.as_str(), " uses explicitly confirmed prerelease ");
            let message = crate::text::concat(a.as_str(), c.version_id.as_str());
            push_warning(&mut warnings, key_issue(InstanceUpgradeIssueCode::PrereleaseOnly, &c.key, message));
            assert(mid + prerelease_warnings(s.subrange(0, j + 1), pv) =~= (mid + prerelease_warnings(
                s.subrange(0, j as int),
                pv,
            )).push(warns_view(warnings@).last()));
        }
        j += 1;
    }
    assert(s.subrange(0, s.len() as int) =~= s);
    warnings
}

/// `s` is the solution `sol` materialized as a solution of `kind`: one
/// selection per root, ordered by content id, and the dependency changes
/// and warnings of the assignment.
pub open spec fn materialized_as(
    s: InstanceUpgradeSolution,
    kind: InstanceUpgradeSolutionKind,
    sol: SolverResult,
    roots: Seq<RootRequest>,
    installed: Seq<InstalledNode>,
) -> bool {
    &&& s.kind == kind
    &&& s.selections@.len() == roots.len()
    &&& exists|p: Seq<int>|
            #![trigger is_permutation(p, roots.len() as int)]
            is_permutation(p, roots.len() as int) && (forall|i: int|
                0 <= i < p.len() ==> selection_matches(
                    #[trigger] s.selections@[i],
                    roots[p[i]],
                    result_view(sol),
                )) && (forall|i: int|
                0 <= i < p.len() - 1 ==> #[trigger] text_before(
                    roots[p[i]].content_id@,
                    p[i],
                    roots[p[i + 1]].content_id@,
                    p[i + 1],
                ))
    &&& exists|e: Seq<NodeKey>|
            #![trigger enabled_set_ok(e, result_view(sol), roots)]
            enabled_set_ok(e, result_view(sol), roots) && sorted_changes_of(
                changes_view(s.dependency_changes@),
                assignment_changes(
                    result_view(sol),
                    roots,
                    all_aliases(nodes_view(installed)),
                    e,
                ) + removal_changes(
                    nodes_view(installed),
                    nodes_view(installed),
                    result_view(sol),
                ),
            )
    &&& warns_view(s.warnings@) == solution_warnings(sol, roots)
}

/// The reviewable form of a solution: one selection per root (ordered by
/// content id), the dependency changes (ordered by provider name and
/// project), and the warnings the user must see.
pub fn materialize_solution(
    kind: InstanceUpgradeSolutionKind,
    solution: &SolverResult,
    roots: &Vec<RootRequest>,
    installed: &Vec<InstalledNode>,
) -> (r: InstanceUpgradeSolution)
    requires
        distinct_keys(result_view(*solution)),
    ensures
        materialized_as(r, kind, *solution, roots@, installed@),
{
    let enabled = solution_enabled_nodes(solution, roots);
    let selections = root_selections(solution, roots);
    let unsorted = unsorted_changes(solution, roots, installed, &enabled);
    let dependency_changes = sort_changes(&unsorted);
    let warnings = build_warnings(solution, roots);
    InstanceUpgradeSolution { kind, selections, dependency_changes, warnings }
}

} // verus!
