//! Classifying plan items against the candidate catalog, and deriving the
//! roots and confirmations the solver starts from.
use vstd::prelude::*;
use crate::model::{
    InstanceUpgradeAction, InstanceUpgradeEnvironment, InstanceUpgradeItem,
    InstanceUpgradeItemStatus, InstanceUpgradePrereleaseConfirmation, ProjectType, ShaderRuntime,
};
use crate::upgrade::candidates::{
    CandView, CandidateChannel, KeyView, NodeKey, PoolView, UpgradeCatalog, cands_view, pool_of,
};
use crate::upgrade::snapshot::{InstalledNode, NodeView, nodes_view};
use crate::upgrade::solver::RootRequest;

verus! {

/// Index of the first node installed as `content_id`.
pub open spec fn first_node(nodes: Seq<NodeView>, content_id: Seq<char>) -> Option<int> {
    if exists|j: int| 0 <= j < nodes.len() && nodes[j].content_id == content_id {
        Some(
            choose|j: int|
                0 <= j < nodes.len() && nodes[j].content_id == content_id && forall|k: int|
                    0 <= k < j ==> (#[trigger] nodes[k]).content_id != content_id,
        )
    } else {
        None
    }
}

pub proof fn lemma_first_node(nodes: Seq<NodeView>, content_id: Seq<char>, r: Option<usize>)
    requires
        r matches Some(j) ==> j < nodes.len() && nodes[j as int].content_id == content_id
            && forall|k: int| 0 <= k < j ==> (#[trigger] nodes[k]).content_id != content_id,
        r is None ==> forall|k: int| 0 <= k < nodes.len() ==> (#[trigger] nodes[k]).content_id != content_id,
    ensures
        first_node(nodes, content_id) == match r {
            Some(j) => Some(j as int),
            None => None::<int>,
        },
{
    match r {
        Some(j) => {
            assert(nodes[j as int].content_id == content_id);
            let c = choose|c: int|
                0 <= c < nodes.len() && nodes[c].content_id == content_id && forall|k: int|
                    0 <= k < c ==> (#[trigger] nodes[k]).content_id != content_id;
            if c < j {
            } else if c > j {
                assert(nodes[j as int].content_id != content_id);
            }
        },
        None => {},
    }
}

fn find_node(installed: &Vec<InstalledNode>, content_id: &String) -> (r: Option<usize>)
    ensures
        first_node(nodes_view(installed@), content_id@) == match r {
            Some(j) => Some(j as int),
            None => None::<int>,
        },
        r matches Some(j) ==> j < installed@.len(),
{
    let ghost nv = nodes_view(installed@);
    let mut i: usize = 0;
    while i < installed.len()
        invariant
            i <= installed.len(),
            nv == nodes_view(installed@),
            forall|k: int| 0 <= k < i ==> (#[trigger] nv[k]).content_id != content_id@,
        decreases installed.len() - i,
    {
        if installed[i].content_id == *content_id {
            proof {
                lemma_first_node(nv, content_id@, Some(i));
            }
            return Some(i);
        }
        i += 1;
    }
    proof {
        lemma_first_node(nv, content_id@, None);
    }
    None
}

pub open spec fn compatible_of(pool: Seq<CandView>) -> Seq<CandView> {
    pool.filter(|c: CandView| c.compatible)
}

/// The status an item receives from its project's candidates.
pub open spec fn status_from_candidates(
    compatible: Seq<CandView>,
    current_release_id: Seq<char>,
    project_type: ProjectType,
) -> InstanceUpgradeItemStatus {
    if exists|i: int| 0 <= i < compatible.len() && (#[trigger] compatible[i]).channel == CandidateChannel::Release {
        if exists|i: int| 0 <= i < compatible.len() && (#[trigger] compatible[i]).version_id == current_release_id {
            InstanceUpgradeItemStatus::AlreadyCompatible
        } else {
            InstanceUpgradeItemStatus::UpgradeAvailable
        }
    } else if compatible.len() > 0 {
        InstanceUpgradeItemStatus::PrereleaseOnly
    } else if project_type == ProjectType::ShaderPack {
        InstanceUpgradeItemStatus::NoCompatibleShaderRuntime
    } else {
        InstanceUpgradeItemStatus::NoCompatibleRelease
    }
}

/// `new` is `old` with at most its status and candidate releases changed.
pub open spec fn same_item_except_status(new: InstanceUpgradeItem, old: InstanceUpgradeItem) -> bool {
    &&& new.content_id == old.content_id
    &&& new.relative_path == old.relative_path
    &&& new.project_type == old.project_type
    &&& new.provider == old.provider
    &&& new.project_id == old.project_id
    &&& new.current_release_id == old.current_release_id
    &&& new.current_enabled == old.current_enabled
    &&& new.auto_dependency == old.auto_dependency
    &&& new.resolution == old.resolution
}

/// What classification does to one item.
pub open spec fn classified(
    new: InstanceUpgradeItem,
    old: InstanceUpgradeItem,
    nodes: Seq<NodeView>,
    catalog: Seq<PoolView>,
    runtime: ShaderRuntime,
) -> bool {
    &&& same_item_except_status(new, old)
    &&& if old.status == InstanceUpgradeItemStatus::Unidentified || old.status
        == InstanceUpgradeItemStatus::UnsupportedContentType {
        new == old
    } else if old.project_type == ProjectType::ShaderPack && runtime == ShaderRuntime::NoRuntime {
        new.status == InstanceUpgradeItemStatus::ShaderRuntimeMissing
            && new.candidate_release_ids == old.candidate_release_ids
    } else if old.project_type == ProjectType::ShaderPack && runtime == ShaderRuntime::Unknown {
        new.status == InstanceUpgradeItemStatus::ShaderRuntimeUnknown
            && new.candidate_release_ids == old.candidate_release_ids
    } else {
        match first_node(nodes, old.content_id@) {
            None => new == old,
            Some(j) => {
                let compatible = compatible_of(pool_of(catalog, nodes[j].key));
                &&& new.status == status_from_candidates(
                    compatible,
                    nodes[j].current_release_id,
                    old.project_type,
                )
                &&& new.candidate_release_ids@.len() == compatible.len()
                &&& forall|k: int|
                    0 <= k < compatible.len() ==> (#[trigger] new.candidate_release_ids@[k])@
                        == compatible[k].version_id
            },
        }
    }
}


/// The compatible candidates of `key`: their release ids, whether one is a
/// stable release, whether one is `current`, and whether there is any.
fn compatible_summary(catalog: &UpgradeCatalog, key: &NodeKey, current: &String) -> (r: (
    Vec<String>,
    bool,
    bool,
    bool,
))
    ensures
        ({
            let compatible = compatible_of(pool_of(catalog@, key@));
            &&& r.0@.len() == compatible.len()
            &&& forall|k: int| 0 <= k < compatible.len() ==> (#[trigger] r.0@[k])@ == compatible[k].version_id
            &&& r.1 == exists|i: int| 0 <= i < compatible.len() && (#[trigger] compatible[i]).channel == CandidateChannel::Release
            &&& r.2 == exists|i: int| 0 <= i < compatible.len() && (#[trigger] compatible[i]).version_id == current@
            &&& r.3 == (compatible.len() > 0)
        }),
{
    let mut ids: Vec<String> = Vec::new();
    let mut has_stable = false;
    let mut current_compatible = false;
    let mut any = false;
    let ghost pool: Seq<CandView> = pool_of(catalog@, key@);
    let ghost pred = |c: CandView| c.compatible;
    match catalog.get(key) {
        None => {
            proof {
                reveal(Seq::filter);
                assert(pool =~= Seq::<CandView>::empty());
                assert(compatible_of(pool) =~= Seq::<CandView>::empty());
            }
        },
        Some(p) => {
            let ghost e = choose|e: int|
                0 <= e < catalog@.len() && catalog@[e].key == key@
                    && #[trigger] catalog@[e].candidates == cands_view(p.candidates@)
                    && catalog@[e].exploration_limited == p.exploration_limited;
            assert(pool == cands_view(p.candidates@)) by {
                let f = choose|f: int| 0 <= f < catalog@.len() && catalog@[f].key == key@;
                assert(f == e);
            }
            let mut c: usize = 0;
            assert(pool.subrange(0, 0).filter(pred) =~= Seq::<CandView>::empty()) by {
                reveal(Seq::filter);
            }
            while c < p.candidates.len()
                invariant
                    c <= p.candidates.len(),
                    pool == cands_view(p.candidates@),
                    pred == (|c: CandView| c.compatible),
                    ids@.len() == pool.subrange(0, c as int).filter(pred).len(),
                    forall|k: int|
                        0 <= k < ids@.len() ==> (#[trigger] ids@[k])@ == pool.subrange(
                            0,
                            c as int,
                        ).filter(pred)[k].version_id,
                    any == (pool.subrange(0, c as int).filter(pred).len() > 0),
                    has_stable == exists|k: int|
                        0 <= k < pool.subrange(0, c as int).filter(pred).len() && (
                        #[trigger] pool.subrange(0, c as int).filter(pred)[k]).channel
                            == CandidateChannel::Release,
                    current_compatible == exists|k: int|
                        0 <= k < pool.subrange(0, c as int).filter(pred).len() && (
                        #[trigger] pool.subrange(0, c as int).filter(pred)[k]).version_id
                            == current@,
                decreases p.candidates.len() - c,
            {
                let candidate = &p.candidates[c];
                let ghost before = pool.subrange(0, c as int).filter(pred);
                proof {
                    let s1 = pool.subrange(0, c + 1);
                    assert(s1.drop_last() =~= pool.subrange(0, c as int));
                    assert(s1.last() == candidate@);
                    reveal(Seq::filter);
                }
                if candidate.compatible {
                    let ghost old_stable = has_stable;
                    let ghost old_current = current_compatible;
                    ids.push(candidate.version_id.clone());
                    any = true;
                    let ghost after = before.push(candidate@);
                    assert(pool.subrange(0, c + 1).filter(pred) == after);
                    if candidate.channel == CandidateChannel::Release {
                        has_stable = true;
                    }
                    if candidate.version_id == *current {
                        current_compatible = true;
                    }
                    proof {
                        let n = before.len() as int;
                        assert(after[n] == candidate@);
                        if old_stable {
                            let k = choose|k: int| 0 <= k < before.len() && (#[trigger] before[k]).channel == CandidateChannel::Release;
                            assert(after[k] == before[k]);
                        }
                        if !has_stable {
                            assert forall|k: int| 0 <= k < after.len() implies (#[trigger] after[k]).channel != CandidateChannel::Release by {
                                if k < n {
                                    assert(after[k] == before[k]);
                                }
                            }
                        }
                        if old_current {
                            let k = choose|k: int| 0 <= k < before.len() && (#[trigger] before[k]).version_id == current@;
                            assert(after[k] == before[k]);
                        }
                        if !current_compatible {
                            assert forall|k: int| 0 <= k < after.len() implies (#[trigger] after[k]).version_id != current@ by {
                                if k < n {
                                    assert(after[k] == before[k]);
                                }
                            }
                        }
                        assert forall|k: int| 0 <= k < ids@.len() implies (#[trigger] ids@[k])@ == after[k].version_id by {
                            if k < n {
                                assert(after[k] == before[k]);
                            }
                        }
                    }
                } else {
                    assert(pool.subrange(0, c + 1).filter(pred) == before);
                }
                c += 1;
            }
            assert(pool.subrange(0, pool.len() as int) =~= pool);
        },
    }
    (ids, has_stable, current_compatible, any)
}

/// The classification of one item.
fn classify_one(
    item: InstanceUpgradeItem,
    installed: &Vec<InstalledNode>,
    catalog: &UpgradeCatalog,
    target: &InstanceUpgradeEnvironment,
) -> (r: InstanceUpgradeItem)
    ensures
        classified(r, item, nodes_view(installed@), catalog@, target.shader_runtime),
{
    let mut item = item;
    let status = item.status;
    let project_type = item.project_type;
    if status == InstanceUpgradeItemStatus::Unidentified || status
        == InstanceUpgradeItemStatus::UnsupportedContentType {
        return item;
    }
    if project_type == ProjectType::ShaderPack {
        match target.shader_runtime {
            ShaderRuntime::NoRuntime => {
                item.status = InstanceUpgradeItemStatus::ShaderRuntimeMissing;
                return item;
            },
            ShaderRuntime::Unknown => {
                item.status = InstanceUpgradeItemStatus::ShaderRuntimeUnknown;
                return item;
            },
            _ => {},
        }
    }
    match find_node(installed, &item.content_id) {
        None => item,
        Some(j) => {
            let node = &installed[j];
            let (ids, has_stable, current_compatible, any) = compatible_summary(
                catalog,
                &node.key,
                &node.current_release_id,
            );
            item.status = if has_stable {
                if current_compatible {
                    InstanceUpgradeItemStatus::AlreadyCompatible
                } else {
                    InstanceUpgradeItemStatus::UpgradeAvailable
                }
            } else if any {
                InstanceUpgradeItemStatus::PrereleaseOnly
            } else if project_type == ProjectType::ShaderPack {
                InstanceUpgradeItemStatus::NoCompatibleShaderRuntime
            } else {
                InstanceUpgradeItemStatus::NoCompatibleRelease
            };
            item.candidate_release_ids = ids;
            item
        },
    }
}

/// Classifies every item that names a provider project against the
/// candidates the catalog holds for its installed node.
pub fn classify_items(
    items: &mut Vec<InstanceUpgradeItem>,
    installed: &Vec<InstalledNode>,
    catalog: &UpgradeCatalog,
    target: &InstanceUpgradeEnvironment,
)
    ensures
        final(items)@.len() == old(items)@.len(),
        forall|i: int|
            0 <= i < old(items)@.len() ==> classified(
                #[trigger] final(items)@[i],
                old(items)@[i],
                nodes_view(installed@),
                catalog@,
                target.shader_runtime,
            ),
{
    let mut i: usize = 0;
    while i < items.len()
        invariant
            i <= items.len(),
            items@.len() == old(items)@.len(),
            forall|k: int| i <= k < items@.len() ==> items@[k] == old(items)@[k],
            forall|k: int|
                0 <= k < i ==> classified(
                    #[trigger] items@[k],
                    old(items)@[k],
                    nodes_view(installed@),
                    catalog@,
                    target.shader_runtime,
                ),
        decreases items.len() - i,
    {
        let item = items.remove(i);
        let next = classify_one(item, installed, catalog, target);
        items.insert(i, next);
        i += 1;
    }
}

/// The roots of the solver: items installed as a migratable node that the
/// user (not the dependency resolver) added, in item order.
pub open spec fn spec_root_of(item: InstanceUpgradeItem, nodes: Seq<NodeView>) -> Option<int> {
    if exists|j: int|
        0 <= j < nodes.len() && nodes[j].content_id == item.content_id@ && !nodes[j].auto_dependency
            && nodes[j].migratable {
        Some(
            choose|j: int|
                0 <= j < nodes.len() && nodes[j].content_id == item.content_id@
                    && !nodes[j].auto_dependency && nodes[j].migratable && forall|k: int|
                    0 <= k < j ==> !((#[trigger] nodes[k]).content_id == item.content_id@
                        && !nodes[k].auto_dependency && nodes[k].migratable),
        )
    } else {
        None
    }
}

pub struct RootView {
    pub content_id: Seq<char>,
    pub key: KeyView,
    pub current_release_id: Seq<char>,
    pub enabled: bool,
    pub action: InstanceUpgradeAction,
    pub allow_prerelease: bool,
}

pub open spec fn root_view(r: RootRequest) -> RootView {
    RootView {
        content_id: r.content_id@,
        key: r.key@,
        current_release_id: r.current_release_id@,
        enabled: r.enabled,
        action: r.action,
        allow_prerelease: r.allow_prerelease,
    }
}

pub open spec fn spec_roots(items: Seq<InstanceUpgradeItem>, nodes: Seq<NodeView>) -> Seq<RootView>
    decreases items.len(),
{
    if items.len() == 0 {
        Seq::empty()
    } else {
        let prev = spec_roots(items.drop_last(), nodes);
        let item = items.last();
        match spec_root_of(item, nodes) {
            Some(j) => prev.push(
                RootView {
                    content_id: item.content_id@,
                    key: nodes[j].key,
                    current_release_id: nodes[j].current_release_id,
                    enabled: nodes[j].enabled,
                    action: item.resolution.action,
                    allow_prerelease: item.resolution.allow_prerelease,
                },
            ),
            None => prev,
        }
    }
}

fn root_node_for(item: &InstanceUpgradeItem, installed: &Vec<InstalledNode>) -> (found: Option<usize>)
    ensures
        match found {
            Some(f) => f < installed@.len() && spec_root_of(*item, nodes_view(installed@)) == Some(f as int),
            None => spec_root_of(*item, nodes_view(installed@)) is None,
        },
{
    let ghost nv = nodes_view(installed@);
    let mut found: Option<usize> = None;
    let mut j: usize = 0;
    while j < installed.len()
        invariant
            j <= installed.len(),
            nv == nodes_view(installed@),
            found is None ==> forall|k: int|
                0 <= k < j ==> !((#[trigger] nv[k]).content_id == item.content_id@
                    && !nv[k].auto_dependency && nv[k].migratable),
            found matches Some(f) ==> f < installed.len() && nv[f as int].content_id
                == item.content_id@ && !nv[f as int].auto_dependency && nv[f as int].migratable
                && forall|k: int|
                0 <= k < f ==> !((#[trigger] nv[k]).content_id == item.content_id@
                    && !nv[k].auto_dependency && nv[k].migratable),
        decreases installed.len() - j,
    {
        if found.is_none() && installed[j].content_id == item.content_id
            && !installed[j].auto_dependency && installed[j].migratable {
            found = Some(j);
        }
        j += 1;
    }
    proof {
        match found {
            Some(f) => {
                let c = choose|c: int|
                    0 <= c < nv.len() && nv[c].content_id == item.content_id@
                        && !nv[c].auto_dependency && nv[c].migratable && forall|k: int|
                        0 <= k < c ==> !((#[trigger] nv[k]).content_id == item.content_id@
                            && !nv[k].auto_dependency && nv[k].migratable);
                if c < f {
                } else if c > f {
                    assert(!(nv[f as int].content_id == item.content_id@ && !nv[f as int].auto_dependency
                        && nv[f as int].migratable));
                }
                assert(spec_root_of(*item, nv) == Some(f as int));
            },
            None => {},
        }
    }
    found
}

#[verifier::rlimit(60)]
pub fn roots_from_items(items: &Vec<InstanceUpgradeItem>, installed: &Vec<InstalledNode>) -> (r: Vec<
    RootRequest,
>)
    ensures
        r@.map_values(|x: RootRequest| root_view(x)) == spec_roots(items@, nodes_view(installed@)),
{
    let ghost nv = nodes_view(installed@);
    let mut roots: Vec<RootRequest> = Vec::new();
    let mut i: usize = 0;
    assert(items@.subrange(0, 0) =~= Seq::<InstanceUpgradeItem>::empty());
    assert(roots@.map_values(|x: RootRequest| root_view(x)) =~= Seq::<RootView>::empty());
    while i < items.len()
        invariant
            i <= items.len(),
            nv == nodes_view(installed@),
            roots@.map_values(|x: RootRequest| root_view(x)) == spec_roots(
                items@.subrange(0, i as int),
                nv,
            ),
        decreases items.len() - i,
    {
        let item = &items[i];
        let ghost sub = items@.subrange(0, i + 1);
        assert(sub.drop_last() =~= items@.subrange(0, i as int));
        assert(sub.last() == *item);
        let found = root_node_for(item, installed);
        match found {
            Some(f) => {
                let node = &installed[f];
                let root = RootRequest {
                    content_id: item.content_id.clone(),
                    key: node.key.copy(),
                    current_release_id: node.current_release_id.clone(),
                    enabled: node.enabled,
                    action: item.resolution.action,
                    allow_prerelease: item.resolution.allow_prerelease,
                };
                let ghost before = roots@;
                proof {
                    assert(nv[f as int] == installed@[f as int]@);
                    assert(spec_roots(sub, nv) == spec_roots(items@.subrange(0, i as int), nv).push(root_view(root)));
                }
                roots.push(root);
                assert(roots@.map_values(|x: RootRequest| root_view(x)) =~= before.map_values(
                    |x: RootRequest| root_view(x),
                ).push(root_view(roots@.last())));
            },
            None => {
                assert(spec_roots(sub, nv) == spec_roots(items@.subrange(0, i as int), nv));
            },
        }
        i += 1;
    }
    assert(items@.subrange(0, items@.len() as int) =~= items@);
    roots
}

/// Every prerelease confirmation of every item, item by item.
pub open spec fn spec_confirmations(items: Seq<InstanceUpgradeItem>) -> Seq<
    InstanceUpgradePrereleaseConfirmation,
>
    decreases items.len(),
{
    if items.len() == 0 {
        Seq::empty()
    } else {
        spec_confirmations(items.drop_last()) + items.last().resolution.confirmed_prerelease_dependencies@
    }
}

pub fn confirmed_prereleases(items: &Vec<InstanceUpgradeItem>) -> (r: Vec<
    InstanceUpgradePrereleaseConfirmation,
>)
    ensures
        r@ == spec_confirmations(items@),
{
    let mut r: Vec<InstanceUpgradePrereleaseConfirmation> = Vec::new();
    let mut i: usize = 0;
    assert(items@.subrange(0, 0) =~= Seq::<InstanceUpgradeItem>::empty());
    while i < items.len()
        invariant
            i <= items.len(),
            r@ == spec_confirmations(items@.subrange(0, i as int)),
        decreases items.len() - i,
    {
        let list = &items[i].resolution.confirmed_prerelease_dependencies;
        let ghost base = r@;
        let mut k: usize = 0;
        while k < list.len()
            invariant
                k <= list.len(),
                r@ == base + list@.subrange(0, k as int),
            decreases list.len() - k,
        {
            let c = InstanceUpgradePrereleaseConfirmation {
                provider: list[k].provider,
                project_id: list[k].project_id.clone(),
                version_id: list[k].version_id.clone(),
            };
            r.push(c);
            assert(list@.subrange(0, k + 1) =~= list@.subrange(0, k as int).push(list@[k as int]));
            assert(r@ =~= base + list@.subrange(0, k + 1));
            k += 1;
        }
        assert(list@.subrange(0, list@.len() as int) =~= list@);
        assert(items@.subrange(0, i + 1).drop_last() =~= items@.subrange(0, i as int));
        i += 1;
    }
    assert(items@.subrange(0, items@.len() as int) =~= items@);
    r
}

} // verus!
