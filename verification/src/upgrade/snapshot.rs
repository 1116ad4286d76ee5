//! Turning an instance content snapshot into plan items and installed
//! nodes, and reading the source shader runtime from it.
use vstd::prelude::*;
use crate::model::{
    ContentOwnershipKind, ContentProvider, ContentProviderRef, InstanceContentSnapshot,
    InstanceContentSnapshotItem, InstanceUpgradeAction, InstanceUpgradeItem,
    InstanceUpgradeItemStatus, InstanceUpgradeResolution, LoaderComponent, LoaderComponentKind,
    ProjectType, RefView, ShaderRuntime, opt_str_view,
};
use crate::text::{spec_lower_seq, spec_replace_char, spec_split};
use crate::upgrade::candidates::{KeyView, NodeKey, copy_opt};

verus! {

/// A project under which an installed file is known, with its release.
#[derive(Debug)]
pub struct InstalledAlias {
    pub key: NodeKey,
    pub current_release_id: String,
}

pub type AliasView = (KeyView, Seq<char>);

impl View for InstalledAlias {
    type V = AliasView;

    open spec fn view(&self) -> AliasView {
        (self.key@, self.current_release_id@)
    }
}

/// An installed content file the planner can place.
#[derive(Debug)]
pub struct InstalledNode {
    pub content_id: String,
    pub key: NodeKey,
    pub current_release_id: String,
    pub project_type: ProjectType,
    pub enabled: bool,
    pub auto_dependency: bool,
    pub user_owned: bool,
    pub migratable: bool,
    pub aliases: Vec<InstalledAlias>,
}

pub open spec fn aliases_view(v: Seq<InstalledAlias>) -> Seq<AliasView> {
    v.map_values(|a: InstalledAlias| a@)
}

/// The identifier of a snapshot item that survives rescans: its entry, else
/// its pack member, else its file, else its path.
pub open spec fn spec_stable_content_id(item: InstanceContentSnapshotItem) -> Seq<char> {
    match item.entry_id {
        Some(e) => e@,
        None => match item.member_id {
            Some(m) => m@,
            None => match item.file_id {
                Some(f) => f@,
                None => item.expected_relative_path@,
            },
        },
    }
}

pub fn stable_content_id(item: &InstanceContentSnapshotItem) -> (r: String)
    ensures
        r@ == spec_stable_content_id(*item),
{
    match &item.entry_id {
        Some(e) => e.clone(),
        None => match &item.member_id {
            Some(m) => m.clone(),
            None => match &item.file_id {
                Some(f) => f.clone(),
                None => item.expected_relative_path.clone(),
            },
        },
    }
}

/// The path lies in `saves/<world>/datapacks/...` (case and slash style
/// ignored).
pub open spec fn spec_is_world_datapack(path: Seq<char>) -> bool {
    let parts = spec_split(spec_replace_char(path, '\\', '/'), '/');
    &&& parts.len() >= 4
    &&& spec_lower_seq(parts[0]) == "saves"@
    &&& spec_lower_seq(parts[2]) == "datapacks"@
}

pub fn is_world_datapack(path: &str) -> (r: bool)
    ensures
        r == spec_is_world_datapack(path@),
{
    let chars = crate::text::chars_of(path);
    let normalized = crate::text::replace_char(&chars, '\\', '/');
    let parts = crate::text::split_chars(&normalized, '/');
    if parts.len() < 4 {
        return false;
    }
    let first = crate::text::lower_vec(&parts[0]);
    let third = crate::text::lower_vec(&parts[2]);
    crate::text::eq_str(&first, "saves") && crate::text::eq_str(&third, "datapacks")
}

/// The aliases of an installed file: its primary key first, then each
/// provider reference that names a release, skipping projects already
/// listed.
pub open spec fn spec_aliases(refs: Seq<RefView>, primary: AliasView) -> Seq<AliasView>
    decreases refs.len(),
{
    if refs.len() == 0 {
        seq![primary]
    } else {
        let prev = spec_aliases(refs.drop_last(), primary);
        let r = refs.last();
        match r.2 {
            None => prev,
            Some(release) => if exists|i: int| 0 <= i < prev.len() && (#[trigger] prev[i]).0 == (r.0, r.1) {
                prev
            } else {
                prev.push(((r.0, r.1), release))
            },
        }
    }
}

pub open spec fn refs_view(v: Seq<ContentProviderRef>) -> Seq<RefView> {
    v.map_values(|r: ContentProviderRef| r@)
}

pub open spec fn item_refs(item: InstanceContentSnapshotItem) -> Seq<RefView> {
    match item.content {
        Some(c) => refs_view(c.provider_refs@),
        None => Seq::empty(),
    }
}

pub fn installed_aliases(
    item: &InstanceContentSnapshotItem,
    primary_provider: ContentProvider,
    primary_project_id: &str,
    primary_release_id: &str,
) -> (r: Vec<InstalledAlias>)
    ensures
        aliases_view(r@) == spec_aliases(
            item_refs(*item),
            ((primary_provider, primary_project_id@), primary_release_id@),
        ),
{
    let ghost primary = ((primary_provider, primary_project_id@), primary_release_id@);
    let mut aliases: Vec<InstalledAlias> = Vec::new();
    aliases.push(
        InstalledAlias {
            key: NodeKey::new(primary_provider, primary_project_id),
            current_release_id: crate::text::to_owned(primary_release_id),
        },
    );
    assert(aliases_view(aliases@) =~= seq![primary]);
    match &item.content {
        None => {},
        Some(content) => {
            let ghost refs = refs_view(content.provider_refs@);
            let mut i: usize = 0;
            assert(refs.subrange(0, 0) =~= Seq::<RefView>::empty());
            while i < content.provider_refs.len()
                invariant
                    i <= content.provider_refs.len(),
                    refs == refs_view(content.provider_refs@),
                    aliases_view(aliases@) == spec_aliases(refs.subrange(0, i as int), primary),
                decreases content.provider_refs.len() - i,
            {
                let reference = &content.provider_refs[i];
                let ghost pre = refs.subrange(0, i as int);
                assert(refs.subrange(0, i + 1).drop_last() =~= pre);
                assert(refs.subrange(0, i + 1).last() == reference@);
                match reference.database_release_id() {
                    None => {},
                    Some(release_id) => {
                        let key = NodeKey::new(reference.provider(), reference.database_project_id().as_str());
                        let mut found = false;
                        let mut k: usize = 0;
                        while k < aliases.len()
                            invariant
                                k <= aliases.len(),
                                found ==> exists|j: int|
                                    0 <= j < aliases@.len() && (#[trigger] aliases@[j]).key@ == key@,
                                !found ==> forall|j: int| 0 <= j < k ==> (#[trigger] aliases@[j]).key@ != key@,
                            decreases aliases.len() - k,
                        {
                            if aliases[k].key.same(&key) {
                                found = true;
                            }
                            k += 1;
                        }
                        let ghost prev = aliases_view(aliases@);
                        assert(found == exists|j: int| 0 <= j < prev.len() && (#[trigger] prev[j]).0 == (reference@.0, reference@.1)) by {
                            if found {
                                let j = choose|j: int| 0 <= j < aliases@.len() && (#[trigger] aliases@[j]).key@ == key@;
                                assert(prev[j].0 == key@);
                            } else {
                                assert forall|j: int| 0 <= j < prev.len() implies (#[trigger] prev[j]).0 != (reference@.0, reference@.1) by {
                                    assert(prev[j] == aliases@[j]@);
                                }
                            }
                        }
                        if !found {
                            let alias = InstalledAlias { key, current_release_id: release_id };
                            let ghost av = alias@;
                            aliases.push(alias);
                            assert(aliases_view(aliases@) =~= prev.push(av));
                        }
                    },
                }
                i += 1;
            }
            assert(refs.subrange(0, refs.len() as int) =~= refs);
        },
    }
    aliases
}


pub struct NodeView {
    pub content_id: Seq<char>,
    pub key: KeyView,
    pub current_release_id: Seq<char>,
    pub project_type: ProjectType,
    pub enabled: bool,
    pub auto_dependency: bool,
    pub user_owned: bool,
    pub migratable: bool,
    pub aliases: Seq<AliasView>,
}

impl View for InstalledNode {
    type V = NodeView;

    open spec fn view(&self) -> NodeView {
        NodeView {
            content_id: self.content_id@,
            key: self.key@,
            current_release_id: self.current_release_id@,
            project_type: self.project_type,
            enabled: self.enabled,
            auto_dependency: self.auto_dependency,
            user_owned: self.user_owned,
            migratable: self.migratable,
            aliases: aliases_view(self.aliases@),
        }
    }
}

pub open spec fn nodes_view(v: Seq<InstalledNode>) -> Seq<NodeView> {
    v.map_values(|n: InstalledNode| n@)
}

/// Content the planner does not migrate: world datapacks, schematics and
/// world saves.
pub open spec fn spec_unsupported(item: InstanceContentSnapshotItem) -> bool {
    spec_is_world_datapack(item.expected_relative_path@) || item.project_type
        == ProjectType::Schematic || item.project_type == ProjectType::WorldSave
}

pub open spec fn spec_recognized(item: InstanceContentSnapshotItem) -> bool {
    item.provider is Some && item.provider_project_id is Some
}

pub open spec fn spec_current_enabled(item: InstanceContentSnapshotItem) -> bool {
    match item.content {
        Some(c) => c.enabled,
        None => true,
    }
}

pub open spec fn spec_auto_dependency(item: InstanceContentSnapshotItem) -> bool {
    match item.dependency {
        Some(d) => d.auto_dependency,
        None => false,
    }
}

pub open spec fn spec_initial_status(item: InstanceContentSnapshotItem) -> InstanceUpgradeItemStatus {
    if spec_unsupported(item) {
        InstanceUpgradeItemStatus::UnsupportedContentType
    } else if !spec_recognized(item) {
        InstanceUpgradeItemStatus::Unidentified
    } else {
        InstanceUpgradeItemStatus::NoCompatibleRelease
    }
}

pub open spec fn spec_initial_action(item: InstanceContentSnapshotItem) -> InstanceUpgradeAction {
    if spec_unsupported(item) || !spec_recognized(item) {
        InstanceUpgradeAction::Keep
    } else {
        InstanceUpgradeAction::Upgrade
    }
}

/// The plan item that starts out for a snapshot item.
pub open spec fn item_from_snapshot(out: InstanceUpgradeItem, item: InstanceContentSnapshotItem) -> bool {
    &&& out.content_id@ == spec_stable_content_id(item)
    &&& out.relative_path@ == item.expected_relative_path@
    &&& out.project_type == item.project_type
    &&& out.provider == item.provider
    &&& opt_str_view(out.project_id) == opt_str_view(item.provider_project_id)
    &&& opt_str_view(out.current_release_id) == opt_str_view(item.provider_release_id)
    &&& out.current_enabled == spec_current_enabled(item)
    &&& out.auto_dependency == spec_auto_dependency(item)
    &&& out.status == spec_initial_status(item)
    &&& out.resolution.content_id@ == spec_stable_content_id(item)
    &&& out.resolution.action == spec_initial_action(item)
    &&& !out.resolution.allow_prerelease
    &&& out.resolution.confirmed_prerelease_dependencies@.len() == 0
    &&& out.candidate_release_ids@.len() == 0
}

/// The installed node of a snapshot item that names a project and a release.
pub open spec fn spec_installed_node(item: InstanceContentSnapshotItem) -> Option<NodeView> {
    match (item.provider, item.provider_project_id, item.provider_release_id) {
        (Some(provider), Some(project), Some(release)) => Some(
            NodeView {
                content_id: spec_stable_content_id(item),
                key: (provider, project@),
                current_release_id: release@,
                project_type: item.project_type,
                enabled: spec_current_enabled(item),
                auto_dependency: spec_auto_dependency(item),
                user_owned: item.ownership_kind == ContentOwnershipKind::UserAdded
                    && !spec_auto_dependency(item),
                migratable: !spec_unsupported(item),
                aliases: spec_aliases(item_refs(item), ((provider, project@), release@)),
            },
        ),
        _ => None,
    }
}

pub open spec fn spec_installed(items: Seq<InstanceContentSnapshotItem>) -> Seq<NodeView>
    decreases items.len(),
{
    if items.len() == 0 {
        Seq::empty()
    } else {
        let prev = spec_installed(items.drop_last());
        match spec_installed_node(items.last()) {
            Some(n) => prev.push(n),
            None => prev,
        }
    }
}

/// One plan item per snapshot item, in order, and an installed node for
/// every item that names a provider project and release.
pub fn snapshot_upgrade_items(snapshot: &InstanceContentSnapshot) -> (r: (
    Vec<InstanceUpgradeItem>,
    Vec<InstalledNode>,
))
    ensures
        r.0@.len() == snapshot.items@.len(),
        forall|i: int|
            0 <= i < r.0@.len() ==> item_from_snapshot(#[trigger] r.0@[i], snapshot.items@[i]),
        nodes_view(r.1@) == spec_installed(snapshot.items@),
{
    let mut items: Vec<InstanceUpgradeItem> = Vec::new();
    let mut installed: Vec<InstalledNode> = Vec::new();
    let mut i: usize = 0;
    assert(snapshot.items@.subrange(0, 0) =~= Seq::<InstanceContentSnapshotItem>::empty());
    while i < snapshot.items.len()
        invariant
            i <= snapshot.items.len(),
            items@.len() == i,
            forall|k: int|
                0 <= k < i ==> item_from_snapshot(#[trigger] items@[k], snapshot.items@[k]),
            nodes_view(installed@) == spec_installed(snapshot.items@.subrange(0, i as int)),
        decreases snapshot.items.len() - i,
    {
        let item = &snapshot.items[i];
        let content_id = stable_content_id(item);
        let current_enabled = match &item.content {
            Some(c) => c.enabled,
            None => true,
        };
        let auto_dependency = match &item.dependency {
            Some(d) => d.auto_dependency,
            None => false,
        };
        let unsupported = is_world_datapack(item.expected_relative_path.as_str())
            || item.project_type == ProjectType::Schematic || item.project_type
            == ProjectType::WorldSave;
        let recognized = item.provider.is_some() && item.provider_project_id.is_some();
        let status = if unsupported {
            InstanceUpgradeItemStatus::UnsupportedContentType
        } else if !recognized {
            InstanceUpgradeItemStatus::Unidentified
        } else {
            InstanceUpgradeItemStatus::NoCompatibleRelease
        };
        let action = if unsupported || !recognized {
            InstanceUpgradeAction::Keep
        } else {
            InstanceUpgradeAction::Upgrade
        };
        items.push(
            InstanceUpgradeItem {
                content_id: content_id.clone(),
                relative_path: item.expected_relative_path.clone(),
                project_type: item.project_type,
                provider: item.provider,
                project_id: copy_opt(&item.provider_project_id),
                current_release_id: copy_opt(&item.provider_release_id),
                current_enabled,
                auto_dependency,
                status,
                resolution: InstanceUpgradeResolution {
                    content_id: content_id.clone(),
                    action,
                    allow_prerelease: false,
                    confirmed_prerelease_dependencies: Vec::new(),
                },
                candidate_release_ids: Vec::new(),
            },
        );
        let ghost pre = snapshot.items@.subrange(0, i as int);
        assert(snapshot.items@.subrange(0, i + 1).drop_last() =~= pre);
        assert(snapshot.items@.subrange(0, i + 1).last() == *item);
        match (item.provider, &item.provider_project_id, &item.provider_release_id) {
            (Some(provider), Some(project_id), Some(release_id)) => {
                let aliases = installed_aliases(item, provider, project_id.as_str(), release_id.as_str());
                let node = InstalledNode {
                    content_id,
                    key: NodeKey::new(provider, project_id.as_str()),
                    current_release_id: release_id.clone(),
                    project_type: item.project_type,
                    enabled: current_enabled,
                    auto_dependency,
                    user_owned: item.ownership_kind == ContentOwnershipKind::UserAdded
                        && !auto_dependency,
                    migratable: !unsupported,
                    aliases,
                };
                let ghost nv = node@;
                let ghost before = nodes_view(installed@);
                installed.push(node);
                assert(nodes_view(installed@) =~= before.push(nv));
            },
            _ => {},
        }
        i += 1;
    }
    assert(snapshot.items@.subrange(0, snapshot.items@.len() as int) =~= snapshot.items@);
    (items, installed)
}

/// The item is (or is known under) the Iris shader mod on Modrinth.
pub open spec fn spec_has_iris_identity(item: InstanceContentSnapshotItem) -> bool {
    ||| (item.provider == Some(ContentProvider::Modrinth) && opt_str_view(item.provider_project_id)
        == Some("YL57xq9U"@))
    ||| exists|i: int|
        0 <= i < item_refs(item).len() && (#[trigger] item_refs(item)[i]).0
            == ContentProvider::Modrinth && item_refs(item)[i].1 == "YL57xq9U"@
}

pub fn item_has_iris_identity(item: &InstanceContentSnapshotItem) -> (r: bool)
    ensures
        r == spec_has_iris_identity(*item),
{
    if item.provider == Some(ContentProvider::Modrinth) {
        match &item.provider_project_id {
            Some(p) => {
                let v = crate::text::chars_of(p.as_str());
                if crate::text::eq_str(&v, "YL57xq9U") {
                    assert(opt_str_view(item.provider_project_id) == Some("YL57xq9U"@));
                    return true;
                }
            },
            None => {},
        }
    }
    assert(!(item.provider == Some(ContentProvider::Modrinth) && opt_str_view(
        item.provider_project_id,
    ) == Some("YL57xq9U"@)));
    match &item.content {
        None => false,
        Some(content) => {
            let ghost refs = refs_view(content.provider_refs@);
            let mut i: usize = 0;
            while i < content.provider_refs.len()
                invariant
                    i <= content.provider_refs.len(),
                    refs == refs_view(content.provider_refs@),
                    refs == item_refs(*item),
                    forall|k: int|
                        0 <= k < i ==> !((#[trigger] refs[k]).0 == ContentProvider::Modrinth
                            && refs[k].1 == "YL57xq9U"@),
                decreases content.provider_refs.len() - i,
            {
                let reference = &content.provider_refs[i];
                assert(refs[i as int] == reference@);
                match reference {
                    ContentProviderRef::Modrinth { project_id, .. } => {
                        let v = crate::text::chars_of(project_id.as_str());
                        if crate::text::eq_str(&v, "YL57xq9U") {
                            assert(refs[i as int].0 == ContentProvider::Modrinth && refs[i as int].1
                                == "YL57xq9U"@);
                            return true;
                        }
                    },
                    ContentProviderRef::CurseForge { .. } => {},
                }
                i += 1;
            }
            false
        },
    }
}

/// The shader runtime of the source environment: Iris when an item is Iris,
/// else OptiFine when the loader has an OptiFine component, else unknown
/// when some mod cannot be identified by any provider, else none.
pub open spec fn spec_source_shader_runtime(
    components: Seq<LoaderComponent>,
    items: Seq<InstanceContentSnapshotItem>,
) -> ShaderRuntime {
    if exists|i: int| 0 <= i < items.len() && spec_has_iris_identity(#[trigger] items[i]) {
        ShaderRuntime::Iris
    } else if exists|i: int| 0 <= i < components.len() && (#[trigger] components[i]).kind
        == LoaderComponentKind::OptiFine {
        ShaderRuntime::OptiFine
    } else if exists|i: int|
        0 <= i < items.len() && (#[trigger] items[i]).project_type == ProjectType::Mod
            && item_refs(items[i]).len() == 0 {
        ShaderRuntime::Unknown
    } else {
        ShaderRuntime::NoRuntime
    }
}

pub fn source_shader_runtime(
    components: &Vec<LoaderComponent>,
    snapshot: &InstanceContentSnapshot,
) -> (r: ShaderRuntime)
    ensures
        r == spec_source_shader_runtime(components@, snapshot.items@),
{
    let mut i: usize = 0;
    while i < snapshot.items.len()
        invariant
            i <= snapshot.items.len(),
            forall|k: int| 0 <= k < i ==> !spec_has_iris_identity(#[trigger] snapshot.items@[k]),
        decreases snapshot.items.len() - i,
    {
        if item_has_iris_identity(&snapshot.items[i]) {
            return ShaderRuntime::Iris;
        }
        i += 1;
    }
    let mut c: usize = 0;
    while c < components.len()
        invariant
            c <= components.len(),
            forall|k: int| 0 <= k < snapshot.items@.len() ==> !spec_has_iris_identity(#[trigger] snapshot.items@[k]),
            forall|k: int| 0 <= k < c ==> (#[trigger] components@[k]).kind != LoaderComponentKind::OptiFine,
        decreases components.len() - c,
    {
        if components[c].kind == LoaderComponentKind::OptiFine {
            return ShaderRuntime::OptiFine;
        }
        c += 1;
    }
    let mut j: usize = 0;
    while j < snapshot.items.len()
        invariant
            j <= snapshot.items.len(),
            forall|k: int| 0 <= k < snapshot.items@.len() ==> !spec_has_iris_identity(#[trigger] snapshot.items@[k]),
            forall|k: int| 0 <= k < components@.len() ==> (#[trigger] components@[k]).kind != LoaderComponentKind::OptiFine,
            forall|k: int|
                0 <= k < j ==> !((#[trigger] snapshot.items@[k]).project_type == ProjectType::Mod
                    && item_refs(snapshot.items@[k]).len() == 0),
        decreases snapshot.items.len() - j,
    {
        let item = &snapshot.items[j];
        let unverified = match &item.content {
            None => true,
            Some(content) => content.provider_refs.len() == 0,
        };
        if item.project_type == ProjectType::Mod && unverified {
            return ShaderRuntime::Unknown;
        }
        j += 1;
    }
    ShaderRuntime::NoRuntime
}

} // verus!
