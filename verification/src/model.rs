//! Content and upgrade-plan data shared by the planner, the scanner and the
//! API layer.
use vstd::prelude::*;

verus! {

/// Where a content item was obtained from.
#[derive(Clone, Copy, Debug, PartialEq, Eq, Structural)]
pub enum ContentProvider {
    Modrinth,
    CurseForge,
    Local,
}

impl ContentProvider {
    pub open spec fn spec_as_str(self) -> Seq<char> {
        match self {
            ContentProvider::Modrinth => "modrinth"@,
            ContentProvider::CurseForge => "curseforge"@,
            ContentProvider::Local => "local"@,
        }
    }

    /// The database name of the provider.
    pub fn as_str(&self) -> (r: &'static str)
        ensures
            r@ == self.spec_as_str(),
    {
        match self {
            ContentProvider::Modrinth => "modrinth",
            ContentProvider::CurseForge => "curseforge",
            ContentProvider::Local => "local",
        }
    }
}

/// Kind of content a file is, by the instance folder it lives in.
#[derive(Clone, Copy, Debug, PartialEq, Eq, Structural)]
pub enum ProjectType {
    Mod,
    DataPack,
    ResourcePack,
    ShaderPack,
    Schematic,
    WorldSave,
}

impl ProjectType {
    pub open spec fn spec_folder(self) -> Seq<char> {
        match self {
            ProjectType::Mod => "mods"@,
            ProjectType::DataPack => "datapacks"@,
            ProjectType::ResourcePack => "resourcepacks"@,
            ProjectType::ShaderPack => "shaderpacks"@,
            ProjectType::Schematic => "schematics"@,
            ProjectType::WorldSave => "saves"@,
        }
    }

    /// The instance folder that holds this kind of content.
    pub fn get_folder(&self) -> (r: &'static str)
        ensures
            r@ == self.spec_folder(),
    {
        match self {
            ProjectType::Mod => "mods",
            ProjectType::DataPack => "datapacks",
            ProjectType::ResourcePack => "resourcepacks",
            ProjectType::ShaderPack => "shaderpacks",
            ProjectType::Schematic => "schematics",
            ProjectType::WorldSave => "saves",
        }
    }
}

/// Which shader runtime an environment provides.
#[derive(Clone, Copy, Debug, PartialEq, Eq, Structural)]
pub enum ShaderRuntime {
    Iris,
    OptiFine,
    NoRuntime,
    Unknown,
}

#[derive(Clone, Copy, Debug, PartialEq, Eq, Structural)]
pub enum ModLoader {
    Vanilla,
    Forge,
    Fabric,
    Quilt,
    NeoForge,
}

impl ModLoader {
    pub open spec fn spec_as_str(self) -> Seq<char> {
        match self {
            ModLoader::Vanilla => "vanilla"@,
            ModLoader::Forge => "forge"@,
            ModLoader::Fabric => "fabric"@,
            ModLoader::Quilt => "quilt"@,
            ModLoader::NeoForge => "neoforge"@,
        }
    }

    pub fn as_str(&self) -> (r: &'static str)
        ensures
            r@ == self.spec_as_str(),
    {
        match self {
            ModLoader::Vanilla => "vanilla",
            ModLoader::Forge => "forge",
            ModLoader::Fabric => "fabric",
            ModLoader::Quilt => "quilt",
            ModLoader::NeoForge => "neoforge",
        }
    }
}

/// What the user asked to do with one root content item.
#[derive(Clone, Copy, Debug, PartialEq, Eq, Structural)]
pub enum InstanceUpgradeAction {
    Upgrade,
    Keep,
    Disable,
}

#[derive(Clone, Copy, Debug, PartialEq, Eq, Structural)]
pub enum InstanceUpgradeItemStatus {
    AlreadyCompatible,
    UpgradeAvailable,
    PrereleaseOnly,
    NoCompatibleRelease,
    NoCompatibleShaderRuntime,
    ShaderRuntimeMissing,
    ShaderRuntimeUnknown,
    Unidentified,
    UnsupportedContentType,
    DependencyConflict,
    MissingRequiredDependency,
    IncompatibleDependency,
}

#[derive(Clone, Copy, Debug, PartialEq, Eq, Structural)]
pub enum InstanceUpgradeIssueCode {
    SearchLimitReached,
    DependencyConflict,
    PrereleaseOnly,
    NoCompatibleRelease,
    MissingRequiredDependency,
    IncompatibleDependency,
    KeepIncompatible,
    NoCompatibleShaderRuntime,
    ShaderRuntimeMissing,
    ShaderRuntimeUnknown,
    Unidentified,
    UnsupportedContentType,
}

#[derive(Clone, Copy, Debug, PartialEq, Eq, Structural)]
pub enum InstanceUpgradeSolutionKind {
    Newest,
    MinimalChange,
    Custom,
}

#[derive(Clone, Copy, Debug, PartialEq, Eq, Structural)]
pub enum InstanceUpgradeSolutionChoice {
    Newest,
    MinimalChange,
    Custom,
}

#[derive(Clone, Copy, Debug, PartialEq, Eq, Structural)]
pub enum InstanceUpgradeDependencyChangeKind {
    Add,
    Keep,
    Upgrade,
    Remove,
}

#[derive(Clone, Copy, Debug, PartialEq, Eq, Structural)]
pub enum ContentOwnershipKind {
    UserAdded,
    PackManaged,
    LocalDiscovered,
}

/// Target (or source) game environment of an upgrade.
#[derive(Debug)]
pub struct InstanceUpgradeEnvironment {
    pub game_version: String,
    pub mod_loader: ModLoader,
    pub mod_loader_version: Option<String>,
    pub shader_runtime: ShaderRuntime,
}

/// Why one dependency edge is part of an issue.
#[derive(Debug)]
pub struct InstanceUpgradeDependencyRequirement {
    pub root_content_id: String,
    pub root_provider: ContentProvider,
    pub root_project_id: String,
    pub parent_provider: ContentProvider,
    pub parent_project_id: String,
    pub parent_release_id: String,
    pub dependency_provider: ContentProvider,
    pub dependency_project_id: String,
    pub required_release_id: Option<String>,
    pub candidate_release_id: Option<String>,
}

#[derive(Debug)]
pub struct InstanceUpgradeIssue {
    pub code: InstanceUpgradeIssueCode,
    pub message: String,
    pub content_id: Option<String>,
    pub provider: Option<ContentProvider>,
    pub project_id: Option<String>,
    pub conflicting_project_id: Option<String>,
    pub dependency_requirements: Vec<InstanceUpgradeDependencyRequirement>,
}

/// A prerelease the user explicitly accepted for a dependency.
#[derive(Debug)]
pub struct InstanceUpgradePrereleaseConfirmation {
    pub provider: ContentProvider,
    pub project_id: String,
    pub version_id: String,
}

#[derive(Debug)]
pub struct InstanceUpgradeResolution {
    pub content_id: String,
    pub action: InstanceUpgradeAction,
    pub allow_prerelease: bool,
    pub confirmed_prerelease_dependencies: Vec<InstanceUpgradePrereleaseConfirmation>,
}

/// One installed content item of a plan.
#[derive(Debug)]
pub struct InstanceUpgradeItem {
    pub content_id: String,
    pub relative_path: String,
    pub project_type: ProjectType,
    pub provider: Option<ContentProvider>,
    pub project_id: Option<String>,
    pub current_release_id: Option<String>,
    pub current_enabled: bool,
    pub auto_dependency: bool,
    pub status: InstanceUpgradeItemStatus,
    pub resolution: InstanceUpgradeResolution,
    pub candidate_release_ids: Vec<String>,
}

#[derive(Debug, PartialEq, Eq)]
pub struct InstanceUpgradeFixedConstraint {
    pub provider: ContentProvider,
    pub project_id: String,
    pub version_id: String,
}

#[derive(Debug)]
pub struct InstanceUpgradeSelection {
    pub content_id: String,
    pub provider: Option<ContentProvider>,
    pub project_id: Option<String>,
    pub current_release_id: Option<String>,
    pub target_release_id: Option<String>,
    pub action: InstanceUpgradeAction,
    pub enabled: bool,
}

#[derive(Debug)]
pub struct InstanceUpgradeDependencyChange {
    pub provider: ContentProvider,
    pub project_id: String,
    pub current_release_id: Option<String>,
    pub target_release_id: Option<String>,
    pub kind: InstanceUpgradeDependencyChangeKind,
    pub enabled: bool,
}

#[derive(Debug)]
pub struct InstanceUpgradeSolution {
    pub kind: InstanceUpgradeSolutionKind,
    pub selections: Vec<InstanceUpgradeSelection>,
    pub dependency_changes: Vec<InstanceUpgradeDependencyChange>,
    pub warnings: Vec<InstanceUpgradeIssue>,
}

/// A stored upgrade plan for one instance.
#[derive(Debug)]
pub struct InstanceUpgradePlan {
    pub id: String,
    pub instance_id: String,
    pub source_revision: u64,
    pub source_environment: InstanceUpgradeEnvironment,
    pub target_environment: InstanceUpgradeEnvironment,
    pub items: Vec<InstanceUpgradeItem>,
    pub dependency_changes: Vec<InstanceUpgradeDependencyChange>,
    pub warnings: Vec<InstanceUpgradeIssue>,
    pub blocking_issues: Vec<InstanceUpgradeIssue>,
    pub newest_solution: Option<InstanceUpgradeSolution>,
    pub minimal_change_solution: Option<InstanceUpgradeSolution>,
    pub selected_solution: Option<InstanceUpgradeSolution>,
    pub custom_constraints: Vec<InstanceUpgradeFixedConstraint>,
}

/// A provider reference recorded for a content file.
#[derive(Debug)]
pub enum ContentProviderRef {
    Modrinth { project_id: String, version_id: Option<String> },
    CurseForge { project_id: String, file_id: Option<String> },
}

/// A provider reference as plain values: provider, project, release.
pub type RefView = (ContentProvider, Seq<char>, Option<Seq<char>>);

pub open spec fn opt_str_view(o: Option<String>) -> Option<Seq<char>> {
    match o {
        Some(s) => Some(s@),
        None => None,
    }
}

impl View for ContentProviderRef {
    type V = RefView;

    open spec fn view(&self) -> RefView {
        match self {
            ContentProviderRef::Modrinth { project_id, version_id } => (
                ContentProvider::Modrinth,
                project_id@,
                opt_str_view(*version_id),
            ),
            ContentProviderRef::CurseForge { project_id, file_id } => (
                ContentProvider::CurseForge,
                project_id@,
                opt_str_view(*file_id),
            ),
        }
    }
}

fn copy_opt_string(o: &Option<String>) -> (r: Option<String>)
    ensures
        opt_str_view(r) == opt_str_view(*o),
{
    match o {
        Some(s) => Some(s.clone()),
        None => None,
    }
}

fn opt_str_to_owned(o: Option<&str>) -> (r: Option<String>)
    ensures
        opt_str_view(r) == (match o {
            Some(s) => Some(s@),
            None => None,
        }),
{
    match o {
        Some(s) => Some(crate::text::to_owned(s)),
        None => None,
    }
}

impl ContentProviderRef {
    /// A reference from its stored form: the provider's database name, the
    /// project and the release. Only Modrinth and CurseForge are providers
    /// of references.
    pub fn from_database(provider: &str, project_id: &str, release_id: Option<&str>) -> (r: Option<
        ContentProviderRef,
    >)
        ensures
            provider@ == "modrinth"@ ==> (r matches Some(x) && x@ == (
                ContentProvider::Modrinth,
                project_id@,
                match release_id {
                    Some(s) => Some(s@),
                    None => None,
                },
            )),
            provider@ == "curseforge"@ ==> (r matches Some(x) && x@ == (
                ContentProvider::CurseForge,
                project_id@,
                match release_id {
                    Some(s) => Some(s@),
                    None => None,
                },
            )),
            provider@ != "modrinth"@ && provider@ != "curseforge"@ ==> r is None,
    {
        let p = crate::text::chars_of(provider);
        proof {
            reveal_strlit("modrinth");
            reveal_strlit("curseforge");
            assert("modrinth"@ != "curseforge"@) by {
                assert("modrinth"@[0] != "curseforge"@[0]);
            }
        }
        if crate::text::eq_str(&p, "modrinth") {
            Some(
                ContentProviderRef::Modrinth {
                    project_id: crate::text::to_owned(project_id),
                    version_id: opt_str_to_owned(release_id),
                },
            )
        } else if crate::text::eq_str(&p, "curseforge") {
            Some(
                ContentProviderRef::CurseForge {
                    project_id: crate::text::to_owned(project_id),
                    file_id: opt_str_to_owned(release_id),
                },
            )
        } else {
            None
        }
    }

    pub fn provider(&self) -> (r: ContentProvider)
        ensures
            r == self@.0,
    {
        match self {
            ContentProviderRef::Modrinth { .. } => ContentProvider::Modrinth,
            ContentProviderRef::CurseForge { .. } => ContentProvider::CurseForge,
        }
    }

    pub fn database_project_id(&self) -> (r: String)
        ensures
            r@ == self@.1,
    {
        match self {
            ContentProviderRef::Modrinth { project_id, .. } => project_id.clone(),
            ContentProviderRef::CurseForge { project_id, .. } => project_id.clone(),
        }
    }

    pub fn database_release_id(&self) -> (r: Option<String>)
        ensures
            opt_str_view(r) == self@.2,
    {
        match self {
            ContentProviderRef::Modrinth { version_id, .. } => copy_opt_string(version_id),
            ContentProviderRef::CurseForge { file_id, .. } => copy_opt_string(file_id),
        }
    }
}

/// The installed file behind a snapshot item.
#[derive(Debug)]
pub struct ContentItem {
    pub file_name: String,
    pub file_path: String,
    pub id: String,
    pub size: u64,
    pub enabled: bool,
    pub project_type: ProjectType,
    pub provider_refs: Vec<ContentProviderRef>,
}

#[derive(Debug)]
pub struct ContentItemDependency {
    pub auto_dependency: bool,
}

/// One entry of an instance content snapshot.
#[derive(Debug)]
pub struct InstanceContentSnapshotItem {
    pub file_id: Option<String>,
    pub entry_id: Option<String>,
    pub member_id: Option<String>,
    pub ownership_kind: ContentOwnershipKind,
    pub expected_relative_path: String,
    pub required: bool,
    pub project_type: ProjectType,
    pub provider: Option<ContentProvider>,
    pub provider_project_id: Option<String>,
    pub provider_release_id: Option<String>,
    pub content: Option<ContentItem>,
    pub dependency: Option<ContentItemDependency>,
}

#[derive(Debug)]
pub struct InstanceContentSnapshot {
    pub instance_id: String,
    pub revision: u64,
    pub items: Vec<InstanceContentSnapshotItem>,
}

#[derive(Clone, Copy, Debug, PartialEq, Eq, Structural)]
pub enum LoaderComponentKind {
    Minecraft,
    ModLoader,
    OptiFine,
}

#[derive(Debug)]
pub struct LoaderComponent {
    pub kind: LoaderComponentKind,
}

} // verus!
