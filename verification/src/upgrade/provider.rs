//! How provider releases are judged against the target environment and
//! turned into candidates.
use vstd::prelude::*;
use crate::model::{ContentProvider, InstanceUpgradeEnvironment, ModLoader, ProjectType, ShaderRuntime};
use crate::text::{spec_decimal, spec_eq_ignore_ascii_case};
use crate::upgrade::candidates::{
    deps_view, opt_view, CandView, CandidateChannel, CandidateDependency, CandidateDependencyKind, DepView, KeyView,
    NodeKey, UpgradeCandidate,
};

verus! {

/// Most compatible releases of one project the planner explores.
pub const MAX_CANDIDATES_PER_PROJECT: usize = 6;

/// The channel of a Modrinth version type (`beta`, `alpha`, anything else
/// is a release), case ignored.
pub open spec fn spec_modrinth_channel(version_type: Seq<char>) -> CandidateChannel {
    if spec_eq_ignore_ascii_case(version_type, "beta"@) {
        CandidateChannel::Beta
    } else if spec_eq_ignore_ascii_case(version_type, "alpha"@) {
        CandidateChannel::Alpha
    } else {
        CandidateChannel::Release
    }
}

pub fn modrinth_channel(version_type: &str) -> (r: CandidateChannel)
    ensures
        r == spec_modrinth_channel(version_type@),
{
    if crate::text::str_eq_ignore_ascii_case(version_type, "beta") {
        CandidateChannel::Beta
    } else if crate::text::str_eq_ignore_ascii_case(version_type, "alpha") {
        CandidateChannel::Alpha
    } else {
        CandidateChannel::Release
    }
}

/// The channel of a CurseForge release type: 1 release, 2 beta, else alpha.
pub open spec fn spec_curseforge_channel(release_type: u32) -> CandidateChannel {
    if release_type == 1 {
        CandidateChannel::Release
    } else if release_type == 2 {
        CandidateChannel::Beta
    } else {
        CandidateChannel::Alpha
    }
}

pub fn curseforge_channel(release_type: u32) -> (r: CandidateChannel)
    ensures
        r == spec_curseforge_channel(release_type),
{
    match release_type {
        1 => CandidateChannel::Release,
        2 => CandidateChannel::Beta,
        _ => CandidateChannel::Alpha,
    }
}

/// CurseForge's mod loader type id of a loader, where it has one.
pub fn curseforge_loader_type(loader: ModLoader) -> (r: Option<u32>)
    ensures
        r == match loader {
            ModLoader::Forge => Some(1u32),
            ModLoader::Fabric => Some(4u32),
            ModLoader::Quilt => Some(5u32),
            ModLoader::NeoForge => Some(6u32),
            _ => None,
        },
{
    match loader {
        ModLoader::Forge => Some(1),
        ModLoader::Fabric => Some(4),
        ModLoader::Quilt => Some(5),
        ModLoader::NeoForge => Some(6),
        _ => None,
    }
}

/// The dependency kind of a CurseForge relation type (1 and 4 embedded, 2
/// optional, 3 and 6 required, 5 incompatible; others are ignored).
pub open spec fn spec_curseforge_dependency_kind(relation_type: u32) -> Option<CandidateDependencyKind> {
    if relation_type == 3 || relation_type == 6 {
        Some(CandidateDependencyKind::Required)
    } else if relation_type == 2 {
        Some(CandidateDependencyKind::Optional)
    } else if relation_type == 5 {
        Some(CandidateDependencyKind::Incompatible)
    } else if relation_type == 1 || relation_type == 4 {
        Some(CandidateDependencyKind::Embedded)
    } else {
        None
    }
}

pub fn curseforge_dependency_kind(relation_type: u32) -> (r: Option<CandidateDependencyKind>)
    ensures
        r == spec_curseforge_dependency_kind(relation_type),
{
    match relation_type {
        3 | 6 => Some(CandidateDependencyKind::Required),
        2 => Some(CandidateDependencyKind::Optional),
        5 => Some(CandidateDependencyKind::Incompatible),
        1 | 4 => Some(CandidateDependencyKind::Embedded),
        _ => None,
    }
}

pub open spec fn any_eq_ignore_case(values: Seq<String>, expected: Seq<char>) -> bool {
    exists|i: int| 0 <= i < values.len() && spec_eq_ignore_ascii_case(#[trigger] values[i]@, expected)
}

pub fn contains_ignore_case(values: &Vec<String>, expected: &str) -> (r: bool)
    ensures
        r == any_eq_ignore_case(values@, expected@),
{
    let mut i: usize = 0;
    while i < values.len()
        invariant
            i <= values.len(),
            forall|k: int| 0 <= k < i ==> !spec_eq_ignore_ascii_case((#[trigger] values@[k])@, expected@),
        decreases values.len() - i,
    {
        if crate::text::str_eq_ignore_ascii_case(values[i].as_str(), expected) {
            return true;
        }
        i += 1;
    }
    false
}

pub open spec fn any_eq(values: Seq<String>, expected: Seq<char>) -> bool {
    exists|i: int| 0 <= i < values.len() && (#[trigger] values[i])@ == expected
}

pub fn contains_exact(values: &Vec<String>, expected: &String) -> (r: bool)
    ensures
        r == any_eq(values@, expected@),
{
    let mut i: usize = 0;
    while i < values.len()
        invariant
            i <= values.len(),
            forall|k: int| 0 <= k < i ==> (#[trigger] values@[k])@ != expected@,
        decreases values.len() - i,
    {
        if values[i] == *expected {
            return true;
        }
        i += 1;
    }
    false
}

/// A release supports the shader runtime: Iris releases name `iris`,
/// OptiFine releases name `optifine`; without a known runtime nothing fits.
pub open spec fn spec_shader_loader_matches(loaders: Seq<String>, runtime: ShaderRuntime) -> bool {
    match runtime {
        ShaderRuntime::Iris => any_eq_ignore_case(loaders, "iris"@),
        ShaderRuntime::OptiFine => any_eq_ignore_case(loaders, "optifine"@),
        _ => false,
    }
}

pub fn shader_loader_matches(loaders: &Vec<String>, runtime: ShaderRuntime) -> (r: bool)
    ensures
        r == spec_shader_loader_matches(loaders@, runtime),
{
    match runtime {
        ShaderRuntime::Iris => contains_ignore_case(loaders, "iris"),
        ShaderRuntime::OptiFine => contains_ignore_case(loaders, "optifine"),
        _ => false,
    }
}

/// A Modrinth version as the planner reads it.
#[derive(Debug)]
pub struct ModrinthVersionInfo {
    pub id: String,
    pub project_id: String,
    pub version_type: String,
    pub game_versions: Vec<String>,
    pub loaders: Vec<String>,
    /// Publication time, in seconds since the Unix epoch.
    pub date_published: i64,
    /// The nanoseconds of the publication time past `date_published`.
    pub date_published_nanos: u32,
    pub dependencies: Vec<ModrinthDependencyInfo>,
}

/// How a Modrinth version depends on another project.
#[derive(Clone, Copy, Debug, PartialEq, Eq, Structural)]
pub enum ModrinthDependencyType {
    Required,
    Optional,
    Incompatible,
    Embedded,
}

/// A dependency of a Modrinth version: the project, the version, or both.
#[derive(Debug)]
pub struct ModrinthDependencyInfo {
    pub project_id: Option<String>,
    pub version_id: Option<String>,
    pub dependency_type: ModrinthDependencyType,
}

/// A Modrinth version fits the target: it names the target game version and
/// a loader that fits the kind of content.
pub open spec fn spec_modrinth_version_matches(
    version: ModrinthVersionInfo,
    project_type: ProjectType,
    target: InstanceUpgradeEnvironment,
) -> bool {
    &&& any_eq(version.game_versions@, target.game_version@)
    &&& match project_type {
        ProjectType::Mod => any_eq_ignore_case(version.loaders@, target.mod_loader.spec_as_str()),
        ProjectType::ShaderPack => spec_shader_loader_matches(version.loaders@, target.shader_runtime),
        ProjectType::DataPack => any_eq_ignore_case(version.loaders@, "datapack"@),
        ProjectType::ResourcePack => any_eq_ignore_case(version.loaders@, "minecraft"@)
            || any_eq_ignore_case(version.loaders@, "vanilla"@),
        _ => false,
    }
}

pub fn modrinth_version_matches(
    version: &ModrinthVersionInfo,
    project_type: ProjectType,
    target: &InstanceUpgradeEnvironment,
) -> (r: bool)
    ensures
        r == spec_modrinth_version_matches(*version, project_type, *target),
{
    if !contains_exact(&version.game_versions, &target.game_version) {
        return false;
    }
    match project_type {
        ProjectType::Mod => contains_ignore_case(&version.loaders, target.mod_loader.as_str()),
        ProjectType::ShaderPack => shader_loader_matches(&version.loaders, target.shader_runtime),
        ProjectType::DataPack => contains_ignore_case(&version.loaders, "datapack"),
        ProjectType::ResourcePack => contains_ignore_case(&version.loaders, "minecraft")
            || contains_ignore_case(&version.loaders, "vanilla"),
        _ => false,
    }
}

/// A game version entry of a CurseForge file.
#[derive(Debug)]
pub struct SortableGameVersion {
    pub game_version: Option<String>,
    pub game_version_name: String,
}

/// A CurseForge file as the planner reads it.
#[derive(Debug)]
pub struct CurseForgeFileInfo {
    pub id: u32,
    pub mod_id: u32,
    pub release_type: u32,
    pub is_available: bool,
    pub game_versions: Vec<String>,
    pub sortable_game_versions: Vec<SortableGameVersion>,
    /// The file's date as CurseForge writes it (RFC 3339).
    pub file_date: String,
    pub dependencies: Vec<CurseForgeDependencyInfo>,
}

/// A dependency of a CurseForge file.
#[derive(Debug)]
pub struct CurseForgeDependencyInfo {
    pub mod_id: u32,
    pub relation_type: u32,
}

pub open spec fn sortable_names(v: Seq<SortableGameVersion>, target: Seq<char>) -> bool {
    exists|i: int|
        0 <= i < v.len() && ((#[trigger] v[i]).game_version_name@ == target || (v[i].game_version
            matches Some(g) && g@ == target))
}

/// A CurseForge file fits the target: it names the target game version
/// (among its versions or its sortable versions) and, for mods, the target
/// loader; shader packs need the runtime, data and resource packs need
/// nothing more.
pub open spec fn spec_curseforge_file_matches(
    file: CurseForgeFileInfo,
    project_type: ProjectType,
    target: InstanceUpgradeEnvironment,
) -> bool {
    &&& (any_eq(file.game_versions@, target.game_version@) || sortable_names(
        file.sortable_game_versions@,
        target.game_version@,
    ))
    &&& match project_type {
        ProjectType::Mod => any_eq_ignore_case(file.game_versions@, target.mod_loader.spec_as_str()),
        ProjectType::ShaderPack => spec_shader_loader_matches(file.game_versions@, target.shader_runtime),
        ProjectType::DataPack | ProjectType::ResourcePack => true,
        _ => false,
    }
}

fn sortable_contains(v: &Vec<SortableGameVersion>, target: &String) -> (r: bool)
    ensures
        r == sortable_names(v@, target@),
{
    let mut i: usize = 0;
    while i < v.len()
        invariant
            i <= v.len(),
            forall|k: int|
                0 <= k < i ==> !((#[trigger] v@[k]).game_version_name@ == target@ || (v@[k].game_version
                    matches Some(g) && g@ == target@)),
        decreases v.len() - i,
    {
        let named = match &v[i].game_version {
            Some(g) => *g == *target,
            None => false,
        };
        if named || v[i].game_version_name == *target {
            return true;
        }
        i += 1;
    }
    false
}

pub fn curseforge_file_matches(
    file: &CurseForgeFileInfo,
    project_type: ProjectType,
    target: &InstanceUpgradeEnvironment,
) -> (r: bool)
    ensures
        r == spec_curseforge_file_matches(*file, project_type, *target),
{
    let game_version_matches = contains_exact(&file.game_versions, &target.game_version)
        || sortable_contains(&file.sortable_game_versions, &target.game_version);
    if !game_version_matches {
        return false;
    }
    match project_type {
        ProjectType::Mod => contains_ignore_case(&file.game_versions, target.mod_loader.as_str()),
        ProjectType::ShaderPack => shader_loader_matches(&file.game_versions, target.shader_runtime),
        ProjectType::DataPack | ProjectType::ResourcePack => true,
        _ => false,
    }
}

/// The error a version the user fixed is refused with: first where it
/// belongs to another project, then where it does not fit the target.
pub open spec fn spec_custom_fixed_error(
    key: KeyView,
    version: ModrinthVersionInfo,
    project_type: ProjectType,
    target: InstanceUpgradeEnvironment,
) -> Option<Seq<char>> {
    if version.project_id@ != key.1 {
        Some("Custom fixed Modrinth version "@ + version.id@ + " belongs to project "@ + version.project_id@ + ", not "@
            + key.1)
    } else if !spec_modrinth_version_matches(version, project_type, target) {
        Some("Custom fixed Modrinth version "@ + version.id@ + " is not compatible with the target environment"@)
    } else {
        None
    }
}

/// The error of a result that can only fail, by its characters.
pub open spec fn err_view(r: Result<(), String>) -> Option<Seq<char>> {
    match r {
        Ok(_) => None,
        Err(m) => Some(m@),
    }
}

/// A version the user fixed must belong to the project and fit the target;
/// the error says which of the two failed.
pub fn validate_modrinth_custom_fixed(
    key: &NodeKey,
    version: &ModrinthVersionInfo,
    project_type: ProjectType,
    target: &InstanceUpgradeEnvironment,
) -> (r: Result<(), String>)
    ensures
        version.project_id@ != key.project_id@ ==> (r matches Err(m) && m@ == "Custom fixed Modrinth version "@
            + version.id@ + " belongs to project "@ + version.project_id@ + ", not "@ + key.project_id@),
        version.project_id@ == key.project_id@ && !spec_modrinth_version_matches(*version, project_type, *target)
            ==> (r matches Err(m) && m@ == "Custom fixed Modrinth version "@ + version.id@
            + " is not compatible with the target environment"@),
        r is Ok <==> version.project_id@ == key.project_id@ && spec_modrinth_version_matches(*version, project_type, *target),
        err_view(r) == spec_custom_fixed_error(key@, *version, project_type, *target),
{
    if version.project_id != key.project_id {
        let m1 = crate::text::concat("Custom fixed Modrinth version ", version.id.as_str());
        let m2 = crate::text::concat(m1.as_str(), " belongs to project ");
        let m3 = crate::text::concat(m2.as_str(), version.project_id.as_str());
        let m4 = crate::text::concat(m3.as_str(), ", not ");
        return Err(crate::text::concat(m4.as_str(), key.project_id.as_str()));
    }
    if !modrinth_version_matches(version, project_type, target) {
        let m1 = crate::text::concat("Custom fixed Modrinth version ", version.id.as_str());
        return Err(crate::text::concat(m1.as_str(), " is not compatible with the target environment"));
    }
    Ok(())
}

/// The positions of `flags` that are set, in order.
pub open spec fn set_positions<T>(s: Seq<T>, flags: Seq<bool>) -> Seq<T>
    decreases s.len(),
{
    if s.len() == 0 || flags.len() != s.len() {
        Seq::empty()
    } else {
        let prev = set_positions(s.drop_last(), flags.drop_last());
        if flags.last() {
            prev.push(s.last())
        } else {
            prev
        }
    }
}

/// The first `MAX_CANDIDATES_PER_PROJECT` items that `compatible` accepts,
/// and whether it accepted more than that.
pub fn bounded_compatible_candidates<T: Copy, F: Fn(&T) -> bool>(candidates: &Vec<T>, compatible: F) -> (r: (
    Vec<T>,
    bool,
))
    requires
        forall|x: &T| #[trigger] compatible.requires((x,)),
    ensures
        exists|flags: Seq<bool>|
            #![trigger set_positions(candidates@, flags)]
            flags.len() == candidates@.len() && (forall|i: int|
                0 <= i < candidates@.len() ==> compatible.ensures((&candidates@[i],), #[trigger] flags[i]))
                && r.0@ == set_positions(candidates@, flags).take(
                if set_positions(candidates@, flags).len() < MAX_CANDIDATES_PER_PROJECT {
                    set_positions(candidates@, flags).len() as int
                } else {
                    MAX_CANDIDATES_PER_PROJECT as int
                },
            ) && r.1 == (set_positions(candidates@, flags).len() > MAX_CANDIDATES_PER_PROJECT),
{
    let mut selected: Vec<T> = Vec::new();
    let mut count: usize = 0;
    let ghost mut flags: Seq<bool> = Seq::empty();
    let mut i: usize = 0;
    while i < candidates.len()
        invariant
            i <= candidates.len(),
            flags.len() == i,
            forall|x: &T| #[trigger] compatible.requires((x,)),
            forall|k: int| 0 <= k < i ==> compatible.ensures((&candidates@[k],), #[trigger] flags[k]),
            count == set_positions(candidates@.subrange(0, i as int), flags).len(),
            count <= i,
            selected@ == set_positions(candidates@.subrange(0, i as int), flags).take(
                if count < MAX_CANDIDATES_PER_PROJECT {
                    count as int
                } else {
                    MAX_CANDIDATES_PER_PROJECT as int
                },
            ),
        decreases candidates.len() - i,
    {
        let accepted = compatible(&candidates[i]);
        let ghost pre = set_positions(candidates@.subrange(0, i as int), flags);
        proof {
            let nf = flags.push(accepted);
            let s1 = candidates@.subrange(0, i + 1);
            assert(s1.drop_last() =~= candidates@.subrange(0, i as int));
            assert(nf.drop_last() =~= flags);
            flags = nf;
        }
        if accepted {
            if selected.len() < MAX_CANDIDATES_PER_PROJECT {
                selected.push(candidates[i]);
                assert(selected@ =~= pre.push(candidates@[i as int]).take((count + 1) as int));
            } else {
                assert(selected@ =~= pre.push(candidates@[i as int]).take(MAX_CANDIDATES_PER_PROJECT as int));
            }
            count += 1;
        }
        i += 1;
    }
    assert(candidates@.subrange(0, candidates@.len() as int) =~= candidates@);
    (selected, count > MAX_CANDIDATES_PER_PROJECT)
}

/// A text that may be missing, by its characters.
pub open spec fn str_opt_view(o: Option<&str>) -> Option<Seq<char>> {
    match o {
        Some(s) => Some(s@),
        None => None,
    }
}

/// What `chrono` reads from an RFC 3339 text: the instant it names, as
/// seconds since the Unix epoch and the nanoseconds past them, or nothing
/// where the text is not RFC 3339.
pub uninterp spec fn rfc3339_instant_spec(text: Seq<char>) -> Option<(i64, u32)>;

/// `chrono::DateTime::parse_from_rfc3339`, then `timestamp` and
/// `timestamp_subsec_nanos` of the instant. The contract names the result, a
/// function of the text alone; which texts parse, and to what, is chrono's
/// and is not restated here.
#[verifier::external_body]
fn parse_rfc3339_instant(text: &str) -> (r: Option<(i64, u32)>)
    ensures
        r == rfc3339_instant_spec(text@),
{
    match chrono::DateTime::parse_from_rfc3339(text) {
        Ok(date) => Some((date.timestamp(), date.timestamp_subsec_nanos())),
        Err(_) => None,
    }
}

/// The publication time of a release whose date cannot be read: the
/// earliest moment `chrono` represents (`DateTime::<Utc>::MIN_UTC`, January
/// 1 of the year -262143), in seconds since the Unix epoch.
pub const EARLIEST_PUBLISHED: i64 = -8_334_601_228_800;

/// The publication time of a CurseForge file, from its date: seconds and
/// nanoseconds.
pub open spec fn spec_curseforge_published(file_date: Seq<char>) -> (i64, u32) {
    match rfc3339_instant_spec(file_date) {
        Some(instant) => instant,
        None => (EARLIEST_PUBLISHED, 0),
    }
}

pub open spec fn spec_curseforge_dependency(d: CurseForgeDependencyInfo, kind: CandidateDependencyKind) -> DepView {
    DepView { key: (ContentProvider::CurseForge, spec_decimal(d.mod_id as nat)), version_id: None, kind }
}

/// The dependencies of a CurseForge file that the planner follows: those
/// whose relation type has a kind, in order.
pub open spec fn spec_curseforge_dependencies(deps: Seq<CurseForgeDependencyInfo>) -> Seq<DepView>
    decreases deps.len(),
{
    if deps.len() == 0 {
        Seq::empty()
    } else {
        let prev = spec_curseforge_dependencies(deps.drop_last());
        match spec_curseforge_dependency_kind(deps.last().relation_type) {
            Some(kind) => prev.push(spec_curseforge_dependency(deps.last(), kind)),
            None => prev,
        }
    }
}

/// The candidate a CurseForge file of project `key` becomes.
pub open spec fn spec_curseforge_candidate(
    key: KeyView,
    file: CurseForgeFileInfo,
    project_type: ProjectType,
    target: InstanceUpgradeEnvironment,
    current_release_id: Option<Seq<char>>,
) -> CandView {
    CandView {
        key,
        version_id: spec_decimal(file.id as nat),
        published: spec_curseforge_published(file.file_date@).0,
        published_nanos: spec_curseforge_published(file.file_date@).1,
        channel: spec_curseforge_channel(file.release_type),
        compatible: spec_curseforge_file_matches(file, project_type, target),
        installed_current: current_release_id == Some(spec_decimal(file.id as nat)),
        dependencies: spec_curseforge_dependencies(file.dependencies@),
    }
}

fn curseforge_dependencies(deps: &Vec<CurseForgeDependencyInfo>) -> (r: Vec<CandidateDependency>)
    ensures
        deps_view(r@) == spec_curseforge_dependencies(deps@),
{
    let mut r: Vec<CandidateDependency> = Vec::new();
    let mut i: usize = 0;
    while i < deps.len()
        invariant
            i <= deps.len(),
            deps_view(r@) == spec_curseforge_dependencies(deps@.subrange(0, i as int)),
        decreases deps.len() - i,
    {
        let d = &deps[i];
        assert(deps@.subrange(0, i + 1).drop_last() =~= deps@.subrange(0, i as int));
        assert(deps@.subrange(0, i + 1).last() == *d);
        match curseforge_dependency_kind(d.relation_type) {
            Some(kind) => {
                let ghost before = r@;
                let id = crate::text::decimal(d.mod_id as u64);
                r.push(CandidateDependency { key: NodeKey::new(ContentProvider::CurseForge, id.as_str()), version_id: None, kind });
                assert(deps_view(r@) =~= deps_view(before).push(spec_curseforge_dependency(*d, kind)));
            },
            None => {},
        }
        i += 1;
    }
    assert(deps@.subrange(0, deps@.len() as int) =~= deps@);
    r
}

/// The candidate a CurseForge file of project `key` becomes: its id as the
/// version, its date (the earliest time where the date does not parse), its
/// channel, whether it fits the target, whether it is the installed release,
/// and the dependencies whose relation the planner follows.
pub fn curseforge_candidate(
    key: &NodeKey,
    file: &CurseForgeFileInfo,
    project_type: ProjectType,
    target: &InstanceUpgradeEnvironment,
    current_release_id: Option<&str>,
) -> (r: UpgradeCandidate)
    ensures
        r@ == spec_curseforge_candidate(key@, *file, project_type, *target, str_opt_view(current_release_id)),
{
    let version_id = crate::text::decimal(file.id as u64);
    let installed_current = match current_release_id {
        Some(current) => crate::text::same_text(current, version_id.as_str()),
        None => false,
    };
    let (published, published_nanos) = match parse_rfc3339_instant(file.file_date.as_str()) {
        Some(instant) => instant,
        None => (EARLIEST_PUBLISHED, 0),
    };
    UpgradeCandidate {
        key: key.copy(),
        version_id,
        published,
        published_nanos,
        channel: curseforge_channel(file.release_type),
        compatible: curseforge_file_matches(file, project_type, target),
        installed_current,
        dependencies: curseforge_dependencies(&file.dependencies),
    }
}

pub open spec fn spec_modrinth_dependency_kind(t: ModrinthDependencyType) -> CandidateDependencyKind {
    match t {
        ModrinthDependencyType::Required => CandidateDependencyKind::Required,
        ModrinthDependencyType::Optional => CandidateDependencyKind::Optional,
        ModrinthDependencyType::Incompatible => CandidateDependencyKind::Incompatible,
        ModrinthDependencyType::Embedded => CandidateDependencyKind::Embedded,
    }
}

/// The project a Modrinth dependency points at: the project it names; else,
/// where it names a version, the project of that version as looked up, or a
/// placeholder that names the version where the lookup found none; nothing
/// where it names neither.
pub open spec fn spec_modrinth_dependency_project(
    dep: ModrinthDependencyInfo,
    looked_up: Option<Seq<char>>,
) -> Option<Seq<char>> {
    match dep.project_id {
        Some(p) => Some(p@),
        None => match dep.version_id {
            Some(v) => match looked_up {
                Some(p) => Some(p),
                None => Some("missing-version:"@ + v@),
            },
            None => None,
        },
    }
}

/// The dependencies of a Modrinth version, each with the project it points
/// at; `looked_up` holds, position by position, the project of the version
/// a dependency names.
pub open spec fn spec_modrinth_dependencies(
    deps: Seq<ModrinthDependencyInfo>,
    looked_up: Seq<Option<String>>,
) -> Seq<DepView>
    decreases deps.len(),
{
    if deps.len() == 0 || looked_up.len() != deps.len() {
        Seq::empty()
    } else {
        let prev = spec_modrinth_dependencies(deps.drop_last(), looked_up.drop_last());
        let d = deps.last();
        match spec_modrinth_dependency_project(d, opt_view(looked_up.last())) {
            Some(p) => prev.push(
                DepView {
                    key: (ContentProvider::Modrinth, p),
                    version_id: opt_view(d.version_id),
                    kind: spec_modrinth_dependency_kind(d.dependency_type),
                },
            ),
            None => prev,
        }
    }
}

/// The candidate a Modrinth version of project `key` becomes.
pub open spec fn spec_modrinth_candidate(
    key: KeyView,
    version: ModrinthVersionInfo,
    project_type: ProjectType,
    target: InstanceUpgradeEnvironment,
    current_release_id: Option<Seq<char>>,
    looked_up: Seq<Option<String>>,
) -> CandView {
    CandView {
        key,
        version_id: version.id@,
        published: version.date_published,
        published_nanos: version.date_published_nanos,
        channel: spec_modrinth_channel(version.version_type@),
        compatible: spec_modrinth_version_matches(version, project_type, target),
        installed_current: current_release_id == Some(version.id@),
        dependencies: spec_modrinth_dependencies(version.dependencies@, looked_up),
    }
}

fn modrinth_dependencies(deps: &Vec<ModrinthDependencyInfo>, looked_up: &Vec<Option<String>>) -> (r: Vec<
    CandidateDependency,
>)
    requires
        looked_up.len() == deps.len(),
    ensures
        deps_view(r@) == spec_modrinth_dependencies(deps@, looked_up@),
{
    let mut r: Vec<CandidateDependency> = Vec::new();
    let mut i: usize = 0;
    while i < deps.len()
        invariant
            i <= deps.len(),
            looked_up.len() == deps.len(),
            deps_view(r@) == spec_modrinth_dependencies(deps@.subrange(0, i as int), looked_up@.subrange(0, i as int)),
        decreases deps.len() - i,
    {
        let d = &deps[i];
        assert(deps@.subrange(0, i + 1).drop_last() =~= deps@.subrange(0, i as int));
        assert(looked_up@.subrange(0, i + 1).drop_last() =~= looked_up@.subrange(0, i as int));
        assert(deps@.subrange(0, i + 1).last() == *d);
        assert(looked_up@.subrange(0, i + 1).last() == looked_up@[i as int]);
        let project: Option<String> = match &d.project_id {
            Some(p) => Some(p.clone()),
            None => match &d.version_id {
                Some(v) => match &looked_up[i] {
                    Some(p) => Some(p.clone()),
                    None => Some(crate::text::concat("missing-version:", v.as_str())),
                },
                None => None,
            },
        };
        match project {
            Some(p) => {
                let ghost before = r@;
                let kind = match d.dependency_type {
                    ModrinthDependencyType::Required => CandidateDependencyKind::Required,
                    ModrinthDependencyType::Optional => CandidateDependencyKind::Optional,
                    ModrinthDependencyType::Incompatible => CandidateDependencyKind::Incompatible,
                    ModrinthDependencyType::Embedded => CandidateDependencyKind::Embedded,
                };
                r.push(
                    CandidateDependency {
                        key: NodeKey::new(ContentProvider::Modrinth, p.as_str()),
                        version_id: crate::upgrade::candidates::copy_opt(&d.version_id),
                        kind,
                    },
                );
                assert(deps_view(r@) =~= deps_view(before).push(
                    DepView {
                        key: (ContentProvider::Modrinth, p@),
                        version_id: opt_view(d.version_id),
                        kind: spec_modrinth_dependency_kind(d.dependency_type),
                    },
                ));
            },
            None => {},
        }
        i += 1;
    }
    assert(deps@.subrange(0, deps@.len() as int) =~= deps@);
    assert(looked_up@.subrange(0, deps@.len() as int) =~= looked_up@);
    r
}

/// The candidate a Modrinth version of project `key` becomes: its id, date
/// and channel, whether it fits the target, whether it is the installed
/// release, and its dependencies with the projects they point at.
/// `looked_up[i]` is the project of the version that dependency `i` names,
/// where it could be found; it is read only for a dependency that names no
/// project.
pub fn modrinth_candidate(
    key: &NodeKey,
    version: &ModrinthVersionInfo,
    project_type: ProjectType,
    target: &InstanceUpgradeEnvironment,
    current_release_id: Option<&str>,
    looked_up: &Vec<Option<String>>,
) -> (r: UpgradeCandidate)
    requires
        looked_up.len() == version.dependencies.len(),
    ensures
        r@ == spec_modrinth_candidate(
            key@,
            *version,
            project_type,
            *target,
            str_opt_view(current_release_id),
            looked_up@,
        ),
{
    let installed_current = match current_release_id {
        Some(current) => crate::text::same_text(current, version.id.as_str()),
        None => false,
    };
    UpgradeCandidate {
        key: key.copy(),
        version_id: version.id.clone(),
        published: version.date_published,
        published_nanos: version.date_published_nanos,
        channel: modrinth_channel(version.version_type.as_str()),
        compatible: modrinth_version_matches(version, project_type, target),
        installed_current,
        dependencies: modrinth_dependencies(&version.dependencies, looked_up),
    }
}

/// What a version requested exactly for a Modrinth project does to the
/// releases selected so far: `Ok(true)` adds `found`, `Ok(false)` leaves the
/// selection as it is, an error stops loading the project. `found` is the
/// version with that id among the selected ones, the fetched ones or from
/// the catalog; it is not read where the version is already selected and is
/// not the custom fixed one.
pub open spec fn spec_modrinth_exact_version(
    key: KeyView,
    exact_version: Seq<char>,
    already_selected: bool,
    found: Option<ModrinthVersionInfo>,
    custom_fixed_version: Option<Seq<char>>,
    project_type: ProjectType,
    target: InstanceUpgradeEnvironment,
) -> Result<bool, Seq<char>> {
    let is_custom = custom_fixed_version == Some(exact_version);
    if already_selected && !is_custom {
        Ok(false)
    } else {
        match found {
            Some(v) => if is_custom {
                match spec_custom_fixed_error(key, v, project_type, target) {
                    Some(m) => Err(m),
                    None => Ok(!already_selected),
                }
            } else if v.project_id@ != key.1 {
                Ok(false)
            } else {
                Ok(!already_selected)
            },
            None => if is_custom {
                Err("Unknown custom fixed Modrinth version "@ + exact_version)
            } else {
                Ok(false)
            },
        }
    }
}

/// A result whose error is text, by its characters.
pub open spec fn bool_result_view(r: Result<bool, String>) -> Result<bool, Seq<char>> {
    match r {
        Ok(b) => Ok(b),
        Err(m) => Err(m@),
    }
}

pub fn modrinth_exact_version(
    key: &NodeKey,
    exact_version: &str,
    already_selected: bool,
    found: Option<&ModrinthVersionInfo>,
    custom_fixed_version: Option<&str>,
    project_type: ProjectType,
    target: &InstanceUpgradeEnvironment,
) -> (r: Result<bool, String>)
    ensures
        bool_result_view(r) == spec_modrinth_exact_version(
            key@,
            exact_version@,
            already_selected,
            match found {
                Some(v) => Some(*v),
                None => None,
            },
            str_opt_view(custom_fixed_version),
            project_type,
            *target,
        ),
{
    let is_custom = match custom_fixed_version {
        Some(c) => crate::text::same_text(c, exact_version),
        None => false,
    };
    if already_selected && !is_custom {
        return Ok(false);
    }
    match found {
        Some(v) => {
            if is_custom {
                match validate_modrinth_custom_fixed(key, v, project_type, target) {
                    Err(m) => return Err(m),
                    Ok(()) => {},
                }
            } else if !crate::text::same_text(v.project_id.as_str(), key.project_id.as_str()) {
                return Ok(false);
            }
            Ok(!already_selected)
        },
        None => {
            if is_custom {
                Err(crate::text::concat("Unknown custom fixed Modrinth version ", exact_version))
            } else {
                Ok(false)
            }
        },
    }
}

/// The CurseForge project id a key names, as `u32` parses it; a key that
/// names no such number is refused.
pub fn curseforge_project_id(project_id: &str) -> (r: Result<u32, String>)
    ensures
        match r {
            Ok(id) => crate::text::spec_parse_uint(project_id@, u32::MAX as nat) == Some(id as nat),
            Err(m) => crate::text::spec_parse_uint(project_id@, u32::MAX as nat) is None && m@
                == "Invalid CurseForge project ID "@ + project_id@,
        },
{
    let chars = crate::text::chars_of(project_id);
    match crate::text::parse_uint(&chars, 4294967295) {
        Some(id) => Ok(id as u32),
        None => Err(crate::text::concat("Invalid CurseForge project ID ", project_id)),
    }
}

/// The CurseForge file id an exact version names, as `u32` parses it.
pub fn curseforge_exact_file_id(exact_version: &str) -> (r: Result<u32, String>)
    ensures
        match r {
            Ok(id) => crate::text::spec_parse_uint(exact_version@, u32::MAX as nat) == Some(id as nat),
            Err(m) => crate::text::spec_parse_uint(exact_version@, u32::MAX as nat) is None && m@
                == "Invalid CurseForge file ID "@ + exact_version@,
        },
{
    let chars = crate::text::chars_of(exact_version);
    match crate::text::parse_uint(&chars, 4294967295) {
        Some(id) => Ok(id as u32),
        None => Err(crate::text::concat("Invalid CurseForge file ID ", exact_version)),
    }
}

/// What a file requested exactly for a CurseForge project does to the files
/// selected so far: `Ok(true)` adds `found`, `Ok(false)` leaves the
/// selection as it is, an error stops loading the project. `found` is the
/// file with the id the version names, among the selected ones or from the
/// catalog; it is not read where the version is already selected and is not
/// the custom fixed one, or where the version names no file id.
pub open spec fn spec_curseforge_exact_file(
    project_id: u32,
    exact_version: Seq<char>,
    already_selected: bool,
    found: Option<CurseForgeFileInfo>,
    custom_fixed_version: Option<Seq<char>>,
    project_type: ProjectType,
    target: InstanceUpgradeEnvironment,
) -> Result<bool, Seq<char>> {
    let is_custom = custom_fixed_version == Some(exact_version);
    if already_selected && !is_custom {
        Ok(false)
    } else if crate::text::spec_parse_uint(exact_version, u32::MAX as nat) is None {
        Err("Invalid CurseForge file ID "@ + exact_version)
    } else {
        match found {
            None => Err("Unknown CurseForge file ID "@ + exact_version),
            Some(f) => if f.mod_id != project_id {
                Err("Fixed or exact CurseForge file "@ + exact_version + " belongs to project "@ + spec_decimal(
                    f.mod_id as nat,
                ) + ", not "@ + spec_decimal(project_id as nat))
            } else if is_custom && !spec_curseforge_file_matches(f, project_type, target) {
                Err("Custom fixed CurseForge file "@ + exact_version + " is not compatible with the target environment"@)
            } else {
                Ok(!already_selected)
            },
        }
    }
}

pub fn curseforge_exact_file(
    project_id: u32,
    exact_version: &str,
    already_selected: bool,
    found: Option<&CurseForgeFileInfo>,
    custom_fixed_version: Option<&str>,
    project_type: ProjectType,
    target: &InstanceUpgradeEnvironment,
) -> (r: Result<bool, String>)
    ensures
        bool_result_view(r) == spec_curseforge_exact_file(
            project_id,
            exact_version@,
            already_selected,
            match found {
                Some(f) => Some(*f),
                None => None,
            },
            str_opt_view(custom_fixed_version),
            project_type,
            *target,
        ),
{
    let is_custom = match custom_fixed_version {
        Some(c) => crate::text::same_text(c, exact_version),
        None => false,
    };
    if already_selected && !is_custom {
        return Ok(false);
    }
    match curseforge_exact_file_id(exact_version) {
        Err(m) => return Err(m),
        Ok(_) => {},
    }
    match found {
        None => Err(crate::text::concat("Unknown CurseForge file ID ", exact_version)),
        Some(f) => {
            if f.mod_id != project_id {
                let m1 = crate::text::concat("Fixed or exact CurseForge file ", exact_version);
                let m2 = crate::text::concat(m1.as_str(), " belongs to project ");
                let m3 = crate::text::concat(m2.as_str(), crate::text::decimal(f.mod_id as u64).as_str());
                let m4 = crate::text::concat(m3.as_str(), ", not ");
                return Err(crate::text::concat(m4.as_str(), crate::text::decimal(project_id as u64).as_str()));
            }
            if is_custom && !curseforge_file_matches(f, project_type, target) {
                let m1 = crate::text::concat("Custom fixed CurseForge file ", exact_version);
                return Err(crate::text::concat(m1.as_str(), " is not compatible with the target environment"));
            }
            Ok(!already_selected)
        },
    }
}

} // verus!
