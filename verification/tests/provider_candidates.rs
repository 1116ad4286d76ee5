use theseus::model::{ContentProvider, InstanceUpgradeEnvironment, ModLoader, ProjectType, ShaderRuntime};
use theseus::upgrade::candidates::{CandidateChannel, CandidateDependencyKind, NodeKey};
use theseus::upgrade::provider::{
    curseforge_candidate, curseforge_exact_file, curseforge_exact_file_id, curseforge_project_id, modrinth_candidate, modrinth_exact_version, CurseForgeDependencyInfo, CurseForgeFileInfo, ModrinthDependencyInfo,
    ModrinthDependencyType, ModrinthVersionInfo, EARLIEST_PUBLISHED,
};

fn target() -> InstanceUpgradeEnvironment {
    InstanceUpgradeEnvironment {
        game_version: "1.21.1".to_string(),
        mod_loader: ModLoader::Fabric,
        mod_loader_version: None,
        shader_runtime: ShaderRuntime::NoRuntime,
    }
}

fn cf_file(file_date: &str) -> CurseForgeFileInfo {
    CurseForgeFileInfo {
        id: 4512,
        mod_id: 77,
        release_type: 2,
        is_available: true,
        game_versions: vec!["1.21.1".to_string(), "Fabric".to_string()],
        sortable_game_versions: Vec::new(),
        file_date: file_date.to_string(),
        dependencies: vec![
            CurseForgeDependencyInfo { mod_id: 10, relation_type: 3 },
            CurseForgeDependencyInfo { mod_id: 11, relation_type: 7 },
            CurseForgeDependencyInfo { mod_id: 12, relation_type: 5 },
            CurseForgeDependencyInfo { mod_id: 13, relation_type: 4 },
        ],
    }
}

#[test]
fn curseforge_file_becomes_candidate() {
    let key = NodeKey::new(ContentProvider::CurseForge, "77");
    let c = curseforge_candidate(&key, &cf_file("2023-01-02T03:04:05Z"), ProjectType::Mod, &target(), Some("4512"));
    assert_eq!(c.version_id, "4512");
    assert_eq!(c.published, 1672628645);
    assert_eq!(c.channel, CandidateChannel::Beta);
    assert!(c.compatible);
    assert!(c.installed_current);
    let deps: Vec<(String, CandidateDependencyKind)> =
        c.dependencies.iter().map(|d| (d.key.project_id.clone(), d.kind)).collect();
    assert_eq!(
        deps,
        vec![
            ("10".to_string(), CandidateDependencyKind::Required),
            ("12".to_string(), CandidateDependencyKind::Incompatible),
            ("13".to_string(), CandidateDependencyKind::Embedded),
        ]
    );
    assert!(c.dependencies.iter().all(|d| d.version_id.is_none() && d.key.provider == ContentProvider::CurseForge));
}

#[test]
fn curseforge_dates_with_offsets_and_unreadable_dates() {
    let key = NodeKey::new(ContentProvider::CurseForge, "77");
    let c = curseforge_candidate(&key, &cf_file("2023-01-02T04:04:05+01:00"), ProjectType::Mod, &target(), None);
    assert_eq!(c.published, 1672628645);
    assert!(!c.installed_current);
    let c = curseforge_candidate(&key, &cf_file("yesterday"), ProjectType::Mod, &target(), Some("1"));
    assert_eq!(c.published, EARLIEST_PUBLISHED);
    assert!(!c.installed_current);
}

#[test]
fn modrinth_version_becomes_candidate() {
    let version = ModrinthVersionInfo {
        id: "abc".to_string(),
        project_id: "p".to_string(),
        version_type: "alpha".to_string(),
        game_versions: vec!["1.21.1".to_string()],
        loaders: vec!["quilt".to_string()],
        date_published: 99,
        date_published_nanos: 0,
        dependencies: vec![
            ModrinthDependencyInfo {
                project_id: Some("dep".to_string()),
                version_id: None,
                dependency_type: ModrinthDependencyType::Optional,
            },
            ModrinthDependencyInfo {
                project_id: None,
                version_id: Some("v1".to_string()),
                dependency_type: ModrinthDependencyType::Required,
            },
            ModrinthDependencyInfo {
                project_id: None,
                version_id: Some("v2".to_string()),
                dependency_type: ModrinthDependencyType::Incompatible,
            },
            ModrinthDependencyInfo { project_id: None, version_id: None, dependency_type: ModrinthDependencyType::Embedded },
        ],
    };
    let key = NodeKey::new(ContentProvider::Modrinth, "p");
    let looked_up = vec![None, Some("found".to_string()), None, Some("ignored".to_string())];
    let c = modrinth_candidate(&key, &version, ProjectType::Mod, &target(), Some("abc"), &looked_up);
    assert_eq!(c.version_id, "abc");
    assert_eq!(c.published, 99);
    assert_eq!(c.channel, CandidateChannel::Alpha);
    assert!(!c.compatible);
    assert!(c.installed_current);
    let deps: Vec<(String, Option<String>, CandidateDependencyKind)> =
        c.dependencies.iter().map(|d| (d.key.project_id.clone(), d.version_id.clone(), d.kind)).collect();
    assert_eq!(
        deps,
        vec![
            ("dep".to_string(), None, CandidateDependencyKind::Optional),
            ("found".to_string(), Some("v1".to_string()), CandidateDependencyKind::Required),
            ("missing-version:v2".to_string(), Some("v2".to_string()), CandidateDependencyKind::Incompatible),
        ]
    );
}

fn mr_version(id: &str, project_id: &str, game_version: &str) -> ModrinthVersionInfo {
    ModrinthVersionInfo {
        id: id.to_string(),
        project_id: project_id.to_string(),
        version_type: "release".to_string(),
        game_versions: vec![game_version.to_string()],
        loaders: vec!["fabric".to_string()],
        date_published: 1,
        date_published_nanos: 0,
        dependencies: Vec::new(),
    }
}

#[test]
fn modrinth_exact_versions_add_skip_or_fail() {
    let key = NodeKey::new(ContentProvider::Modrinth, "p");
    let t = target();
    let fits = mr_version("v", "p", "1.21.1");
    let other = mr_version("v", "q", "1.21.1");
    let old = mr_version("v", "p", "1.20");
    assert_eq!(modrinth_exact_version(&key, "v", true, None, None, ProjectType::Mod, &t), Ok(false));
    assert_eq!(modrinth_exact_version(&key, "v", false, Some(&fits), None, ProjectType::Mod, &t), Ok(true));
    assert_eq!(modrinth_exact_version(&key, "v", false, Some(&other), None, ProjectType::Mod, &t), Ok(false));
    assert_eq!(modrinth_exact_version(&key, "v", false, Some(&old), None, ProjectType::Mod, &t), Ok(true));
    assert_eq!(modrinth_exact_version(&key, "v", false, None, None, ProjectType::Mod, &t), Ok(false));
    assert_eq!(modrinth_exact_version(&key, "v", true, Some(&fits), Some("v"), ProjectType::Mod, &t), Ok(false));
    assert_eq!(
        modrinth_exact_version(&key, "v", false, None, Some("v"), ProjectType::Mod, &t),
        Err("Unknown custom fixed Modrinth version v".to_string())
    );
    assert_eq!(
        modrinth_exact_version(&key, "v", false, Some(&other), Some("v"), ProjectType::Mod, &t),
        Err("Custom fixed Modrinth version v belongs to project q, not p".to_string())
    );
    assert_eq!(
        modrinth_exact_version(&key, "v", true, Some(&old), Some("v"), ProjectType::Mod, &t),
        Err("Custom fixed Modrinth version v is not compatible with the target environment".to_string())
    );
}

#[test]
fn curseforge_exact_files_add_skip_or_fail() {
    let t = target();
    let file = cf_file("2023-01-02T03:04:05Z");
    assert_eq!(curseforge_exact_file_id("+4512"), Ok(4512));
    assert_eq!(curseforge_exact_file_id("4294967296"), Err("Invalid CurseForge file ID 4294967296".to_string()));
    assert_eq!(curseforge_exact_file(77, "4512", true, None, None, ProjectType::Mod, &t), Ok(false));
    assert_eq!(
        curseforge_exact_file(77, "x1", false, None, None, ProjectType::Mod, &t),
        Err("Invalid CurseForge file ID x1".to_string())
    );
    assert_eq!(
        curseforge_exact_file(77, "4512", false, None, None, ProjectType::Mod, &t),
        Err("Unknown CurseForge file ID 4512".to_string())
    );
    assert_eq!(curseforge_exact_file(77, "4512", false, Some(&file), None, ProjectType::Mod, &t), Ok(true));
    assert_eq!(curseforge_exact_file(77, "4512", true, Some(&file), Some("4512"), ProjectType::Mod, &t), Ok(false));
    assert_eq!(
        curseforge_exact_file(78, "4512", false, Some(&file), None, ProjectType::Mod, &t),
        Err("Fixed or exact CurseForge file 4512 belongs to project 77, not 78".to_string())
    );
    assert_eq!(
        curseforge_exact_file(77, "4512", false, Some(&file), Some("4512"), ProjectType::DataPack, &t),
        Ok(true)
    );
    let mut old = cf_file("2023-01-02T03:04:05Z");
    old.game_versions = vec!["1.20".to_string()];
    assert_eq!(
        curseforge_exact_file(77, "4512", false, Some(&old), Some("4512"), ProjectType::Mod, &t),
        Err("Custom fixed CurseForge file 4512 is not compatible with the target environment".to_string())
    );
    assert_eq!(curseforge_exact_file(77, "4512", false, Some(&old), None, ProjectType::Mod, &t), Ok(true));
}

#[test]
fn earliest_publication_is_chronos_earliest_moment() {
    assert_eq!(EARLIEST_PUBLISHED, chrono::DateTime::<chrono::Utc>::MIN_UTC.timestamp());
}

#[test]
fn curseforge_dates_keep_their_fraction_of_a_second() {
    let key = NodeKey::new(ContentProvider::CurseForge, "77");
    let c = curseforge_candidate(&key, &cf_file("2023-01-02T03:04:05.25Z"), ProjectType::Mod, &target(), None);
    assert_eq!((c.published, c.published_nanos), (1672628645, 250_000_000));
    let c = curseforge_candidate(&key, &cf_file("not a date"), ProjectType::Mod, &target(), None);
    assert_eq!((c.published, c.published_nanos), (EARLIEST_PUBLISHED, 0));
}

#[test]
fn curseforge_project_keys_must_name_a_number() {
    assert_eq!(curseforge_project_id("238222"), Ok(238222));
    assert_eq!(curseforge_project_id("sodium"), Err("Invalid CurseForge project ID sodium".to_string()));
    assert_eq!(curseforge_project_id(""), Err("Invalid CurseForge project ID ".to_string()));
}
