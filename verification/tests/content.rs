use theseus::content_files::{modrinth_update_enabled, project_type_from_relative_path};
use theseus::model::{ContentProvider, ContentProviderRef, ProjectType};
use theseus::post_upgrade::{
    next_post_upgrade_notice_after_launch, InstancePostUpgradeNotice, InstancePostUpgradeWarning,
};
use theseus::model::InstanceUpgradeIssueCode;

#[test]
fn project_type_from_relative_path_matches_nested_folders() {
    assert_eq!(project_type_from_relative_path("schematics/house.litematic"), Some(ProjectType::Schematic));
    assert_eq!(project_type_from_relative_path("schematics/redstone/clock.litematic"), Some(ProjectType::Schematic));
    assert_eq!(project_type_from_relative_path("schematics/a/b/c/tower.litematic"), Some(ProjectType::Schematic));
    assert_eq!(project_type_from_relative_path("mods/example.jar"), Some(ProjectType::Mod));
    assert_eq!(project_type_from_relative_path("config/example.json"), None);
}

fn modrinth_ref() -> ContentProviderRef {
    ContentProviderRef::from_database("modrinth", "project", Some("version")).unwrap()
}

fn curseforge_ref() -> ContentProviderRef {
    ContentProviderRef::from_database("curseforge", "42", Some("7")).unwrap()
}

#[test]
fn untracked_files_qualify_for_modrinth_updates() {
    assert!(modrinth_update_enabled(None, &vec![]));
    assert!(modrinth_update_enabled(None, &vec![modrinth_ref()]));
}

#[test]
fn curseforge_tracked_files_do_not_qualify_for_modrinth_updates() {
    assert!(!modrinth_update_enabled(Some(ContentProvider::CurseForge), &vec![curseforge_ref()]));
    assert!(!modrinth_update_enabled(None, &vec![curseforge_ref()]));
}

#[test]
fn modrinth_origin_always_qualifies() {
    assert!(modrinth_update_enabled(Some(ContentProvider::Modrinth), &vec![curseforge_ref(), modrinth_ref()]));
}

fn notice(clean_launches: u8) -> InstancePostUpgradeNotice {
    InstancePostUpgradeNotice {
        instance_id: "instance".to_string(),
        upgrade_job_id: "job".to_string(),
        target_game_version: "26.2".to_string(),
        consecutive_clean_launches: clean_launches,
        warnings: vec![InstancePostUpgradeWarning {
            code: InstanceUpgradeIssueCode::KeepIncompatible,
            content_id: Some("content".to_string()),
            relative_path: Some("mods/example.jar".to_string()),
        }],
    }
}

#[test]
fn clean_launch_expires_notice_after_two_consecutive_sessions() {
    let first = next_post_upgrade_notice_after_launch(notice(0), true).expect("first launch keeps notice");
    assert_eq!(first.consecutive_clean_launches, 1);
    assert!(next_post_upgrade_notice_after_launch(first, true).is_none());
}

#[test]
fn failed_launch_resets_consecutive_count() {
    let reset = next_post_upgrade_notice_after_launch(notice(1), false).expect("failed launch keeps notice");
    assert_eq!(reset.consecutive_clean_launches, 0);
}
