use theseus::upgrade::plan::check_plan_source;
use theseus::model::{
    ContentItem, ContentItemDependency, ContentOwnershipKind, ContentProvider, ContentProviderRef, InstanceContentSnapshot,
    InstanceContentSnapshotItem, InstanceUpgradeAction, InstanceUpgradeEnvironment, InstanceUpgradeFixedConstraint,
    InstanceUpgradeIssueCode, InstanceUpgradeItem, InstanceUpgradeItemStatus, InstanceUpgradePlan,
    InstanceUpgradeResolution, InstanceUpgradeSelection, InstanceUpgradeSolution, InstanceUpgradeSolutionKind,
    ModLoader, ProjectType, ShaderRuntime,
};
use theseus::upgrade::api::{ensure_instance_upgrade_revision, selected_kind_and_constraints, validate_fixed_constraints};
use theseus::upgrade::item_issues::item_warnings;
use theseus::upgrade::provider::bounded_compatible_candidates;
use theseus::upgrade::snapshot::{snapshot_upgrade_items, source_shader_runtime};

fn environment() -> InstanceUpgradeEnvironment {
    InstanceUpgradeEnvironment {
        game_version: "1.21.1".to_string(),
        mod_loader: ModLoader::Fabric,
        mod_loader_version: None,
        shader_runtime: ShaderRuntime::Iris,
    }
}

fn empty_plan() -> InstanceUpgradePlan {
    InstanceUpgradePlan {
        id: "plan".to_string(),
        instance_id: "instance".to_string(),
        source_revision: 1,
        source_environment: environment(),
        target_environment: environment(),
        items: Vec::new(),
        dependency_changes: Vec::new(),
        warnings: Vec::new(),
        blocking_issues: Vec::new(),
        newest_solution: None,
        minimal_change_solution: None,
        selected_solution: None,
        custom_constraints: Vec::new(),
    }
}

#[test]
fn duplicate_custom_constraints_are_rejected_before_provider_work() {
    let mut plan = empty_plan();
    plan.items.push(InstanceUpgradeItem {
        content_id: "root".to_string(),
        relative_path: "mods/root.jar".to_string(),
        project_type: ProjectType::Mod,
        provider: Some(ContentProvider::Modrinth),
        project_id: Some("root".to_string()),
        current_release_id: Some("old".to_string()),
        current_enabled: true,
        auto_dependency: false,
        status: InstanceUpgradeItemStatus::UpgradeAvailable,
        resolution: InstanceUpgradeResolution {
            content_id: "root".to_string(),
            action: InstanceUpgradeAction::Upgrade,
            allow_prerelease: false,
            confirmed_prerelease_dependencies: Vec::new(),
        },
        candidate_release_ids: vec!["one".to_string(), "two".to_string()],
    });
    let constraints = vec![
        InstanceUpgradeFixedConstraint {
            provider: ContentProvider::Modrinth,
            project_id: "root".to_string(),
            version_id: "one".to_string(),
        },
        InstanceUpgradeFixedConstraint {
            provider: ContentProvider::Modrinth,
            project_id: "root".to_string(),
            version_id: "two".to_string(),
        },
    ];
    assert!(validate_fixed_constraints(&plan, &constraints).is_err());
}

#[test]
fn stale_upgrade_plan_revision_is_rejected() {
    assert!(ensure_instance_upgrade_revision(4, 4).is_ok());
    let error = ensure_instance_upgrade_revision(4, 5).unwrap_err();
    assert!(error.message().contains("planned revision 4"));
    assert!(error.message().contains("current revision 5"));
}

fn selection(content_id: &str, target: &str) -> InstanceUpgradeSelection {
    InstanceUpgradeSelection {
        content_id: content_id.to_string(),
        provider: Some(ContentProvider::Modrinth),
        project_id: Some(content_id.to_string()),
        current_release_id: Some(format!("{content_id}-old")),
        target_release_id: Some(target.to_string()),
        action: InstanceUpgradeAction::Upgrade,
        enabled: true,
    }
}

#[test]
fn custom_recompute_uses_only_explicitly_stored_constraints() {
    let mut plan = empty_plan();
    plan.custom_constraints = vec![InstanceUpgradeFixedConstraint {
        provider: ContentProvider::Modrinth,
        project_id: "a".to_string(),
        version_id: "a-fixed".to_string(),
    }];
    plan.selected_solution = Some(InstanceUpgradeSolution {
        kind: InstanceUpgradeSolutionKind::Custom,
        selections: vec![selection("a", "a-fixed"), selection("b", "b-auto")],
        dependency_changes: Vec::new(),
        warnings: Vec::new(),
    });
    let (kind, constraints) = selected_kind_and_constraints(&plan);
    assert_eq!(kind, InstanceUpgradeSolutionKind::Custom);
    assert_eq!(constraints, plan.custom_constraints);
    assert_eq!(constraints.len(), 1);
    assert_eq!(constraints[0].project_id, "a");
}

fn test_item(status: InstanceUpgradeItemStatus) -> InstanceUpgradeItem {
    InstanceUpgradeItem {
        content_id: "local".to_string(),
        relative_path: "mods/local.jar".to_string(),
        project_type: ProjectType::Mod,
        provider: None,
        project_id: None,
        current_release_id: None,
        current_enabled: true,
        auto_dependency: false,
        status,
        resolution: InstanceUpgradeResolution {
            content_id: "local".to_string(),
            action: InstanceUpgradeAction::Keep,
            allow_prerelease: false,
            confirmed_prerelease_dependencies: Vec::new(),
        },
        candidate_release_ids: Vec::new(),
    }
}

#[test]
fn unidentified_local_jar_is_preserved_with_warning() {
    let item = test_item(InstanceUpgradeItemStatus::Unidentified);
    let warnings = item_warnings(&vec![item]);
    assert_eq!(warnings[0].code, InstanceUpgradeIssueCode::Unidentified);
}

fn snapshot_item_for_test(
    provider: Option<ContentProvider>,
    project_id: Option<&str>,
    release_id: Option<&str>,
) -> InstanceContentSnapshotItem {
    InstanceContentSnapshotItem {
        file_id: Some("file".to_string()),
        entry_id: Some("entry".to_string()),
        member_id: None,
        ownership_kind: ContentOwnershipKind::UserAdded,
        expected_relative_path: "mods/runtime.jar".to_string(),
        required: false,
        project_type: ProjectType::Mod,
        provider,
        provider_project_id: project_id.map(str::to_string),
        provider_release_id: release_id.map(str::to_string),
        content: Some(ContentItem {
            file_name: "runtime.jar".to_string(),
            file_path: "mods/runtime.jar".to_string(),
            id: "hash".to_string(),
            size: 1,
            enabled: true,
            project_type: ProjectType::Mod,
            provider_refs: Vec::new(),
        }),
        dependency: None,
    }
}

#[test]
fn source_shader_runtime_uses_trusted_modrinth_alias_for_curseforge_item() {
    let mut item = snapshot_item_for_test(Some(ContentProvider::CurseForge), Some("123"), Some("123"));
    item.content.as_mut().unwrap().provider_refs = vec![
        ContentProviderRef::from_database("curseforge", "123", Some("123")).unwrap(),
        ContentProviderRef::from_database("modrinth", "YL57xq9U", Some("iris-version")).unwrap(),
    ];
    let snapshot = InstanceContentSnapshot { instance_id: "instance".to_string(), revision: 1, items: vec![item] };
    assert_eq!(source_shader_runtime(&vec![], &snapshot), ShaderRuntime::Iris);
    let (_, installed) = snapshot_upgrade_items(&snapshot);
    assert!(installed[0]
        .aliases
        .iter()
        .any(|alias| alias.key.provider == ContentProvider::Modrinth && alias.key.project_id == "YL57xq9U"));
}

#[test]
fn unverified_local_mod_makes_shader_runtime_unknown() {
    let snapshot = InstanceContentSnapshot {
        instance_id: "instance".to_string(),
        revision: 1,
        items: vec![snapshot_item_for_test(None, None, None)],
    };
    assert_eq!(source_shader_runtime(&vec![], &snapshot), ShaderRuntime::Unknown);
}

#[test]
fn provider_candidate_filter_finds_compatible_item_after_first_fifty() {
    let provider_files = (0..=50).collect::<Vec<_>>();
    let (selected, limited) = bounded_compatible_candidates(&provider_files, |file| *file == 50);
    assert_eq!(selected, vec![50]);
    assert!(!limited);
}

#[test]
fn planner_snapshot_analysis_does_not_mutate_instance_state() {
    let snapshot = InstanceContentSnapshot {
        instance_id: "instance".to_string(),
        revision: 7,
        items: vec![InstanceContentSnapshotItem {
            file_id: Some("file".to_string()),
            entry_id: Some("entry".to_string()),
            member_id: None,
            ownership_kind: ContentOwnershipKind::UserAdded,
            expected_relative_path: "mods/a.jar".to_string(),
            required: true,
            project_type: ProjectType::Mod,
            provider: Some(ContentProvider::Modrinth),
            provider_project_id: Some("a".to_string()),
            provider_release_id: Some("old".to_string()),
            content: None,
            dependency: Some(ContentItemDependency { auto_dependency: false }),
        }],
    };
    let before = format!("{snapshot:?}");
    let _ = snapshot_upgrade_items(&snapshot);
    assert_eq!(format!("{snapshot:?}"), before);
}

#[test]
fn plans_are_made_only_for_unmanaged_local_instances_at_their_revision() {
    assert_eq!(
        check_plan_source(false, true, 3, 3),
        Err("Instance upgrade planner only supports unmanaged instances".to_string())
    );
    assert_eq!(
        check_plan_source(true, false, 3, 3),
        Err("Instance upgrade planner only supports local content sets".to_string())
    );
    assert_eq!(
        check_plan_source(true, true, 4, 3),
        Err("Instance content changed while the upgrade plan was being created; retry planning".to_string())
    );
    assert_eq!(check_plan_source(true, true, 3, 3), Ok(()));
}
