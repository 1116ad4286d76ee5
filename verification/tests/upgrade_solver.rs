use theseus::model::{
    ContentProvider, InstanceUpgradeAction, InstanceUpgradeDependencyChangeKind, InstanceUpgradeEnvironment,
    InstanceUpgradeFixedConstraint, InstanceUpgradeIssueCode, InstanceUpgradePrereleaseConfirmation,
    InstanceUpgradeSolutionKind, ModLoader, ProjectType, ShaderRuntime,
};
use theseus::upgrade::provider::{modrinth_version_matches, validate_modrinth_custom_fixed, ModrinthVersionInfo};
use theseus::upgrade::candidates::{
    CandidateChannel, CandidateDependency, CandidateDependencyKind, CandidatePool, NodeKey, UpgradeCandidate,
    UpgradeCatalog,
};
use theseus::upgrade::materialize::materialize_solution;
use theseus::upgrade::ranking::{pick_minimal, pick_newest};
use theseus::upgrade::search::solve_upgrade;
use theseus::upgrade::snapshot::{InstalledAlias, InstalledNode};
use theseus::upgrade::solver::{RootRequest, SolveOutcome, SolverResult};
use theseus::upgrade::worklist::CatalogWork;
use theseus::upgrade::solver::{copy_origins, origins_of, record_origins};

fn key(project_id: &str) -> NodeKey {
    NodeKey::new(ContentProvider::Modrinth, project_id)
}

fn candidate(project_id: &str, version_id: &str, published: i64) -> UpgradeCandidate {
    UpgradeCandidate {
        key: key(project_id),
        version_id: version_id.to_string(),
        published,
        published_nanos: 0,
        channel: CandidateChannel::Release,
        compatible: true,
        installed_current: false,
        dependencies: Vec::new(),
    }
}

fn required(project_id: &str, version_id: Option<&str>) -> CandidateDependency {
    CandidateDependency {
        key: key(project_id),
        version_id: version_id.map(str::to_string),
        kind: CandidateDependencyKind::Required,
    }
}

fn incompatible(project_id: &str) -> CandidateDependency {
    CandidateDependency { key: key(project_id), version_id: None, kind: CandidateDependencyKind::Incompatible }
}

fn root(project_id: &str, current: &str, enabled: bool) -> RootRequest {
    RootRequest {
        content_id: format!("entry-{project_id}"),
        key: key(project_id),
        current_release_id: current.to_string(),
        enabled,
        action: InstanceUpgradeAction::Upgrade,
        allow_prerelease: false,
    }
}

fn installed(project_id: &str, current: &str, auto_dependency: bool, user_owned: bool) -> InstalledNode {
    InstalledNode {
        content_id: format!("entry-{project_id}"),
        key: key(project_id),
        current_release_id: current.to_string(),
        project_type: ProjectType::Mod,
        enabled: true,
        auto_dependency,
        user_owned,
        migratable: true,
        aliases: vec![InstalledAlias { key: key(project_id), current_release_id: current.to_string() }],
    }
}

fn catalog(entries: Vec<(NodeKey, Vec<UpgradeCandidate>)>) -> UpgradeCatalog {
    let mut catalog = UpgradeCatalog::new();
    for (key, candidates) in entries {
        catalog.insert(key, CandidatePool { candidates, exploration_limited: false });
    }
    catalog
}

fn solve(roots: &Vec<RootRequest>, catalog: &UpgradeCatalog) -> SolveOutcome {
    solve_upgrade(roots, catalog, &Vec::new(), &Vec::new())
}

fn assigned<'a>(solution: &'a SolverResult, project_id: &str) -> &'a UpgradeCandidate {
    solution.assignments.iter().find(|c| c.key.project_id == project_id).expect("assigned")
}

#[test]
fn single_mod_cross_minecraft_upgrade_selects_target_candidate() {
    let roots = vec![root("a", "a-old", true)];
    let catalog = catalog(vec![(key("a"), vec![candidate("a", "a-new", 2)])]);
    let outcome = solve(&roots, &catalog);
    assert_eq!(outcome.solutions.len(), 1);
    assert_eq!(assigned(&outcome.solutions[0], "a").version_id, "a-new");
}

#[test]
fn minimal_change_keeps_current_compatible_version() {
    let roots = vec![root("a", "a-old", true)];
    let catalog = catalog(vec![(key("a"), vec![candidate("a", "a-new", 2), candidate("a", "a-old", 1)])]);
    let outcome = solve(&roots, &catalog);
    let minimal = pick_minimal(&outcome.solutions, &roots, &Vec::new()).unwrap();
    assert_eq!(assigned(&outcome.solutions[minimal], "a").version_id, "a-old");
}

#[test]
fn newest_solution_uses_higher_stable_version() {
    let roots = vec![root("a", "a-old", true)];
    let catalog = catalog(vec![(key("a"), vec![candidate("a", "a-new", 2), candidate("a", "a-old", 1)])]);
    let outcome = solve(&roots, &catalog);
    let newest = pick_newest(&outcome.solutions, &roots).unwrap();
    assert_eq!(assigned(&outcome.solutions[newest], "a").version_id, "a-new");
}

#[test]
fn prerelease_only_is_not_selected_without_confirmation() {
    let roots = vec![root("a", "a-old", true)];
    let mut beta = candidate("a", "a-beta", 2);
    beta.channel = CandidateChannel::Beta;
    let catalog = catalog(vec![(key("a"), vec![beta])]);
    let outcome = solve(&roots, &catalog);
    assert!(outcome.solutions.is_empty());
}

#[test]
fn required_dependency_is_added() {
    let roots = vec![root("a", "a-old", true)];
    let mut a = candidate("a", "a-new", 2);
    a.dependencies.push(required("x", None));
    let catalog = catalog(vec![(key("a"), vec![a]), (key("x"), vec![candidate("x", "x-one", 1)])]);
    let outcome = solve(&roots, &catalog);
    let solution =
        materialize_solution(InstanceUpgradeSolutionKind::Newest, &outcome.solutions[0], &roots, &Vec::new());
    assert_eq!(solution.dependency_changes[0].kind, InstanceUpgradeDependencyChangeKind::Add);
}

#[test]
fn transitive_dependency_closure_is_resolved() {
    let roots = vec![root("a", "a-old", true)];
    let mut a = candidate("a", "a-new", 3);
    a.dependencies.push(required("x", None));
    let mut x = candidate("x", "x-one", 2);
    x.dependencies.push(required("y", None));
    let catalog =
        catalog(vec![(key("a"), vec![a]), (key("x"), vec![x]), (key("y"), vec![candidate("y", "y-one", 1)])]);
    assert_eq!(solve(&roots, &catalog).solutions[0].assignments.len(), 3);
}

#[test]
fn multiple_roots_share_one_dependency_assignment() {
    let roots = vec![root("a", "a-old", true), root("b", "b-old", true)];
    let mut a = candidate("a", "a-new", 3);
    a.dependencies.push(required("x", Some("x-one")));
    let mut b = candidate("b", "b-new", 3);
    b.dependencies.push(required("x", Some("x-one")));
    let catalog =
        catalog(vec![(key("a"), vec![a]), (key("b"), vec![b]), (key("x"), vec![candidate("x", "x-one", 1)])]);
    assert_eq!(solve(&roots, &catalog).solutions[0].assignments.len(), 3);
}

#[test]
fn latest_conflict_backtracks_to_older_root_candidate() {
    let roots = vec![root("a", "a-old", true), root("b", "b-old", true)];
    let mut newest = candidate("a", "a-two", 3);
    newest.dependencies.push(incompatible("b"));
    let catalog = catalog(vec![
        (key("a"), vec![newest, candidate("a", "a-one", 2)]),
        (key("b"), vec![candidate("b", "b-one", 1)]),
    ]);
    let outcome = solve(&roots, &catalog);
    assert_eq!(outcome.solutions.len(), 1);
    assert_eq!(assigned(&outcome.solutions[0], "a").version_id, "a-one");
}

#[test]
fn complete_dependency_conflict_has_no_solution() {
    let roots = vec![root("a", "a-old", true), root("b", "b-old", true)];
    let mut a = candidate("a", "a-one", 1);
    a.dependencies.push(incompatible("b"));
    let catalog = catalog(vec![(key("a"), vec![a]), (key("b"), vec![candidate("b", "b-one", 1)])]);
    assert!(solve(&roots, &catalog).solutions.is_empty());
}

#[test]
fn missing_required_dependency_is_blocking() {
    let roots = vec![root("a", "a-old", true)];
    let mut a = candidate("a", "a-one", 1);
    a.dependencies.push(required("missing", None));
    let catalog = catalog(vec![(key("a"), vec![a])]);
    let outcome = solve(&roots, &catalog);
    assert_eq!(outcome.issues[0].code, InstanceUpgradeIssueCode::MissingRequiredDependency);
}

#[test]
fn incompatible_dependency_edge_is_blocking() {
    let roots = vec![root("a", "a-old", true), root("x", "x-old", true)];
    let mut a = candidate("a", "a-one", 1);
    a.dependencies.push(incompatible("x"));
    let catalog = catalog(vec![(key("a"), vec![a]), (key("x"), vec![candidate("x", "x-one", 1)])]);
    let outcome = solve(&roots, &catalog);
    assert!(outcome.solutions.is_empty());
    assert_eq!(outcome.issues[0].code, InstanceUpgradeIssueCode::IncompatibleDependency);
}

#[test]
fn orphaned_auto_dependency_is_suggested_for_removal() {
    let roots = vec![root("a", "a-old", true)];
    let catalog = catalog(vec![(key("a"), vec![candidate("a", "a-one", 1)])]);
    let outcome = solve(&roots, &catalog);
    let nodes = vec![installed("x", "x-old", true, false)];
    let solution = materialize_solution(InstanceUpgradeSolutionKind::Newest, &outcome.solutions[0], &roots, &nodes);
    assert_eq!(solution.dependency_changes[0].kind, InstanceUpgradeDependencyChangeKind::Remove);
}

#[test]
fn user_owned_dependency_identity_is_never_removed() {
    let roots = vec![root("a", "a-old", true)];
    let catalog = catalog(vec![(key("a"), vec![candidate("a", "a-one", 1)])]);
    let outcome = solve(&roots, &catalog);
    let nodes = vec![installed("x", "x-auto", true, false), installed("x", "x-user", false, true)];
    let solution = materialize_solution(InstanceUpgradeSolutionKind::Newest, &outcome.solutions[0], &roots, &nodes);
    assert!(solution.dependency_changes.is_empty());
}

#[test]
fn disabled_root_remains_disabled_after_upgrade() {
    let roots = vec![root("a", "a-old", false)];
    let catalog = catalog(vec![(key("a"), vec![candidate("a", "a-one", 1)])]);
    let outcome = solve(&roots, &catalog);
    let solution =
        materialize_solution(InstanceUpgradeSolutionKind::Newest, &outcome.solutions[0], &roots, &Vec::new());
    assert!(!solution.selections[0].enabled);
}

#[test]
fn disabled_only_dependency_remains_disabled() {
    let roots = vec![root("a", "a-old", false)];
    let mut a = candidate("a", "a-one", 2);
    a.dependencies.push(required("x", None));
    let catalog = catalog(vec![(key("a"), vec![a]), (key("x"), vec![candidate("x", "x-one", 1)])]);
    let outcome = solve(&roots, &catalog);
    let solution =
        materialize_solution(InstanceUpgradeSolutionKind::Newest, &outcome.solutions[0], &roots, &Vec::new());
    assert!(!solution.dependency_changes[0].enabled);
}

fn fixed(project_id: &str, version_id: &str) -> Vec<InstanceUpgradeFixedConstraint> {
    vec![InstanceUpgradeFixedConstraint {
        provider: ContentProvider::Modrinth,
        project_id: project_id.to_string(),
        version_id: version_id.to_string(),
    }]
}

fn test_environment(shader_runtime: ShaderRuntime) -> InstanceUpgradeEnvironment {
    InstanceUpgradeEnvironment {
        game_version: "26.1".to_string(),
        mod_loader: ModLoader::Fabric,
        mod_loader_version: None,
        shader_runtime,
    }
}

fn test_version(loaders: Vec<&str>, game_versions: Vec<&str>) -> ModrinthVersionInfo {
    ModrinthVersionInfo {
        id: "version".to_string(),
        project_id: "project".to_string(),
        version_type: "release".to_string(),
        game_versions: game_versions.into_iter().map(str::to_string).collect(),
        loaders: loaders.into_iter().map(str::to_string).collect(),
        date_published: 1,
        date_published_nanos: 0,
        dependencies: Vec::new(),
    }
}

#[test]
fn optifine_to_iris_shader_accepts_iris_release() {
    let version = test_version(vec!["iris"], vec!["26.1"]);
    assert!(modrinth_version_matches(&version, ProjectType::ShaderPack, &test_environment(ShaderRuntime::Iris)));
}

#[test]
fn optifine_to_iris_shader_rejects_optifine_only_release() {
    let version = test_version(vec!["optifine"], vec!["26.1"]);
    assert!(!modrinth_version_matches(&version, ProjectType::ShaderPack, &test_environment(ShaderRuntime::Iris)));
}

#[test]
fn valid_custom_fixed_version_is_selected() {
    let roots = vec![root("a", "old", true)];
    let catalog = catalog(vec![(key("a"), vec![candidate("a", "two", 2), candidate("a", "one", 1)])]);
    let outcome = solve_upgrade(&roots, &catalog, &fixed("a", "one"), &Vec::new());
    assert_eq!(assigned(&outcome.solutions[0], "a").version_id, "one");
}

#[test]
fn custom_fixed_version_conflict_returns_detail() {
    let roots = vec![root("a", "old", true), root("b", "old", true)];
    let mut a = candidate("a", "two", 2);
    a.dependencies.push(incompatible("b"));
    let catalog = catalog(vec![(key("a"), vec![a, candidate("a", "one", 1)]), (key("b"), vec![candidate("b", "one", 1)])]);
    let outcome = solve_upgrade(&roots, &catalog, &fixed("a", "two"), &Vec::new());
    assert!(outcome.solutions.is_empty());
    assert_eq!(outcome.issues[0].conflicting_project_id.as_deref(), Some("b"));
    assert!(outcome.issues[0].dependency_requirements.iter().any(|detail| detail.root_project_id == "a"));
    assert!(outcome.issues[0].dependency_requirements.iter().any(|detail| detail.root_project_id == "b"));
}

#[test]
fn compatible_current_outside_exploration_limit_remains_minimal() {
    let roots = vec![root("a", "current", true)];
    let mut candidates =
        (1..=6).map(|index| candidate("a", &format!("new-{index}"), 20 - index)).collect::<Vec<_>>();
    let mut current = candidate("a", "current", 1);
    current.installed_current = true;
    candidates.push(current);
    let catalog = catalog(vec![(key("a"), candidates)]);
    let outcome = solve(&roots, &catalog);
    let minimal = pick_minimal(&outcome.solutions, &roots, &Vec::new()).unwrap();
    assert_eq!(assigned(&outcome.solutions[minimal], "a").version_id, "current");
}

#[test]
fn custom_fixed_candidate_outside_exploration_limit_is_not_truncated() {
    let roots = vec![root("a", "old", true)];
    let mut candidates =
        (1..=6).map(|index| candidate("a", &format!("new-{index}"), 20 - index)).collect::<Vec<_>>();
    candidates.push(candidate("a", "fixed-seven", 1));
    let catalog = catalog(vec![(key("a"), candidates)]);
    let outcome = solve_upgrade(&roots, &catalog, &fixed("a", "fixed-seven"), &Vec::new());
    assert_eq!(assigned(&outcome.solutions[0], "a").version_id, "fixed-seven");
}

#[test]
fn custom_fixed_version_from_another_project_is_rejected() {
    let version = test_version(vec!["fabric"], vec!["26.1"]);
    let error = validate_modrinth_custom_fixed(
        &key("different-project"),
        &version,
        ProjectType::Mod,
        &test_environment(ShaderRuntime::Iris),
    )
    .unwrap_err();
    assert!(error.contains("belongs to project"));
}

#[test]
fn custom_fixed_version_incompatible_with_target_is_rejected() {
    let version = test_version(vec!["fabric"], vec!["1.20.1"]);
    let error =
        validate_modrinth_custom_fixed(&key("project"), &version, ProjectType::Mod, &test_environment(ShaderRuntime::Iris))
            .unwrap_err();
    assert!(error.contains("not compatible"));
}

#[test]
fn candidate_limit_returns_limit_issue_instead_of_false_conflict() {
    let roots = vec![root("a", "old", true)];
    let mut pool = CandidatePool { candidates: vec![candidate("a", "one", 1)], exploration_limited: true };
    pool.candidates[0].dependencies.push(required("missing", None));
    let mut catalog = UpgradeCatalog::new();
    catalog.insert(key("a"), pool);
    let outcome = solve(&roots, &catalog);
    assert_eq!(outcome.issues[0].code, InstanceUpgradeIssueCode::SearchLimitReached);
}

#[test]
fn exact_dependency_conflict_contains_both_root_provenances() {
    let roots = vec![root("a", "old-a", true), root("b", "old-b", true)];
    let mut a = candidate("a", "a-one", 2);
    a.dependencies.push(required("x", Some("x-two")));
    let mut b = candidate("b", "b-one", 2);
    b.dependencies.push(required("x", Some("x-three")));
    let catalog = catalog(vec![
        (key("a"), vec![a]),
        (key("b"), vec![b]),
        (key("x"), vec![candidate("x", "x-two", 1), candidate("x", "x-three", 1)]),
    ]);
    let outcome = solve(&roots, &catalog);
    let details = &outcome.issues[0].dependency_requirements;
    assert_eq!(details.len(), 2);
    assert!(details
        .iter()
        .any(|detail| detail.root_project_id == "a" && detail.required_release_id.as_deref() == Some("x-two")));
    assert!(details
        .iter()
        .any(|detail| detail.root_project_id == "b" && detail.required_release_id.as_deref() == Some("x-three")));
}

#[test]
fn transitive_missing_dependency_reports_root_and_direct_parent() {
    let roots = vec![root("a", "old", true)];
    let mut a = candidate("a", "a-one", 3);
    a.dependencies.push(required("x", None));
    let mut x = candidate("x", "x-one", 2);
    x.dependencies.push(required("missing", Some("missing-one")));
    let catalog = catalog(vec![(key("a"), vec![a]), (key("x"), vec![x])]);
    let outcome = solve(&roots, &catalog);
    let detail = &outcome.issues[0].dependency_requirements[0];
    assert_eq!(detail.root_project_id, "a");
    assert_eq!(detail.parent_project_id, "x");
    assert_eq!(detail.parent_release_id, "x-one");
    assert_eq!(detail.dependency_project_id, "missing");
}

fn a_with_scoped_incompatibility() -> UpgradeCandidate {
    let mut a = candidate("a", "a-one", 2);
    a.dependencies.push(CandidateDependency {
        key: key("x"),
        version_id: Some("x-two".to_string()),
        kind: CandidateDependencyKind::Incompatible,
    });
    a
}

#[test]
fn version_scoped_incompatible_edge_only_rejects_exact_version() {
    let roots = vec![root("a", "old-a", true), root("x", "old-x", true)];
    let compatible_catalog =
        catalog(vec![(key("a"), vec![a_with_scoped_incompatibility()]), (key("x"), vec![candidate("x", "x-three", 1)])]);
    assert!(!solve(&roots, &compatible_catalog).solutions.is_empty());
    let incompatible_catalog =
        catalog(vec![(key("a"), vec![a_with_scoped_incompatibility()]), (key("x"), vec![candidate("x", "x-two", 1)])]);
    assert!(solve(&roots, &incompatible_catalog).solutions.is_empty());
}

fn unsafe_pair() -> UpgradeCatalog {
    let mut a = candidate("a", "a-old", 2);
    a.compatible = false;
    a.installed_current = true;
    a.dependencies.push(required("x", Some("x-old")));
    let mut x = candidate("x", "x-old", 1);
    x.compatible = false;
    x.installed_current = true;
    catalog(vec![(key("a"), vec![a]), (key("x"), vec![x])])
}

#[test]
fn keep_incompatible_root_preserves_unsafe_dependency_closure() {
    let mut keep = root("a", "a-old", true);
    keep.action = InstanceUpgradeAction::Keep;
    let catalog = unsafe_pair();
    let nodes = vec![installed("x", "x-old", true, false)];
    let roots = vec![keep];
    let outcome = solve(&roots, &catalog);
    assert_eq!(outcome.solutions.len(), 1);
    let solution = materialize_solution(InstanceUpgradeSolutionKind::Newest, &outcome.solutions[0], &roots, &nodes);
    assert!(solution.warnings.len() >= 2);
    assert!(solution.dependency_changes.iter().all(|change| change.kind != InstanceUpgradeDependencyChangeKind::Remove));
}

#[test]
fn disable_incompatible_root_keeps_old_dependency_disabled() {
    let mut disabled = root("a", "a-old", true);
    disabled.action = InstanceUpgradeAction::Disable;
    let catalog = unsafe_pair();
    let roots = vec![disabled];
    let outcome = solve(&roots, &catalog);
    let solution =
        materialize_solution(InstanceUpgradeSolutionKind::Newest, &outcome.solutions[0], &roots, &Vec::new());
    assert!(!solution.selections[0].enabled);
    assert!(!solution.dependency_changes[0].enabled);
}

#[test]
fn enabled_root_dependency_wins_over_disabled_preserved_dependency() {
    let mut disabled = root("d", "d-old", true);
    disabled.action = InstanceUpgradeAction::Disable;
    let enabled = root("a", "a-old", true);
    let mut d = candidate("d", "d-old", 3);
    d.installed_current = true;
    d.compatible = false;
    d.dependencies.push(required("x", Some("x-old")));
    let mut a = candidate("a", "a-new", 3);
    a.dependencies.push(required("x", Some("x-new")));
    let mut old_x = candidate("x", "x-old", 1);
    old_x.installed_current = true;
    old_x.compatible = false;
    let catalog = catalog(vec![
        (key("d"), vec![d]),
        (key("a"), vec![a]),
        (key("x"), vec![candidate("x", "x-new", 2), old_x]),
    ]);
    let roots = vec![disabled, enabled];
    let outcome = solve(&roots, &catalog);
    let selected = &outcome.solutions[0];
    assert_eq!(assigned(selected, "x").version_id, "x-new");
    let solution = materialize_solution(InstanceUpgradeSolutionKind::Newest, selected, &roots, &Vec::new());
    assert!(solution.dependency_changes.iter().find(|change| change.project_id == "x").unwrap().enabled);
}

#[test]
fn prerelease_dependency_requires_and_records_exact_confirmation() {
    let roots = vec![root("a", "old", true)];
    let mut a = candidate("a", "a-one", 2);
    a.dependencies.push(required("x", Some("x-beta")));
    let mut beta = candidate("x", "x-beta", 1);
    beta.channel = CandidateChannel::Beta;
    let catalog = catalog(vec![(key("a"), vec![a]), (key("x"), vec![beta])]);
    let blocked = solve(&roots, &catalog);
    assert_eq!(blocked.issues[0].code, InstanceUpgradeIssueCode::PrereleaseOnly);
    assert_eq!(blocked.issues[0].dependency_requirements[0].candidate_release_id.as_deref(), Some("x-beta"));
    let confirmations = vec![InstanceUpgradePrereleaseConfirmation {
        provider: ContentProvider::Modrinth,
        project_id: "x".to_string(),
        version_id: "x-beta".to_string(),
    }];
    let allowed = solve_upgrade(&roots, &catalog, &Vec::new(), &confirmations);
    assert_eq!(allowed.solutions.len(), 1);
}

#[test]
fn custom_fixed_beta_root_is_an_explicit_confirmation() {
    let roots = vec![root("a", "old", true)];
    let mut beta = candidate("a", "a-beta", 1);
    beta.channel = CandidateChannel::Beta;
    let catalog = catalog(vec![(key("a"), vec![beta])]);
    assert_eq!(solve_upgrade(&roots, &catalog, &fixed("a", "a-beta"), &Vec::new()).solutions.len(), 1);
}

#[test]
fn trusted_cross_provider_alias_prevents_duplicate_dependency_add() {
    let cf_root = NodeKey::new(ContentProvider::CurseForge, "root-cf");
    let cf_dep = NodeKey::new(ContentProvider::CurseForge, "dep-cf");
    let roots = vec![RootRequest {
        content_id: "root".to_string(),
        key: NodeKey::new(ContentProvider::CurseForge, "root-cf"),
        current_release_id: "root-old".to_string(),
        enabled: true,
        action: InstanceUpgradeAction::Upgrade,
        allow_prerelease: false,
    }];
    let root_candidate = UpgradeCandidate {
        key: NodeKey::new(ContentProvider::CurseForge, "root-cf"),
        version_id: "root-new".to_string(),
        published: 2,
        published_nanos: 0,
        channel: CandidateChannel::Release,
        compatible: true,
        installed_current: false,
        dependencies: vec![CandidateDependency {
            key: NodeKey::new(ContentProvider::CurseForge, "dep-cf"),
            version_id: Some("dep-file".to_string()),
            kind: CandidateDependencyKind::Required,
        }],
    };
    let dep_candidate = UpgradeCandidate {
        key: NodeKey::new(ContentProvider::CurseForge, "dep-cf"),
        version_id: "dep-file".to_string(),
        published: 1,
        published_nanos: 0,
        channel: CandidateChannel::Release,
        compatible: true,
        installed_current: true,
        dependencies: Vec::new(),
    };
    let catalog = catalog(vec![(cf_root, vec![root_candidate]), (cf_dep, vec![dep_candidate])]);
    let installed_dep = InstalledNode {
        content_id: "dep-entry".to_string(),
        key: key("dep-mr"),
        current_release_id: "dep-mr-version".to_string(),
        project_type: ProjectType::Mod,
        enabled: true,
        auto_dependency: true,
        user_owned: false,
        migratable: true,
        aliases: vec![
            InstalledAlias { key: key("dep-mr"), current_release_id: "dep-mr-version".to_string() },
            InstalledAlias {
                key: NodeKey::new(ContentProvider::CurseForge, "dep-cf"),
                current_release_id: "dep-file".to_string(),
            },
        ],
    };
    let outcome = solve(&roots, &catalog);
    let solution =
        materialize_solution(InstanceUpgradeSolutionKind::Newest, &outcome.solutions[0], &roots, &vec![installed_dep]);
    assert_eq!(solution.dependency_changes[0].kind, InstanceUpgradeDependencyChangeKind::Keep);
}

#[test]
fn installed_releases_are_marked_or_added_to_their_pools() {
    let mut cat = catalog(vec![(key("a"), vec![candidate("a", "new", 5), candidate("a", "old", 1), candidate("a", "old", 0)])]);
    let mut node = installed("a", "old", false, true);
    node.aliases.push(InstalledAlias { key: key("b"), current_release_id: "b1".to_string() });
    let other = installed("a", "gone", false, true);
    cat.mark_installed_releases(&vec![node, other]);
    let a = cat.get(&key("a")).unwrap();
    let marks: Vec<(&str, bool)> = a.candidates.iter().map(|c| (c.version_id.as_str(), c.installed_current)).collect();
    assert_eq!(marks, vec![("new", false), ("old", true), ("old", false), ("gone", true)]);
    let gone = &a.candidates[3];
    assert!(!gone.compatible);
    assert_eq!(gone.channel, CandidateChannel::Release);
    assert_eq!(gone.published, theseus::upgrade::provider::EARLIEST_PUBLISHED);
    assert!(gone.dependencies.is_empty());
    let b = cat.get(&key("b")).unwrap();
    assert!(!b.exploration_limited);
    assert_eq!(b.candidates.len(), 1);
    assert_eq!(b.candidates[0].version_id, "b1");
    assert!(b.candidates[0].installed_current);
}

fn dep(project_id: &str, version_id: Option<&str>, kind: CandidateDependencyKind) -> CandidateDependency {
    CandidateDependency { key: key(project_id), version_id: version_id.map(str::to_string), kind }
}

fn with_deps(project_id: &str, version_id: &str, dependencies: Vec<CandidateDependency>) -> UpgradeCandidate {
    let mut c = candidate(project_id, version_id, 1);
    c.dependencies = dependencies;
    c
}

fn sorted(mut v: Vec<String>) -> Vec<String> {
    v.sort();
    v
}

#[test]
fn catalog_loading_follows_required_dependencies_and_reloads_for_new_exact_versions() {
    let mut work = CatalogWork::new(
        vec![(key("a"), ProjectType::Mod), (key("b"), ProjectType::ResourcePack)],
        &vec![(key("a"), "a1".to_string())],
    );
    let (k, t, exact) = work.next().unwrap();
    assert_eq!((k.project_id.as_str(), t, exact), ("a", ProjectType::Mod, vec!["a1".to_string()]));
    work.follow_all(&vec![with_deps(
        "a",
        "a1",
        vec![
            dep("c", Some("c1"), CandidateDependencyKind::Required),
            dep("d", None, CandidateDependencyKind::Optional),
            dep("a", None, CandidateDependencyKind::Required),
        ],
    )]);
    let (k, t, exact) = work.next().unwrap();
    assert_eq!((k.project_id.as_str(), t, exact), ("b", ProjectType::ResourcePack, Vec::<String>::new()));
    work.follow_all(&vec![]);
    let (k, t, exact) = work.next().unwrap();
    assert_eq!((k.project_id.as_str(), t, exact), ("c", ProjectType::Mod, vec!["c1".to_string()]));
    work.follow_all(&vec![with_deps("c", "c1", vec![dep("c", Some("c2"), CandidateDependencyKind::Required)])]);
    let (k, t, exact) = work.next().unwrap();
    assert_eq!((k.project_id.as_str(), t), ("c", ProjectType::Mod));
    assert_eq!(sorted(exact), vec!["c1".to_string(), "c2".to_string()]);
    work.follow_all(&vec![with_deps("c", "c2", vec![dep("c", Some("c2"), CandidateDependencyKind::Required)])]);
    assert!(work.next().is_none());
}

fn edge(root: &str, dependency: &str) -> theseus::model::InstanceUpgradeDependencyRequirement {
    theseus::model::InstanceUpgradeDependencyRequirement {
        root_content_id: format!("entry-{root}"),
        root_provider: ContentProvider::Modrinth,
        root_project_id: root.to_string(),
        parent_provider: ContentProvider::Modrinth,
        parent_project_id: root.to_string(),
        parent_release_id: "1".to_string(),
        dependency_provider: ContentProvider::Modrinth,
        dependency_project_id: dependency.to_string(),
        required_release_id: None,
        candidate_release_id: None,
    }
}

#[test]
fn recorded_origins_are_replaced_extended_or_added() {
    let entries = record_origins(Vec::new(), &key("x"), vec![edge("a", "x")], false);
    let entries = record_origins(entries, &key("y"), vec![edge("b", "y")], true);
    let entries = record_origins(entries, &key("x"), vec![edge("c", "x")], false);
    let roots_of = |e: &Vec<theseus::upgrade::solver::OriginEntry>, k: &str| -> Vec<String> {
        origins_of(e, &key(k)).into_iter().map(|d| d.root_project_id).collect()
    };
    assert_eq!(roots_of(&entries, "x"), vec!["a".to_string(), "c".to_string()]);
    let entries = record_origins(entries, &key("x"), vec![edge("d", "x")], true);
    assert_eq!(roots_of(&entries, "x"), vec!["d".to_string()]);
    assert_eq!(roots_of(&entries, "y"), vec!["b".to_string()]);
    assert!(roots_of(&entries, "z").is_empty());
    let copy = copy_origins(&entries);
    assert_eq!(copy.len(), 2);
    assert_eq!(roots_of(&copy, "y"), vec!["b".to_string()]);
}
