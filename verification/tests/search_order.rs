use theseus::model::{ContentProvider, InstanceUpgradeAction, InstanceUpgradeIssueCode};
use theseus::upgrade::candidates::{
    CandidateChannel, CandidateDependency, CandidateDependencyKind, CandidatePool, NodeKey, UpgradeCandidate,
    UpgradeCatalog,
};
use theseus::upgrade::search::{search_solutions, solve_upgrade};
use theseus::upgrade::solver::{Requirement, RootRequest, SearchState, SolverResult, MAX_SEARCH_STATES};

fn project(project_id: &str) -> NodeKey {
    NodeKey::new(ContentProvider::Modrinth, project_id)
}

fn release(project_id: &str, version_id: &str) -> UpgradeCandidate {
    UpgradeCandidate {
        key: project(project_id),
        version_id: version_id.to_string(),
        published: 1,
        published_nanos: 0,
        channel: CandidateChannel::Release,
        compatible: true,
        installed_current: false,
        dependencies: Vec::new(),
    }
}

fn upgrade_root(project_id: &str, current: &str, action: InstanceUpgradeAction) -> RootRequest {
    RootRequest {
        content_id: format!("entry-{project_id}"),
        key: project(project_id),
        current_release_id: current.to_string(),
        enabled: true,
        action,
        allow_prerelease: false,
    }
}

fn pools(entries: Vec<(NodeKey, Vec<UpgradeCandidate>)>) -> UpgradeCatalog {
    let mut catalog = UpgradeCatalog::new();
    for (key, candidates) in entries {
        catalog.insert(key, CandidatePool { candidates, exploration_limited: false });
    }
    catalog
}

fn root_need(project_id: &str) -> Requirement {
    Requirement {
        key: project(project_id),
        root_key: project(project_id),
        root_content_id: format!("entry-{project_id}"),
        version_id: None,
        explicit_prerelease: false,
        preserve_unsafe: false,
        origins: Vec::new(),
    }
}

fn fresh_state() -> SearchState {
    SearchState { visited: 0, limit_reached: false, first_issue: None }
}

fn chosen(solution: &SolverResult, project_id: &str) -> String {
    solution.assignments.iter().find(|c| c.key.project_id == project_id).expect("assigned").version_id.clone()
}

#[test]
fn search_lists_every_release_in_pool_order_and_counts_states() {
    let roots = vec![upgrade_root("a", "a-old", InstanceUpgradeAction::Upgrade)];
    let catalog = pools(vec![(project("a"), vec![release("a", "a-new"), release("a", "a-old")])]);
    let mut state = fresh_state();
    let mut solutions = Vec::new();
    search_solutions(
        vec![root_need("a")],
        Vec::new(),
        Vec::new(),
        Vec::new(),
        &roots,
        &catalog,
        &Vec::new(),
        &mut state,
        &mut solutions,
    );
    assert_eq!(solutions.len(), 2);
    assert_eq!(chosen(&solutions[0], "a"), "a-new");
    assert_eq!(chosen(&solutions[1], "a"), "a-old");
    assert!(solutions.iter().all(|s| s.assignments.len() == 1 && s.preserved_unsafe.is_empty()));
    assert_eq!(state.visited, 3);
    assert!(!state.limit_reached);
    assert!(state.first_issue.is_none());
}

#[test]
fn search_takes_the_last_requirement_first() {
    let roots = vec![
        upgrade_root("a", "a-old", InstanceUpgradeAction::Upgrade),
        upgrade_root("b", "b-old", InstanceUpgradeAction::Upgrade),
    ];
    let catalog = pools(vec![
        (project("a"), vec![release("a", "a-two"), release("a", "a-one")]),
        (project("b"), vec![release("b", "b-two"), release("b", "b-one")]),
    ]);
    let mut state = fresh_state();
    let mut solutions = Vec::new();
    search_solutions(
        vec![root_need("a"), root_need("b")],
        Vec::new(),
        Vec::new(),
        Vec::new(),
        &roots,
        &catalog,
        &Vec::new(),
        &mut state,
        &mut solutions,
    );
    let order: Vec<(String, String)> =
        solutions.iter().map(|s| (s.assignments[0].version_id.clone(), s.assignments[1].version_id.clone())).collect();
    assert_eq!(
        order,
        vec![
            ("b-two".to_string(), "a-two".to_string()),
            ("b-two".to_string(), "a-one".to_string()),
            ("b-one".to_string(), "a-two".to_string()),
            ("b-one".to_string(), "a-one".to_string()),
        ]
    );
    assert_eq!(state.visited, 7);
}

#[test]
fn search_stops_at_the_state_limit() {
    let roots = vec![upgrade_root("a", "a-old", InstanceUpgradeAction::Upgrade)];
    let catalog = pools(vec![(project("a"), vec![release("a", "a-new"), release("a", "a-old")])]);
    let mut state = SearchState { visited: MAX_SEARCH_STATES - 1, limit_reached: false, first_issue: None };
    let mut solutions = Vec::new();
    search_solutions(
        vec![root_need("a")],
        Vec::new(),
        Vec::new(),
        Vec::new(),
        &roots,
        &catalog,
        &Vec::new(),
        &mut state,
        &mut solutions,
    );
    assert!(solutions.is_empty());
    assert!(state.limit_reached);
    assert_eq!(state.visited, MAX_SEARCH_STATES);
    let outcome_roots = roots;
    let mut spent = SearchState { visited: MAX_SEARCH_STATES, limit_reached: false, first_issue: None };
    let mut none = Vec::new();
    search_solutions(
        Vec::new(),
        Vec::new(),
        Vec::new(),
        Vec::new(),
        &outcome_roots,
        &catalog,
        &Vec::new(),
        &mut spent,
        &mut none,
    );
    assert!(none.is_empty());
    assert!(spent.limit_reached);
    assert_eq!(spent.visited, MAX_SEARCH_STATES);
}

#[test]
fn first_dead_end_is_the_reported_issue() {
    let roots = vec![
        upgrade_root("a", "a-old", InstanceUpgradeAction::Upgrade),
        upgrade_root("x", "x-old", InstanceUpgradeAction::Upgrade),
    ];
    let mut a = release("a", "a-one");
    a.dependencies.push(CandidateDependency {
        key: project("x"),
        version_id: None,
        kind: CandidateDependencyKind::Incompatible,
    });
    let catalog = pools(vec![(project("a"), vec![a]), (project("x"), vec![release("x", "x-one")])]);
    let outcome = solve_upgrade(&roots, &catalog, &Vec::new(), &Vec::new());
    assert!(outcome.solutions.is_empty());
    assert_eq!(outcome.issues.len(), 1);
    let issue = &outcome.issues[0];
    assert_eq!(issue.code, InstanceUpgradeIssueCode::IncompatibleDependency);
    assert_eq!(issue.project_id.as_deref(), Some("a"));
    assert_eq!(issue.conflicting_project_id.as_deref(), Some("x"));
    assert_eq!(issue.message, "modrinth:a is incompatible with modrinth:x");
    assert_eq!(issue.dependency_requirements.len(), 2);
    assert_eq!(issue.dependency_requirements[0].candidate_release_id.as_deref(), Some("x-one"));
    assert_eq!(issue.dependency_requirements[1].parent_release_id, "x-one");
    assert_eq!(issue.dependency_requirements[1].candidate_release_id.as_deref(), Some("a-one"));
}

#[test]
fn kept_root_may_stay_at_an_incompatible_release() {
    let roots = vec![upgrade_root("a", "a-old", InstanceUpgradeAction::Keep)];
    let mut old = release("a", "a-old");
    old.compatible = false;
    let catalog = pools(vec![(project("a"), vec![release("a", "a-new"), old])]);
    let outcome = solve_upgrade(&roots, &catalog, &Vec::new(), &Vec::new());
    assert_eq!(outcome.solutions.len(), 1);
    assert_eq!(chosen(&outcome.solutions[0], "a"), "a-old");
    assert!(outcome.issues.is_empty());
}

#[test]
fn unmet_requirement_without_release_is_missing_dependency_with_its_edge() {
    let roots = vec![upgrade_root("a", "a-old", InstanceUpgradeAction::Upgrade)];
    let mut a = release("a", "a-one");
    a.dependencies.push(CandidateDependency {
        key: project("lib"),
        version_id: Some("lib-2".to_string()),
        kind: CandidateDependencyKind::Required,
    });
    let catalog = pools(vec![(project("a"), vec![a]), (project("lib"), vec![release("lib", "lib-1")])]);
    let outcome = solve_upgrade(&roots, &catalog, &Vec::new(), &Vec::new());
    assert!(outcome.solutions.is_empty());
    let issue = &outcome.issues[0];
    assert_eq!(issue.code, InstanceUpgradeIssueCode::MissingRequiredDependency);
    assert_eq!(issue.project_id.as_deref(), Some("lib"));
    assert_eq!(issue.message, "No compatible release satisfies required project modrinth:lib");
    assert_eq!(issue.dependency_requirements.len(), 1);
    assert_eq!(issue.dependency_requirements[0].parent_release_id, "a-one");
    assert_eq!(issue.dependency_requirements[0].required_release_id.as_deref(), Some("lib-2"));
    assert_eq!(issue.dependency_requirements[0].candidate_release_id, None);
}
