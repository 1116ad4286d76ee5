use std::cmp::Ordering;
use theseus::model::ContentProvider;
use theseus::upgrade::candidates::{CandidateChannel, NodeKey, UpgradeCandidate};
use theseus::upgrade::provider::ModrinthVersionInfo;
use theseus::upgrade::release_order::{compare_modrinth_version, sort_candidates};

fn cand(version_id: &str, published: i64, channel: CandidateChannel) -> UpgradeCandidate {
    UpgradeCandidate {
        key: NodeKey::new(ContentProvider::Modrinth, "p"),
        version_id: version_id.to_string(),
        published,
        published_nanos: 0,
        channel,
        compatible: true,
        installed_current: false,
        dependencies: Vec::new(),
    }
}

fn version(id: &str, version_type: &str, date_published: i64) -> ModrinthVersionInfo {
    ModrinthVersionInfo {
        id: id.to_string(),
        project_id: "p".to_string(),
        version_type: version_type.to_string(),
        game_versions: Vec::new(),
        loaders: Vec::new(),
        date_published,
        date_published_nanos: 0,
        dependencies: Vec::new(),
    }
}

#[test]
fn candidates_sort_releases_first_then_newest_then_greater_id() {
    let mut cs = vec![
        cand("a", 10, CandidateChannel::Beta),
        cand("b", 5, CandidateChannel::Release),
        cand("c", 20, CandidateChannel::Alpha),
        cand("d", 7, CandidateChannel::Release),
        cand("e", 7, CandidateChannel::Release),
    ];
    sort_candidates(&mut cs);
    let ids: Vec<&str> = cs.iter().map(|c| c.version_id.as_str()).collect();
    assert_eq!(ids, vec!["e", "d", "b", "a", "c"]);
}

#[test]
fn candidates_with_equal_keys_keep_their_order() {
    let mut cs = vec![cand("x", 1, CandidateChannel::Release), cand("x", 1, CandidateChannel::Release)];
    cs[0].compatible = false;
    sort_candidates(&mut cs);
    assert!(!cs[0].compatible);
    assert!(cs[1].compatible);
}

#[test]
fn modrinth_versions_compare_by_channel_date_and_id() {
    assert_eq!(compare_modrinth_version(&version("a", "release", 1), &version("b", "BETA", 9)), Ordering::Less);
    assert_eq!(compare_modrinth_version(&version("a", "alpha", 9), &version("b", "beta", 1)), Ordering::Greater);
    assert_eq!(compare_modrinth_version(&version("a", "release", 2), &version("b", "release", 1)), Ordering::Less);
    assert_eq!(compare_modrinth_version(&version("b", "release", 1), &version("a", "release", 1)), Ordering::Less);
    assert_eq!(compare_modrinth_version(&version("a", "other", 1), &version("a", "release", 1)), Ordering::Equal);
}

#[test]
fn candidates_published_in_the_same_second_sort_by_nanoseconds() {
    let mut early = cand("z", 7, CandidateChannel::Release);
    early.published_nanos = 100;
    let mut late = cand("a", 7, CandidateChannel::Release);
    late.published_nanos = 200;
    let mut cs = vec![early, late];
    sort_candidates(&mut cs);
    assert_eq!(cs[0].version_id, "a");
    let mut left = version("a", "release", 5);
    left.date_published_nanos = 1;
    let right = version("b", "release", 5);
    assert_eq!(compare_modrinth_version(&left, &right), Ordering::Less);
}
