use theseus::downloads::browser_download_file_name_matches;
use theseus::h2::{
    h2_ineligible_reason, split_ranges, DownloadRoute, DownloadRouteSource, NativeH2IneligibleReason, ProxyPolicy,
};

#[test]
fn splits_file_into_eight_contiguous_ranges() {
    let ranges = split_ranges(83, 8);
    assert_eq!(ranges.len(), 8);
    assert_eq!(ranges.first().unwrap().start, 0);
    assert_eq!(ranges.last().unwrap().end, 82);
    assert!(ranges.windows(2).all(|pair| pair[0].end + 1 == pair[1].start));
}

#[test]
fn splits_file_into_sixteen_contiguous_ranges() {
    let ranges = split_ranges(1024 * 1024 + 7, 16);
    assert_eq!(ranges.len(), 16);
    assert_eq!(ranges.first().unwrap().start, 0);
    assert_eq!(ranges.last().unwrap().end, 1024 * 1024 + 6);
    assert!(ranges.windows(2).all(|pair| pair[0].end + 1 == pair[1].start));
}

fn route(proxy: ProxyPolicy) -> DownloadRoute {
    DownloadRoute {
        url: "https://native-policy.example/file".to_string(),
        source: DownloadRouteSource::Official,
        is_mirror: false,
        allow_sensitive_headers: true,
        supports_range: true,
        proxy,
    }
}

#[test]
fn direct_routes_ignore_system_proxy_environment() {
    // Whatever the environment says, a direct route never waits on it.
    for system_proxy in [false, true] {
        assert_ne!(
            h2_ineligible_reason(&route(ProxyPolicy::Direct), true, false, system_proxy),
            Some(NativeH2IneligibleReason::SystemProxy)
        );
    }
}

#[test]
fn browser_duplicates_match_but_incomplete_files_do_not() {
    for actual in [
        "example-mod.jar",
        "EXAMPLE-MOD.JAR",
        "example-mod (1).jar",
        "example-mod(2).jar",
        "example-mod (123).JAR",
    ] {
        assert!(browser_download_file_name_matches(actual, "example-mod.jar"), "expected {actual:?} to match");
    }
    for actual in [
        "example-mod-fabric.jar",
        "example-mod (copy).jar",
        "example-mod ().jar",
        "example-mod (1) copy.jar",
        "example-mod (1).zip",
        "other-mod (1).jar",
    ] {
        assert!(!browser_download_file_name_matches(actual, "example-mod.jar"), "expected {actual:?} not to match");
    }
    for suffix in ["crdownload", "part", "partial", "tmp", "download"] {
        assert!(!browser_download_file_name_matches(&format!("example-mod.jar.{suffix}"), "example-mod.jar"));
        assert!(!browser_download_file_name_matches(
            &format!("example-mod.jar.{}", suffix.to_ascii_uppercase()),
            "example-mod.jar"
        ));
    }
}
