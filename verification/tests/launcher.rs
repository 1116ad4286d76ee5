use theseus::file_lock::{
    all_starts_in_range, boot_time, proc_name, proc_start_time, start_in_range, stat_ticks, ProcEntry, MAX_START_SECS,
};
use theseus::import::InstanceCollector;
use theseus::lightweight::{EnterDecision, EventAction, LightweightMode, ProcessEvent};
use theseus::terracotta::{
    archive_checksum_accepts, build_room_url, parse_room_code, terracotta_download_step, terracotta_download_urls,
    terracotta_source_step, terracotta_start_step, DownloadAction, DownloadEvent, DownloadJob, PortFile, SourceOutcome,
    SourceStep, StartAction, StartEvent, StartJob, TerracottaState, TerracottaStatus, PORT_FILE_ATTEMPTS,
};

fn event(kind: &str, crashed: Option<bool>) -> ProcessEvent {
    ProcessEvent {
        instance_id: "inst".to_string(),
        uuid: "uuid".to_string(),
        event: kind.to_string(),
        crashed,
        lightweight_replay: false,
    }
}

#[test]
fn lightweight_mode_returns_when_the_last_game_finishes() {
    let mut mode = LightweightMode::new();
    assert!(matches!(mode.enter_decision(), EnterDecision::Refused(_)));
    assert!(matches!(mode.process_event(event("launched", None)), EventAction::GameLaunched));
    assert!(matches!(mode.process_event(event("launched", None)), EventAction::GameLaunched));
    assert!(matches!(mode.enter_decision(), EnterDecision::Proceed));
    assert!(mode.commit_enter());
    assert!(!mode.commit_enter());
    assert!(matches!(mode.process_event(event("finished", Some(false))), EventAction::RefreshTray));
    match mode.process_event(event("finished", Some(false))) {
        EventAction::Restore { route, was_lightweight } => {
            assert_eq!(route, "/");
            assert!(was_lightweight);
        }
        other => panic!("expected a restore, got {other:?}"),
    }
    assert!(!mode.is_active());
}

#[test]
fn lightweight_crash_restores_and_is_kept() {
    let mut mode = LightweightMode::new();
    mode.process_event(event("launched", None));
    mode.process_event(event("launched", None));
    mode.commit_enter();
    assert!(matches!(mode.process_event(event("finished", Some(true))), EventAction::Restore { .. }));
    let crash = mode.take_pending_crash().expect("crash is kept");
    assert_eq!(crash.instance_id, "inst");
    assert!(mode.take_pending_crash().is_none());
    let mut replay = event("launched", None);
    replay.lightweight_replay = true;
    assert!(matches!(mode.process_event(replay), EventAction::Ignore));
}

#[test]
fn collector_keeps_each_path_once() {
    let mut collector = InstanceCollector::new();
    collector.push("A".to_string(), "/x/a".to_string());
    collector.push("A again".to_string(), "/x/a".to_string());
    collector.push("B".to_string(), "/x/b".to_string());
    let names: Vec<&str> = collector.instances.iter().map(|i| i.name.as_str()).collect();
    assert_eq!(names, vec!["A", "B"]);
}

#[test]
fn terracotta_archive_checksum_and_urls() {
    let sha512_abc = "ddaf35a193617abacc417349ae20413112e6fa4e89a97ea20a9eeee64b55d39a2192992a274fc1a836ba3c23a3feebbd454d4423643ce80e2a9ac94fa54ca49f";
    assert!(archive_checksum_accepts(&b"abc".to_vec(), Some(sha512_abc)));
    assert!(archive_checksum_accepts(&b"abc".to_vec(), Some(&format!("  {}\n", sha512_abc.to_uppercase()))));
    assert!(!archive_checksum_accepts(&b"abd".to_vec(), Some(sha512_abc)));
    assert!(archive_checksum_accepts(&b"abd".to_vec(), None));
    assert!(archive_checksum_accepts(&b"abd".to_vec(), Some("  ")));
    let urls = terracotta_download_urls("0.4.1", "linux-x86_64");
    assert_eq!(urls.len(), 2);
    assert!(urls[0].contains("github.com"));
    assert!(urls[1].contains("gitee.com"));
}

#[test]
fn terracotta_room_codes_and_urls() {
    assert_eq!(parse_room_code("u/ABCD-EFGH-JKLM-NPQR"), Ok("U/ABCD-EFGH-JKLM-NPQR".to_string()));
    assert!(parse_room_code("ABCD").is_err());
    let url = build_room_url(7000, "/state/guesting", "U/AB CD", "Ann&Bob", &vec![]);
    assert_eq!(url, "http://127.0.0.1:7000/state/guesting?room=U%2FAB%20CD&player=Ann%26Bob");
}

#[test]
fn process_start_time_is_read_from_proc() {
    let stat = format!("4242 (java (x)) S{} 500 0 0", " 0".repeat(18));
    assert_eq!(stat_ticks(&stat), Some(500));
    assert_eq!(stat_ticks("no paren"), None);
    assert_eq!(boot_time("cpu 1 2 3\nbtime 1700000000\n"), Some(1_700_000_000));
    let entry = ProcEntry {
        pid: 4242,
        cmdline: None,
        stat: Some(stat),
        system_stat: Some("cpu 1\nbtime 1700000000\n".to_string()),
    };
    assert_eq!(proc_start_time(&entry), Some("2023-11-14T22:13:25+00:00".to_string()));
}

#[test]
fn start_times_beyond_the_formatted_range_are_caught() {
    let stat = format!("7 (java) S{} 500 0 0", " 0".repeat(18));
    let early = ProcEntry {
        pid: 7,
        cmdline: None,
        stat: Some(stat.clone()),
        system_stat: Some("btime 1700000000\n".to_string()),
    };
    let last = ProcEntry {
        pid: 8,
        cmdline: None,
        stat: Some(stat.clone()),
        system_stat: Some(format!("btime {}\n", MAX_START_SECS - 5)),
    };
    let late = ProcEntry {
        pid: 9,
        cmdline: None,
        stat: Some(stat),
        system_stat: Some(format!("btime {}\n", MAX_START_SECS - 4)),
    };
    let unknown = ProcEntry { pid: 10, cmdline: None, stat: None, system_stat: None };
    assert!(start_in_range(&early));
    assert!(start_in_range(&last));
    assert!(!start_in_range(&late));
    assert!(start_in_range(&unknown));
    assert!(all_starts_in_range(&vec![early, unknown]));
    assert!(!all_starts_in_range(&vec![last, late]));
}

#[test]
fn terracotta_download_falls_back_to_the_mirror_then_fails() {
    let urls = terracotta_download_urls("0.4.1", "linux-x86_64");
    let next = terracotta_source_step(
        &urls,
        0,
        SourceOutcome::Fetched { data: b"archive".to_vec(), published_checksum: Some("deadbeef".to_string()) },
        "0.4.1",
    );
    match next {
        SourceStep::TryNext { source, stage } => {
            assert_eq!(source, 1);
            assert_eq!(stage, "downloading from Gitee");
        }
        _ => panic!("expected the mirror to be tried"),
    }
    match terracotta_source_step(&urls, 1, SourceOutcome::Unreachable, "0.4.1") {
        SourceStep::Failed(message) => assert_eq!(message, "all download sources failed for terracotta v0.4.1"),
        _ => panic!("expected the download to fail"),
    }
    match terracotta_source_step(
        &urls,
        1,
        SourceOutcome::Fetched { data: b"archive".to_vec(), published_checksum: None },
        "0.4.1",
    ) {
        SourceStep::Install(data) => assert_eq!(data, b"archive".to_vec()),
        _ => panic!("expected the archive to be installed"),
    }
}

#[test]
fn terracotta_download_walks_through_its_stages() {
    let mut state = TerracottaState::default();
    let mut job = DownloadJob { version: String::new(), urls: Vec::new(), source: 0 };
    assert!(matches!(terracotta_download_step(&mut state, &mut job, DownloadEvent::Started), DownloadAction::ResolveVersion));
    assert_eq!(state.status, TerracottaStatus::Downloading);
    assert_eq!(state.download_progress, Some(0));
    assert_eq!(state.download_stage.as_deref(), Some("preparing"));
    let refused = terracotta_download_step(
        &mut state,
        &mut job,
        DownloadEvent::VersionResolved { version: "0.4.1".to_string(), os: "haiku".to_string(), arch: "x86_64".to_string() },
    );
    match refused {
        DownloadAction::Fail(m) => assert_eq!(m, "no terracotta binary available for haiku/x86_64"),
        _ => panic!("expected the platform to be refused"),
    }
    match terracotta_download_step(
        &mut state,
        &mut job,
        DownloadEvent::VersionResolved { version: "0.4.1".to_string(), os: "linux".to_string(), arch: "x86_64".to_string() },
    ) {
        DownloadAction::Fetch { url } => assert_eq!(url, job.urls[0]),
        _ => panic!("expected a fetch"),
    }
    assert_eq!(state.download_stage.as_deref(), Some("downloading from GitHub"));
    assert!(matches!(
        terracotta_download_step(&mut state, &mut job, DownloadEvent::Progress { percent: 40 }),
        DownloadAction::Receive
    ));
    assert_eq!(state.download_progress, Some(40));
    match terracotta_download_step(&mut state, &mut job, DownloadEvent::Fetched(SourceOutcome::Unreachable)) {
        DownloadAction::Fetch { url } => assert!(url.contains("gitee.com")),
        _ => panic!("expected the mirror"),
    }
    assert_eq!(job.source, 1);
    assert_eq!(state.download_stage.as_deref(), Some("downloading from Gitee"));
    match terracotta_download_step(
        &mut state,
        &mut job,
        DownloadEvent::Fetched(SourceOutcome::Fetched { data: b"tgz".to_vec(), published_checksum: None }),
    ) {
        DownloadAction::Extract(data) => assert_eq!(data, b"tgz".to_vec()),
        _ => panic!("expected extraction"),
    }
    assert_eq!(state.download_stage.as_deref(), Some("extracting"));
    assert_eq!(state.download_progress, None);
    assert!(matches!(terracotta_download_step(&mut state, &mut job, DownloadEvent::Extracted), DownloadAction::Install));
    assert_eq!(state.download_stage.as_deref(), Some("installing"));
    assert!(matches!(terracotta_download_step(&mut state, &mut job, DownloadEvent::Installed), DownloadAction::Settle));
    assert_eq!(state.download_progress, Some(100));
    assert_eq!(state.download_stage.as_deref(), Some("complete"));
    assert!(matches!(terracotta_download_step(&mut state, &mut job, DownloadEvent::Settled), DownloadAction::Done));
    assert_eq!(state.status, TerracottaStatus::Idle);
    assert_eq!(state.download_stage, None);
}

#[test]
fn terracotta_download_fails_after_the_last_source() {
    let mut state = TerracottaState::default();
    let mut job = DownloadJob {
        version: "0.4.1".to_string(),
        urls: terracotta_download_urls("0.4.1", "linux-x86_64"),
        source: 1,
    };
    match terracotta_download_step(
        &mut state,
        &mut job,
        DownloadEvent::Fetched(SourceOutcome::Fetched { data: b"x".to_vec(), published_checksum: Some("00".to_string()) }),
    ) {
        DownloadAction::Fail(m) => assert_eq!(m, "all download sources failed for terracotta v0.4.1"),
        _ => panic!("expected failure"),
    }
    assert_eq!(state.download_stage.as_deref(), Some("verifying"));
}

fn checked(found: bool, auto_download: bool, already_running: bool) -> StartEvent {
    StartEvent::BinaryChecked {
        found,
        auto_download,
        already_running,
        path: "/opt/t/terracotta".to_string(),
        os: "linux".to_string(),
        arch: "x86_64".to_string(),
        windows: false,
    }
}

#[test]
fn terracotta_start_downloads_once_then_waits_for_its_port() {
    let mut state = TerracottaState::default();
    let mut job = StartJob { downloaded: false, attempts: 0 };
    assert!(matches!(terracotta_start_step(&mut state, &mut job, checked(false, true, false)), StartAction::Download));
    match terracotta_start_step(&mut state, &mut job, checked(false, true, false)) {
        StartAction::Fail(m) => assert_eq!(
            m,
            "terracotta binary not found at /opt/t/terracotta (platform: linux-x86_64, expected name: terracotta)"
        ),
        _ => panic!("expected failure"),
    }
    match terracotta_start_step(&mut state, &mut job, checked(true, true, true)) {
        StartAction::Fail(m) => assert_eq!(m, "terracotta is already running"),
        _ => panic!("expected failure"),
    }
    assert!(matches!(terracotta_start_step(&mut state, &mut job, checked(true, false, false)), StartAction::Spawn));
    assert!(matches!(
        terracotta_start_step(&mut state, &mut job, StartEvent::Spawned),
        StartAction::ReadPortFileAfter { millis: 1500 }
    ));
    assert_eq!(state.status, TerracottaStatus::Starting);
    assert!(matches!(
        terracotta_start_step(&mut state, &mut job, StartEvent::PortFileRead(PortFile::Missing)),
        StartAction::ReadPortFileAfter { millis: 500 }
    ));
    match terracotta_start_step(&mut state, &mut job, StartEvent::PortFileRead(PortFile::Port(7070))) {
        StartAction::Serve { port } => assert_eq!(port, 7070),
        _ => panic!("expected the port"),
    }
    assert_eq!(state.http_port, Some(7070));
}

#[test]
fn terracotta_start_times_out_after_its_attempts() {
    let mut state = TerracottaState::default();
    let mut job = StartJob { downloaded: false, attempts: 0 };
    terracotta_start_step(&mut state, &mut job, StartEvent::Spawned);
    for _ in 1..PORT_FILE_ATTEMPTS {
        assert!(matches!(
            terracotta_start_step(&mut state, &mut job, StartEvent::PortFileRead(PortFile::Unparsable)),
            StartAction::ReadPortFileAfter { millis: 500 }
        ));
    }
    match terracotta_start_step(&mut state, &mut job, StartEvent::PortFileRead(PortFile::Unreadable)) {
        StartAction::Fail(m) => assert_eq!(m, "timed out waiting for terracotta to start"),
        _ => panic!("expected a time-out"),
    }
}

#[test]
fn room_urls_percent_encode_utf8_bytes() {
    let url = build_room_url(80, "/x", "Zo\u{eb}", "a~b.c_d-e", &vec!["n/1".to_string()]);
    assert_eq!(url, "http://127.0.0.1:80/x?room=Zo%C3%AB&player=a~b.c_d-e&public_nodes=n%2F1");
}

#[test]
fn process_names_come_from_the_program_path() {
    assert_eq!(proc_name("/usr/bin/java\0-jar\0server.jar\0"), Some("java".to_string()));
    assert_eq!(proc_name("java\0-Xmx2G\0"), Some("java".to_string()));
    assert_eq!(proc_name("\0orphan\0"), None);
    assert_eq!(proc_name(""), None);
}

#[test]
fn start_times_up_to_the_end_of_chronos_range_are_formatted() {
    let stat = format!("7 (java) S{} 500 0 0", " 0".repeat(18));
    let entry = ProcEntry {
        pid: 7,
        cmdline: None,
        stat: Some(stat),
        system_stat: Some(format!("btime {}\n", MAX_START_SECS - 5)),
    };
    let formatted = proc_start_time(&entry).expect("formatted");
    assert!(formatted.contains("262142-12-31T23:59:59"));
}
