use theseus::file_lock::{
    combined_output, get_locking_processes, parse_fuser_output, parse_handle_exe_output, parse_lsof_output, pid_lines,
    proc_name, LockProbe, ProcEntry,
};
use theseus::google_ip::{
    insert_candidate, ipv4_text, parse_ipv4, rank_candidates, ClientChoice, GoogleIpRuntime, GoogleTranslateIp,
};
use theseus::h2::{
    authority_host_port, content_range_matches, range_count, range_header, reset_for_tests, split_ranges,
    ConnectionRegistry, H2Range,
};
use theseus::updater::{compare_versions, mirror_verdict, update_sources, validate_downloaded_update, MirrorVerdict, UpdateSource};
use std::cmp::Ordering;

#[test]
fn ranking_keeps_first_of_duplicates_and_drops_invalid_addresses() {
    let ranked = rank_candidates(vec![
        GoogleTranslateIp { ip: "1.1.1.1".to_string(), latency_ms: 30 },
        GoogleTranslateIp { ip: "not-an-ip".to_string(), latency_ms: 1 },
        GoogleTranslateIp { ip: "1.1.1.1".to_string(), latency_ms: 5 },
        GoogleTranslateIp { ip: "2001:db8::1".to_string(), latency_ms: 2 },
        GoogleTranslateIp { ip: "8.8.8.8".to_string(), latency_ms: 30 },
        GoogleTranslateIp { ip: "9.9.9.9".to_string(), latency_ms: 10 },
    ]);
    let ips: Vec<(&str, u64)> = ranked.iter().map(|c| (c.ip.as_str(), c.latency_ms)).collect();
    // Stable by latency: 1.1.1.1 and 8.8.8.8 tie at 30 and keep their order.
    assert_eq!(ips, vec![("9.9.9.9", 10), ("1.1.1.1", 30), ("8.8.8.8", 30)]);
}

#[test]
fn ipv4_parsing_follows_the_dotted_quad_grammar() {
    assert_eq!(parse_ipv4(" 10.0.25.1 "), Some((10, 0, 25, 1)));
    assert_eq!(parse_ipv4("255.255.255.255"), Some((255, 255, 255, 255)));
    assert_eq!(parse_ipv4("256.1.1.1"), None);
    assert_eq!(parse_ipv4("01.1.1.1"), None);
    assert_eq!(parse_ipv4("1.1.1"), None);
    assert_eq!(parse_ipv4("1.1.1.1.1"), None);
    assert_eq!(parse_ipv4("::1"), None);
    assert_eq!(ipv4_text((10, 0, 25, 1)), "10.0.25.1");
}

#[test]
fn pool_insertion_keeps_latency_order_and_reuses_pins() {
    let mut runtime = GoogleIpRuntime { candidates: Vec::new(), current: 0, has_client: false, pinned_ip: None };
    assert_eq!(insert_candidate(&mut runtime, (1, 1, 1, 1), 50), 1);
    assert_eq!(insert_candidate(&mut runtime, (2, 2, 2, 2), 70), 2);
    assert_eq!(insert_candidate(&mut runtime, (1, 1, 1, 1), 10), 2);
    assert_eq!(runtime.choose_client(), ClientChoice::Pin((1, 1, 1, 1)));
    assert_eq!(runtime.choose_client(), ClientChoice::Reuse);
    assert_eq!(insert_candidate(&mut runtime, (3, 3, 3, 3), 5), 3);
    assert!(!runtime.has_client);
    assert_eq!(runtime.candidates[0].ip, "3.3.3.3");
    runtime.mark_current_failed();
    assert_eq!(runtime.choose_client(), ClientChoice::Pin((1, 1, 1, 1)));
    runtime.mark_current_failed();
    runtime.mark_current_failed();
    assert_eq!(runtime.choose_client(), ClientChoice::Exhausted);
    assert_eq!(runtime.pin_first(), Some((3, 3, 3, 3)));
}

#[test]
fn ranges_headers_and_authorities() {
    let ranges = split_ranges(10, 3);
    let spans: Vec<(u64, u64)> = ranges.iter().map(|r| (r.start, r.end)).collect();
    assert_eq!(spans, vec![(0, 3), (4, 6), (7, 9)]);
    assert_eq!(range_count(8, 3), 3);
    assert_eq!(range_count(0, 100), 1);
    let range = H2Range { start: 4, end: 6 };
    assert_eq!(range_header(range), "bytes=4-6");
    assert!(content_range_matches(Some("bytes 4-6/10"), range, 10));
    assert!(!content_range_matches(Some("bytes 4-6/11"), range, 10));
    assert!(!content_range_matches(None, range, 10));
    assert_eq!(authority_host_port("cdn.example:8443"), ("cdn.example".to_string(), 8443));
    assert_eq!(authority_host_port("cdn.example"), ("cdn.example".to_string(), 443));
    assert_eq!(authority_host_port("cdn.example:x"), ("cdn.example".to_string(), 443));
}

#[test]
fn registry_reads_back_what_was_recorded() {
    let mut registry = ConnectionRegistry::new();
    registry.insert("a.example", 1);
    registry.insert("b.example", 2);
    registry.insert("a.example", 3);
    assert_eq!(registry.cached("a.example"), Some(3));
    assert_eq!(registry.cached("b.example"), Some(2));
    registry.remove("b.example");
    assert_eq!(registry.cached("b.example"), None);
    reset_for_tests(&mut registry);
    assert_eq!(registry.cached("a.example"), None);
}

#[test]
fn lock_tool_outputs_are_parsed() {
    let handle = "chrome.exe        pid: 1234  type: File    C:\\file\nnothing here\nsvc.exe pid: x type: File\n";
    let procs = parse_handle_exe_output(handle, "C:\\file");
    assert_eq!(procs.len(), 1);
    assert_eq!((procs[0].pid, procs[0].name.as_str(), procs[0].path.as_str()), (1234, "chrome.exe", "C:\\file"));
    assert_eq!(parse_fuser_output("                     USER        PID ACCESS COMMAND\n/tmp/f:              me         42 F.... java\n"), vec![]);
    assert_eq!(parse_fuser_output("/tmp/f: 42 77\n0 0\n"), vec![42]);
    assert_eq!(pid_lines("12\n x \n 13 \n"), vec![12, 13]);
    let lsof = "p100\ncjava\nn/tmp/f\np200\np300\ncbash\n";
    let procs = parse_lsof_output(lsof, "/tmp/f");
    let pairs: Vec<(u32, &str)> = procs.iter().map(|p| (p.pid, p.name.as_str())).collect();
    assert_eq!(pairs, vec![(100, "java"), (300, "bash")]);
    assert_eq!(combined_output(true, String::new(), "err".to_string()), Some("err".to_string()));
    assert_eq!(combined_output(false, "out".to_string(), String::new()), None);
    assert_eq!(proc_name("\0x"), None);
    assert_eq!(proc_name("/usr/bin/java\0-jar\0server.jar"), Some("java".to_string()));
}

#[test]
fn linux_lock_probe_keeps_processes_with_a_name() {
    let probe = LockProbe::Linux {
        fuser: Some("me 20 F.... java\nme 10 F.... bash\n".to_string()),
        lsof: None,
        procs: vec![ProcEntry { pid: 20, cmdline: Some("/usr/bin/java\0-jar".to_string()), stat: None, system_stat: None }],
    };
    let procs = get_locking_processes(&probe, "/tmp/f");
    assert_eq!(procs.len(), 1);
    assert_eq!(procs[0].pid, 20);
    assert_eq!(procs[0].start_time, None);
}

#[test]
fn versions_compare_by_numeric_core() {
    assert_eq!(compare_versions("v1.2.3", "1.2.3"), Ordering::Equal);
    assert_eq!(compare_versions("1.10.0", "1.9.9"), Ordering::Greater);
    assert_eq!(compare_versions("1.2", "1.2.1"), Ordering::Less);
    assert_eq!(compare_versions("1.2.3-beta.4", "1.2.3"), Ordering::Equal);
    assert_eq!(mirror_verdict("1.3.0", "1.2.0"), Ok(MirrorVerdict::Newer));
    assert_eq!(mirror_verdict("1.2.0", "v1.2.0"), Ok(MirrorVerdict::UpToDate));
    assert_eq!(
        mirror_verdict("1.1.0", "1.2.0").unwrap_err(),
        "Miawa mirror is behind the installed version (mirror: 1.1.0, installed: 1.2.0)"
    );
    assert_eq!(update_sources("miawa").unwrap(), vec![UpdateSource::Miawa, UpdateSource::Cnb, UpdateSource::GitHub]);
    assert_eq!(update_sources("nope").unwrap_err(), "Unknown update source: nope");
}

#[test]
fn update_payload_validation() {
    assert!(validate_downloaded_update(&b"  <!DOCTYPE html><p>".to_vec(), false).is_err());
    assert!(validate_downloaded_update(&b"MZ\x90\x00".to_vec(), true).is_ok());
    assert_eq!(
        validate_downloaded_update(&b"\x7fELF".to_vec(), true).unwrap_err(),
        "Downloaded file is not a valid Windows update payload (expected MZ or PK header, got [7F 45], 4 bytes received)"
    );
    assert!(validate_downloaded_update(&b"\x7fELF".to_vec(), false).is_ok());
}

#[test]
fn ranking_a_ranked_pool_changes_nothing() {
    let once = rank_candidates(vec![
        GoogleTranslateIp { ip: "142.250.1.1".to_string(), latency_ms: 30 },
        GoogleTranslateIp { ip: "not an ip".to_string(), latency_ms: 1 },
        GoogleTranslateIp { ip: "142.250.1.2".to_string(), latency_ms: 10 },
        GoogleTranslateIp { ip: "142.250.1.3".to_string(), latency_ms: 10 },
        GoogleTranslateIp { ip: "142.250.1.1".to_string(), latency_ms: 5 },
    ]);
    let twice = rank_candidates(once.clone());
    assert_eq!(once.len(), 3);
    assert_eq!(once[0].ip, "142.250.1.2");
    assert_eq!(twice, once);
}
