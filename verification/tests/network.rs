use theseus::file_lock::{get_locking_processes, LockProbe};
use theseus::google_ip::{
    add_batch, next_scan_batch, parse_ip_list, rank_candidates, scan_continues, GoogleTranslateIp, Ipv4, SCAN_BATCH_SIZE,
    TOP_IPS,
};

#[test]
fn parses_only_unique_ipv4_addresses() {
    let content = "# comment\n\n1.2.3.4\r\n2001:db8::1\n1.2.3.4\n8.8.8.8\n";
    assert_eq!(parse_ip_list(content), vec![(1, 2, 3, 4), (8, 8, 8, 8)]);
}

#[test]
fn ranks_and_truncates_candidates() {
    let candidates = (0..25)
        .map(|index| GoogleTranslateIp { ip: format!("10.0.{}.1", index), latency_ms: 1000 - index })
        .collect();
    let ranked = rank_candidates(candidates);
    assert_eq!(ranked.len(), TOP_IPS);
    assert_eq!(ranked.first().unwrap().latency_ms, 976);
    assert!(ranked.windows(2).all(|window| window[0].latency_ms <= window[1].latency_ms));
}

#[test]
fn test_nonexistent_file() {
    // Neither `fuser` nor `lsof` reports anything for a path that does not
    // exist: both fail, so no tool output is there.
    let probe = LockProbe::Linux { fuser: None, lsof: None, procs: Vec::new() };
    let processes = get_locking_processes(&probe, "/tmp/this_file_does_not_exist_xyz.test");
    assert!(processes.is_empty());
}

fn scan_with(ips: &[Ipv4], probe: impl Fn(Ipv4) -> Option<u64>, probed: &mut usize) -> Vec<GoogleTranslateIp> {
    let mut candidates = Vec::new();
    let mut offset = 0;
    while scan_continues(offset, ips.len(), candidates.len()) {
        let (start, end) = next_scan_batch(offset, ips.len()).unwrap();
        let batch: Vec<(Ipv4, Option<u64>)> = ips[start..end]
            .iter()
            .map(|&ip| {
                *probed += 1;
                (ip, probe(ip))
            })
            .collect();
        candidates = add_batch(candidates, &batch);
        offset = end;
    }
    candidates
}

#[test]
fn stops_scanning_after_first_batch_reaches_top() {
    let ips: Vec<Ipv4> = (0..2500usize).map(|index| (10, (index / 256) as u8, (index % 256) as u8, 1)).collect();
    let mut probed = 0;
    let candidates = scan_with(&ips, |_ip| Some(10), &mut probed);
    assert_eq!(candidates.len(), TOP_IPS);
    assert_eq!(probed, SCAN_BATCH_SIZE);
}

#[test]
fn continues_to_next_batch_when_first_is_insufficient() {
    let ips: Vec<Ipv4> = (0..2000usize)
        .map(|index| {
            let prefix = if index < SCAN_BATCH_SIZE { 10 } else { 11 };
            let octet = index % SCAN_BATCH_SIZE;
            (prefix, (octet / 256) as u8, (octet % 256) as u8, 1)
        })
        .collect();
    let mut probed = 0;
    let candidates = scan_with(&ips, |ip| if ip.0 == 11 { Some(5) } else { None }, &mut probed);
    assert_eq!(probed, 2000);
    assert_eq!(candidates.len(), TOP_IPS);
}

#[test]
fn test_directory_path() {
    // A directory that nobody holds: the tools print nothing for it.
    let probe = LockProbe::Linux { fuser: Some(String::new()), lsof: Some(String::new()), procs: Vec::new() };
    let processes = get_locking_processes(&probe, "/tmp");
    let _ = processes;
}
