//! Finding the process that holds a server's TCP port, from the output of the
//! system's process tools (`lsof` and `ps`, or `netstat` and `tasklist`).
use vstd::prelude::*;
use crate::servers::spec_lines;
use crate::text::{after_last, spec_after_last, spec_decimal, spec_eq_ignore_ascii_case, spec_parse_uint, spec_split, spec_starts_with, spec_trim, spec_trim_end_by, spec_trim_start_by, spec_words, words};

verus! {

/// The process listening on a port.
#[derive(Debug, Clone)]
pub struct PortProcessInfo {
    pub pid: u32,
    pub name: Option<String>,
}

/// Strictly increasing: sorted, with nothing twice.
pub open spec fn strictly_increasing(s: Seq<u32>) -> bool {
    forall|i: int, j: int| 0 <= i < j < s.len() ==> s[i] < s[j]
}

/// The process ids named by `lsof -t`: each line that, trimmed, is a `u32`.
pub open spec fn spec_lsof_pids(lines: Seq<Seq<char>>) -> Seq<u32>
    decreases lines.len(),
{
    if lines.len() == 0 {
        Seq::empty()
    } else {
        let rest = spec_lsof_pids(lines.drop_last());
        match spec_parse_uint(spec_trim(lines.last()), 0xffff_ffff) {
            Some(v) => rest.push(v as u32),
            None => rest,
        }
    }
}

/// Inserts `x` into a strictly increasing vector, unless it is there already.
pub fn insert_sorted_unique(v: &mut Vec<u32>, x: u32)
    requires
        strictly_increasing(old(v)@),
    ensures
        strictly_increasing(final(v)@),
        final(v)@.to_set() == old(v)@.to_set().insert(x),
{
    let mut i: usize = 0;
    while i < v.len() && v[i] < x
        invariant
            i <= v.len(),
            forall|k: int| 0 <= k < i ==> v@[k] < x,
        decreases v.len() - i,
    {
        i += 1;
    }
    if i < v.len() && v[i] == x {
        assert(old(v)@.to_set().insert(x) =~= old(v)@.to_set()) by {
            assert(old(v)@.contains(x) ==> old(v)@.to_set().contains(x));
            assert(old(v)@[i as int] == x);
        }
        return;
    }
    let ghost before = v@;
    v.insert(i, x);
    proof {
        assert(v@ =~= before.subrange(0, i as int).push(x) + before.subrange(i as int, before.len() as int));
        assert forall|a: int, b: int| 0 <= a < b < v@.len() implies v@[a] < v@[b] by {
            if a < i && b == i {
            } else if a < i && b > i {
                assert(v@[b] == before[b - 1]);
            } else if a == i && b > i {
                assert(v@[b] == before[b - 1]);
            } else if a > i {
                assert(v@[a] == before[a - 1]);
                assert(v@[b] == before[b - 1]);
            }
        }
        assert forall|y: u32| v@.to_set().contains(y) <==> before.to_set().insert(x).contains(y) by {
            if v@.contains(y) {
                let k = choose|k: int| 0 <= k < v@.len() && v@[k] == y;
                if k < i {
                    assert(before[k] == y);
                } else if k > i {
                    assert(before[k - 1] == y);
                }
            }
            if before.contains(y) {
                let k = choose|k: int| 0 <= k < before.len() && before[k] == y;
                if k < i {
                    assert(v@[k] == y);
                } else {
                    assert(v@[k + 1] == y);
                }
            }
            if y == x {
                assert(v@[i as int] == x);
            }
        }
        assert(v@.to_set() =~= before.to_set().insert(x));
    }
}

/// The ids of the processes listening on a port, from the output of
/// `lsof -t -i tcp:PORT -s tcp:listen`: every line that is a number, sorted,
/// each once.
pub fn lsof_listener_pids(stdout: &str) -> (r: Vec<u32>)
    ensures
        strictly_increasing(r@),
        r@.to_set() == spec_lsof_pids(spec_lines(stdout@)).to_set(),
{
    let lines = crate::servers::lines_of(stdout);
    let ghost ls = spec_lines(stdout@);
    let mut out: Vec<u32> = Vec::new();
    let mut i: usize = 0;
    while i < lines.len()
        invariant
            i <= lines.len(),
            ls == spec_lines(stdout@),
            lines@.len() == ls.len(),
            forall|k: int| 0 <= k < lines@.len() ==> (#[trigger] lines@[k])@ == ls[k],
            strictly_increasing(out@),
            out@.to_set() == spec_lsof_pids(ls.subrange(0, i as int)).to_set(),
        decreases lines.len() - i,
    {
        let t = crate::text::trimmed(&lines[i]);
        let parsed = crate::text::parse_uint(&t, 0xffff_ffff);
        proof {
            assert(ls.subrange(0, i + 1).drop_last() =~= ls.subrange(0, i as int));
            assert(ls.subrange(0, i + 1).last() == ls[i as int]);
        }
        match parsed {
            Some(pid64) => {
                let pid = pid64 as u32;
                let ghost prev = spec_lsof_pids(ls.subrange(0, i as int));
                insert_sorted_unique(&mut out, pid);
                proof {
                    assert(spec_lsof_pids(ls.subrange(0, i + 1)) == prev.push(pid));
                    assert(prev.push(pid).to_set() =~= prev.to_set().insert(pid)) by {
                        assert forall|y: u32| prev.push(pid).contains(y) <==> prev.to_set().insert(pid).contains(y) by {
                            if prev.push(pid).contains(y) {
                                let k = choose|k: int| 0 <= k < prev.push(pid).len() && prev.push(pid)[k] == y;
                                if k < prev.len() {
                                    assert(prev[k] == y);
                                }
                            }
                            if prev.contains(y) {
                                let k = choose|k: int| 0 <= k < prev.len() && prev[k] == y;
                                assert(prev.push(pid)[k] == y);
                            }
                            if y == pid {
                                assert(prev.push(pid)[prev.len() as int] == pid);
                            }
                        }
                    }
                }
            },
            None => {},
        }
        i += 1;
    }
    assert(ls.subrange(0, lines.len() as int) =~= ls);
    out
}

/// The process name that `ps -p PID -o comm=` printed: its output trimmed,
/// if anything is left.
pub fn ps_process_name(stdout: &str) -> (r: Option<String>)
    ensures
        spec_trim(stdout@).len() == 0 ==> r is None,
        spec_trim(stdout@).len() > 0 ==> (r matches Some(n) && n@ == spec_trim(stdout@)),
{
    let v = crate::text::chars_of(stdout);
    let t = crate::text::trimmed(&v);
    if t.len() == 0 {
        None
    } else {
        Some(crate::text::string_from(&t))
    }
}

/// The first listener on a port, with its name, if any process listens.
pub fn port_process(pids: &Vec<u32>, name: Option<String>) -> (r: Option<PortProcessInfo>)
    ensures
        pids@.len() == 0 ==> r is None,
        pids@.len() > 0 ==> (r matches Some(info) && info.pid == pids@[0] && info.name == name),
{
    if pids.len() == 0 {
        None
    } else {
        Some(PortProcessInfo { pid: pids[0], name })
    }
}

/// The listener that one line of `netstat -ano -p tcp` names for `port`: a
/// line of at least five columns whose state column reads `LISTENING` (in
/// any case), whose local address ends in `:PORT`, and whose last column is
/// a process id.
pub open spec fn spec_netstat_pid(line: Seq<char>, port: u16) -> Option<u32> {
    let cols = spec_words(line);
    if cols.len() < 5 || !spec_eq_ignore_ascii_case(cols[3], "LISTENING"@) {
        None
    } else if spec_after_last(cols[1], ':') != spec_decimal(port as nat) {
        None
    } else {
        match spec_parse_uint(cols[4], 0xffff_ffff) {
            Some(v) => Some(v as u32),
            None => None,
        }
    }
}

pub open spec fn spec_netstat_pids(lines: Seq<Seq<char>>, port: u16) -> Seq<u32>
    decreases lines.len(),
{
    if lines.len() == 0 {
        Seq::empty()
    } else {
        let rest = spec_netstat_pids(lines.drop_last(), port);
        match spec_netstat_pid(lines.last(), port) {
            Some(v) => rest.push(v),
            None => rest,
        }
    }
}

fn netstat_pid(line: &Vec<char>, port: u16) -> (r: Option<u32>)
    ensures
        r == spec_netstat_pid(line@, port),
{
    let cols = words(line);
    if cols.len() < 5 {
        return None;
    }
    let state = crate::text::chars_of("LISTENING");
    if !crate::text::eq_ignore_ascii_case(&cols[3], &state) {
        return None;
    }
    let local_port = after_last(&cols[1], ':');
    let port_text = crate::text::decimal(port as u64);
    let want = crate::text::chars_of(port_text.as_str());
    if !crate::text::chars_eq(&local_port, &want) {
        return None;
    }
    match crate::text::parse_uint(&cols[4], 0xffff_ffff) {
        Some(v) => Some(v as u32),
        None => None,
    }
}

proof fn lemma_push_to_set(s: Seq<u32>, x: u32)
    ensures
        s.push(x).to_set() == s.to_set().insert(x),
{
    assert forall|y: u32| s.push(x).contains(y) <==> s.to_set().insert(x).contains(y) by {
        if s.push(x).contains(y) {
            let k = choose|k: int| 0 <= k < s.push(x).len() && s.push(x)[k] == y;
            if k < s.len() {
                assert(s[k] == y);
            }
        }
        if s.contains(y) {
            let k = choose|k: int| 0 <= k < s.len() && s[k] == y;
            assert(s.push(x)[k] == y);
        }
        if y == x {
            assert(s.push(x)[s.len() as int] == x);
        }
    }
    assert(s.push(x).to_set() =~= s.to_set().insert(x));
}

proof fn lemma_decimal_has_no_colon(n: nat)
    ensures
        forall|i: int| 0 <= i < spec_decimal(n).len() ==> spec_decimal(n)[i] != ':',
    decreases n,
{
    if n >= 10 {
        lemma_decimal_has_no_colon(n / 10);
        let d = spec_decimal(n);
        assert forall|i: int| 0 <= i < d.len() implies d[i] != ':' by {
            if i < d.len() - 1 {
                assert(d[i] == spec_decimal(n / 10)[i]);
            }
        }
    }
}

proof fn lemma_after_last_of_suffix(s: Seq<char>, d: Seq<char>)
    requires
        forall|i: int| 0 <= i < d.len() ==> d[i] != ':',
        crate::text::spec_ends_with(s, ":"@ + d),
    ensures
        spec_after_last(s, ':') == d,
    decreases d.len(),
{
    reveal_strlit(":");
    let t = ":"@ + d;
    assert(s[s.len() - 1] == s.subrange(s.len() - t.len(), s.len() as int)[t.len() - 1]);
    if d.len() == 0 {
        assert(t[0] == ':');
    } else {
        assert(t[t.len() - 1] == d[d.len() - 1]);
        let dd = d.drop_last();
        let tt = ":"@ + dd;
        assert(s.drop_last().subrange(s.drop_last().len() - tt.len(), s.drop_last().len() as int) =~= tt) by {
            assert forall|k: int| 0 <= k < tt.len() implies s.drop_last().subrange(
                s.drop_last().len() - tt.len(),
                s.drop_last().len() as int,
            )[k] == tt[k] by {
                assert(s.subrange(s.len() - t.len(), s.len() as int)[k] == t[k]);
            }
        }
        lemma_after_last_of_suffix(s.drop_last(), dd);
        assert(dd.push(d.last()) =~= d);
    }
}

proof fn lemma_suffix_of_after_last(s: Seq<char>, d: Seq<char>)
    requires
        spec_after_last(s, ':') == d,
    ensures
        crate::text::spec_ends_with(s, ":"@ + d) || s == d,
    decreases s.len(),
{
    reveal_strlit(":");
    if s.len() > 0 {
        if s.last() == ':' {
            assert(s.subrange(s.len() - 1, s.len() as int) =~= ":"@ + d);
        } else {
            let p = s.drop_last();
            let dp = spec_after_last(p, ':');
            lemma_suffix_of_after_last(p, dp);
            assert(d == dp.push(s.last()));
            if p == dp {
                assert(s =~= d);
            } else {
                let t = ":"@ + d;
                let tp = ":"@ + dp;
                assert(s.subrange(s.len() - t.len(), s.len() as int) =~= t) by {
                    assert forall|k: int| 0 <= k < t.len() implies s.subrange(s.len() - t.len(), s.len() as int)[k]
                        == t[k] by {
                        if k < t.len() - 1 {
                            assert(p.subrange(p.len() - tp.len(), p.len() as int)[k] == tp[k]);
                        }
                    }
                }
            }
        }
    }
}

/// A `LISTENING` line of `netstat` names its process for `port` when its
/// local address (the second column) ends in `:` and the port, and only
/// then (or where that column is the bare port); the foreign address and the
/// other columns never decide it.
pub proof fn netstat_reads_the_local_address(line: Seq<char>, port: u16)
    requires
        spec_words(line).len() >= 5,
        spec_eq_ignore_ascii_case(spec_words(line)[3], "LISTENING"@),
        spec_parse_uint(spec_words(line)[4], 0xffff_ffff) is Some,
    ensures
        crate::text::spec_ends_with(spec_words(line)[1], ":"@ + spec_decimal(port as nat)) ==> spec_netstat_pid(
            line,
            port,
        ) == Some((spec_parse_uint(spec_words(line)[4], 0xffff_ffff)->0) as u32),
        spec_netstat_pid(line, port) is Some ==> crate::text::spec_ends_with(
            spec_words(line)[1],
            ":"@ + spec_decimal(port as nat),
        ) || spec_words(line)[1] == spec_decimal(port as nat),
{
    lemma_decimal_has_no_colon(port as nat);
    let cols = spec_words(line);
    if crate::text::spec_ends_with(cols[1], ":"@ + spec_decimal(port as nat)) {
        lemma_after_last_of_suffix(cols[1], spec_decimal(port as nat));
    }
    if spec_after_last(cols[1], ':') == spec_decimal(port as nat) {
        lemma_suffix_of_after_last(cols[1], spec_decimal(port as nat));
    }
}

/// A line names a process only where it has five columns, is in the
/// `LISTENING` state, and its last column is that process's number.
pub proof fn netstat_names_only_listeners(line: Seq<char>, port: u16, pid: u32)
    ensures
        spec_netstat_pid(line, port) == Some(pid) ==> spec_words(line).len() >= 5 && spec_eq_ignore_ascii_case(
            spec_words(line)[3],
            "LISTENING"@,
        ) && spec_parse_uint(spec_words(line)[4], 0xffff_ffff) == Some(pid as nat),
{
}

/// The processes `netstat` shows for `port` are exactly those some line
/// names.
pub proof fn netstat_pids_are_the_lines_listeners(lines: Seq<Seq<char>>, port: u16, pid: u32)
    ensures
        spec_netstat_pids(lines, port).contains(pid) <==> exists|i: int|
            0 <= i < lines.len() && spec_netstat_pid(#[trigger] lines[i], port) == Some(pid),
    decreases lines.len(),
{
    if lines.len() > 0 {
        let d = lines.drop_last();
        netstat_pids_are_the_lines_listeners(d, port, pid);
        let rest = spec_netstat_pids(d, port);
        if exists|i: int| 0 <= i < d.len() && spec_netstat_pid(#[trigger] d[i], port) == Some(pid) {
            let i = choose|i: int| 0 <= i < d.len() && spec_netstat_pid(#[trigger] d[i], port) == Some(pid);
            assert(lines[i] == d[i]);
            let w = choose|w: int| 0 <= w < rest.len() && rest[w] == pid;
            match spec_netstat_pid(lines.last(), port) {
                Some(v) => assert(rest.push(v)[w] == pid),
                None => {},
            }
        }
        if spec_netstat_pid(lines.last(), port) == Some(pid) {
            assert(rest.push(pid)[rest.len() as int] == pid);
            assert(lines[lines.len() - 1] == lines.last());
        }
        if spec_netstat_pids(lines, port).contains(pid) {
            let w = choose|w: int| 0 <= w < spec_netstat_pids(lines, port).len() && spec_netstat_pids(lines, port)[w] == pid;
            match spec_netstat_pid(lines.last(), port) {
                Some(v) => {
                    if w < rest.len() {
                        assert(rest.push(v)[w] == rest[w]);
                        assert(rest.contains(pid));
                        let i = choose|i: int| 0 <= i < d.len() && spec_netstat_pid(#[trigger] d[i], port) == Some(pid);
                        assert(lines[i] == d[i]);
                    } else {
                        assert(lines[lines.len() - 1] == lines.last());
                    }
                },
                None => {
                    assert(rest.contains(pid));
                    let i = choose|i: int| 0 <= i < d.len() && spec_netstat_pid(#[trigger] d[i], port) == Some(pid);
                    assert(lines[i] == d[i]);
                },
            }
        }
        if exists|i: int| 0 <= i < lines.len() && spec_netstat_pid(#[trigger] lines[i], port) == Some(pid) {
            let i = choose|i: int| 0 <= i < lines.len() && spec_netstat_pid(#[trigger] lines[i], port) == Some(pid);
            if i < d.len() {
                assert(d[i] == lines[i]);
            }
        }
    }
}

/// The ids of the processes listening on `port`, from the output of
/// `netstat -ano -p tcp`: sorted, each once.
pub fn netstat_listener_pids(stdout: &str, port: u16) -> (r: Vec<u32>)
    ensures
        strictly_increasing(r@),
        r@.to_set() == spec_netstat_pids(spec_lines(stdout@), port).to_set(),
{
    let lines = crate::servers::lines_of(stdout);
    let ghost ls = spec_lines(stdout@);
    let mut out: Vec<u32> = Vec::new();
    let mut i: usize = 0;
    while i < lines.len()
        invariant
            i <= lines.len(),
            ls == spec_lines(stdout@),
            lines@.len() == ls.len(),
            forall|k: int| 0 <= k < lines@.len() ==> (#[trigger] lines@[k])@ == ls[k],
            strictly_increasing(out@),
            out@.to_set() == spec_netstat_pids(ls.subrange(0, i as int), port).to_set(),
        decreases lines.len() - i,
    {
        let parsed = netstat_pid(&lines[i], port);
        proof {
            assert(ls.subrange(0, i + 1).drop_last() =~= ls.subrange(0, i as int));
            assert(ls.subrange(0, i + 1).last() == ls[i as int]);
        }
        match parsed {
            Some(pid) => {
                let ghost prev = spec_netstat_pids(ls.subrange(0, i as int), port);
                insert_sorted_unique(&mut out, pid);
                proof {
                    lemma_push_to_set(prev, pid);
                }
            },
            None => {},
        }
        i += 1;
    }
    assert(ls.subrange(0, lines.len() as int) =~= ls);
    out
}

/// The process name in the first line of `tasklist /FI "PID eq N" /FO CSV /NH`:
/// none where the line is an `INFO` notice, else its first comma-separated
/// field without surrounding quotes, if anything is left.
pub open spec fn spec_tasklist_name(line: Seq<char>) -> Option<Seq<char>> {
    if spec_starts_with(line, "INFO"@) {
        None
    } else {
        let name = spec_trim_quotes(spec_split(line, ',')[0]);
        if name.len() == 0 {
            None
        } else {
            Some(name)
        }
    }
}

/// `s.trim_matches('"')`.
pub open spec fn spec_trim_quotes(s: Seq<char>) -> Seq<char> {
    spec_trim_end_by(spec_trim_start_by(s, |c: char| c == '"'), |c: char| c == '"')
}


/// The process name that `tasklist` printed for one process id: see
/// `spec_tasklist_name`, applied to the first line of the output.
pub fn tasklist_process_name(stdout: &str) -> (r: Option<String>)
    ensures
        spec_lines(stdout@).len() == 0 ==> r is None,
        spec_lines(stdout@).len() > 0 ==> (match spec_tasklist_name(spec_lines(stdout@)[0]) {
            Some(n) => r matches Some(s) && s@ == n,
            None => r is None,
        }),
{
    let lines = crate::servers::lines_of(stdout);
    if lines.len() == 0 {
        return None;
    }
    let line = &lines[0];
    let info = crate::text::chars_of("INFO");
    if crate::text::starts_with(line, &info) {
        return None;
    }
    let fields = crate::text::split_chars(line, ',');
    proof {
        crate::text::lemma_split_nonempty(line@, ',');
    }
    let first = &fields[0];
    let mut lo: usize = 0;
    while lo < first.len() && first[lo] == '"'
        invariant
            lo <= first.len(),
            forall|k: int| 0 <= k < lo ==> first@[k] == '"',
        decreases first.len() - lo,
    {
        lo += 1;
    }
    let mut hi: usize = first.len();
    while hi > lo && first[hi - 1] == '"'
        invariant
            lo <= hi <= first.len(),
            forall|k: int| hi <= k < first.len() ==> first@[k] == '"',
        decreases hi,
    {
        hi -= 1;
    }
    proof {
        let f = first@;
        let q = |c: char| c == '"';
        assert forall|k: int| 0 <= k < lo implies q(#[trigger] f[k]) by {}
        crate::text::lemma_leading_exact(f, q, lo as int);
        let t = f.skip(lo as int);
        assert forall|k: int| t.len() - (first.len() - hi) <= k < t.len() implies q(#[trigger] t[k]) by {
            assert(t[k] == f[lo + k]);
        }
        if hi > lo {
            assert(t[t.len() - (first.len() - hi) - 1] == f[hi - 1]);
        }
        crate::text::lemma_trailing_exact(t, q, (first.len() - hi) as int);
        assert(spec_trim_quotes(f) =~= f.subrange(lo as int, hi as int));
    }
    if hi == lo {
        return None;
    }
    Some(crate::text::string_from_range(first, lo, hi))
}

} // verus!
