//! Which processes hold a file open, read from the output of the platform's
//! tools: `handle.exe` on Windows, `fuser -v` (or `lsof -t`) and `/proc` on
//! Linux, `lsof -F pcn` on macOS. Whatever a tool cannot tell gives an empty
//! answer, never an error.
use vstd::prelude::*;
use crate::server_ports::spec_lsof_pids;
use crate::servers::{lines_of, spec_lines};
use crate::text::{
    spec_after_last, spec_contains, spec_find, spec_parse_u32, spec_parse_u64, spec_split, spec_starts_with, spec_trim,
    spec_words,
};

verus! {

/// A process that has a handle on the file.
#[derive(Debug)]
pub struct LockingProcess {
    pub pid: u32,
    pub name: String,
    pub path: String,
    /// When the process started, as an RFC 3339 timestamp, where known.
    pub start_time: Option<String>,
}

/// What `/proc` gave for one process id on Linux.
#[derive(Debug)]
pub struct ProcEntry {
    pub pid: u32,
    /// `/proc/PID/cmdline`, if it could be read.
    pub cmdline: Option<String>,
    /// `/proc/PID/stat`, if it could be read.
    pub stat: Option<String>,
    /// `/proc/stat`, if it could be read.
    pub system_stat: Option<String>,
}

/// The output of the tools run for one file; each tool's output is `None`
/// where it could not be run, failed, or printed nothing.
#[derive(Debug)]
pub enum LockProbe {
    Windows { handle: Option<String>, lsof: Option<String> },
    Linux { fuser: Option<String>, lsof: Option<String>, procs: Vec<ProcEntry> },
    Macos { lsof: Option<String> },
    Other,
}

/// A locking process as plain values: pid, name, path, start time.
pub type LockView = (u32, Seq<char>, Seq<char>, Option<Seq<char>>);

pub open spec fn lock_view(p: LockingProcess) -> LockView {
    (p.pid, p.name@, p.path@, match p.start_time {
        Some(t) => Some(t@),
        None => None,
    })
}

/// What a subprocess run amounts to: nothing unless it succeeded; else its
/// standard output, or its standard error where the output is empty, and
/// nothing where that is empty too.
pub fn combined_output(success: bool, stdout: String, stderr: String) -> (r: Option<String>)
    ensures
        !success ==> r is None,
        success && stdout@.len() > 0 ==> r == Some(stdout),
        success && stdout@.len() == 0 && stderr@.len() > 0 ==> r == Some(stderr),
        success && stdout@.len() == 0 && stderr@.len() == 0 ==> r is None,
{
    if !success {
        return None;
    }
    let combined = if crate::text::is_empty_str(stdout.as_str()) {
        stderr
    } else {
        stdout
    };
    if crate::text::is_empty_str(combined.as_str()) {
        None
    } else {
        Some(combined)
    }
}

// ---- lsof -t: one process id per line ----

/// The process ids of `lsof -t`, in the order printed.
pub fn pid_lines(stdout: &str) -> (r: Vec<u32>)
    ensures
        r@ == spec_lsof_pids(spec_lines(stdout@)),
{
    let lines = lines_of(stdout);
    let ghost ls = spec_lines(stdout@);
    let mut out: Vec<u32> = Vec::new();
    let mut i: usize = 0;
    while i < lines.len()
        invariant
            i <= lines.len(),
            ls == spec_lines(stdout@),
            lines@.len() == ls.len(),
            forall|k: int| 0 <= k < lines@.len() ==> (#[trigger] lines@[k])@ == ls[k],
            out@ == spec_lsof_pids(ls.subrange(0, i as int)),
        decreases lines.len() - i,
    {
        let t = crate::text::trimmed(&lines[i]);
        let parsed = crate::text::parse_u32(&t);
        proof {
            assert(ls.subrange(0, i + 1).drop_last() =~= ls.subrange(0, i as int));
            assert(ls.subrange(0, i + 1).last() == ls[i as int]);
        }
        match parsed {
            Some(pid) => out.push(pid),
            None => {},
        }
        i += 1;
    }
    assert(ls.subrange(0, lines.len() as int) =~= ls);
    out
}

// ---- handle.exe ----

/// One line of `handle.exe -a PATH`, such as
/// `chrome.exe        pid: 1234  type: File    C:\\file`: the number after
/// the first `pid:` and the trimmed text before it.
pub open spec fn spec_handle_line(line: Seq<char>) -> Option<(u32, Seq<char>)> {
    let t = spec_trim(line);
    match spec_find(t, "pid:"@) {
        Some(p) => {
            let ws = spec_words(t.skip(p + 4));
            let pid_text = if ws.len() > 0 {
                ws[0]
            } else {
                Seq::empty()
            };
            match spec_parse_u32(pid_text) {
                Some(pid) => Some((pid, spec_trim(t.take(p)))),
                None => None,
            }
        },
        None => None,
    }
}

pub open spec fn spec_handle_entries(lines: Seq<Seq<char>>) -> Seq<(u32, Seq<char>)>
    decreases lines.len(),
{
    if lines.len() == 0 {
        Seq::empty()
    } else {
        let rest = spec_handle_entries(lines.drop_last());
        match spec_handle_line(lines.last()) {
            Some(e) => rest.push(e),
            None => rest,
        }
    }
}

fn handle_line(line: &Vec<char>) -> (r: Option<(u32, String)>)
    ensures
        match spec_handle_line(line@) {
            Some((pid, name)) => r matches Some((p, n)) && p == pid && n@ == name,
            None => r is None,
        },
{
    let t = crate::text::trimmed(line);
    let pat = crate::text::chars_of("pid:");
    match crate::text::find(&t, &pat) {
        Some(p) => {
            proof {
                reveal_strlit("pid:");
                assert(pat@.len() == 4);
                assert(p + 4 <= t@.len());
            }
            let n = t.len();
            let after = crate::text::slice_vec(&t, p + 4, n);
            assert(after@ =~= t@.skip(p + 4));
            let ws = crate::text::words(&after);
            let pid_text = if ws.len() > 0 {
                crate::text::slice_vec(&ws[0], 0, ws[0].len())
            } else {
                Vec::new()
            };
            proof {
                if ws.len() > 0 {
                    assert(ws[0]@.subrange(0, ws[0]@.len() as int) =~= ws[0]@);
                } else {
                    assert(pid_text@ =~= Seq::<char>::empty());
                }
            }
            match crate::text::parse_u32(&pid_text) {
                Some(pid) => {
                    let before = crate::text::slice_vec(&t, 0, p);
                    assert(before@ =~= t@.take(p as int));
                    let name = crate::text::trimmed(&before);
                    Some((pid, crate::text::string_from(&name)))
                },
                None => None,
            }
        },
        None => None,
    }
}

/// The processes that `handle.exe` lists, each with the path asked about.
pub fn parse_handle_exe_output(output: &str, path: &str) -> (r: Vec<LockingProcess>)
    ensures
        r@.len() == spec_handle_entries(spec_lines(output@)).len(),
        forall|i: int|
            0 <= i < r@.len() ==> {
                let e = spec_handle_entries(spec_lines(output@))[i];
                lock_view(#[trigger] r@[i]) == (e.0, e.1, path@, None::<Seq<char>>)
            },
{
    let lines = lines_of(output);
    let ghost ls = spec_lines(output@);
    let mut out: Vec<LockingProcess> = Vec::new();
    let mut i: usize = 0;
    while i < lines.len()
        invariant
            i <= lines.len(),
            ls == spec_lines(output@),
            lines@.len() == ls.len(),
            forall|k: int| 0 <= k < lines@.len() ==> (#[trigger] lines@[k])@ == ls[k],
            out@.len() == spec_handle_entries(ls.subrange(0, i as int)).len(),
            forall|k: int|
                0 <= k < out@.len() ==> {
                    let e = spec_handle_entries(ls.subrange(0, i as int))[k];
                    lock_view(#[trigger] out@[k]) == (e.0, e.1, path@, None::<Seq<char>>)
                },
        decreases lines.len() - i,
    {
        let entry = handle_line(&lines[i]);
        proof {
            assert(ls.subrange(0, i + 1).drop_last() =~= ls.subrange(0, i as int));
            assert(ls.subrange(0, i + 1).last() == ls[i as int]);
        }
        match entry {
            Some((pid, name)) => {
                out.push(LockingProcess { pid, name, path: crate::text::to_owned(path), start_time: None });
            },
            None => {},
        }
        i += 1;
    }
    assert(ls.subrange(0, lines.len() as int) =~= ls);
    out
}

// ---- fuser -v ----

/// One line of `fuser -v PATH`: the second whitespace-separated column, where
/// it is a process id above zero.
pub open spec fn spec_fuser_line(line: Seq<char>) -> Option<u32> {
    let ws = spec_words(spec_trim(line));
    if ws.len() >= 2 {
        match spec_parse_u32(ws[1]) {
            Some(pid) => if pid > 0 {
                Some(pid)
            } else {
                None
            },
            None => None,
        }
    } else {
        None
    }
}

pub open spec fn spec_fuser_pids(lines: Seq<Seq<char>>) -> Seq<u32>
    decreases lines.len(),
{
    if lines.len() == 0 {
        Seq::empty()
    } else {
        let rest = spec_fuser_pids(lines.drop_last());
        match spec_fuser_line(lines.last()) {
            Some(p) => rest.push(p),
            None => rest,
        }
    }
}

/// The process ids that `fuser -v` lists, in order.
pub fn parse_fuser_output(stderr: &str) -> (r: Vec<u32>)
    ensures
        r@ == spec_fuser_pids(spec_lines(stderr@)),
{
    let lines = lines_of(stderr);
    let ghost ls = spec_lines(stderr@);
    let mut out: Vec<u32> = Vec::new();
    let mut i: usize = 0;
    while i < lines.len()
        invariant
            i <= lines.len(),
            ls == spec_lines(stderr@),
            lines@.len() == ls.len(),
            forall|k: int| 0 <= k < lines@.len() ==> (#[trigger] lines@[k])@ == ls[k],
            out@ == spec_fuser_pids(ls.subrange(0, i as int)),
        decreases lines.len() - i,
    {
        let t = crate::text::trimmed(&lines[i]);
        let ws = crate::text::words(&t);
        proof {
            assert(ls.subrange(0, i + 1).drop_last() =~= ls.subrange(0, i as int));
            assert(ls.subrange(0, i + 1).last() == ls[i as int]);
        }
        if ws.len() >= 2 {
            match crate::text::parse_u32(&ws[1]) {
                Some(pid) => {
                    if pid > 0 {
                        out.push(pid);
                    }
                },
                None => {},
            }
        }
        i += 1;
    }
    assert(ls.subrange(0, lines.len() as int) =~= ls);
    out
}

// ---- lsof -F pcn ----

/// The state of reading `lsof -F pcn` output: the current process id and
/// command name, and the processes completed so far.
pub type LsofState = (Option<u32>, Option<Seq<char>>, Seq<(u32, Seq<char>)>);

/// One line: `pNNN` starts a process (completing the previous one where both
/// its id and name are known), `cNAME` names it; other lines change nothing.
pub open spec fn spec_lsof_step(st: LsofState, line: Seq<char>) -> LsofState {
    if line.len() == 0 {
        st
    } else if line[0] == 'p' {
        let done = match (st.0, st.1) {
            (Some(pid), Some(name)) => st.2.push((pid, name)),
            _ => st.2,
        };
        (spec_parse_u32(line.drop_first()), None, done)
    } else if line[0] == 'c' {
        (st.0, Some(line.drop_first()), st.2)
    } else {
        st
    }
}

pub open spec fn spec_lsof_fold(lines: Seq<Seq<char>>) -> LsofState
    decreases lines.len(),
{
    if lines.len() == 0 {
        (None, None, Seq::empty())
    } else {
        spec_lsof_step(spec_lsof_fold(lines.drop_last()), lines.last())
    }
}

/// The processes of `lsof -F pcn` output: each process id with its name.
pub open spec fn spec_lsof_entries(lines: Seq<Seq<char>>) -> Seq<(u32, Seq<char>)> {
    let st = spec_lsof_fold(lines);
    match (st.0, st.1) {
        (Some(pid), Some(name)) => st.2.push((pid, name)),
        _ => st.2,
    }
}

/// The processes that `lsof -F pcn` lists, each with the path asked about.
pub fn parse_lsof_output(output: &str, path: &str) -> (r: Vec<LockingProcess>)
    ensures
        r@.len() == spec_lsof_entries(spec_lines(output@)).len(),
        forall|i: int|
            0 <= i < r@.len() ==> {
                let e = spec_lsof_entries(spec_lines(output@))[i];
                lock_view(#[trigger] r@[i]) == (e.0, e.1, path@, None::<Seq<char>>)
            },
{
    let lines = lines_of(output);
    let ghost ls = spec_lines(output@);
    let mut out: Vec<LockingProcess> = Vec::new();
    let mut current_pid: Option<u32> = None;
    let mut current_name: Option<Vec<char>> = None;
    let mut i: usize = 0;
    while i < lines.len()
        invariant
            i <= lines.len(),
            ls == spec_lines(output@),
            lines@.len() == ls.len(),
            forall|k: int| 0 <= k < lines@.len() ==> (#[trigger] lines@[k])@ == ls[k],
            ({
                let st = spec_lsof_fold(ls.subrange(0, i as int));
                &&& current_pid == st.0
                &&& match current_name {
                    Some(n) => st.1 == Some(n@),
                    None => st.1 is None,
                }
                &&& out@.len() == st.2.len()
                &&& forall|k: int|
                    0 <= k < out@.len() ==> lock_view(#[trigger] out@[k]) == (st.2[k].0, st.2[k].1, path@, None::<Seq<char>>)
            }),
        decreases lines.len() - i,
    {
        let line = &lines[i];
        proof {
            assert(ls.subrange(0, i + 1).drop_last() =~= ls.subrange(0, i as int));
            assert(ls.subrange(0, i + 1).last() == ls[i as int]);
        }
        if line.len() > 0 {
            if line[0] == 'p' {
                let pid_prev = current_pid;
                let name_prev = current_name;
                current_pid = None;
                current_name = None;
                match (pid_prev, name_prev) {
                    (Some(pid), Some(name)) => {
                        out.push(LockingProcess {
                            pid,
                            name: crate::text::string_from(&name),
                            path: crate::text::to_owned(path),
                            start_time: None,
                        });
                    },
                    _ => {},
                }
                let rest = crate::text::slice_vec(line, 1, line.len());
                assert(rest@ =~= line@.drop_first());
                current_pid = crate::text::parse_u32(&rest);
            } else if line[0] == 'c' {
                let rest = crate::text::slice_vec(line, 1, line.len());
                assert(rest@ =~= line@.drop_first());
                current_name = Some(rest);
            }
        }
        i += 1;
    }
    assert(ls.subrange(0, lines.len() as int) =~= ls);
    match (current_pid, current_name) {
        (Some(pid), Some(name)) => {
            out.push(LockingProcess {
                pid,
                name: crate::text::string_from(&name),
                path: crate::text::to_owned(path),
                start_time: None,
            });
        },
        _ => {},
    }
    out
}

// ---- Linux: /proc ----

/// The program a process runs: the first NUL-separated field of its
/// `/proc/PID/cmdline`.
pub open spec fn spec_cmdline_program(cmdline: Seq<char>) -> Seq<char> {
    spec_split(cmdline, '\0')[0]
}

/// A path that is a single plain name on every platform: not empty, no
/// `/`, `\\` or `:`, and neither `.` nor `..`.
pub open spec fn plain_name(p: Seq<char>) -> bool {
    &&& p.len() > 0
    &&& !spec_contains(p, "/"@)
    &&& !spec_contains(p, "\\"@)
    &&& !spec_contains(p, ":"@)
    &&& p != "."@
    &&& p != ".."@
}

/// `Path::file_name` of a path, as a `String` (`to_string_lossy` of text
/// that came from a `&str`, so unchanged). The documentation makes the
/// result the final component of the path: it is a non-empty part of the
/// path with no `/` in it, and a path that is one plain name is its own
/// final component. Which part it is otherwise depends on the platform's
/// separators and is not stated.
#[verifier::external_body]
fn path_file_name(path: &str) -> (r: Option<String>)
    ensures
        r is Some ==> r->0@.len() > 0 && spec_contains(path@, r->0@) && !spec_contains(r->0@, "/"@),
        plain_name(path@) ==> r is Some && r->0@ == path@,
{
    match std::path::Path::new(path).file_name() {
        Some(n) => Some(n.to_string_lossy().to_string()),
        None => None,
    }
}

/// `name` may be the name read from the command line `cmdline`: a
/// non-empty part of its program, the program itself where that is one
/// plain name.
pub open spec fn name_from_cmdline(cmdline: Seq<char>, name: Seq<char>) -> bool {
    let program = spec_cmdline_program(cmdline);
    &&& name.len() > 0
    &&& spec_contains(program, name)
    &&& plain_name(program) ==> name == program
}

/// The name of a process from its `/proc/PID/cmdline`: the file name of its
/// program (the program itself where the path has no file name); none where
/// the program is empty.
pub fn proc_name(cmdline: &str) -> (r: Option<String>)
    ensures
        r is None <==> spec_cmdline_program(cmdline@).len() == 0,
        r matches Some(n) ==> name_from_cmdline(cmdline@, n@),
{
    let v = crate::text::chars_of(cmdline);
    let fields = crate::text::split_chars(&v, '\0');
    proof {
        crate::text::lemma_split_nonempty(v@, '\0');
    }
    let first = crate::text::string_from(&fields[0]);
    if crate::text::is_empty_str(first.as_str()) {
        return None;
    }
    match path_file_name(first.as_str()) {
        Some(n) => Some(n),
        None => {
            proof {
                assert(crate::text::spec_occurs_at(first@, first@, 0)) by {
                    assert(first@.subrange(0, first@.len() as int) =~= first@);
                }
            }
            Some(first)
        },
    }
}

/// The start of a process in clock ticks since boot: field 22 of
/// `/proc/PID/stat`, the 20th field after the command's closing `)`.
pub open spec fn spec_stat_ticks(stat: Seq<char>) -> Option<u64> {
    if crate::text::spec_contains(stat, ")"@) {
        let fields = spec_words(spec_after_last(stat, ')'));
        if fields.len() > 19 {
            spec_parse_u64(fields[19])
        } else {
            None
        }
    } else {
        None
    }
}

pub fn stat_ticks(stat: &str) -> (r: Option<u64>)
    ensures
        r == spec_stat_ticks(stat@),
{
    let v = crate::text::chars_of(stat);
    let paren = crate::text::chars_of(")");
    if !crate::text::contains(&v, &paren) {
        return None;
    }
    let after = crate::text::after_last(&v, ')');
    let fields = crate::text::words(&after);
    if fields.len() > 19 {
        crate::text::parse_u64(&fields[19])
    } else {
        None
    }
}

/// The boot time of `/proc/stat`: the first line that starts with `btime `,
/// its rest trimmed and read as seconds since the Unix epoch.
pub open spec fn spec_btime(lines: Seq<Seq<char>>) -> Option<u64>
    decreases lines.len(),
{
    if lines.len() == 0 {
        None
    } else if spec_starts_with(lines[0], "btime "@) {
        spec_parse_u64(spec_trim(lines[0].skip(6)))
    } else {
        spec_btime(lines.drop_first())
    }
}

pub fn boot_time(system_stat: &str) -> (r: Option<u64>)
    ensures
        r == spec_btime(spec_lines(system_stat@)),
{
    let lines = lines_of(system_stat);
    let ghost ls = spec_lines(system_stat@);
    let prefix = crate::text::chars_of("btime ");
    proof {
        reveal_strlit("btime ");
    }
    let mut i: usize = 0;
    assert(ls.skip(0) =~= ls);
    while i < lines.len()
        invariant
            i <= lines.len(),
            ls == spec_lines(system_stat@),
            lines@.len() == ls.len(),
            prefix@ == "btime "@,
            prefix@.len() == 6,
            forall|k: int| 0 <= k < lines@.len() ==> (#[trigger] lines@[k])@ == ls[k],
            spec_btime(ls) == spec_btime(ls.skip(i as int)),
        decreases lines.len() - i,
    {
        assert(ls.skip(i as int)[0] == ls[i as int]);
        assert(ls.skip(i as int).drop_first() =~= ls.skip(i + 1));
        let line = &lines[i];
        if crate::text::starts_with(line, &prefix) {
            let n = line.len();
            let rest = crate::text::slice_vec(line, 6, n);
            assert(rest@ =~= line@.skip(6));
            let t = crate::text::trimmed(&rest);
            return crate::text::parse_u64(&t);
        }
        i += 1;
    }
    None
}

/// The latest start, in seconds since the Unix epoch, that is formatted:
/// the last second of `chrono`'s range, 31 December 262142, 23:59:59 UTC.
/// Past it `chrono` has no date and the formatting panics.
pub const MAX_START_SECS: u64 = 8_210_266_876_799;

/// The start of a process in seconds since the Unix epoch: the boot time
/// plus its start in ticks, at 100 ticks a second.
pub open spec fn spec_start_secs(stat: Option<Seq<char>>, system_stat: Option<Seq<char>>) -> Option<int> {
    match stat {
        Some(st) => match spec_stat_ticks(st) {
            Some(ticks) => match system_stat {
                Some(ss) => match spec_btime(spec_lines(ss)) {
                    Some(b) => Some(b + ticks / 100),
                    None => None,
                },
                None => None,
            },
            None => None,
        },
        None => None,
    }
}

/// What `chrono` writes for a moment in UTC: `DateTime::<Utc>::to_rfc3339`.
pub uninterp spec fn rfc3339_utc_spec(secs: u64) -> Seq<char>;

/// The moment `secs` seconds after the Unix epoch as `chrono` writes it in
/// UTC: `DateTime::<Utc>::from_timestamp(secs, 0)`, then `to_rfc3339`. This
/// is the moment `DateTime::<Utc>::from(SystemTime)` gives for the same
/// seconds (that impl calls `Utc.timestamp_opt`, which builds it the same
/// way), without going through `SystemTime`, whose range differs between
/// platforms. The contract names the text and, from `from_timestamp`'s
/// source, says that there is one exactly up to the last second of
/// `chrono`'s range.
#[verifier::external_body]
fn rfc3339_utc(secs: u64) -> (r: Option<String>)
    requires
        secs <= i64::MAX,
    ensures
        r is Some <==> secs <= MAX_START_SECS,
        r matches Some(t) ==> t@ == rfc3339_utc_spec(secs),
{
    match chrono::DateTime::<chrono::Utc>::from_timestamp(secs as i64, 0) {
        Some(moment) => Some(moment.to_rfc3339()),
        None => None,
    }
}

pub open spec fn opt_view(s: Option<String>) -> Option<Seq<char>> {
    match s {
        Some(t) => Some(t@),
        None => None,
    }
}

/// The start time recorded for a process, from its `/proc` files.
pub open spec fn spec_entry_start(e: ProcEntry) -> Option<Seq<char>> {
    match spec_start_secs(opt_view(e.stat), opt_view(e.system_stat)) {
        Some(secs) => Some(rfc3339_utc_spec(secs as u64)),
        None => None,
    }
}

/// The start time of a process as an RFC 3339 timestamp, where its `/proc`
/// files give one.
pub fn proc_start_time(e: &ProcEntry) -> (r: Option<String>)
    requires
        spec_start_secs(opt_view(e.stat), opt_view(e.system_stat)) matches Some(x) ==> x <= MAX_START_SECS,
    ensures
        opt_view(r) == spec_entry_start(*e),
{
    let ticks = match &e.stat {
        Some(st) => stat_ticks(st.as_str()),
        None => None,
    };
    match ticks {
        Some(t) => {
            let boot = match &e.system_stat {
                Some(ss) => boot_time(ss.as_str()),
                None => None,
            };
            match boot {
                Some(b) => rfc3339_utc(b + t / 100),
                None => None,
            }
        },
        None => None,
    }
}

/// Whether the start time that `/proc` gives for a process, if any, lies in
/// the range that is formatted.
pub fn start_in_range(e: &ProcEntry) -> (r: bool)
    ensures
        r == (spec_start_secs(opt_view(e.stat), opt_view(e.system_stat)) matches Some(x) ==> x
            <= MAX_START_SECS),
{
    let ticks = match &e.stat {
        Some(st) => stat_ticks(st.as_str()),
        None => None,
    };
    match ticks {
        Some(t) => {
            let boot = match &e.system_stat {
                Some(ss) => boot_time(ss.as_str()),
                None => None,
            };
            match boot {
                Some(b) => b <= MAX_START_SECS && t / 100 <= MAX_START_SECS - b,
                None => true,
            }
        },
        None => true,
    }
}

/// Whether every start time that `/proc` gives lies in the range that is
/// formatted.
pub fn all_starts_in_range(procs: &Vec<ProcEntry>) -> (r: bool)
    ensures
        r == starts_in_range(procs@),
{
    let mut i: usize = 0;
    while i < procs.len()
        invariant
            i <= procs.len(),
            forall|k: int|
                0 <= k < i ==> (spec_start_secs(opt_view(#[trigger] procs@[k].stat), opt_view(procs@[k].system_stat))
                    matches Some(x) ==> x <= MAX_START_SECS),
        decreases procs.len() - i,
    {
        if !start_in_range(&procs[i]) {
            return false;
        }
        i += 1;
    }
    true
}

/// The process ids to look at on Linux: those of `fuser -v` where it ran,
/// else those of `lsof -t`; none at all where neither ran.
pub open spec fn spec_linux_pids(fuser: Option<Seq<char>>, lsof: Option<Seq<char>>) -> Option<Seq<u32>> {
    match fuser {
        Some(f) => Some(spec_fuser_pids(spec_lines(f))),
        None => match lsof {
            Some(o) => Some(spec_lsof_pids(spec_lines(o))),
            None => None,
        },
    }
}

/// The first `/proc` entry for a process id.
pub open spec fn spec_entry_for(procs: Seq<ProcEntry>, pid: u32) -> Option<ProcEntry>
    decreases procs.len(),
{
    if procs.len() == 0 {
        None
    } else if procs[0].pid == pid {
        Some(procs[0])
    } else {
        spec_entry_for(procs.drop_first(), pid)
    }
}

/// Whether a process's name can be read: its command line is there and
/// names a program.
pub open spec fn spec_has_name(e: Option<ProcEntry>) -> bool {
    match e {
        Some(en) => match en.cmdline {
            Some(c) => spec_cmdline_program(c@).len() > 0,
            None => false,
        },
        None => false,
    }
}

/// The process ids that are reported: those whose name can be read.
pub open spec fn spec_linux_kept(pids: Seq<u32>, procs: Seq<ProcEntry>) -> Seq<u32>
    decreases pids.len(),
{
    if pids.len() == 0 {
        Seq::empty()
    } else {
        let rest = spec_linux_kept(pids.drop_last(), procs);
        if spec_has_name(spec_entry_for(procs, pids.last())) {
            rest.push(pids.last())
        } else {
            rest
        }
    }
}

/// Every start time that `/proc` gives lies in the range that is formatted.
pub open spec fn starts_in_range(procs: Seq<ProcEntry>) -> bool {
    forall|i: int|
        0 <= i < procs.len() ==> (spec_start_secs(opt_view(#[trigger] procs[i].stat), opt_view(procs[i].system_stat))
            matches Some(x) ==> x <= MAX_START_SECS)
}

fn entry_for(procs: &Vec<ProcEntry>, pid: u32) -> (r: Option<usize>)
    ensures
        match r {
            Some(i) => i < procs@.len() && spec_entry_for(procs@, pid) == Some(procs@[i as int]),
            None => spec_entry_for(procs@, pid) is None,
        },
{
    let mut i: usize = 0;
    assert(procs@.skip(0) =~= procs@);
    while i < procs.len()
        invariant
            i <= procs.len(),
            spec_entry_for(procs@, pid) == spec_entry_for(procs@.skip(i as int), pid),
        decreases procs.len() - i,
    {
        assert(procs@.skip(i as int)[0] == procs@[i as int]);
        assert(procs@.skip(i as int).drop_first() =~= procs@.skip(i + 1));
        if procs[i].pid == pid {
            return Some(i);
        }
        i += 1;
    }
    None
}

/// The locking processes on Linux, given the process ids to look at.
fn linux_processes(pids: &Vec<u32>, procs: &Vec<ProcEntry>, path: &str) -> (r: Vec<LockingProcess>)
    requires
        starts_in_range(procs@),
    ensures
        r@.len() == spec_linux_kept(pids@, procs@).len(),
        forall|i: int|
            0 <= i < r@.len() ==> {
                let pid = spec_linux_kept(pids@, procs@)[i];
                &&& (#[trigger] r@[i]).pid == pid
                &&& r@[i].path@ == path@
                &&& opt_view(r@[i].start_time) == spec_entry_start(spec_entry_for(procs@, pid)->0)
                &&& spec_entry_for(procs@, pid)->0.cmdline matches Some(c) && name_from_cmdline(c@, r@[i].name@)
            },
{
    let mut out: Vec<LockingProcess> = Vec::new();
    let mut i: usize = 0;
    while i < pids.len()
        invariant
            i <= pids.len(),
            starts_in_range(procs@),
            out@.len() == spec_linux_kept(pids@.subrange(0, i as int), procs@).len(),
            forall|k: int|
                0 <= k < out@.len() ==> {
                    let pid = spec_linux_kept(pids@.subrange(0, i as int), procs@)[k];
                    &&& (#[trigger] out@[k]).pid == pid
                    &&& out@[k].path@ == path@
                    &&& opt_view(out@[k].start_time) == spec_entry_start(spec_entry_for(procs@, pid)->0)
                    &&& spec_entry_for(procs@, pid)->0.cmdline matches Some(c) && name_from_cmdline(
                        c@,
                        out@[k].name@,
                    )
                },
        decreases pids.len() - i,
    {
        let pid = pids[i];
        proof {
            assert(pids@.subrange(0, i + 1).drop_last() =~= pids@.subrange(0, i as int));
            assert(pids@.subrange(0, i + 1).last() == pid);
        }
        match entry_for(procs, pid) {
            Some(j) => {
                let e = &procs[j];
                let name = match &e.cmdline {
                    Some(c) => proc_name(c.as_str()),
                    None => None,
                };
                match name {
                    Some(n) => {
                        proof {
                            assert(procs@[j as int] == *e);
                        }
                        let start = proc_start_time(e);
                        out.push(LockingProcess { pid, name: n, path: crate::text::to_owned(path), start_time: start });
                    },
                    None => {},
                }
            },
            None => {},
        }
        i += 1;
    }
    assert(pids@.subrange(0, pids.len() as int) =~= pids@);
    out
}

/// The locking processes that a probe shows, read from the answers of the
/// platform's tools (for every platform but Linux).
pub open spec fn spec_locking_views(probe: LockProbe, path: Seq<char>) -> Option<Seq<LockView>> {
    match probe {
        LockProbe::Windows { handle, lsof } => match handle {
            Some(h) => Some(
                spec_handle_entries(spec_lines(h@)).map_values(
                    |e: (u32, Seq<char>)| (e.0, e.1, path, None::<Seq<char>>),
                ),
            ),
            None => match lsof {
                Some(o) => Some(
                    spec_lsof_pids(spec_lines(o@)).map_values(
                        |p: u32| (p, Seq::<char>::empty(), path, None::<Seq<char>>),
                    ),
                ),
                None => Some(Seq::empty()),
            },
        },
        LockProbe::Macos { lsof } => match lsof {
            Some(o) => Some(
                spec_lsof_entries(spec_lines(o@)).map_values(
                    |e: (u32, Seq<char>)| (e.0, e.1, path, None::<Seq<char>>),
                ),
            ),
            None => Some(Seq::empty()),
        },
        LockProbe::Other => Some(Seq::empty()),
        LockProbe::Linux { .. } => None,
    }
}

/// The answer on Linux: no process where neither tool ran; else, in order,
/// the processes whose name can be read, each with the path, its start
/// time and the name read from its command line.
pub open spec fn linux_answer(
    r: Seq<LockingProcess>,
    fuser: Option<Seq<char>>,
    lsof: Option<Seq<char>>,
    procs: Seq<ProcEntry>,
    path: Seq<char>,
) -> bool {
    match spec_linux_pids(fuser, lsof) {
        None => r.len() == 0,
        Some(pids) => {
            &&& r.len() == spec_linux_kept(pids, procs).len()
            &&& forall|i: int|
                0 <= i < r.len() ==> {
                    let pid = spec_linux_kept(pids, procs)[i];
                    &&& (#[trigger] r[i]).pid == pid
                    &&& r[i].path@ == path
                    &&& opt_view(r[i].start_time) == spec_entry_start(spec_entry_for(procs, pid)->0)
                    &&& spec_entry_for(procs, pid)->0.cmdline matches Some(c) && name_from_cmdline(c@, r[i].name@)
                }
        },
    }
}

pub open spec fn probe_in_range(probe: LockProbe) -> bool {
    match probe {
        LockProbe::Linux { procs, .. } => starts_in_range(procs@),
        _ => true,
    }
}

/// The processes that hold `path` open, from what the platform's tools
/// printed. On Windows, macOS and other systems the answer is exact
/// (`spec_locking_views`); on Linux it is `linux_answer`.
pub fn get_locking_processes(probe: &LockProbe, path: &str) -> (r: Vec<LockingProcess>)
    requires
        probe_in_range(*probe),
    ensures
        spec_locking_views(*probe, path@) matches Some(vs) ==> r@.map_values(|p: LockingProcess| lock_view(p)) == vs,
        match *probe {
            LockProbe::Linux { fuser, lsof, procs } => linux_answer(r@, opt_view(fuser), opt_view(lsof), procs@, path@),
            _ => true,
        },
{
    match probe {
        LockProbe::Windows { handle, lsof } => match handle {
            Some(h) => {
                let r = parse_handle_exe_output(h.as_str(), path);
                assert(r@.map_values(|p: LockingProcess| lock_view(p)) =~= spec_locking_views(*probe, path@)->0);
                r
            },
            None => match lsof {
                Some(o) => {
                    let pids = pid_lines(o.as_str());
                    let mut out: Vec<LockingProcess> = Vec::new();
                    let mut i: usize = 0;
                    while i < pids.len()
                        invariant
                            i <= pids.len(),
                            out@.len() == i,
                            forall|k: int|
                                0 <= k < i ==> lock_view(#[trigger] out@[k]) == (pids@[k], Seq::<char>::empty(), path@, None::<Seq<char>>),
                        decreases pids.len() - i,
                    {
                        out.push(LockingProcess { pid: pids[i], name: String::new(), path: crate::text::to_owned(path), start_time: None });
                        i += 1;
                    }
                    assert(out@.map_values(|p: LockingProcess| lock_view(p)) =~= spec_locking_views(*probe, path@)->0);
                    out
                },
                None => {
                    let out: Vec<LockingProcess> = Vec::new();
                    assert(out@.map_values(|p: LockingProcess| lock_view(p)) =~= Seq::<LockView>::empty());
                    out
                },
            },
        },
        LockProbe::Linux { fuser, lsof, procs } => {
            let pids = match fuser {
                Some(f) => Some(parse_fuser_output(f.as_str())),
                None => match lsof {
                    Some(o) => Some(pid_lines(o.as_str())),
                    None => None,
                },
            };
            match pids {
                Some(ps) => linux_processes(&ps, procs, path),
                None => Vec::new(),
            }
        },
        LockProbe::Macos { lsof } => match lsof {
            Some(o) => {
                let r = parse_lsof_output(o.as_str(), path);
                assert(r@.map_values(|p: LockingProcess| lock_view(p)) =~= spec_locking_views(*probe, path@)->0);
                r
            },
            None => {
                let out: Vec<LockingProcess> = Vec::new();
                assert(out@.map_values(|p: LockingProcess| lock_view(p)) =~= Seq::<LockView>::empty());
                out
            },
        },
        LockProbe::Other => {
            let out: Vec<LockingProcess> = Vec::new();
            assert(out@.map_values(|p: LockingProcess| lock_view(p)) =~= Seq::<LockView>::empty());
            out
        },
    }
}

/// Where no tool could tell anything, no process is reported, on every
/// platform.
pub proof fn no_tool_output_means_no_locks(procs: Seq<ProcEntry>, path: Seq<char>)
    ensures
        spec_locking_views(LockProbe::Windows { handle: None, lsof: None }, path) == Some(Seq::<LockView>::empty()),
        spec_locking_views(LockProbe::Macos { lsof: None }, path) == Some(Seq::<LockView>::empty()),
        spec_locking_views(LockProbe::Other, path) == Some(Seq::<LockView>::empty()),
        spec_linux_pids(None, None) is None,
        forall|r: Seq<LockingProcess>| linux_answer(r, None, None, procs, path) ==> r.len() == 0,
{
}

} // verus!
