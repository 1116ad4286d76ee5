//! Managed dedicated servers: naming, file access inside a server folder,
//! console output cleaning, and reading `eula.txt` and `server.properties`.
use vstd::prelude::*;
use crate::text::{spec_parse_uint, spec_contains, spec_eq_ignore_ascii_case, spec_is_ascii_alphanumeric, spec_is_ascii_digit, spec_split, spec_starts_with, spec_trim};

verus! {

/// The jar a server starts with when nothing else names one.
pub open spec fn default_jar_name() -> Seq<char> {
    "server.jar"@
}

/// The Fabric server launcher jar (the front end names it the same way).
pub open spec fn fabric_server_jar_name() -> Seq<char> {
    "fabric-server.jar"@
}

/// The jar a server type launches with by default, if it has its own.
pub fn type_default_jar_name(server_type: &str) -> (r: Option<String>)
    ensures
        server_type@ == "fabric"@ ==> (r matches Some(n) && n@ == fabric_server_jar_name()),
        server_type@ != "fabric"@ ==> r is None,
{
    let v = crate::text::chars_of(server_type);
    if crate::text::eq_str(&v, "fabric") {
        Some(crate::text::to_owned("fabric-server.jar"))
    } else {
        None
    }
}

/// A server's settings as stored in its folder.
#[derive(Debug)]
pub struct ServerManifest {
    pub id: String,
    pub name: String,
    pub server_type: String,
    pub game_version: String,
    pub loader_version: Option<String>,
    pub jar_name: Option<String>,
    pub java_path: Option<String>,
    pub memory_mb: Option<u32>,
    pub icon_path: Option<String>,
    pub jvm_args: Vec<String>,
    /// Creation time, in seconds since the Unix epoch.
    pub created_at: i64,
    /// Last start, in seconds since the Unix epoch.
    pub last_started_at: Option<i64>,
    pub last_exit_crashed: bool,
}

/// The jar a server launches: the manifest's own choice, else its type's
/// default, else the generic default.
pub fn resolve_jar_name(manifest: &ServerManifest) -> (r: String)
    ensures
        r@ == match manifest.jar_name {
            Some(n) => n@,
            None => if manifest.server_type@ == "fabric"@ {
                fabric_server_jar_name()
            } else {
                default_jar_name()
            },
        },
{
    match &manifest.jar_name {
        Some(n) => n.clone(),
        None => match type_default_jar_name(manifest.server_type.as_str()) {
            Some(n) => n,
            None => crate::text::to_owned("server.jar"),
        },
    }
}

pub open spec fn esc() -> char {
    '\u{1b}'
}

/// Console text without ANSI escape sequences: CSI sequences (`ESC [` up to
/// a final character in `@`..`~`), OSC sequences (`ESC ]` up to BEL or
/// `ESC \`), and stray escape characters.
pub open spec fn spec_strip_ansi(s: Seq<char>) -> Seq<char>
    decreases s.len(), 1int,
{
    if s.len() == 0 {
        Seq::empty()
    } else if s[0] != esc() {
        seq![s[0]] + spec_strip_ansi(s.drop_first())
    } else if s.len() >= 2 && s[1] == '[' {
        spec_after_csi(s.subrange(2, s.len() as int))
    } else if s.len() >= 2 && s[1] == ']' {
        spec_after_osc(s.subrange(2, s.len() as int), false)
    } else {
        spec_strip_ansi(s.drop_first())
    }
}

/// The rest of a CSI sequence is skipped up to its final character.
pub open spec fn spec_after_csi(s: Seq<char>) -> Seq<char>
    decreases s.len(), 0int,
{
    if s.len() == 0 {
        Seq::empty()
    } else if '\u{40}' <= s[0] && s[0] <= '\u{7e}' {
        spec_strip_ansi(s.drop_first())
    } else {
        spec_after_csi(s.drop_first())
    }
}

/// The rest of an OSC sequence is skipped up to BEL or `ESC \`.
pub open spec fn spec_after_osc(s: Seq<char>, saw_escape: bool) -> Seq<char>
    decreases s.len(), 0int,
{
    if s.len() == 0 {
        Seq::empty()
    } else if s[0] == '\u{7}' || (saw_escape && s[0] == '\\') {
        spec_strip_ansi(s.drop_first())
    } else {
        spec_after_osc(s.drop_first(), s[0] == esc())
    }
}

/// Where the cleaner is: in plain text, inside a CSI sequence, or inside an
/// OSC sequence (remembering whether the last character was ESC).
pub enum AnsiMode {
    Text,
    Csi,
    Osc(bool),
}

pub open spec fn continuation(mode: AnsiMode, rest: Seq<char>) -> Seq<char> {
    match mode {
        AnsiMode::Text => spec_strip_ansi(rest),
        AnsiMode::Csi => spec_after_csi(rest),
        AnsiMode::Osc(b) => spec_after_osc(rest, b),
    }
}

/// Removes the ANSI escape sequences that servers print when they believe a
/// terminal is attached.
pub fn strip_ansi(input: &str) -> (r: String)
    ensures
        r@ == spec_strip_ansi(input@),
{
    let s = crate::text::chars_of(input);
    let mut out: Vec<char> = Vec::new();
    let mut mode = AnsiMode::Text;
    let mut i: usize = 0;
    assert(s@.subrange(0, s@.len() as int) =~= s@);
    while i < s.len()
        invariant
            i <= s.len(),
            s@ == input@,
            out@ + continuation(mode, s@.subrange(i as int, s@.len() as int)) == spec_strip_ansi(input@),
        decreases s.len() - i,
    {
        let ghost rest = s@.subrange(i as int, s@.len() as int);
        let ghost next = s@.subrange(i + 1, s@.len() as int);
        assert(rest.drop_first() =~= next);
        assert(rest[0] == s@[i as int]);
        let c = s[i];
        match mode {
            AnsiMode::Text => {
                if c != '\u{1b}' {
                    let ghost before = out@;
                    out.push(c);
                    assert(spec_strip_ansi(rest) == seq![c] + spec_strip_ansi(next));
                    assert(before + (seq![c] + spec_strip_ansi(next)) =~= out@ + spec_strip_ansi(next));
                    i += 1;
                } else if i + 1 < s.len() && s[i + 1] == '[' {
                    assert(rest.subrange(2, rest.len() as int) =~= s@.subrange(i + 2, s@.len() as int));
                    mode = AnsiMode::Csi;
                    i += 2;
                } else if i + 1 < s.len() && s[i + 1] == ']' {
                    assert(rest.subrange(2, rest.len() as int) =~= s@.subrange(i + 2, s@.len() as int));
                    mode = AnsiMode::Osc(false);
                    i += 2;
                } else {
                    i += 1;
                }
            },
            AnsiMode::Csi => {
                if '\u{40}' <= c && c <= '\u{7e}' {
                    mode = AnsiMode::Text;
                }
                i += 1;
            },
            AnsiMode::Osc(saw_escape) => {
                if c == '\u{7}' || (saw_escape && c == '\\') {
                    mode = AnsiMode::Text;
                } else {
                    mode = AnsiMode::Osc(c == '\u{1b}');
                }
                i += 1;
            },
        }
    }
    assert(s@.subrange(i as int, s@.len() as int) =~= Seq::<char>::empty());
    assert(out@ + continuation(mode, Seq::<char>::empty()) =~= out@);
    crate::text::string_from(&out)
}

/// The console line of the known JNA abort on macOS (a failed native
/// library load overflows JNA's error buffer).
pub open spec fn spec_is_jna_macos_assertion(line: Seq<char>) -> bool {
    spec_contains(line, "Assertion failed:"@) && spec_contains(line, "snprintf() output has been truncated"@)
        && spec_contains(line, "dispatch.c"@)
}

pub fn is_jna_macos_assertion(line: &str) -> (r: bool)
    ensures
        r == spec_is_jna_macos_assertion(line@),
{
    crate::text::str_contains(line, "Assertion failed:") && crate::text::str_contains(
        line,
        "snprintf() output has been truncated",
    ) && crate::text::str_contains(line, "dispatch.c")
}

/// The hint lines added after the JNA abort.
pub fn jna_crash_hint_lines() -> (r: Vec<String>)
    ensures
        r@.len() == 3,
        r@[0]@ == "[Axolotl] This crash matches a known JNA bug on macOS (java-native-access#1452):"@,
        r@[1]@ == "[Axolotl] mods bundling JNA below 5.13.0 abort when a native library fails to load."@,
        r@[2]@ == "[Axolotl] Update or remove the affected mod, or ask the modpack author to bump JNA to 5.13.0+."@,
{
    let mut v: Vec<String> = Vec::new();
    v.push(crate::text::to_owned("[Axolotl] This crash matches a known JNA bug on macOS (java-native-access#1452):"));
    v.push(crate::text::to_owned("[Axolotl] mods bundling JNA below 5.13.0 abort when a native library fails to load."));
    v.push(crate::text::to_owned("[Axolotl] Update or remove the affected mod, or ask the modpack author to bump JNA to 5.13.0+."));
    v
}

/// `s` without trailing line-break characters.
pub open spec fn spec_trim_line_end(s: Seq<char>) -> Seq<char>
    decreases s.len(),
{
    if s.len() > 0 && (s.last() == '\r' || s.last() == '\n') {
        spec_trim_line_end(s.drop_last())
    } else {
        s
    }
}

/// One line read from the console, as the log shows it: line breaks and
/// escape sequences removed; nothing when no text is left. The flag says
/// whether the JNA hint must follow (once per server run).
pub fn console_line(raw: &str, hint_emitted: bool) -> (r: (Option<String>, bool))
    ensures
        ({
            let cleaned = spec_strip_ansi(spec_trim_line_end(raw@));
            &&& cleaned.len() == 0 ==> r.0 is None && !r.1
            &&& cleaned.len() > 0 ==> (r.0 matches Some(l) && l@ == cleaned) && r.1 == (!hint_emitted
                && spec_is_jna_macos_assertion(spec_trim_line_end(raw@)))
        }),
{
    let v = crate::text::chars_of(raw);
    let mut end = v.len();
    assert(v@.subrange(0, end as int) =~= v@);
    while end > 0 && (v[end - 1] == '\r' || v[end - 1] == '\n')
        invariant
            end <= v.len(),
            v@ == raw@,
            spec_trim_line_end(raw@) == spec_trim_line_end(v@.subrange(0, end as int)),
        decreases end,
    {
        assert(v@.subrange(0, end as int).drop_last() =~= v@.subrange(0, end - 1));
        end -= 1;
    }
    let trimmed = crate::text::string_from_range(&v, 0, end);
    let cleaned = strip_ansi(trimmed.as_str());
    if crate::text::is_empty_str(cleaned.as_str()) {
        return (None, false);
    }
    let hint = !hint_emitted && is_jna_macos_assertion(trimmed.as_str());
    (Some(cleaned), hint)
}


/// A server id names one folder: no separators, no `..`, not empty.
pub open spec fn spec_valid_server_id(id: Seq<char>) -> bool {
    &&& id.len() > 0
    &&& !spec_contains(id, "/"@)
    &&& !spec_contains(id, "\\"@)
    &&& !spec_contains(id, ".."@)
}

pub fn validate_server_id(id: &str) -> (r: Result<(), String>)
    ensures
        r is Ok <==> spec_valid_server_id(id@),
        r matches Err(m) ==> m@ == "Invalid server id: "@ + id@,
{
    if crate::text::is_empty_str(id) || crate::text::str_contains(id, "/") || crate::text::str_contains(id, "\\")
        || crate::text::str_contains(id, "..") {
        return Err(crate::text::concat("Invalid server id: ", id));
    }
    Ok(())
}

/// A file name inside a server folder: relative, `/`-separated, without
/// backslashes, empty components or `..`.
pub open spec fn spec_safe_file_name(file: Seq<char>) -> bool {
    &&& file.len() > 0
    &&& !spec_contains(file, "\\"@)
    &&& !spec_starts_with(file, "/"@)
    &&& forall|i: int|
        0 <= i < spec_split(file, '/').len() ==> (#[trigger] spec_split(file, '/')[i]) != ".."@ && spec_split(
            file,
            '/',
        )[i].len() > 0
}

/// The path of `file` inside the server folder `dir`, refused when it could
/// leave the folder.
pub fn safe_join(dir: &str, file: &str) -> (r: Result<String, String>)
    ensures
        r is Ok <==> spec_safe_file_name(file@),
        r matches Ok(p) ==> p@ == crate::import::spec_join(dir@, file@),
        r matches Err(m) ==> m@ == "Invalid file name: "@ + file@,
{
    let refused = crate::text::concat("Invalid file name: ", file);
    if crate::text::is_empty_str(file) || crate::text::str_contains(file, "\\") || crate::text::str_starts_with(
        file,
        "/",
    ) {
        return Err(refused);
    }
    let v = crate::text::chars_of(file);
    let parts = crate::text::split_chars(&v, '/');
    let mut i: usize = 0;
    while i < parts.len()
        invariant
            i <= parts.len(),
            v@ == file@,
            parts@.len() == spec_split(file@, '/').len(),
            forall|k: int| 0 <= k < parts@.len() ==> (#[trigger] parts@[k])@ == spec_split(file@, '/')[k],
            forall|k: int|
                0 <= k < i ==> (#[trigger] spec_split(file@, '/')[k]) != ".."@ && spec_split(file@, '/')[k].len() > 0,
            refused@ == "Invalid file name: "@ + file@,
        decreases parts.len() - i,
    {
        if parts[i].len() == 0 || crate::text::eq_str(&parts[i], "..") {
            assert(!spec_safe_file_name(file@)) by {
                assert(spec_split(file@, '/')[i as int] == parts@[i as int]@);
            }
            return Err(refused);
        }
        i += 1;
    }
    Ok(crate::import::join_path(dir, file))
}

/// Whether a character is alphanumeric in Unicode's sense.
pub uninterp spec fn is_alphanumeric_spec(c: char) -> bool;

/// `char::is_alphanumeric`: Unicode alphabetic or numeric. The contract
/// names the result and states what the documentation gives for ASCII:
/// letters and digits are alphanumeric and no other ASCII character is.
#[verifier::external_body]
fn char_is_alphanumeric(c: char) -> (r: bool)
    ensures
        r == is_alphanumeric_spec(c),
        (c as u32) < 0x80 ==> (r == spec_is_ascii_alphanumeric(c)),
{
    c.is_alphanumeric()
}

pub open spec fn folder_char(c: char) -> char {
    if is_alphanumeric_spec(c) || c == '-' || c == '_' {
        c
    } else {
        '-'
    }
}

/// Leading and trailing `-` removed.
pub open spec fn spec_trim_dashes(s: Seq<char>) -> Seq<char> {
    crate::text::spec_trim_end_by(crate::text::spec_trim_start_by(s, |c: char| c == '-'), |c: char| c == '-')
}

/// A folder name from a server's display name: characters other than
/// letters, digits, `-` and `_` become `-`, dashes at the ends are dropped,
/// at most 32 characters are kept, and an empty result becomes `server`.
pub open spec fn spec_sanitize_folder_name(name: Seq<char>) -> Seq<char> {
    spec_folder_finish(name.map_values(|c: char| folder_char(c)))
}

/// A character as an ASCII name keeps it: letters, digits, `-` and `_`
/// stay, anything else becomes `-`.
pub open spec fn ascii_folder_char(c: char) -> char {
    if spec_is_ascii_alphanumeric(c) || c == '-' || c == '_' {
        c
    } else {
        '-'
    }
}

/// The folder name from the mapped characters: dashes at the ends dropped,
/// at most 32 characters, `server` where nothing is left.
pub open spec fn spec_folder_finish(m: Seq<char>) -> Seq<char> {
    let t = spec_trim_dashes(m);
    if t.len() == 0 {
        "server"@
    } else if t.len() <= 32 {
        t
    } else {
        t.take(32)
    }
}

pub fn sanitize_folder_name(name: &str) -> (r: String)
    ensures
        r@ == spec_sanitize_folder_name(name@),
        crate::text::spec_all_ascii(name@) ==> r@ == spec_folder_finish(
            name@.map_values(|c: char| ascii_folder_char(c)),
        ),
        0 < r@.len() <= 32,
        forall|k: int|
            0 <= k < r@.len() && (#[trigger] r@[k] as u32) < 0x80 ==> spec_is_ascii_alphanumeric(r@[k])
                || r@[k] == '-' || r@[k] == '_',
{
    let v = crate::text::chars_of(name);
    let mut mapped: Vec<char> = Vec::new();
    let mut i: usize = 0;
    while i < v.len()
        invariant
            i <= v.len(),
            v@ == name@,
            mapped@ == v@.subrange(0, i as int).map_values(|c: char| folder_char(c)),
            forall|k: int| 0 <= k < i && (#[trigger] v@[k] as u32) < 0x80 ==> mapped@[k] == ascii_folder_char(v@[k]),
            forall|k: int|
                0 <= k < mapped@.len() && (#[trigger] mapped@[k] as u32) < 0x80 ==> spec_is_ascii_alphanumeric(
                    mapped@[k],
                ) || mapped@[k] == '-' || mapped@[k] == '_',
        decreases v.len() - i,
    {
        let c = v[i];
        let keep = char_is_alphanumeric(c) || c == '-' || c == '_';
        let m = if keep {
            c
        } else {
            '-'
        };
        mapped.push(m);
        assert(v@.subrange(0, i + 1).map_values(|c: char| folder_char(c)) =~= v@.subrange(0, i as int).map_values(
            |c: char| folder_char(c),
        ).push(folder_char(c)));
        i += 1;
    }
    assert(v@.subrange(0, v@.len() as int) =~= v@);
    let ghost m = mapped@;
    proof {
        if crate::text::spec_all_ascii(name@) {
            assert(m =~= name@.map_values(|c: char| ascii_folder_char(c)));
        }
    }
    let ghost p = |c: char| c == '-';
    let mut lo: usize = 0;
    while lo < mapped.len() && mapped[lo] == '-'
        invariant
            lo <= mapped.len(),
            forall|k: int| 0 <= k < lo ==> mapped@[k] == '-',
        decreases mapped.len() - lo,
    {
        lo += 1;
    }
    proof {
        crate::text::lemma_leading_exact(m, p, lo as int);
    }
    let ghost start = m.skip(lo as int);
    let mut hi: usize = mapped.len();
    while hi > lo && mapped[hi - 1] == '-'
        invariant
            lo <= hi <= mapped.len(),
            forall|k: int| hi <= k < mapped@.len() ==> mapped@[k] == '-',
        decreases hi,
    {
        hi -= 1;
    }
    proof {
        assert forall|k: int| start.len() - (mapped@.len() - hi) <= k < start.len() implies p(#[trigger] start[k]) by {
            assert(start[k] == m[k + lo]);
        }
        if mapped@.len() - hi < start.len() {
            assert(start[start.len() - (mapped@.len() - hi) - 1] == m[hi - 1]);
        }
        crate::text::lemma_trailing_exact(start, p, mapped@.len() - hi);
        assert(spec_trim_dashes(m) =~= m.subrange(lo as int, hi as int));
    }
    if hi == lo {
        let fallback = crate::text::to_owned("server");
        proof {
            reveal_strlit("server");
        }
        return fallback;
    }
    let end = if hi - lo > 32 {
        lo + 32
    } else {
        hi
    };
    let r = crate::text::string_from_range(&mapped, lo, end);
    assert(r@ =~= spec_sanitize_folder_name(name@));
    r
}

/// A run that ended badly: it exited with a failure, nobody asked it to
/// stop, and its EULA was accepted (an unaccepted EULA ends every first
/// run).
pub fn exit_crashed(exited_successfully: Option<bool>, stop_requested: bool, eula_accepted: bool) -> (r: bool)
    ensures
        r == (exited_successfully == Some(false) && !stop_requested && eula_accepted),
{
    match exited_successfully {
        Some(success) => !success && !stop_requested && eula_accepted,
        None => false,
    }
}


/// `str::lines`: the pieces between newlines, each freed of the `\r` of a
/// `\r\n` ending; a newline at the very end opens no further line.
pub open spec fn spec_lines(s: Seq<char>) -> Seq<Seq<char>> {
    let pieces = spec_split(s, '\n');
    let body = if s.len() == 0 {
        Seq::<Seq<char>>::empty()
    } else if s.last() == '\n' {
        pieces.drop_last()
    } else {
        pieces
    };
    Seq::new(
        body.len(),
        |i: int|
            if i < pieces.len() - 1 && body[i].len() > 0 && body[i].last() == '\r' {
                body[i].drop_last()
            } else {
                body[i]
            },
    )
}

pub fn lines_of(text: &str) -> (r: Vec<Vec<char>>)
    ensures
        r@.len() == spec_lines(text@).len(),
        forall|i: int| 0 <= i < r@.len() ==> (#[trigger] r@[i])@ == spec_lines(text@)[i],
{
    let v = crate::text::chars_of(text);
    let pieces = crate::text::split_chars(&v, '\n');
    let ghost ps = spec_split(text@, '\n');
    proof {
        crate::text::lemma_split_nonempty(text@, '\n');
    }
    let n = if v.len() == 0 {
        0
    } else if v[v.len() - 1] == '\n' {
        pieces.len() - 1
    } else {
        pieces.len()
    };
    let mut out: Vec<Vec<char>> = Vec::new();
    let mut i: usize = 0;
    while i < n
        invariant
            i <= n,
            n <= pieces.len(),
            v@ == text@,
            pieces@.len() == ps.len(),
            ps == spec_split(text@, '\n'),
            forall|k: int| 0 <= k < pieces@.len() ==> (#[trigger] pieces@[k])@ == ps[k],
            n == spec_lines(text@).len(),
            out@.len() == i,
            forall|k: int| 0 <= k < i ==> (#[trigger] out@[k])@ == spec_lines(text@)[k],
        decreases n - i,
    {
        let piece = &pieces[i];
        let strip = i + 1 < pieces.len() && piece.len() > 0 && piece[piece.len() - 1] == '\r';
        let line = if strip {
            crate::text::slice_vec(piece, 0, piece.len() - 1)
        } else {
            crate::text::slice_vec(piece, 0, piece.len())
        };
        proof {
            assert(piece@.subrange(0, piece@.len() as int) =~= piece@);
            assert(piece@.subrange(0, piece@.len() - 1) =~= piece@.drop_last());
        }
        out.push(line);
        i += 1;
    }
    out
}

/// `s` split at its first `=`.
pub open spec fn spec_split_once_eq(s: Seq<char>) -> Option<(Seq<char>, Seq<char>)> {
    if exists|i: int| 0 <= i < s.len() && s[i] == '=' {
        let i = choose|i: int| 0 <= i < s.len() && s[i] == '=' && forall|k: int| 0 <= k < i ==> s[k] != '=';
        Some((s.subrange(0, i), s.subrange(i + 1, s.len() as int)))
    } else {
        None
    }
}

fn split_once_eq(s: &Vec<char>) -> (r: Option<(Vec<char>, Vec<char>)>)
    ensures
        match r {
            Some(p) => spec_split_once_eq(s@) == Some((p.0@, p.1@)),
            None => spec_split_once_eq(s@) is None,
        },
{
    let mut i: usize = 0;
    while i < s.len()
        invariant
            i <= s.len(),
            forall|k: int| 0 <= k < i ==> s@[k] != '=',
        decreases s.len() - i,
    {
        if s[i] == '=' {
            proof {
                let c = choose|c: int| 0 <= c < s@.len() && s@[c] == '=' && forall|k: int| 0 <= k < c ==> s@[k] != '=';
                if c < i {
                } else if c > i {
                    assert(s@[i as int] == '=');
                }
            }
            return Some((crate::text::slice_vec(s, 0, i), crate::text::slice_vec(s, i + 1, s.len())));
        }
        i += 1;
    }
    None
}

/// The first line of a properties text that holds a `=`, split there.
pub open spec fn first_assignment(lines: Seq<Seq<char>>) -> Option<(Seq<char>, Seq<char>)>
    decreases lines.len(),
{
    if lines.len() == 0 {
        None
    } else {
        match spec_split_once_eq(lines[0]) {
            Some(kv) => Some(kv),
            None => first_assignment(lines.drop_first()),
        }
    }
}

/// The EULA is accepted when the first assignment of `eula.txt` is
/// `eula=true` (spaces and case aside).
pub open spec fn spec_eula_accepted(text: Seq<char>) -> bool {
    match first_assignment(spec_lines(text)) {
        Some((k, v)) => spec_trim(k) == "eula"@ && spec_eq_ignore_ascii_case(spec_trim(v), "true"@),
        None => false,
    }
}

pub fn eula_accepted(text: &str) -> (r: bool)
    ensures
        r == spec_eula_accepted(text@),
{
    let lines = lines_of(text);
    let ghost ls = spec_lines(text@);
    let mut i: usize = 0;
    assert(ls.skip(0) =~= ls);
    while i < lines.len()
        invariant
            i <= lines.len(),
            ls == spec_lines(text@),
            lines@.len() == ls.len(),
            forall|k: int| 0 <= k < lines@.len() ==> (#[trigger] lines@[k])@ == ls[k],
            first_assignment(ls) == first_assignment(ls.skip(i as int)),
        decreases lines.len() - i,
    {
        assert(ls.skip(i as int)[0] == ls[i as int]);
        assert(ls.skip(i as int).drop_first() =~= ls.skip(i + 1));
        match split_once_eq(&lines[i]) {
            Some((key, value)) => {
                let k = crate::text::trimmed(&key);
                let v = crate::text::trimmed(&value);
                let vs = crate::text::string_from(&v);
                return crate::text::eq_str(&k, "eula") && crate::text::str_eq_ignore_ascii_case(vs.as_str(), "true");
            },
            None => {},
        }
        i += 1;
    }
    false
}

/// The port of `server.properties`: the first `server-port` assignment whose
/// value is a valid port number.
pub open spec fn spec_server_port(lines: Seq<Seq<char>>) -> Option<u16>
    decreases lines.len(),
{
    if lines.len() == 0 {
        None
    } else {
        match spec_split_once_eq(lines[0]) {
            Some((k, v)) => if spec_trim(k) == "server-port"@ && spec_parse_uint(spec_trim(v), 65535) is Some {
                Some(spec_parse_uint(spec_trim(v), 65535)->0 as u16)
            } else {
                spec_server_port(lines.drop_first())
            },
            None => spec_server_port(lines.drop_first()),
        }
    }
}

pub fn server_port(text: &str) -> (r: Option<u16>)
    ensures
        r == spec_server_port(spec_lines(text@)),
{
    let lines = lines_of(text);
    let ghost ls = spec_lines(text@);
    let mut i: usize = 0;
    assert(ls.skip(0) =~= ls);
    while i < lines.len()
        invariant
            i <= lines.len(),
            ls == spec_lines(text@),
            lines@.len() == ls.len(),
            forall|k: int| 0 <= k < lines@.len() ==> (#[trigger] lines@[k])@ == ls[k],
            spec_server_port(ls) == spec_server_port(ls.skip(i as int)),
        decreases lines.len() - i,
    {
        assert(ls.skip(i as int)[0] == ls[i as int]);
        assert(ls.skip(i as int).drop_first() =~= ls.skip(i + 1));
        match split_once_eq(&lines[i]) {
            Some((key, value)) => {
                let k = crate::text::trimmed(&key);
                if crate::text::eq_str(&k, "server-port") {
                    let v = crate::text::trimmed(&value);
                    match crate::text::parse_uint(&v, 65535) {
                        Some(port) => {
                            return Some(port as u16);
                        },
                        None => {},
                    }
                }
            },
            None => {},
        }
        i += 1;
    }
    assert(ls.skip(i as int) =~= Seq::<Seq<char>>::empty());
    None
}

/// `i` is the position of the first `=` of `l`.
pub open spec fn first_eq_at(l: Seq<char>, i: int) -> bool {
    &&& 0 <= i < l.len()
    &&& l[i] == '='
    &&& forall|k: int| 0 <= k < i ==> l[k] != '='
}

/// The line assigns the port `p`: the text before its first `=`, trimmed,
/// is `server-port`, and the text after it, trimmed, is the port number.
pub open spec fn assigns_server_port(l: Seq<char>, p: nat) -> bool {
    exists|i: int|
        first_eq_at(l, i) && spec_trim(l.subrange(0, i)) == "server-port"@ && spec_parse_uint(
            spec_trim(#[trigger] l.subrange(i + 1, l.len() as int)),
            65535,
        ) == Some(p)
}

/// The line's key, before its first `=` and trimmed, is `server-port`.
pub open spec fn names_server_port(l: Seq<char>) -> bool {
    exists|i: int| first_eq_at(l, i) && spec_trim(#[trigger] l.subrange(0, i)) == "server-port"@
}

proof fn lemma_first_eq_exists(l: Seq<char>)
    requires
        exists|j: int| 0 <= j < l.len() && l[j] == '=',
    ensures
        exists|i: int| first_eq_at(l, i),
    decreases l.len(),
{
    let d = l.drop_last();
    if exists|j: int| 0 <= j < d.len() && d[j] == '=' {
        lemma_first_eq_exists(d);
        let i = choose|i: int| first_eq_at(d, i);
        assert forall|k: int| 0 <= k < i implies l[k] != '=' by {
            assert(d[k] == l[k]);
        }
        assert(first_eq_at(l, i));
    } else {
        assert forall|k: int| 0 <= k < l.len() - 1 implies l[k] != '=' by {
            assert(d[k] == l[k]);
        }
        let j = choose|j: int| 0 <= j < l.len() && l[j] == '=';
        if j < l.len() - 1 {
            assert(d[j] == l[j]);
        }
        assert(first_eq_at(l, l.len() - 1));
    }
}

proof fn lemma_split_at_first_eq(l: Seq<char>, i: int)
    requires
        first_eq_at(l, i),
    ensures
        spec_split_once_eq(l) == Some((l.subrange(0, i), l.subrange(i + 1, l.len() as int))),
{
    assert(exists|j: int| 0 <= j < l.len() && l[j] == '=');
    lemma_first_eq_exists(l);
    let c = choose|j: int| 0 <= j < l.len() && l[j] == '=' && forall|k: int| 0 <= k < j ==> l[k] != '=';
    if c < i {
        assert(l[c] != '=');
    }
    if c > i {
        assert(l[i] != '=');
    }
}

proof fn lemma_split_some(l: Seq<char>)
    requires
        spec_split_once_eq(l) is Some,
    ensures
        exists|i: int| first_eq_at(l, i) && spec_split_once_eq(l) == Some((l.subrange(0, i), l.subrange(i + 1, l.len() as int))),
{
    lemma_first_eq_exists(l);
    let c = choose|j: int| 0 <= j < l.len() && l[j] == '=' && forall|k: int| 0 <= k < j ==> l[k] != '=';
    assert(first_eq_at(l, c));
}

/// Whether the line counts for the port, by `spec_split_once_eq`.
proof fn lemma_line_counts(l: Seq<char>)
    ensures
        (spec_split_once_eq(l) matches Some((k, v)) && spec_trim(k) == "server-port"@ && spec_parse_uint(spec_trim(v), 65535)
            is Some) ==> assigns_server_port(l, spec_parse_uint(spec_trim((spec_split_once_eq(l)->0).1), 65535)->0),
        (spec_split_once_eq(l) matches Some((k, v)) && spec_trim(k) == "server-port"@) <==> names_server_port(l),
        forall|p: nat| #[trigger] assigns_server_port(l, p) ==> (spec_split_once_eq(l) matches Some((k, v)) && spec_trim(k)
            == "server-port"@ && spec_parse_uint(spec_trim(v), 65535) == Some(p)),
{
    if spec_split_once_eq(l) is Some {
        lemma_split_some(l);
        let i = choose|i: int| first_eq_at(l, i) && spec_split_once_eq(l) == Some((l.subrange(0, i), l.subrange(i + 1, l.len() as int)));
        if spec_trim(l.subrange(0, i)) == "server-port"@ {
            assert(names_server_port(l));
        }
    }
    if names_server_port(l) {
        let i = choose|i: int| first_eq_at(l, i) && spec_trim(#[trigger] l.subrange(0, i)) == "server-port"@;
        lemma_split_at_first_eq(l, i);
    }
    assert forall|p: nat| #[trigger] assigns_server_port(l, p) implies (spec_split_once_eq(l) matches Some((k, v))
        && spec_trim(k) == "server-port"@ && spec_parse_uint(spec_trim(v), 65535) == Some(p)) by {
        let i = choose|i: int|
            first_eq_at(l, i) && spec_trim(l.subrange(0, i)) == "server-port"@ && spec_parse_uint(
                spec_trim(#[trigger] l.subrange(i + 1, l.len() as int)),
                65535,
            ) == Some(p);
        lemma_split_at_first_eq(l, i);
    }
}

/// The port read from `server.properties` is the one that a `server-port`
/// line assigns, and no earlier line assigns any port.
pub proof fn server_port_comes_from_its_line(lines: Seq<Seq<char>>)
    ensures
        spec_server_port(lines) matches Some(p) ==> exists|j: int|
            0 <= j < lines.len() && assigns_server_port(#[trigger] lines[j], p as nat) && forall|k: int, q: nat|
                0 <= k < j ==> !(#[trigger] assigns_server_port(lines[k], q)),
    decreases lines.len(),
{
    if lines.len() > 0 {
        let rest = lines.drop_first();
        server_port_comes_from_its_line(rest);
        lemma_line_counts(lines[0]);
        match spec_server_port(lines) {
            Some(p) => {
                if spec_split_once_eq(lines[0]) matches Some((k, v)) && spec_trim(k) == "server-port"@ && spec_parse_uint(
                    spec_trim(v),
                    65535,
                ) is Some {
                    assert(assigns_server_port(lines[0], p as nat));
                } else {
                    assert(spec_server_port(rest) == Some(p));
                    let j = choose|j: int|
                        0 <= j < rest.len() && assigns_server_port(#[trigger] rest[j], p as nat) && forall|k: int, q: nat|
                            0 <= k < j ==> !(#[trigger] assigns_server_port(rest[k], q));
                    assert(lines[j + 1] == rest[j]);
                    assert forall|k: int, q: nat| 0 <= k < j + 1 implies !(#[trigger] assigns_server_port(lines[k], q)) by {
                        if k > 0 {
                            assert(lines[k] == rest[k - 1]);
                        }
                    }
                }
            },
            None => {},
        }
    }
}

/// The first line that assigns a port decides it.
pub proof fn first_server_port_line_wins(lines: Seq<Seq<char>>, j: int, p: nat)
    requires
        0 <= j < lines.len(),
        assigns_server_port(lines[j], p),
        forall|k: int, q: nat| 0 <= k < j ==> !(#[trigger] assigns_server_port(lines[k], q)),
    ensures
        spec_server_port(lines) == Some(p as u16),
        p <= 65535,
    decreases j,
{
    lemma_line_counts(lines[0]);
    if j == 0 {
    } else {
        let rest = lines.drop_first();
        if spec_split_once_eq(lines[0]) matches Some((k, v)) && spec_trim(k) == "server-port"@ && spec_parse_uint(
            spec_trim(v),
            65535,
        ) is Some {
            assert(assigns_server_port(lines[0], spec_parse_uint(spec_trim((spec_split_once_eq(lines[0])->0).1), 65535)->0));
        }
        assert(rest[j - 1] == lines[j]);
        assert forall|k: int, q: nat| 0 <= k < j - 1 implies !(#[trigger] assigns_server_port(rest[k], q)) by {
            assert(rest[k] == lines[k + 1]);
        }
        first_server_port_line_wins(rest, j - 1, p);
    }
    lemma_line_counts(lines[j]);
}

/// Lines whose key is not `server-port` never change the port read.
pub proof fn other_keys_never_decide_the_port(lines: Seq<Seq<char>>, j: int, l: Seq<char>)
    requires
        0 <= j <= lines.len(),
        !names_server_port(l),
    ensures
        spec_server_port(lines.insert(j, l)) == spec_server_port(lines),
    decreases j,
{
    lemma_line_counts(l);
    let big = lines.insert(j, l);
    if j == 0 {
        assert(big[0] == l);
        assert(big.drop_first() =~= lines);
    } else {
        assert(big[0] == lines[0]);
        assert(big.drop_first() =~= lines.drop_first().insert(j - 1, l));
        other_keys_never_decide_the_port(lines.drop_first(), j - 1, l);
    }
}

} // verus!
