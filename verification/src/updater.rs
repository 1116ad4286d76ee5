//! Launcher self-update decisions: which update feeds a source uses, how
//! versions compare, which mirror asset and size belong to this platform,
//! and whether a downloaded payload looks like an update at all.
use vstd::prelude::*;
use std::cmp::Ordering;
use crate::text::{spec_is_ascii_digit, spec_parse_u64, spec_split, spec_starts_with, spec_trim, spec_trim_start_by};

verus! {

/// The update feed key of a platform, `unknown` where there is none.
pub open spec fn spec_platform_key(os: Seq<char>, arch: Seq<char>) -> Seq<char> {
    if os == "windows"@ && arch == "x86_64"@ {
        "windows-x86_64"@
    } else if os == "linux"@ && arch == "x86_64"@ {
        "linux-x86_64"@
    } else if os == "linux"@ && arch == "aarch64"@ {
        "linux-aarch64"@
    } else if os == "macos"@ && arch == "x86_64"@ {
        "darwin-x86_64"@
    } else if os == "macos"@ && arch == "aarch64"@ {
        "darwin-aarch64"@
    } else {
        "unknown"@
    }
}

pub fn platform_key(os: &str, arch: &str) -> (r: &'static str)
    ensures
        r@ == spec_platform_key(os@, arch@),
{
    let windows = crate::text::same_text(os, "windows");
    let linux = crate::text::same_text(os, "linux");
    let macos = crate::text::same_text(os, "macos");
    let x64 = crate::text::same_text(arch, "x86_64");
    let arm = crate::text::same_text(arch, "aarch64");
    if windows && x64 {
        "windows-x86_64"
    } else if linux && x64 {
        "linux-x86_64"
    } else if linux && arm {
        "linux-aarch64"
    } else if macos && x64 {
        "darwin-x86_64"
    } else if macos && arm {
        "darwin-aarch64"
    } else {
        "unknown"
    }
}

/// The numeric core of a version: trimmed, without leading `v` or `V`, up
/// to the first character that is neither a digit nor a dot (where a
/// pre-release or build suffix starts).
pub open spec fn version_core(v: Seq<char>) -> Seq<char> {
    let t = spec_trim_start_by(spec_trim(v), |c: char| c == 'v' || c == 'V');
    t.take(crate::text::spec_leading(t, |c: char| spec_is_ascii_digit(c) || c == '.') as int)
}

/// The numbers of the dot-separated components of the core that are numbers.
pub open spec fn version_numbers(parts: Seq<Seq<char>>) -> Seq<u64>
    decreases parts.len(),
{
    if parts.len() == 0 {
        Seq::empty()
    } else {
        let rest = version_numbers(parts.drop_last());
        match spec_parse_u64(parts.last()) {
            Some(n) => rest.push(n),
            None => rest,
        }
    }
}

pub open spec fn version_parts(v: Seq<char>) -> Seq<u64> {
    version_numbers(spec_split(version_core(v), '.'))
}

/// Component-wise order of two number lists; a list that runs out first is
/// the smaller where all before were equal.
pub open spec fn numbers_order(a: Seq<u64>, b: Seq<u64>) -> Ordering
    decreases a.len(),
{
    if a.len() == 0 || b.len() == 0 {
        if a.len() < b.len() {
            Ordering::Less
        } else if a.len() > b.len() {
            Ordering::Greater
        } else {
            Ordering::Equal
        }
    } else if a[0] < b[0] {
        Ordering::Less
    } else if a[0] > b[0] {
        Ordering::Greater
    } else {
        numbers_order(a.drop_first(), b.drop_first())
    }
}

/// The order of version `a` relative to `b`, ignoring a leading `v`/`V`
/// and any pre-release or build suffix.
pub open spec fn version_order(a: Seq<char>, b: Seq<char>) -> Ordering {
    numbers_order(version_parts(a), version_parts(b))
}

fn version_numbers_of(v: &str) -> (r: Vec<u64>)
    ensures
        r@ == version_parts(v@),
{
    let chars = crate::text::chars_of(v);
    let t = crate::text::trimmed(&chars);
    let mut lo: usize = 0;
    while lo < t.len() && (t[lo] == 'v' || t[lo] == 'V')
        invariant
            lo <= t@.len(),
            forall|k: int| 0 <= k < lo ==> (t@[k] == 'v' || t@[k] == 'V'),
        decreases t@.len() - lo,
    {
        lo += 1;
    }
    let mut hi: usize = lo;
    while hi < t.len() && (crate::text::is_ascii_digit(t[hi]) || t[hi] == '.')
        invariant
            lo <= hi <= t@.len(),
            forall|k: int| lo <= k < hi ==> (spec_is_ascii_digit(t@[k]) || t@[k] == '.'),
        decreases t@.len() - hi,
    {
        hi += 1;
    }
    proof {
        let q = |c: char| c == 'v' || c == 'V';
        assert forall|k: int| 0 <= k < lo implies q(#[trigger] t@[k]) by {}
        crate::text::lemma_leading_exact(t@, q, lo as int);
        let s = t@.skip(lo as int);
        let d = |c: char| spec_is_ascii_digit(c) || c == '.';
        assert forall|k: int| 0 <= k < hi - lo implies d(#[trigger] s[k]) by {
            assert(s[k] == t@[lo + k]);
        }
        if hi < t@.len() {
            assert(s[hi - lo] == t@[hi as int]);
        }
        crate::text::lemma_leading_exact(s, d, hi - lo);
        assert(version_core(v@) =~= t@.subrange(lo as int, hi as int));
    }
    let core = crate::text::slice_vec(&t, lo, hi);
    let pieces = crate::text::split_chars(&core, '.');
    let ghost ps = spec_split(core@, '.');
    let mut out: Vec<u64> = Vec::new();
    let mut i: usize = 0;
    while i < pieces.len()
        invariant
            i <= pieces@.len(),
            pieces@.len() == ps.len(),
            forall|k: int| 0 <= k < pieces@.len() ==> (#[trigger] pieces@[k])@ == ps[k],
            out@ == version_numbers(ps.subrange(0, i as int)),
        decreases pieces@.len() - i,
    {
        proof {
            assert(ps.subrange(0, i + 1).drop_last() =~= ps.subrange(0, i as int));
            assert(ps.subrange(0, i + 1).last() == ps[i as int]);
        }
        match crate::text::parse_u64(&pieces[i]) {
            Some(n) => out.push(n),
            None => {},
        }
        i += 1;
    }
    assert(ps.subrange(0, pieces@.len() as int) =~= ps);
    out
}

/// The numbers from position `i` on.
pub open spec fn skip_from(s: Seq<u64>, i: usize) -> Seq<u64> {
    s.skip(i as int)
}

/// Compares two versions, ignoring a leading `v`/`V` and any pre-release or
/// build suffix.
pub fn compare_versions(a: &str, b: &str) -> (r: Ordering)
    ensures
        r == version_order(a@, b@),
{
    let an = version_numbers_of(a);
    let bn = version_numbers_of(b);
    let mut i: usize = 0;
    assert(skip_from(an@, 0) =~= an@);
    assert(skip_from(bn@, 0) =~= bn@);
    while i < an.len() && i < bn.len()
        invariant
            i <= an@.len(),
            i <= bn@.len(),
            an@ == version_parts(a@),
            bn@ == version_parts(b@),
            numbers_order(an@, bn@) == numbers_order(skip_from(an@, i), skip_from(bn@, i)),
        decreases an@.len() - i,
    {
        let x = an[i];
        let y = bn[i];
        proof {
            assert(skip_from(an@, i)[0] == x);
            assert(skip_from(bn@, i)[0] == y);
            assert(skip_from(an@, i).drop_first() =~= an@.skip(i + 1));
            assert(skip_from(bn@, i).drop_first() =~= bn@.skip(i + 1));
            assert(skip_from(an@, i).len() > 0 && skip_from(bn@, i).len() > 0);
        }
        if x < y {
            return Ordering::Less;
        }
        if x > y {
            return Ordering::Greater;
        }
        i += 1;
    }
    if an.len() - i < bn.len() - i {
        Ordering::Less
    } else if an.len() - i > bn.len() - i {
        Ordering::Greater
    } else {
        Ordering::Equal
    }
}

/// Where the launcher looks for updates.
#[derive(Debug, Clone, Copy, PartialEq, Eq, Structural)]
pub enum UpdateSource {
    Miawa,
    Cnb,
    GitHub,
}

/// The update sources tried for a setting, in order: Miawa falls back to
/// CNB and then GitHub, CNB to GitHub; `github` and `official` use GitHub.
pub fn update_sources(source: &str) -> (r: Result<Vec<UpdateSource>, String>)
    ensures
        source@ == "miawa"@ ==> (r matches Ok(v) && v@ == seq![UpdateSource::Miawa, UpdateSource::Cnb, UpdateSource::GitHub]),
        source@ == "cnb"@ ==> (r matches Ok(v) && v@ == seq![UpdateSource::Cnb, UpdateSource::GitHub]),
        (source@ == "github"@ || source@ == "official"@) ==> (r matches Ok(v) && v@ == seq![UpdateSource::GitHub]),
        !(source@ == "miawa"@ || source@ == "cnb"@ || source@ == "github"@ || source@ == "official"@) ==> (r matches Err(
            m,
        ) && m@ == "Unknown update source: "@ + source@),
{
    proof {
        reveal_strlit("miawa");
        reveal_strlit("cnb");
        reveal_strlit("github");
        reveal_strlit("official");
        assert("cnb"@.len() != "miawa"@.len());
        assert("github"@.len() != "miawa"@.len() && "github"@.len() != "cnb"@.len());
        assert("official"@.len() != "miawa"@.len() && "official"@.len() != "cnb"@.len());
    }
    if crate::text::same_text(source, "miawa") {
        Ok(vec![UpdateSource::Miawa, UpdateSource::Cnb, UpdateSource::GitHub])
    } else if crate::text::same_text(source, "cnb") {
        Ok(vec![UpdateSource::Cnb, UpdateSource::GitHub])
    } else if crate::text::same_text(source, "github") || crate::text::same_text(source, "official") {
        Ok(vec![UpdateSource::GitHub])
    } else {
        Err(crate::text::concat("Unknown update source: ", source))
    }
}

/// The `latest.json` feeds the updater plugin reads for a source.
pub fn update_endpoints(source: &str) -> (r: Result<Vec<&'static str>, String>)
    ensures
        (source@ == "github"@ || source@ == "official"@) ==> (r matches Ok(v) && v@.len() == 1 && v@[0]@
            == "https://github.com/Mystic-Stars/Axolotl/releases/latest/download/latest.json"@),
        source@ == "cnb"@ ==> (r matches Ok(v) && v@.len() == 2 && v@[0]@
            == "https://cnb.cool/axlmc/Axolotl/-/git/raw/update/latest.json"@ && v@[1]@
            == "https://github.com/Mystic-Stars/Axolotl/releases/latest/download/latest.json"@),
        !(source@ == "github"@ || source@ == "official"@ || source@ == "cnb"@) ==> (r matches Err(m) && m@
            == "Unknown update source: "@ + source@),
{
    proof {
        reveal_strlit("miawa");
        reveal_strlit("cnb");
        reveal_strlit("github");
        reveal_strlit("official");
        assert("cnb"@.len() != "miawa"@.len());
        assert("github"@.len() != "miawa"@.len() && "github"@.len() != "cnb"@.len());
        assert("official"@.len() != "miawa"@.len() && "official"@.len() != "cnb"@.len());
    }
    if crate::text::same_text(source, "github") || crate::text::same_text(source, "official") {
        Ok(vec!["https://github.com/Mystic-Stars/Axolotl/releases/latest/download/latest.json"])
    } else if crate::text::same_text(source, "cnb") {
        Ok(
            vec![
                "https://cnb.cool/axlmc/Axolotl/-/git/raw/update/latest.json",
                "https://github.com/Mystic-Stars/Axolotl/releases/latest/download/latest.json",
            ],
        )
    } else {
        Err(crate::text::concat("Unknown update source: ", source))
    }
}

/// What the mirror's `latest.json` version means for the installed one.
#[derive(Debug, PartialEq, Eq, Structural)]
pub enum MirrorVerdict {
    /// The installed version is current.
    UpToDate,
    /// The mirror offers a newer version.
    Newer,
}

/// Compares the mirror's version with the installed one: equal is up to
/// date, newer is an update, and older means the mirror lags behind, which
/// is an error (the next source is tried).
pub fn mirror_verdict(mirror_version: &str, current_version: &str) -> (r: Result<MirrorVerdict, String>)
    ensures
        version_order(mirror_version@, current_version@) == Ordering::Equal ==> r == Ok::<MirrorVerdict, String>(MirrorVerdict::UpToDate),
        version_order(mirror_version@, current_version@) == Ordering::Greater ==> r == Ok::<MirrorVerdict, String>(MirrorVerdict::Newer),
        version_order(mirror_version@, current_version@) == Ordering::Less ==> (r matches Err(m) && m@
            == "Miawa mirror is behind the installed version (mirror: "@ + mirror_version@ + ", installed: "@
            + current_version@ + ")"@),
{
    match compare_versions(mirror_version, current_version) {
        Ordering::Equal => Ok(MirrorVerdict::UpToDate),
        Ordering::Greater => Ok(MirrorVerdict::Newer),
        Ordering::Less => {
            let m1 = crate::text::concat("Miawa mirror is behind the installed version (mirror: ", mirror_version);
            let m2 = crate::text::concat(m1.as_str(), ", installed: ");
            let m3 = crate::text::concat(m2.as_str(), current_version);
            Err(crate::text::concat(m3.as_str(), ")"))
        },
    }
}

/// An asset of a mirrored release.
#[derive(Debug)]
pub struct MiawaAsset {
    pub name: String,
    pub size: u64,
}

/// The first asset with a name.
pub open spec fn spec_asset_named(assets: Seq<MiawaAsset>, name: Seq<char>) -> Option<int>
    decreases assets.len(),
{
    if assets.len() == 0 {
        None
    } else if assets[0].name@ == name {
        Some(0)
    } else {
        match spec_asset_named(assets.drop_first(), name) {
            Some(i) => Some(i + 1),
            None => None,
        }
    }
}

/// The first asset whose name ends in `x64-setup.exe`.
pub open spec fn spec_windows_installer(assets: Seq<MiawaAsset>) -> Option<int>
    decreases assets.len(),
{
    if assets.len() == 0 {
        None
    } else if crate::text::spec_ends_with(assets[0].name@, "x64-setup.exe"@) {
        Some(0)
    } else {
        match spec_windows_installer(assets.drop_first()) {
            Some(i) => Some(i + 1),
            None => None,
        }
    }
}

fn asset_named(assets: &Vec<MiawaAsset>, name: &str) -> (r: Option<usize>)
    ensures
        r matches Some(i) ==> i < assets@.len() && spec_asset_named(assets@, name@) == Some(i as int),
        r is None ==> spec_asset_named(assets@, name@) is None,
{
    let mut i: usize = 0;
    assert(assets@.skip(0) =~= assets@);
    while i < assets.len()
        invariant
            i <= assets@.len(),
            spec_asset_named(assets@, name@) == match spec_asset_named(assets@.skip(i as int), name@) {
                Some(k) => Some(k + i),
                None => None,
            },
        decreases assets@.len() - i,
    {
        assert(assets@.skip(i as int)[0] == assets@[i as int]);
        assert(assets@.skip(i as int).drop_first() =~= assets@.skip(i + 1));
        if crate::text::same_text(assets[i].name.as_str(), name) {
            return Some(i);
        }
        i += 1;
    }
    None
}

fn windows_installer(assets: &Vec<MiawaAsset>) -> (r: Option<usize>)
    ensures
        r matches Some(i) ==> i < assets@.len() && spec_windows_installer(assets@) == Some(i as int),
        r is None ==> spec_windows_installer(assets@) is None,
{
    let mut i: usize = 0;
    assert(assets@.skip(0) =~= assets@);
    while i < assets.len()
        invariant
            i <= assets@.len(),
            spec_windows_installer(assets@) == match spec_windows_installer(assets@.skip(i as int)) {
                Some(k) => Some(k + i),
                None => None,
            },
        decreases assets@.len() - i,
    {
        assert(assets@.skip(i as int)[0] == assets@[i as int]);
        assert(assets@.skip(i as int).drop_first() =~= assets@.skip(i + 1));
        if crate::text::str_ends_with(assets[i].name.as_str(), "x64-setup.exe") {
            return Some(i);
        }
        i += 1;
    }
    None
}

/// The mirror asset of this platform's installer: the one named as in the
/// feed's URL; on Windows, failing that, the first `x64-setup.exe`.
pub open spec fn spec_mirror_asset(assets: Seq<MiawaAsset>, url_file_name: Seq<char>, platform: Seq<char>) -> Option<int> {
    match spec_asset_named(assets, url_file_name) {
        Some(i) => Some(i),
        None => if platform == "windows-x86_64"@ {
            spec_windows_installer(assets)
        } else {
            None
        },
    }
}

pub fn mirror_asset(assets: &Vec<MiawaAsset>, url_file_name: &str, platform: &str) -> (r: Result<usize, String>)
    ensures
        match spec_mirror_asset(assets@, url_file_name@, platform@) {
            Some(i) => r == Ok::<usize, String>(i as usize) && i < assets@.len(),
            None => r matches Err(m) && m@ == "Could not find a matching asset for platform "@ + platform@
                + " on the Miawa mirror (candidate: "@ + url_file_name@ + ")"@,
        },
{
    match asset_named(assets, url_file_name) {
        Some(i) => Ok(i),
        None => {
            let found = if crate::text::same_text(platform, "windows-x86_64") {
                windows_installer(assets)
            } else {
                None
            };
            match found {
                Some(i) => Ok(i),
                None => {
                    let m1 = crate::text::concat("Could not find a matching asset for platform ", platform);
                    let m2 = crate::text::concat(m1.as_str(), " on the Miawa mirror (candidate: ");
                    let m3 = crate::text::concat(m2.as_str(), url_file_name);
                    Err(crate::text::concat(m3.as_str(), ")"))
                },
            }
        },
    }
}

/// The size of an update: that of the first asset with the installer's
/// name, zero where none has it; none where the size is zero.
pub fn update_size_of(assets: &Vec<MiawaAsset>, file_name: &str) -> (r: Option<u64>)
    ensures
        match spec_asset_named(assets@, file_name@) {
            Some(i) => if assets@[i].size > 0 { r == Some(assets@[i].size) } else { r is None },
            None => r is None,
        },
{
    match asset_named(assets, file_name) {
        Some(i) => {
            let size = assets[i].size;
            if size > 0 {
                Some(size)
            } else {
                None
            }
        },
        None => None,
    }
}

/// A size that is already known answers a size query; zero counts as unknown.
pub fn known_update_size(update_size: Option<u64>) -> (r: Option<u64>)
    ensures
        r == (match update_size {
            Some(s) => if s > 0 { Some(s) } else { None },
            None => None,
        }),
{
    match update_size {
        Some(s) => if s > 0 {
            Some(s)
        } else {
            None
        },
        None => None,
    }
}

/// The mirror paths and links of an update: the feed
/// `axolotl/TAG/latest.json`, an installer `axolotl/TAG/FILE`, and a mirror
/// download link, the mirror's host followed by the path it prepared.
pub fn mirror_file_path(tag_name: &str, file_name: &str) -> (r: String)
    ensures
        r@ == "axolotl/"@ + tag_name@ + "/"@ + file_name@,
{
    let p1 = crate::text::concat("axolotl/", tag_name);
    let p2 = crate::text::concat(p1.as_str(), "/");
    crate::text::concat(p2.as_str(), file_name)
}

pub fn mirror_download_url(prepared_path: &str) -> (r: String)
    ensures
        r@ == "https://miawa.cn"@ + prepared_path@,
{
    crate::text::concat("https://miawa.cn", prepared_path)
}

/// The version a mirror download link names: the path component after
/// `/axolotl/`, `unknown` where there is none.
pub open spec fn spec_version_from_mirror_url(url: Seq<char>) -> Seq<char> {
    match crate::text::spec_find(url, "/axolotl/"@) {
        Some(p) => spec_split(url.skip(p + 9), '/')[0],
        None => "unknown"@,
    }
}

pub fn version_from_mirror_url(url: &str) -> (r: String)
    ensures
        r@ == spec_version_from_mirror_url(url@),
{
    let v = crate::text::chars_of(url);
    let pat = crate::text::chars_of("/axolotl/");
    proof {
        reveal_strlit("/axolotl/");
    }
    match crate::text::find(&v, &pat) {
        Some(p) => {
            let n = v.len();
            assert(p + 9 <= n);
            let rest = crate::text::slice_vec(&v, p + 9, n);
            assert(rest@ =~= v@.skip(p + 9));
            let pieces = crate::text::split_chars(&rest, '/');
            proof {
                crate::text::lemma_split_nonempty(rest@, '/');
            }
            crate::text::string_from(&pieces[0])
        },
        None => crate::text::to_owned("unknown"),
    }
}

/// The error when an update is to be queued with no way to download it.
pub fn no_download_source_error() -> (r: String)
    ensures
        r@ == "No download source provided: both rid and mirror_download_url are None"@,
{
    crate::text::to_owned("No download source provided: both rid and mirror_download_url are None")
}

/// A download that stopped short: the server announced a length and fewer
/// or more bytes came.
pub fn truncated_download_error(downloaded: u64, total_size: u64) -> (r: Option<String>)
    ensures
        (total_size > 0 && downloaded != total_size) ==> (r matches Some(m) && m@ == "Miawa download truncated: received "@
            + crate::text::spec_decimal(downloaded as nat) + " of "@ + crate::text::spec_decimal(total_size as nat)
            + " bytes"@),
        !(total_size > 0 && downloaded != total_size) ==> r is None,
{
    if total_size > 0 && downloaded != total_size {
        let a = crate::text::decimal(downloaded);
        let b = crate::text::decimal(total_size);
        let m1 = crate::text::concat("Miawa download truncated: received ", a.as_str());
        let m2 = crate::text::concat(m1.as_str(), " of ");
        let m3 = crate::text::concat(m2.as_str(), b.as_str());
        Some(crate::text::concat(m3.as_str(), " bytes"))
    } else {
        None
    }
}

/// What `String::from_utf8_lossy` makes of some bytes.
pub uninterp spec fn utf8_lossy_spec(bytes: Seq<u8>) -> Seq<char>;

/// `String::from_utf8_lossy` of `bytes`, owned; the contract names the
/// result.
#[verifier::external_body]
fn utf8_lossy(bytes: &[u8]) -> (r: String)
    ensures
        r@ == utf8_lossy_spec(bytes@),
{
    String::from_utf8_lossy(bytes).into_owned()
}

/// An uppercase hexadecimal digit.
pub open spec fn hex_digit_upper(d: u8) -> char {
    if d < 10 {
        (d + 48) as char
    } else {
        (d + 55) as char
    }
}

/// A byte as `{:02X}` writes it.
pub open spec fn hex_byte(b: u8) -> Seq<char> {
    seq![hex_digit_upper(b / 16), hex_digit_upper(b % 16)]
}

fn hex_digit(d: u8) -> (r: char)
    requires
        d < 16,
    ensures
        r == hex_digit_upper(d),
{
    if d < 10 {
        (d + 48) as char
    } else {
        (d + 55) as char
    }
}

/// The first two bytes of a payload, in hexadecimal, separated by a space.
pub open spec fn first_two_hex(data: Seq<u8>) -> Seq<char> {
    if data.len() == 0 {
        Seq::empty()
    } else if data.len() == 1 {
        hex_byte(data[0])
    } else {
        hex_byte(data[0]) + " "@ + hex_byte(data[1])
    }
}

/// The start of a payload as text: up to 512 bytes, lossily decoded,
/// lowercased, leading whitespace dropped.
pub open spec fn payload_head(data: Seq<u8>) -> Seq<char> {
    let n = if data.len() < 512 { data.len() as int } else { 512 };
    spec_trim_start_by(
        crate::downloads::lowercase_spec(utf8_lossy_spec(data.take(n))),
        |c: char| crate::text::spec_is_whitespace(c),
    )
}

/// Whether a payload is an HTML page: its head starts `<!doctype html`,
/// `<html` or `<head`.
pub open spec fn looks_like_html(data: Seq<u8>) -> bool {
    let h = payload_head(data);
    spec_starts_with(h, "<!doctype html"@) || spec_starts_with(h, "<html"@) || spec_starts_with(h, "<head"@)
}

/// Whether a payload starts like a Windows update: `MZ` (an installer) or
/// `PK` (an archive).
pub open spec fn windows_header(data: Seq<u8>) -> bool {
    data.len() >= 2 && ((data[0] == 77 && data[1] == 90) || (data[0] == 80 && data[1] == 75))
}

/// Checks that a downloaded update is not an HTML page and, on Windows, that
/// it starts like an installer or an archive.
pub fn validate_downloaded_update(data: &Vec<u8>, windows: bool) -> (r: Result<(), String>)
    ensures
        looks_like_html(data@) ==> (r matches Err(m) && m@
            == "Downloaded file looks like an HTML page instead of an update package"@),
        !looks_like_html(data@) && windows && !windows_header(data@) ==> (r matches Err(m) && m@
            == "Downloaded file is not a valid Windows update payload (expected MZ or PK header, got ["@ + first_two_hex(
            data@,
        ) + "], "@ + crate::text::spec_decimal(data@.len()) + " bytes received)"@),
        !looks_like_html(data@) && (!windows || windows_header(data@)) ==> r is Ok,
{
    let n = if data.len() < 512 {
        data.len()
    } else {
        512
    };
    let mut head_bytes: Vec<u8> = Vec::new();
    let mut i: usize = 0;
    while i < n
        invariant
            i <= n,
            n <= data@.len(),
            head_bytes@ == data@.take(i as int),
        decreases n - i,
    {
        head_bytes.push(data[i]);
        assert(data@.take(i + 1) =~= data@.take(i as int).push(data@[i as int]));
        i += 1;
    }
    let text = utf8_lossy(head_bytes.as_slice());
    let lower = crate::downloads::to_lowercase(text.as_str());
    let lv = crate::text::chars_of(lower.as_str());
    let mut lo: usize = 0;
    while lo < lv.len() && crate::text::is_whitespace(lv[lo])
        invariant
            lo <= lv@.len(),
            forall|k: int| 0 <= k < lo ==> crate::text::spec_is_whitespace(#[trigger] lv@[k]),
        decreases lv@.len() - lo,
    {
        lo += 1;
    }
    proof {
        let p = |c: char| crate::text::spec_is_whitespace(c);
        assert forall|k: int| 0 <= k < lo implies p(#[trigger] lv@[k]) by {}
        crate::text::lemma_leading_exact(lv@, p, lo as int);
    }
    let head = crate::text::slice_vec(&lv, lo, lv.len());
    assert(head@ =~= payload_head(data@));
    let hs = crate::text::string_from(&head);
    if crate::text::str_starts_with(hs.as_str(), "<!doctype html") || crate::text::str_starts_with(hs.as_str(), "<html")
        || crate::text::str_starts_with(hs.as_str(), "<head") {
        return Err(crate::text::to_owned("Downloaded file looks like an HTML page instead of an update package"));
    }
    if windows {
        let ok = data.len() >= 2 && ((data[0] == 77 && data[1] == 90) || (data[0] == 80 && data[1] == 75));
        if !ok {
            let mut hex: Vec<char> = Vec::new();
            if data.len() >= 1 {
                hex.push(hex_digit(data[0] / 16));
                hex.push(hex_digit(data[0] % 16));
            }
            if data.len() >= 2 {
                hex.push(' ');
                hex.push(hex_digit(data[1] / 16));
                hex.push(hex_digit(data[1] % 16));
            }
            proof {
                reveal_strlit(" ");
                assert(hex@ =~= first_two_hex(data@));
            }
            let hex_text = crate::text::string_from(&hex);
            let len_text = crate::text::decimal(data.len() as u64);
            let m1 = crate::text::concat(
                "Downloaded file is not a valid Windows update payload (expected MZ or PK header, got [",
                hex_text.as_str(),
            );
            let m2 = crate::text::concat(m1.as_str(), "], ");
            let m3 = crate::text::concat(m2.as_str(), len_text.as_str());
            return Err(crate::text::concat(m3.as_str(), " bytes received)"));
        }
    }
    Ok(())
}

/// The order of `b` and `a` is the order of `a` and `b` turned around.
pub open spec fn reversed(o: Ordering) -> Ordering {
    match o {
        Ordering::Less => Ordering::Greater,
        Ordering::Equal => Ordering::Equal,
        Ordering::Greater => Ordering::Less,
    }
}

proof fn lemma_numbers_order_antisymmetric(a: Seq<u64>, b: Seq<u64>)
    ensures
        numbers_order(b, a) == reversed(numbers_order(a, b)),
        numbers_order(a, a) == Ordering::Equal,
    decreases a.len(),
{
    if a.len() > 0 && b.len() > 0 {
        lemma_numbers_order_antisymmetric(a.drop_first(), b.drop_first());
    }
    if a.len() > 0 {
        lemma_numbers_order_antisymmetric(a.drop_first(), a.drop_first());
    }
}

/// Versions compare consistently: comparing the other way round gives the
/// opposite answer, and every version equals itself.
pub proof fn version_order_is_antisymmetric(a: Seq<char>, b: Seq<char>)
    ensures
        version_order(b, a) == reversed(version_order(a, b)),
        version_order(a, a) == Ordering::Equal,
{
    lemma_numbers_order_antisymmetric(version_parts(a), version_parts(b));
}

} // verus!
