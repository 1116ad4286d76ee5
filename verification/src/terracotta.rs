//! The decisions of the Terracotta multiplayer helper: where its binary comes
//! from, how downloads are checked and installed, how its HTTP state maps to
//! the launcher's state, and how rooms are addressed.
use vstd::prelude::*;
use sha2::Digest;
use crate::text::{spec_contains, spec_ends_with, spec_is_ascii_alphanumeric, spec_split, spec_starts_with};

verus! {

/// Lifecycle of the Terracotta helper as the launcher shows it.
#[derive(Clone, Copy, Debug, PartialEq, Eq, Structural)]
pub enum TerracottaStatus {
    Idle,
    Starting,
    Downloading,
    Waiting,
    HostScanning,
    HostStarting,
    HostReady,
    GuestConnecting,
    GuestStarting,
    GuestReady,
    Error,
    Fatal,
}

/// Class of a fatal Terracotta error.
#[derive(Clone, Copy, Debug, PartialEq, Eq, Structural)]
pub enum TerracottaFatalType {
    Os,
    Network,
    Install,
    Terracotta,
    Unknown,
}

impl TerracottaFatalType {
    pub open spec fn spec_as_str(self) -> Seq<char> {
        match self {
            TerracottaFatalType::Os => "os"@,
            TerracottaFatalType::Network => "network"@,
            TerracottaFatalType::Install => "install"@,
            TerracottaFatalType::Terracotta => "terracotta"@,
            TerracottaFatalType::Unknown => "unknown"@,
        }
    }

    pub fn as_str(&self) -> (r: &'static str)
        ensures
            r@ == self.spec_as_str(),
    {
        match self {
            TerracottaFatalType::Os => "os",
            TerracottaFatalType::Network => "network",
            TerracottaFatalType::Install => "install",
            TerracottaFatalType::Terracotta => "terracotta",
            TerracottaFatalType::Unknown => "unknown",
        }
    }
}

/// A player of the current room.
#[derive(Debug)]
pub struct PlayerInfo {
    pub machine_id: String,
    pub name: String,
    pub vendor: String,
    pub kind: String,
}

/// What the launcher knows of the helper.
#[derive(Debug)]
pub struct TerracottaState {
    pub status: TerracottaStatus,
    pub http_port: Option<u16>,
    pub room_code: Option<String>,
    pub server_port: Option<u16>,
    pub players: Vec<PlayerInfo>,
    pub download_progress: Option<u8>,
    pub download_stage: Option<String>,
    pub binary_installed: bool,
    pub error_type: Option<String>,
    pub error_message: Option<String>,
    pub profile_index: Option<u32>,
}

impl TerracottaState {
    pub open spec fn is_initial(&self) -> bool {
        &&& self.status == TerracottaStatus::Idle
        &&& self.http_port is None
        &&& self.room_code is None
        &&& self.server_port is None
        &&& self.players@.len() == 0
        &&& self.download_progress is None
        &&& self.download_stage is None
        &&& !self.binary_installed
        &&& self.error_type is None
        &&& self.error_message is None
        &&& self.profile_index is None
    }
}

impl Default for TerracottaState {
    fn default() -> (r: TerracottaState)
        ensures
            r.is_initial(),
    {
        TerracottaState {
            status: TerracottaStatus::Idle,
            http_port: None,
            room_code: None,
            server_port: None,
            players: Vec::new(),
            download_progress: None,
            download_stage: None,
            binary_installed: false,
            error_type: None,
            error_message: None,
            profile_index: None,
        }
    }
}

/// Build information the helper reports.
#[derive(Debug)]
pub struct TerracottaMeta {
    pub version: String,
    pub compile_timestamp: String,
    pub easytier_version: String,
    pub yggdrasil_port: u16,
    pub target_tuple: String,
    pub target_os: String,
}

/// The build information as the launcher's front end receives it.
#[derive(Debug)]
pub struct TerracottaMetaResponse {
    pub version: String,
    pub compile_timestamp: String,
    pub easytier_version: String,
    pub yggdrasil_port: u16,
    pub target_tuple: String,
    pub target_os: String,
}

pub fn meta_response(meta: TerracottaMeta) -> (r: TerracottaMetaResponse)
    ensures
        r.version == meta.version,
        r.compile_timestamp == meta.compile_timestamp,
        r.easytier_version == meta.easytier_version,
        r.yggdrasil_port == meta.yggdrasil_port,
        r.target_tuple == meta.target_tuple,
        r.target_os == meta.target_os,
{
    TerracottaMetaResponse {
        version: meta.version,
        compile_timestamp: meta.compile_timestamp,
        easytier_version: meta.easytier_version,
        yggdrasil_port: meta.yggdrasil_port,
        target_tuple: meta.target_tuple,
        target_os: meta.target_os,
    }
}

/// Arguments of starting the helper.
#[derive(Debug)]
pub struct TerracottaStartArgs {
    pub binary_path: Option<String>,
    pub auto_download: bool,
}

/// Arguments of hosting a room.
#[derive(Debug)]
pub struct TerracottaHostArgs {
    pub room_code: Option<String>,
    pub player_name: String,
}

/// Arguments of joining a room.
#[derive(Debug)]
pub struct TerracottaJoinArgs {
    pub room_code: String,
    pub player_name: String,
}

/// Arguments of checking a room code.
#[derive(Debug)]
pub struct TerracottaParseRoomCodeArgs {
    pub room_code: String,
}

/// Arguments of asking for a download link.
#[derive(Debug)]
pub struct TerracottaDownloadUrlArgs {
    pub version: String,
}

/// The release asset key of an operating system and architecture.
pub open spec fn spec_platform_key(os: Seq<char>, arch: Seq<char>) -> Seq<char> {
    if os == "linux"@ && arch == "x86_64"@ {
        "linux-x86_64"@
    } else if os == "linux"@ && arch == "aarch64"@ {
        "linux-arm64"@
    } else if os == "linux"@ && arch == "riscv64"@ {
        "linux-riscv64"@
    } else if os == "linux"@ && arch == "loongarch64"@ {
        "linux-loongarch64"@
    } else if os == "macos"@ && arch == "x86_64"@ {
        "macos-x86_64"@
    } else if os == "macos"@ && arch == "aarch64"@ {
        "macos-arm64"@
    } else if os == "windows"@ && arch == "x86_64"@ {
        "windows-x86_64"@
    } else if os == "windows"@ && arch == "aarch64"@ {
        "windows-arm64"@
    } else if os == "freebsd"@ && arch == "x86_64"@ {
        "freebsd-x86_64"@
    } else {
        "unsupported"@
    }
}

pub fn platform_key_for(os: &str, arch: &str) -> (r: &'static str)
    ensures
        r@ == spec_platform_key(os@, arch@),
{
    let o = crate::text::chars_of(os);
    let a = crate::text::chars_of(arch);
    if crate::text::eq_str(&o, "linux") && crate::text::eq_str(&a, "x86_64") {
        "linux-x86_64"
    } else if crate::text::eq_str(&o, "linux") && crate::text::eq_str(&a, "aarch64") {
        "linux-arm64"
    } else if crate::text::eq_str(&o, "linux") && crate::text::eq_str(&a, "riscv64") {
        "linux-riscv64"
    } else if crate::text::eq_str(&o, "linux") && crate::text::eq_str(&a, "loongarch64") {
        "linux-loongarch64"
    } else if crate::text::eq_str(&o, "macos") && crate::text::eq_str(&a, "x86_64") {
        "macos-x86_64"
    } else if crate::text::eq_str(&o, "macos") && crate::text::eq_str(&a, "aarch64") {
        "macos-arm64"
    } else if crate::text::eq_str(&o, "windows") && crate::text::eq_str(&a, "x86_64") {
        "windows-x86_64"
    } else if crate::text::eq_str(&o, "windows") && crate::text::eq_str(&a, "aarch64") {
        "windows-arm64"
    } else if crate::text::eq_str(&o, "freebsd") && crate::text::eq_str(&a, "x86_64") {
        "freebsd-x86_64"
    } else {
        "unsupported"
    }
}

/// The helper's executable name on the platform.
pub fn terracotta_binary_name(windows: bool) -> (r: &'static str)
    ensures
        r@ == (if windows {
            "terracotta.exe"@
        } else {
            "terracotta"@
        }),
{
    if windows {
        "terracotta.exe"
    } else {
        "terracotta"
    }
}

pub open spec fn spec_release_url(host: Seq<char>, version: Seq<char>, platform: Seq<char>) -> Seq<char> {
    "https://"@ + host + "/burningtnt/Terracotta/releases/download/v"@ + version + "/terracotta-"@ + version
        + "-"@ + platform + "-pkg.tar.gz"@
}

fn release_url(host: &str, version: &str, platform: &str) -> (r: String)
    ensures
        r@ == spec_release_url(host@, version@, platform@),
{
    let a = crate::text::concat("https://", host);
    let b = crate::text::concat(a.as_str(), "/burningtnt/Terracotta/releases/download/v");
    let c = crate::text::concat(b.as_str(), version);
    let d = crate::text::concat(c.as_str(), "/terracotta-");
    let e = crate::text::concat(d.as_str(), version);
    let f = crate::text::concat(e.as_str(), "-");
    let g = crate::text::concat(f.as_str(), platform);
    crate::text::concat(g.as_str(), "-pkg.tar.gz")
}

/// The release archive's download sources: GitHub first, then its Gitee
/// mirror.
pub fn terracotta_download_urls(version: &str, platform: &str) -> (r: Vec<String>)
    ensures
        r@.len() == 2,
        r@[0]@ == spec_release_url("github.com"@, version@, platform@),
        r@[1]@ == spec_release_url("gitee.com"@, version@, platform@),
{
    let mut urls: Vec<String> = Vec::new();
    urls.push(release_url("github.com", version, platform));
    urls.push(release_url("gitee.com", version, platform));
    urls
}

/// The link the front end offers for a version: the GitHub release asset.
pub fn download_url_for(args: &TerracottaDownloadUrlArgs, platform: &str) -> (r: String)
    ensures
        r@ == spec_release_url("github.com"@, args.version@, platform@),
{
    release_url("github.com", args.version.as_str(), platform)
}

/// The stage text shown while downloading from `url`.
pub fn download_stage_for(url: &str) -> (r: String)
    ensures
        r@ == "downloading from "@ + (if spec_contains(url@, "github"@) {
            "GitHub"@
        } else {
            "Gitee"@
        }),
{
    if crate::text::str_contains(url, "github") {
        crate::text::concat("downloading from ", "GitHub")
    } else {
        crate::text::concat("downloading from ", "Gitee")
    }
}

/// The SHA-512 digest of some bytes.
pub uninterp spec fn sha512_spec(data: Seq<u8>) -> Seq<u8>;

/// SHA-512 of `data` by the `sha2` crate's `Sha512` (`update` then
/// `finalize`); the contract claims only that the result is the digest of
/// exactly these bytes and has the digest's 64 bytes.
#[verifier::external_body]
fn sha512_digest(data: &[u8]) -> (r: Vec<u8>)
    ensures
        r@ == sha512_spec(data@),
        r@.len() == 64,
{
    let mut hasher = sha2::Sha512::new();
    hasher.update(data);
    hasher.finalize().to_vec()
}

pub open spec fn hex_digit(n: u8) -> char {
    if n < 10 {
        (n + 48) as char
    } else {
        (n + 87) as char
    }
}

/// Bytes in lower-case hexadecimal, two digits each.
pub open spec fn spec_lower_hex(bytes: Seq<u8>) -> Seq<char>
    decreases bytes.len(),
{
    if bytes.len() == 0 {
        Seq::empty()
    } else {
        spec_lower_hex(bytes.drop_last()).push(hex_digit(bytes.last() / 16)).push(hex_digit(bytes.last() % 16))
    }
}

fn hex_char(n: u8) -> (c: char)
    requires
        n < 16,
    ensures
        c == hex_digit(n),
{
    if n < 10 {
        (n + 48) as char
    } else {
        (n + 87) as char
    }
}

pub fn lower_hex(bytes: &Vec<u8>) -> (r: String)
    ensures
        r@ == spec_lower_hex(bytes@),
{
    let mut out: Vec<char> = Vec::new();
    let mut i: usize = 0;
    assert(bytes@.subrange(0, 0) =~= Seq::<u8>::empty());
    while i < bytes.len()
        invariant
            i <= bytes.len(),
            out@ == spec_lower_hex(bytes@.subrange(0, i as int)),
        decreases bytes.len() - i,
    {
        let b = bytes[i];
        out.push(hex_char(b / 16));
        out.push(hex_char(b % 16));
        assert(bytes@.subrange(0, i + 1).drop_last() =~= bytes@.subrange(0, i as int));
        i += 1;
    }
    assert(bytes@.subrange(0, bytes@.len() as int) =~= bytes@);
    crate::text::string_from(&out)
}

/// An archive passes the check unless a published checksum, once trimmed,
/// is non-empty and differs (case ignored) from the archive's SHA-512.
pub open spec fn spec_checksum_accepts(data: Seq<u8>, published: Option<Seq<char>>) -> bool {
    match published {
        None => true,
        Some(text) => crate::text::spec_trim(text).len() == 0 || crate::text::spec_eq_ignore_ascii_case(
            spec_lower_hex(sha512_spec(data)),
            crate::text::spec_trim(text),
        ),
    }
}

/// Checks a downloaded archive against the checksum file published beside it
/// (`None` when none could be fetched).
pub fn archive_checksum_accepts(data: &Vec<u8>, published: Option<&str>) -> (r: bool)
    ensures
        r == spec_checksum_accepts(
            data@,
            match published {
                Some(t) => Some(t@),
                None => None,
            },
        ),
{
    match published {
        None => true,
        Some(text) => {
            let chars = crate::text::chars_of(text);
            let expected = crate::text::trimmed(&chars);
            if expected.len() == 0 {
                return true;
            }
            let digest = sha512_digest(data.as_slice());
            let computed = lower_hex(&digest);
            let cv = crate::text::chars_of(computed.as_str());
            crate::text::eq_ignore_ascii_case(&cv, &expected)
        },
    }
}

/// What came of asking one download source for the release archive.
pub enum SourceOutcome {
    /// The request failed or the source answered with an error status.
    Unreachable,
    /// The archive was fetched; `published_checksum` is the text of the
    /// checksum file beside it, where one could be fetched.
    Fetched { data: Vec<u8>, published_checksum: Option<String> },
}

/// What the download does after a source was tried.
pub enum SourceStep {
    /// Install this archive.
    Install(Vec<u8>),
    /// Try the source at `source`, showing `stage`.
    TryNext { source: usize, stage: String },
    /// Every source failed.
    Failed(String),
}

/// The next step of the download once source `tried` of `urls` answered
/// with `outcome`: an archive whose published checksum (if any) matches is
/// installed; otherwise the next source is tried, and after the last one
/// the download fails.
pub fn terracotta_source_step(urls: &Vec<String>, tried: usize, outcome: SourceOutcome, version: &str) -> (r:
    SourceStep)
    requires
        tried < urls@.len(),
    ensures
        ({
            let accepted = match outcome {
                SourceOutcome::Fetched { data, published_checksum } => spec_checksum_accepts(
                    data@,
                    match published_checksum {
                        Some(t) => Some(t@),
                        None => None,
                    },
                ),
                SourceOutcome::Unreachable => false,
            };
            &&& accepted ==> (r matches SourceStep::Install(d) && outcome matches SourceOutcome::Fetched {
                data,
                ..
            } && d@ == data@)
            &&& !accepted && tried + 1 < urls@.len() ==> (r matches SourceStep::TryNext { source, stage } && source
                == tried + 1 && stage@ == "downloading from "@ + (if spec_contains(urls@[tried + 1]@, "github"@) {
                "GitHub"@
            } else {
                "Gitee"@
            }))
            &&& !accepted && tried + 1 >= urls@.len() ==> (r matches SourceStep::Failed(m) && m@
                == "all download sources failed for terracotta v"@ + version@)
        }),
{
    match outcome {
        SourceOutcome::Fetched { data, published_checksum } => {
            let accepted = match &published_checksum {
                Some(t) => archive_checksum_accepts(&data, Some(t.as_str())),
                None => archive_checksum_accepts(&data, None),
            };
            if accepted {
                return SourceStep::Install(data);
            }
        },
        SourceOutcome::Unreachable => {},
    }
    if tried < urls.len() - 1 {
        let stage = download_stage_for(urls[tried + 1].as_str());
        SourceStep::TryNext { source: tried + 1, stage }
    } else {
        SourceStep::Failed(crate::text::concat("all download sources failed for terracotta v", version))
    }
}

/// `b` is `a` but for the status and the download's progress and stage.
pub open spec fn same_but_download(a: TerracottaState, b: TerracottaState) -> bool {
    &&& b.http_port == a.http_port
    &&& b.room_code == a.room_code
    &&& b.server_port == a.server_port
    &&& b.players == a.players
    &&& b.binary_installed == a.binary_installed
    &&& b.error_type == a.error_type
    &&& b.error_message == a.error_message
    &&& b.profile_index == a.profile_index
}

pub open spec fn stage_view(s: Option<String>) -> Option<Seq<char>> {
    match s {
        Some(t) => Some(t@),
        None => None,
    }
}

/// What a download of the helper has settled so far: the version and its
/// sources, and the source being tried.
pub struct DownloadJob {
    pub version: String,
    pub urls: Vec<String>,
    pub source: usize,
}

/// What happened during a download of the helper.
pub enum DownloadEvent {
    /// The download was asked for.
    Started,
    /// The version to install is known (asked for, or the latest release),
    /// on the given operating system and architecture.
    VersionResolved { version: String, os: String, arch: String },
    /// Some percent of the archive has arrived.
    Progress { percent: u8 },
    /// The source being tried answered.
    Fetched(SourceOutcome),
    /// The archive was unpacked.
    Extracted,
    /// The binary is in place and old versions are cleaned up.
    Installed,
    /// The pause after the completed download is over.
    Settled,
}

/// What the download does next.
pub enum DownloadAction {
    /// Find the version to install.
    ResolveVersion,
    /// Download the archive from `url`.
    Fetch { url: String },
    /// Keep receiving the archive.
    Receive,
    /// Unpack this archive.
    Extract(Vec<u8>),
    /// Put the binary in place and clean up old versions.
    Install,
    /// Pause before the state goes back to idle.
    Settle,
    /// The download is over.
    Done,
    /// The download fails with this message.
    Fail(String),
}

/// One step of a download of the helper: the state the launcher shows, the
/// job, and what to do next.
pub fn terracotta_download_step(state: &mut TerracottaState, job: &mut DownloadJob, event: DownloadEvent) -> (r:
    DownloadAction)
    ensures
        same_but_download(*old(state), *final(state)),
        match event {
            DownloadEvent::Started => {
                &&& final(state).status == TerracottaStatus::Downloading
                &&& final(state).download_progress == Some(0u8)
                &&& stage_view(final(state).download_stage) == Some("preparing"@)
                &&& r is ResolveVersion
                &&& *final(job) == *old(job)
            },
            DownloadEvent::VersionResolved { version, os, arch } => if spec_platform_key(os@, arch@) == "unsupported"@ {
                &&& *final(state) == *old(state)
                &&& *final(job) == *old(job)
                &&& r matches DownloadAction::Fail(m) && m@ == "no terracotta binary available for "@ + os@ + "/"@
                    + arch@
            } else {
                let url = spec_release_url("github.com"@, version@, spec_platform_key(os@, arch@));
                &&& final(job).version@ == version@
                &&& final(job).urls@.len() == 2
                &&& final(job).urls@[0]@ == url
                &&& final(job).urls@[1]@ == spec_release_url(
                    "gitee.com"@,
                    version@,
                    spec_platform_key(os@, arch@),
                )
                &&& final(job).source == 0
                &&& final(state).status == old(state).status
                &&& final(state).download_progress == old(state).download_progress
                &&& stage_view(final(state).download_stage) == Some("downloading from GitHub"@)
                &&& r matches DownloadAction::Fetch { url: u } && u@ == url
            },
            DownloadEvent::Progress { percent } => {
                &&& final(state).status == old(state).status
                &&& final(state).download_progress == Some(percent)
                &&& final(state).download_stage == old(state).download_stage
                &&& *final(job) == *old(job)
                &&& r is Receive
            },
            DownloadEvent::Fetched(outcome) => {
                let accepted = match outcome {
                    SourceOutcome::Fetched { data, published_checksum } => spec_checksum_accepts(
                        data@,
                        stage_view(published_checksum),
                    ),
                    SourceOutcome::Unreachable => false,
                };
                let next = old(job).source + 1;
                &&& final(state).status == old(state).status
                &&& final(job).version == old(job).version
                &&& final(job).urls == old(job).urls
                &&& old(job).source >= old(job).urls@.len() ==> {
                    &&& *final(state) == *old(state)
                    &&& final(job).source == old(job).source
                    &&& r matches DownloadAction::Fail(m) && m@ == "all download sources failed for terracotta v"@
                        + old(job).version@
                }
                &&& old(job).source < old(job).urls@.len() ==> {
                    &&& accepted ==> {
                        &&& r matches DownloadAction::Extract(d) && outcome matches SourceOutcome::Fetched { data, .. }
                            && d@ == data@
                        &&& final(state).download_progress is None
                        &&& stage_view(final(state).download_stage) == Some("extracting"@)
                        &&& final(job).source == old(job).source
                    }
                    &&& !accepted && next < old(job).urls@.len() ==> {
                        &&& final(job).source == next
                        &&& final(state).download_progress == old(state).download_progress
                        &&& stage_view(final(state).download_stage) == Some(
                            "downloading from "@ + (if spec_contains(old(job).urls@[next]@, "github"@) {
                                "GitHub"@
                            } else {
                                "Gitee"@
                            }),
                        )
                        &&& r matches DownloadAction::Fetch { url } && url@ == old(job).urls@[next]@
                    }
                    &&& !accepted && next >= old(job).urls@.len() ==> {
                        &&& final(job).source == old(job).source
                        &&& final(state).download_progress == old(state).download_progress
                        &&& stage_view(final(state).download_stage) == (if outcome is Fetched {
                            Some("verifying"@)
                        } else {
                            stage_view(old(state).download_stage)
                        })
                        &&& r matches DownloadAction::Fail(m) && m@ == "all download sources failed for terracotta v"@
                            + old(job).version@
                    }
                }
            },
            DownloadEvent::Extracted => {
                &&& final(state).status == old(state).status
                &&& final(state).download_progress == old(state).download_progress
                &&& stage_view(final(state).download_stage) == Some("installing"@)
                &&& *final(job) == *old(job)
                &&& r is Install
            },
            DownloadEvent::Installed => {
                &&& final(state).status == old(state).status
                &&& final(state).download_progress == Some(100u8)
                &&& stage_view(final(state).download_stage) == Some("complete"@)
                &&& *final(job) == *old(job)
                &&& r is Settle
            },
            DownloadEvent::Settled => {
                &&& final(state).status == TerracottaStatus::Idle
                &&& final(state).download_progress is None
                &&& final(state).download_stage is None
                &&& *final(job) == *old(job)
                &&& r is Done
            },
        },
{
    match event {
        DownloadEvent::Started => {
            state.status = TerracottaStatus::Downloading;
            state.download_progress = Some(0);
            state.download_stage = Some(crate::text::to_owned("preparing"));
            DownloadAction::ResolveVersion
        },
        DownloadEvent::VersionResolved { version, os, arch } => {
            let platform = platform_key_for(os.as_str(), arch.as_str());
            if crate::text::same_text(platform, "unsupported") {
                let a = crate::text::concat("no terracotta binary available for ", os.as_str());
                let b = crate::text::concat(a.as_str(), "/");
                return DownloadAction::Fail(crate::text::concat(b.as_str(), arch.as_str()));
            }
            let urls = terracotta_download_urls(version.as_str(), platform);
            let stage = download_stage_for(urls[0].as_str());
            proof {
                reveal_strlit("https://");
                reveal_strlit("github.com");
                reveal_strlit("github");
                let u = urls@[0]@;
                assert(u.subrange(8, 14) =~= "github"@);
                assert(crate::text::spec_occurs_at(u, "github"@, 8));
                reveal_strlit("downloading from ");
                reveal_strlit("GitHub");
                reveal_strlit("downloading from GitHub");
                assert("downloading from "@ + "GitHub"@ =~= "downloading from GitHub"@);
            }
            let url = urls[0].clone();
            job.version = version;
            job.urls = urls;
            job.source = 0;
            state.download_stage = Some(stage);
            DownloadAction::Fetch { url }
        },
        DownloadEvent::Progress { percent } => {
            state.download_progress = Some(percent);
            DownloadAction::Receive
        },
        DownloadEvent::Fetched(outcome) => {
            if job.source >= job.urls.len() {
                return DownloadAction::Fail(
                    crate::text::concat("all download sources failed for terracotta v", job.version.as_str()),
                );
            }
            match &outcome {
                SourceOutcome::Fetched { .. } => {
                    state.download_stage = Some(crate::text::to_owned("verifying"));
                },
                SourceOutcome::Unreachable => {},
            }
            match terracotta_source_step(&job.urls, job.source, outcome, job.version.as_str()) {
                SourceStep::Install(data) => {
                    state.download_stage = Some(crate::text::to_owned("extracting"));
                    state.download_progress = None;
                    DownloadAction::Extract(data)
                },
                SourceStep::TryNext { source, stage } => {
                    job.source = source;
                    state.download_stage = Some(stage);
                    DownloadAction::Fetch { url: job.urls[source].clone() }
                },
                SourceStep::Failed(m) => DownloadAction::Fail(m),
            }
        },
        DownloadEvent::Extracted => {
            state.download_stage = Some(crate::text::to_owned("installing"));
            DownloadAction::Install
        },
        DownloadEvent::Installed => {
            state.download_progress = Some(100);
            state.download_stage = Some(crate::text::to_owned("complete"));
            DownloadAction::Settle
        },
        DownloadEvent::Settled => {
            state.status = TerracottaStatus::Idle;
            state.download_progress = None;
            state.download_stage = None;
            DownloadAction::Done
        },
    }
}

/// How many times the helper's port file is looked for before starting
/// gives up.
pub const PORT_FILE_ATTEMPTS: u32 = 30;

/// What starting the helper has settled so far.
pub struct StartJob {
    /// The helper was downloaded during this start.
    pub downloaded: bool,
    /// How many times the port file was looked for.
    pub attempts: u32,
}

/// What reading the helper's port file gave.
pub enum PortFile {
    Missing,
    Unreadable,
    Unparsable,
    Port(u16),
}

/// What happened while starting the helper.
pub enum StartEvent {
    /// The binary was looked for at `path` on the given system.
    BinaryChecked {
        found: bool,
        auto_download: bool,
        already_running: bool,
        path: String,
        os: String,
        arch: String,
        windows: bool,
    },
    /// The helper process runs.
    Spawned,
    /// The port file was read.
    PortFileRead(PortFile),
}

/// What starting the helper does next.
pub enum StartAction {
    /// Download the helper, then look for the binary again.
    Download,
    /// Start the helper process.
    Spawn,
    /// Read the port file after waiting this many milliseconds.
    ReadPortFileAfter { millis: u64 },
    /// The helper answers on this port: remove the port file and follow its
    /// state.
    Serve { port: u16 },
    /// Starting fails with this message.
    Fail(String),
}

/// One step of starting the helper: the state the launcher shows, the job,
/// and what to do next. A missing binary is downloaded once where that is
/// allowed; a running helper is not started twice; the port file is looked
/// for `PORT_FILE_ATTEMPTS` times, half a second apart, the first time a
/// second and a half after the start.
pub fn terracotta_start_step(state: &mut TerracottaState, job: &mut StartJob, event: StartEvent) -> (r: StartAction)
    ensures
        match event {
            StartEvent::BinaryChecked { found, auto_download, already_running, path, os, arch, windows } => {
                &&& *final(state) == *old(state)
                &&& final(job).attempts == old(job).attempts
                &&& if !found && auto_download && !old(job).downloaded {
                    final(job).downloaded && r is Download
                } else if !found {
                    &&& final(job).downloaded == old(job).downloaded
                    &&& r matches StartAction::Fail(m) && m@ == "terracotta binary not found at "@ + path@
                        + " (platform: "@ + spec_platform_key(os@, arch@) + ", expected name: "@ + (if windows {
                        "terracotta.exe"@
                    } else {
                        "terracotta"@
                    }) + ")"@
                } else if already_running {
                    final(job).downloaded == old(job).downloaded && (r matches StartAction::Fail(m) && m@
                        == "terracotta is already running"@)
                } else {
                    final(job).downloaded == old(job).downloaded && r is Spawn
                }
            },
            StartEvent::Spawned => {
                &&& final(state).status == TerracottaStatus::Starting
                &&& same_but_download(*old(state), *final(state))
                &&& final(state).download_progress == old(state).download_progress
                &&& final(state).download_stage == old(state).download_stage
                &&& final(job).downloaded == old(job).downloaded
                &&& final(job).attempts == 0
                &&& r matches StartAction::ReadPortFileAfter { millis } && millis == 1500
            },
            StartEvent::PortFileRead(file) => match file {
                PortFile::Port(port) => {
                    &&& final(state).http_port == Some(port)
                    &&& final(state).status == old(state).status
                    &&& final(state).room_code == old(state).room_code
                    &&& final(state).players == old(state).players
                    &&& final(state).error_type == old(state).error_type
                    &&& final(state).error_message == old(state).error_message
                    &&& *final(job) == *old(job)
                    &&& r matches StartAction::Serve { port: p } && p == port
                },
                _ => {
                    &&& *final(state) == *old(state)
                    &&& final(job).downloaded == old(job).downloaded
                    &&& final(job).attempts == (if old(job).attempts < PORT_FILE_ATTEMPTS {
                        old(job).attempts + 1
                    } else {
                        old(job).attempts as int
                    })
                    &&& if old(job).attempts + 1 < PORT_FILE_ATTEMPTS {
                        r matches StartAction::ReadPortFileAfter { millis } && millis == 500
                    } else {
                        r matches StartAction::Fail(m) && m@ == "timed out waiting for terracotta to start"@
                    }
                },
            },
        },
{
    match event {
        StartEvent::BinaryChecked { found, auto_download, already_running, path, os, arch, windows } => {
            if !found && auto_download && !job.downloaded {
                job.downloaded = true;
                return StartAction::Download;
            }
            if !found {
                let a = crate::text::concat("terracotta binary not found at ", path.as_str());
                let b = crate::text::concat(a.as_str(), " (platform: ");
                let c = crate::text::concat(b.as_str(), platform_key_for(os.as_str(), arch.as_str()));
                let d = crate::text::concat(c.as_str(), ", expected name: ");
                let e = crate::text::concat(d.as_str(), terracotta_binary_name(windows));
                return StartAction::Fail(crate::text::concat(e.as_str(), ")"));
            }
            if already_running {
                return StartAction::Fail(crate::text::to_owned("terracotta is already running"));
            }
            StartAction::Spawn
        },
        StartEvent::Spawned => {
            state.status = TerracottaStatus::Starting;
            job.attempts = 0;
            StartAction::ReadPortFileAfter { millis: 1500 }
        },
        StartEvent::PortFileRead(file) => match file {
            PortFile::Port(port) => {
                state.http_port = Some(port);
                StartAction::Serve { port }
            },
            _ => {
                if job.attempts < PORT_FILE_ATTEMPTS {
                    job.attempts = job.attempts + 1;
                }
                if job.attempts < PORT_FILE_ATTEMPTS {
                    StartAction::ReadPortFileAfter { millis: 500 }
                } else {
                    StartAction::Fail(crate::text::to_owned("timed out waiting for terracotta to start"))
                }
            },
        },
    }
}

/// An extracted file that is the helper's binary under another name.
pub fn is_extracted_binary(name: &str) -> (r: bool)
    ensures
        r == (spec_starts_with(name@, "terracotta"@) && !spec_ends_with(name@, ".tar.gz"@)),
{
    crate::text::str_starts_with(name, "terracotta") && !crate::text::str_ends_with(name, ".tar.gz")
}

/// What cleanup removes of an entry of the install folder: old archives and
/// backups, and old unpacked version folders, unless they belong to the new
/// version. The first flag removes the entry as a file, the second as a
/// folder.
pub fn legacy_cleanup(name: &str, is_dir: bool, new_version: &str) -> (r: (bool, bool))
    ensures
        r.0 == ((spec_ends_with(name@, ".tar.gz"@) || spec_ends_with(name@, ".old"@)) && !spec_contains(
            name@,
            new_version@,
        )),
        r.1 == (is_dir && spec_starts_with(name@, "terracotta-"@) && !spec_contains(name@, new_version@)),
{
    let current = crate::text::str_contains(name, new_version);
    let archive = crate::text::str_ends_with(name, ".tar.gz") || crate::text::str_ends_with(name, ".old");
    let folder = is_dir && crate::text::str_starts_with(name, "terracotta-");
    (archive && !current, folder && !current)
}

/// The launcher status of a state name of the helper's HTTP API (unknown
/// names read as idle).
pub open spec fn spec_status_from_api(s: Seq<char>) -> TerracottaStatus {
    if s == "idle"@ {
        TerracottaStatus::Idle
    } else if s == "starting"@ {
        TerracottaStatus::Starting
    } else if s == "waiting"@ {
        TerracottaStatus::Waiting
    } else if s == "host-scanning"@ {
        TerracottaStatus::HostScanning
    } else if s == "host-starting"@ {
        TerracottaStatus::HostStarting
    } else if s == "host-ok"@ {
        TerracottaStatus::HostReady
    } else if s == "guest-connecting"@ {
        TerracottaStatus::GuestConnecting
    } else if s == "guest-starting"@ {
        TerracottaStatus::GuestStarting
    } else if s == "guest-ok"@ {
        TerracottaStatus::GuestReady
    } else if s == "exception"@ {
        TerracottaStatus::Error
    } else if s == "fatal"@ {
        TerracottaStatus::Fatal
    } else {
        TerracottaStatus::Idle
    }
}

/// The state names the helper's `/state` answer uses, in its own order.
pub open spec fn api_state_names() -> Seq<Seq<char>> {
    seq![
        "idle"@,
        "starting"@,
        "waiting"@,
        "host-scanning"@,
        "host-starting"@,
        "host-ok"@,
        "guest-connecting"@,
        "guest-starting"@,
        "guest-ok"@,
        "exception"@,
        "fatal"@,
    ]
}

pub open spec fn is_host_status(st: TerracottaStatus) -> bool {
    st == TerracottaStatus::HostScanning || st == TerracottaStatus::HostStarting || st == TerracottaStatus::HostReady
}

pub open spec fn is_guest_status(st: TerracottaStatus) -> bool {
    st == TerracottaStatus::GuestConnecting || st == TerracottaStatus::GuestStarting || st
        == TerracottaStatus::GuestReady
}

pub open spec fn is_ready_status(st: TerracottaStatus) -> bool {
    st == TerracottaStatus::HostReady || st == TerracottaStatus::GuestReady
}

/// The helper's states map to distinct launcher statuses; a `host-` state
/// to a hosting status and a `guest-` state to a joining one, exactly; an
/// `-ok` state, and only such a state, to a ready status; and no state of
/// the helper reads as a download.
pub proof fn api_states_map_to_distinct_statuses()
    ensures
        forall|i: int, j: int|
            0 <= i < j < api_state_names().len() ==> spec_status_from_api(#[trigger] api_state_names()[i])
                != spec_status_from_api(#[trigger] api_state_names()[j]),
        forall|i: int|
            0 <= i < api_state_names().len() ==> (is_host_status(spec_status_from_api(#[trigger] api_state_names()[i]))
                <==> spec_starts_with(api_state_names()[i], "host-"@)),
        forall|i: int|
            0 <= i < api_state_names().len() ==> (is_guest_status(spec_status_from_api(#[trigger] api_state_names()[i]))
                <==> spec_starts_with(api_state_names()[i], "guest-"@)),
        forall|i: int|
            0 <= i < api_state_names().len() ==> (is_ready_status(spec_status_from_api(#[trigger] api_state_names()[i]))
                <==> spec_ends_with(api_state_names()[i], "-ok"@)),
        forall|s: Seq<char>| spec_status_from_api(s) != TerracottaStatus::Downloading,
        forall|s: Seq<char>| !api_state_names().contains(s) ==> spec_status_from_api(s) == TerracottaStatus::Idle,
{
    reveal_strlit("idle");
    reveal_strlit("starting");
    reveal_strlit("waiting");
    reveal_strlit("host-scanning");
    reveal_strlit("host-starting");
    reveal_strlit("host-ok");
    reveal_strlit("guest-connecting");
    reveal_strlit("guest-starting");
    reveal_strlit("guest-ok");
    reveal_strlit("exception");
    reveal_strlit("fatal");
    reveal_strlit("host-");
    reveal_strlit("guest-");
    reveal_strlit("-ok");
    assert("starting"@[0] != "guest-ok"@[0]);
    assert("waiting"@[0] != "host-ok"@[0]);
    assert("host-scanning"@[6] != "host-starting"@[6]);
    assert("idle"@.subrange(1, 4)[0] != "-ok"@[0]);
    assert("starting"@.subrange(0, 5)[0] != "host-"@[0]);
    assert("starting"@.subrange(0, 6)[0] != "guest-"@[0]);
    assert("starting"@.subrange(5, 8)[0] != "-ok"@[0]);
    assert("waiting"@.subrange(0, 5)[0] != "host-"@[0]);
    assert("waiting"@.subrange(0, 6)[0] != "guest-"@[0]);
    assert("waiting"@.subrange(4, 7)[0] != "-ok"@[0]);
    assert("host-scanning"@.subrange(0, 5) =~= "host-"@);
    assert("host-scanning"@.subrange(0, 6)[0] != "guest-"@[0]);
    assert("host-scanning"@.subrange(10, 13)[0] != "-ok"@[0]);
    assert("host-starting"@.subrange(0, 5) =~= "host-"@);
    assert("host-starting"@.subrange(0, 6)[0] != "guest-"@[0]);
    assert("host-starting"@.subrange(10, 13)[0] != "-ok"@[0]);
    assert("host-ok"@.subrange(0, 5) =~= "host-"@);
    assert("host-ok"@.subrange(0, 6)[0] != "guest-"@[0]);
    assert("host-ok"@.subrange(4, 7) =~= "-ok"@);
    assert("guest-connecting"@.subrange(0, 5)[0] != "host-"@[0]);
    assert("guest-connecting"@.subrange(0, 6) =~= "guest-"@);
    assert("guest-connecting"@.subrange(13, 16)[0] != "-ok"@[0]);
    assert("guest-starting"@.subrange(0, 5)[0] != "host-"@[0]);
    assert("guest-starting"@.subrange(0, 6) =~= "guest-"@);
    assert("guest-starting"@.subrange(11, 14)[0] != "-ok"@[0]);
    assert("guest-ok"@.subrange(0, 5)[0] != "host-"@[0]);
    assert("guest-ok"@.subrange(0, 6) =~= "guest-"@);
    assert("guest-ok"@.subrange(5, 8) =~= "-ok"@);
    assert("exception"@.subrange(0, 5)[0] != "host-"@[0]);
    assert("exception"@.subrange(0, 6)[0] != "guest-"@[0]);
    assert("exception"@.subrange(6, 9)[0] != "-ok"@[0]);
    assert("fatal"@.subrange(0, 5)[0] != "host-"@[0]);
    assert("fatal"@.subrange(2, 5)[0] != "-ok"@[0]);
    assert(spec_status_from_api("idle"@) == TerracottaStatus::Idle);
    assert(spec_status_from_api("starting"@) == TerracottaStatus::Starting);
    assert(spec_status_from_api("waiting"@) == TerracottaStatus::Waiting);
    assert(spec_status_from_api("host-scanning"@) == TerracottaStatus::HostScanning);
    assert(spec_status_from_api("host-starting"@) == TerracottaStatus::HostStarting);
    assert(spec_status_from_api("host-ok"@) == TerracottaStatus::HostReady);
    assert(spec_status_from_api("guest-connecting"@) == TerracottaStatus::GuestConnecting);
    assert(spec_status_from_api("guest-starting"@) == TerracottaStatus::GuestStarting);
    assert(spec_status_from_api("guest-ok"@) == TerracottaStatus::GuestReady);
    assert(spec_status_from_api("exception"@) == TerracottaStatus::Error);
    assert(spec_status_from_api("fatal"@) == TerracottaStatus::Fatal);
    let names = api_state_names();
    assert forall|s: Seq<char>| !api_state_names().contains(s) implies spec_status_from_api(s)
        == TerracottaStatus::Idle by {
        assert forall|i: int| 0 <= i < names.len() implies names[i] != s by {
            if names[i] == s {
                assert(names.contains(s));
            }
        }
        assert(names[0] != s && names[1] != s && names[2] != s && names[3] != s && names[4] != s && names[5]
            != s && names[6] != s && names[7] != s && names[8] != s && names[9] != s && names[10] != s);
    }
    assert forall|i: int, j: int|
        0 <= i < j < names.len() implies spec_status_from_api(#[trigger] names[i]) != spec_status_from_api(
        #[trigger] names[j],
    ) by {
        assert(names[i] == api_state_names()[i]);
    }
}

pub fn status_from_api(s: &str) -> (r: TerracottaStatus)
    ensures
        r == spec_status_from_api(s@),
{
    let v = crate::text::chars_of(s);
    if crate::text::eq_str(&v, "idle") {
        TerracottaStatus::Idle
    } else if crate::text::eq_str(&v, "starting") {
        TerracottaStatus::Starting
    } else if crate::text::eq_str(&v, "waiting") {
        TerracottaStatus::Waiting
    } else if crate::text::eq_str(&v, "host-scanning") {
        TerracottaStatus::HostScanning
    } else if crate::text::eq_str(&v, "host-starting") {
        TerracottaStatus::HostStarting
    } else if crate::text::eq_str(&v, "host-ok") {
        TerracottaStatus::HostReady
    } else if crate::text::eq_str(&v, "guest-connecting") {
        TerracottaStatus::GuestConnecting
    } else if crate::text::eq_str(&v, "guest-starting") {
        TerracottaStatus::GuestStarting
    } else if crate::text::eq_str(&v, "guest-ok") {
        TerracottaStatus::GuestReady
    } else if crate::text::eq_str(&v, "exception") {
        TerracottaStatus::Error
    } else if crate::text::eq_str(&v, "fatal") {
        TerracottaStatus::Fatal
    } else {
        TerracottaStatus::Idle
    }
}

pub open spec fn spec_fatal_type(code: i32) -> TerracottaFatalType {
    if code == 0 {
        TerracottaFatalType::Os
    } else if code == 1 {
        TerracottaFatalType::Network
    } else if code == 2 {
        TerracottaFatalType::Install
    } else if code == 3 {
        TerracottaFatalType::Terracotta
    } else {
        TerracottaFatalType::Unknown
    }
}

pub open spec fn opt_text(o: Option<String>) -> Option<Seq<char>> {
    match o {
        Some(s) => Some(s@),
        None => None,
    }
}

/// The class of a fatal error code of the helper.
pub fn fatal_type_from_code(code: i32) -> (r: TerracottaFatalType)
    ensures
        r == spec_fatal_type(code),
{
    match code {
        0 => TerracottaFatalType::Os,
        1 => TerracottaFatalType::Network,
        2 => TerracottaFatalType::Install,
        3 => TerracottaFatalType::Terracotta,
        _ => TerracottaFatalType::Unknown,
    }
}

/// A room member as the helper's HTTP API reports it.
#[derive(Debug)]
pub struct TerracottaApiProfile {
    pub machine_id: String,
    pub name: String,
    pub vendor: String,
    pub kind: String,
}

/// The helper's `/state` answer.
#[derive(Debug)]
pub struct TerracottaApiState {
    pub state: String,
    pub index: Option<u32>,
    pub room: Option<String>,
    pub profile_index: Option<u32>,
    pub profiles: Option<Vec<TerracottaApiProfile>>,
    pub url: Option<String>,
    pub error_kind: Option<i32>,
    pub difficulty: Option<String>,
}

pub open spec fn same_player(p: PlayerInfo, q: TerracottaApiProfile) -> bool {
    p.machine_id == q.machine_id && p.name == q.name && p.vendor == q.vendor && p.kind == q.kind
}

/// Applies a polled `/state` answer. An answer whose sequence number is
/// positive and not newer than `last_index` is ignored. The result is the
/// sequence number to compare the next answer with.
pub fn apply_polled_state(state: &mut TerracottaState, api: TerracottaApiState, port: u16, last_index: u32) -> (r:
    u32)
    ensures
        ({
            let new_index = match api.index {
                Some(i) => i,
                None => 0u32,
            };
            if new_index > 0 && new_index <= last_index {
                r == last_index && *final(state) == *old(state)
            } else {
                let status = spec_status_from_api(api.state@);
                &&& r == new_index
                &&& final(state).http_port == Some(port)
                &&& final(state).room_code == api.room
                &&& final(state).profile_index == api.profile_index
                &&& final(state).status == status
                &&& final(state).server_port == old(state).server_port
                &&& final(state).download_progress == old(state).download_progress
                &&& final(state).download_stage == old(state).download_stage
                &&& final(state).binary_installed == old(state).binary_installed
                &&& (status == TerracottaStatus::Fatal ==> opt_text(final(state).error_type) == (match api.error_kind {
                    Some(code) => Some(spec_fatal_type(code).spec_as_str()),
                    None => None,
                }) && final(state).error_message == api.url)
                &&& (status == TerracottaStatus::Error ==> final(state).error_type == old(state).error_type
                    && final(state).error_message == old(state).error_message)
                &&& (status != TerracottaStatus::Fatal && status != TerracottaStatus::Error ==> final(state).error_type is None
                    && final(state).error_message is None)
                &&& (match api.profiles {
                    Some(profiles) => final(state).players@.len() == profiles@.len() && forall|i: int|
                        0 <= i < profiles@.len() ==> same_player(#[trigger] final(state).players@[i], profiles@[i]),
                    None => final(state).players == old(state).players,
                })
            }
        }),
{
    let new_index = match api.index {
        Some(i) => i,
        None => 0,
    };
    if new_index > 0 && new_index <= last_index {
        return last_index;
    }
    let TerracottaApiState { state: name, index: _, room, profile_index, profiles, url, error_kind, difficulty: _ } = api;
    state.http_port = Some(port);
    state.room_code = room;
    state.profile_index = profile_index;
    let status = status_from_api(name.as_str());
    state.status = status;
    if status == TerracottaStatus::Fatal {
        state.error_type = match error_kind {
            Some(code) => Some(crate::text::to_owned(fatal_type_from_code(code).as_str())),
            None => None,
        };
        state.error_message = url;
    } else if status != TerracottaStatus::Error {
        state.error_type = None;
        state.error_message = None;
    }
    match profiles {
        Some(list) => {
            let mut players: Vec<PlayerInfo> = Vec::new();
            let mut list = list;
            let ghost all = list@;
            let mut k: usize = 0;
            assert(all.len() == list.len());
            assert(all.subrange(0, all.len() as int) =~= all);
            while list.len() > 0
                invariant
                    k <= all.len(),
                    all.len() <= usize::MAX,
                    list@ == all.subrange(k as int, all.len() as int),
                    players@.len() == k,
                    forall|i: int| 0 <= i < players@.len() ==> same_player(#[trigger] players@[i], all[i]),
                decreases list.len(),
            {
                let p = list.remove(0);
                assert(p == all[k as int]);
                let info = PlayerInfo { machine_id: p.machine_id, name: p.name, vendor: p.vendor, kind: p.kind };
                players.push(info);
                k += 1;
                assert(list@ =~= all.subrange(k as int, all.len() as int));
            }
            state.players = players;
        },
        None => {},
    }
    new_index
}


/// After the helper stops answering, a non-idle state becomes an error.
pub fn poll_failed(state: &mut TerracottaState)
    ensures
        final(state).status == (if old(state).status != TerracottaStatus::Idle {
            TerracottaStatus::Error
        } else {
            TerracottaStatus::Idle
        }),
        final(state).http_port == old(state).http_port,
        final(state).room_code == old(state).room_code,
        final(state).players == old(state).players,
        final(state).error_type == old(state).error_type,
        final(state).error_message == old(state).error_message,
{
    if state.status != TerracottaStatus::Idle {
        state.status = TerracottaStatus::Error;
    }
}

/// Leaving a room: the helper is idle again and keeps no room, players or
/// error.
pub fn reset_room_state(state: &mut TerracottaState)
    ensures
        final(state).status == TerracottaStatus::Idle,
        final(state).room_code is None,
        final(state).server_port is None,
        final(state).players@.len() == 0,
        final(state).error_type is None,
        final(state).error_message is None,
        final(state).profile_index is None,
        final(state).http_port == old(state).http_port,
        final(state).binary_installed == old(state).binary_installed,
        final(state).download_progress == old(state).download_progress,
        final(state).download_stage == old(state).download_stage,
{
    state.status = TerracottaStatus::Idle;
    state.room_code = None;
    state.server_port = None;
    state.players = Vec::new();
    state.error_type = None;
    state.error_message = None;
    state.profile_index = None;
}

/// The state after the helper was stopped.
pub fn stopped_state(binary_installed: bool) -> (r: TerracottaState)
    ensures
        r.binary_installed == binary_installed,
        (TerracottaState { binary_installed: false, ..r }).is_initial(),
{
    let mut state = TerracottaState::default();
    state.binary_installed = binary_installed;
    state
}

/// The name a player hosts or joins under when no account is signed in.
pub fn player_name_or_anonymous(active: Option<String>) -> (r: String)
    ensures
        r@ == match active {
            Some(n) => n@,
            None => "Anonymous"@,
        },
{
    match active {
        Some(n) => n,
        None => crate::text::to_owned("Anonymous"),
    }
}

/// A room code has the form `U/XXXX-XXXX-XXXX-XXXX` (the `U` in either
/// case, each `X` an ASCII letter or digit).
pub open spec fn spec_valid_room_inner(inner: Seq<char>) -> bool {
    &&& inner.len() == 19
    &&& spec_split(inner, '-').len() == 4
    &&& forall|i: int|
        0 <= i < 4 ==> (#[trigger] spec_split(inner, '-')[i]).len() == 4 && forall|k: int|
            0 <= k < 4 ==> spec_is_ascii_alphanumeric(spec_split(inner, '-')[i][k])
}

pub open spec fn spec_parse_room_code(code: Seq<char>) -> Option<Seq<char>> {
    if (spec_starts_with(code, "U/"@) || spec_starts_with(code, "u/"@)) && spec_valid_room_inner(
        code.subrange(2, code.len() as int),
    ) {
        Some("U/"@ + code.subrange(2, code.len() as int))
    } else {
        None
    }
}

/// Checks a room code and gives it in its canonical form, or the reason it
/// was refused.
pub fn parse_room_code(code: &str) -> (r: Result<String, String>)
    ensures
        match r {
            Ok(c) => spec_parse_room_code(code@) == Some(c@),
            Err(m) => spec_parse_room_code(code@) is None && m@ == "invalid room code format: "@ + code@
                + ". Expected format: U/XXXX-XXXX-XXXX-XXXX"@,
        },
{
    let v = crate::text::chars_of(code);
    let refused = crate::text::concat("invalid room code format: ", code);
    let refused = crate::text::concat(refused.as_str(), ". Expected format: U/XXXX-XXXX-XXXX-XXXX");
    if !(crate::text::str_starts_with(code, "U/") || crate::text::str_starts_with(code, "u/")) {
        return Err(refused);
    }
    proof {
        reveal_strlit("U/");
        reveal_strlit("u/");
    }
    let inner = crate::text::slice_vec(&v, 2, v.len());
    if inner.len() != 19 {
        return Err(refused);
    }
    let pieces = crate::text::split_chars(&inner, '-');
    if pieces.len() != 4 {
        return Err(refused);
    }
    let mut i: usize = 0;
    while i < 4
        invariant
            i <= 4,
            pieces@.len() == 4,
            spec_split(inner@, '-').len() == 4,
            inner@.len() == 19,
            spec_starts_with(code@, "U/"@) || spec_starts_with(code@, "u/"@),
            refused@ == "invalid room code format: "@ + code@ + ". Expected format: U/XXXX-XXXX-XXXX-XXXX"@,
            inner@ == code@.subrange(2, code@.len() as int),
            forall|k: int| 0 <= k < 4 ==> (#[trigger] pieces@[k])@ == spec_split(inner@, '-')[k],
            forall|x: int|
                0 <= x < i ==> (#[trigger] spec_split(inner@, '-')[x]).len() == 4 && forall|k: int|
                    0 <= k < 4 ==> spec_is_ascii_alphanumeric(spec_split(inner@, '-')[x][k]),
        decreases 4 - i,
    {
        let piece = &pieces[i];
        assert(spec_split(inner@, '-')[i as int] == piece@);
        if piece.len() != 4 {
            assert(!spec_valid_room_inner(inner@));
            return Err(refused);
        }
        let mut k: usize = 0;
        while k < 4
            invariant
                k <= 4,
                i < 4,
                piece@.len() == 4,
                pieces@.len() == 4,
                spec_split(inner@, '-')[i as int] == piece@,
                inner@ == code@.subrange(2, code@.len() as int),
                refused@ == "invalid room code format: "@ + code@ + ". Expected format: U/XXXX-XXXX-XXXX-XXXX"@,
                forall|y: int| 0 <= y < k ==> spec_is_ascii_alphanumeric(piece@[y]),
            decreases 4 - k,
        {
            if !crate::text::is_ascii_alphanumeric(piece[k]) {
                assert(!spec_valid_room_inner(inner@)) by {
                    assert(spec_split(inner@, '-')[i as int][k as int] == piece@[k as int]);
                }
                return Err(refused);
            }
            k += 1;
        }
        i += 1;
    }
    let canonical = crate::text::string_from(&inner);
    Ok(crate::text::concat("U/", canonical.as_str()))
}

pub open spec fn url_safe(c: char) -> bool {
    spec_is_ascii_alphanumeric(c) || c == '-' || c == '.' || c == '_' || c == '~'
}

/// The upper-case hexadecimal digit of `d`, below 16.
pub open spec fn hex_digit_upper(d: int) -> char {
    if d < 10 {
        (48 + d) as char
    } else {
        (55 + d) as char
    }
}

/// Each byte as `%` and two upper-case hexadecimal digits.
pub open spec fn percent_bytes(bs: Seq<u8>) -> Seq<char>
    decreases bs.len(),
{
    if bs.len() == 0 {
        Seq::empty()
    } else {
        percent_bytes(bs.drop_last()) + seq![
            '%',
            hex_digit_upper(bs.last() as int / 16),
            hex_digit_upper(bs.last() as int % 16),
        ]
    }
}

/// The UTF-8 form of a character.
pub open spec fn utf8_of(c: char) -> Seq<u8> {
    let v = c as int;
    if v < 0x80 {
        seq![v as u8]
    } else if v < 0x800 {
        seq![(0xC0 + v / 64) as u8, (0x80 + v % 64) as u8]
    } else if v < 0x10000 {
        seq![(0xE0 + v / 4096) as u8, (0x80 + (v / 64) % 64) as u8, (0x80 + v % 64) as u8]
    } else {
        seq![
            (0xF0 + v / 262144) as u8,
            (0x80 + (v / 4096) % 64) as u8,
            (0x80 + (v / 64) % 64) as u8,
            (0x80 + v % 64) as u8,
        ]
    }
}

/// A text percent-encoded: ASCII letters, digits and `-`, `.`, `_`, `~`
/// stay; every byte of the UTF-8 form of any other character becomes `%XX`.
pub open spec fn spec_url_encode(s: Seq<char>) -> Seq<char>
    decreases s.len(),
{
    if s.len() == 0 {
        Seq::empty()
    } else {
        spec_url_encode(s.drop_last()) + (if url_safe(s.last()) {
            seq![s.last()]
        } else {
            percent_bytes(utf8_of(s.last()))
        })
    }
}

/// `urlencoding::encode`: percent-encodes every byte of the text's UTF-8
/// form except ASCII letters, digits and `-`, `.`, `_`, `~`, with upper-case
/// hexadecimal digits (`enc.rs`: `encode_into` and `to_hex_digit`).
#[verifier::external_body]
fn url_encode(s: &str) -> (r: String)
    ensures
        r@ == spec_url_encode(s@),
{
    urlencoding::encode(s).into_owned()
}

pub open spec fn spec_node_params(nodes: Seq<String>) -> Seq<char>
    decreases nodes.len(),
{
    if nodes.len() == 0 {
        Seq::empty()
    } else {
        spec_node_params(nodes.drop_last()) + "&public_nodes="@ + spec_url_encode(nodes.last()@)
    }
}

/// The helper's URL for entering a room as host or guest.
pub open spec fn spec_room_url(port: u16, path: Seq<char>, room: Seq<char>, player: Seq<char>, nodes: Seq<String>) -> Seq<
    char,
> {
    "http://127.0.0.1:"@ + crate::text::spec_decimal(port as nat) + path + "?room="@ + spec_url_encode(room)
        + "&player="@ + spec_url_encode(player) + spec_node_params(nodes)
}

pub fn build_room_url(port: u16, path: &str, room: &str, player: &str, nodes: &Vec<String>) -> (r: String)
    ensures
        r@ == spec_room_url(port, path@, room@, player@, nodes@),
{
    let a = crate::text::concat("http://127.0.0.1:", crate::text::decimal(port as u64).as_str());
    let b = crate::text::concat(a.as_str(), path);
    let c = crate::text::concat(b.as_str(), "?room=");
    let d = crate::text::concat(c.as_str(), url_encode(room).as_str());
    let e = crate::text::concat(d.as_str(), "&player=");
    let mut url = crate::text::concat(e.as_str(), url_encode(player).as_str());
    let ghost head = url@;
    let mut i: usize = 0;
    assert(nodes@.subrange(0, 0) =~= Seq::<String>::empty());
    assert(head + spec_node_params(nodes@.subrange(0, 0)) =~= head);
    while i < nodes.len()
        invariant
            i <= nodes.len(),
            url@ == head + spec_node_params(nodes@.subrange(0, i as int)),
        decreases nodes.len() - i,
    {
        let x = crate::text::concat(url.as_str(), "&public_nodes=");
        url = crate::text::concat(x.as_str(), url_encode(nodes[i].as_str()).as_str());
        assert(nodes@.subrange(0, i + 1).drop_last() =~= nodes@.subrange(0, i as int));
        i += 1;
    }
    assert(nodes@.subrange(0, nodes@.len() as int) =~= nodes@);
    url
}

} // verus!
