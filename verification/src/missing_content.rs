//! Required modpack files that failed to download: which of them still
//! wait for the user, which download links may be opened in a browser, what
//! a file must match before it is accepted, and when the install resumes.
use vstd::prelude::*;
use crate::text::{spec_is_ascii_hexdigit, spec_lower_seq};

verus! {

/// Where a download item of an install job stands.
#[derive(Debug, Clone, Copy, PartialEq, Eq, Structural)]
pub enum DownloadItemStatus {
    Pending,
    Downloading,
    Completed,
    Failed,
    Skipped,
}

/// A download item of an install job, as far as recovery reads it.
#[derive(Debug)]
pub struct DownloadItem {
    pub id: String,
    pub status: DownloadItemStatus,
    pub error: Option<String>,
    pub attempt: Option<u32>,
    pub max_attempts: Option<u32>,
}

/// A required modpack file that an install job remembers.
#[derive(Debug)]
pub struct MissingModpackFileState {
    pub item_id: String,
    pub manifest_path: String,
    pub target_path: String,
    pub expected_size: u64,
    pub sha1: Option<String>,
    pub sha512: Option<String>,
    pub download_urls: Vec<String>,
    pub browser_urls: Vec<String>,
    pub validate_as_jar: bool,
}

/// A required file that still waits for the user.
#[derive(Debug)]
pub struct MissingModpackFileView {
    pub item_id: String,
    pub path: String,
    pub expected_size: u64,
    pub status: DownloadItemStatus,
    pub last_error: Option<String>,
    pub browser_urls: Vec<String>,
    pub attempt: Option<u32>,
    pub max_attempts: Option<u32>,
}

/// The required files that still wait for the user.
#[derive(Debug)]
pub struct MissingModpackContentView {
    pub remaining: usize,
    pub files: Vec<MissingModpackFileView>,
}

/// The first download item with an id.
pub open spec fn spec_item_for(items: Seq<DownloadItem>, id: Seq<char>) -> Option<int>
    decreases items.len(),
{
    if items.len() == 0 {
        None
    } else if items[0].id@ == id {
        Some(0)
    } else {
        match spec_item_for(items.drop_first(), id) {
            Some(i) => Some(i + 1),
            None => None,
        }
    }
}

/// A file still waits where its item exists and is neither completed nor
/// skipped.
pub open spec fn spec_still_missing(items: Seq<DownloadItem>, f: MissingModpackFileState) -> bool {
    match spec_item_for(items, f.item_id@) {
        Some(i) => items[i].status != DownloadItemStatus::Completed && items[i].status != DownloadItemStatus::Skipped,
        None => false,
    }
}

/// The files that still wait, in the job's order.
pub open spec fn spec_waiting_files(files: Seq<MissingModpackFileState>, items: Seq<DownloadItem>) -> Seq<
    MissingModpackFileState,
> {
    files.filter(|f: MissingModpackFileState| spec_still_missing(items, f))
}

fn item_for(items: &Vec<DownloadItem>, id: &String) -> (r: Option<usize>)
    ensures
        r matches Some(i) ==> spec_item_for(items@, id@) == Some(i as int) && i < items@.len(),
        r is None ==> spec_item_for(items@, id@) is None,
{
    let mut i: usize = 0;
    assert(items@.skip(0) =~= items@);
    while i < items.len()
        invariant
            i <= items@.len(),
            spec_item_for(items@, id@) == match spec_item_for(items@.skip(i as int), id@) {
                Some(k) => Some(k + i),
                None => None,
            },
        decreases items@.len() - i,
    {
        assert(items@.skip(i as int)[0] == items@[i as int]);
        assert(items@.skip(i as int).drop_first() =~= items@.skip(i + 1));
        if items[i].id == *id {
            return Some(i);
        }
        i += 1;
    }
    None
}

pub open spec fn opt_view(o: Option<String>) -> Option<Seq<char>> {
    match o {
        Some(s) => Some(s@),
        None => None,
    }
}

fn copy_opt(o: &Option<String>) -> (r: Option<String>)
    ensures
        opt_view(r) == opt_view(*o),
{
    match o {
        Some(s) => Some(s.clone()),
        None => None,
    }
}

fn copy_strings(v: &Vec<String>) -> (r: Vec<String>)
    ensures
        r@ == v@,
{
    let mut out: Vec<String> = Vec::new();
    let mut i: usize = 0;
    while i < v.len()
        invariant
            i <= v@.len(),
            out@ == v@.subrange(0, i as int),
        decreases v@.len() - i,
    {
        out.push(v[i].clone());
        i += 1;
    }
    out
}

/// The view a waiting file gets, with its item's state.
pub open spec fn spec_file_view(f: MissingModpackFileState, item: DownloadItem, v: MissingModpackFileView) -> bool {
    &&& v.item_id@ == f.item_id@
    &&& v.path@ == f.target_path@
    &&& v.expected_size == f.expected_size
    &&& v.status == item.status
    &&& opt_view(v.last_error) == opt_view(item.error)
    &&& v.browser_urls@ == f.browser_urls@
    &&& v.attempt == item.attempt
    &&& v.max_attempts == item.max_attempts
}

/// The required files that still wait for the user, with their items'
/// states; an error where the job remembers no missing content.
pub fn missing_content_view(missing: Option<&Vec<MissingModpackFileState>>, items: &Vec<DownloadItem>) -> (r: Result<
    MissingModpackContentView,
    String,
>)
    ensures
        missing is None ==> (r matches Err(m) && m@ == "This install job has no persisted missing-content context"@),
        missing matches Some(files) ==> (r matches Ok(v) && {
            let w = spec_waiting_files(files@, items@);
            &&& v.remaining == w.len()
            &&& v.files@.len() == w.len()
            &&& forall|k: int|
                0 <= k < w.len() ==> spec_file_view(
                    w[k],
                    items@[spec_item_for(items@, w[k].item_id@)->0],
                    #[trigger] v.files@[k],
                )
        }),
{
    let files = match missing {
        Some(f) => f,
        None => {
            return Err(crate::text::to_owned("This install job has no persisted missing-content context"));
        },
    };
    let ghost keep = |f: MissingModpackFileState| spec_still_missing(items@, f);
    let mut out: Vec<MissingModpackFileView> = Vec::new();
    let mut i: usize = 0;
    proof {
        assert(files@.subrange(0, 0).filter(keep) =~= Seq::<MissingModpackFileState>::empty());
    }
    while i < files.len()
        invariant
            i <= files@.len(),
            keep == (|f: MissingModpackFileState| spec_still_missing(items@, f)),
            out@.len() == files@.subrange(0, i as int).filter(keep).len(),
            forall|k: int|
                0 <= k < out@.len() ==> {
                    let w = files@.subrange(0, i as int).filter(keep);
                    spec_file_view(w[k], items@[spec_item_for(items@, w[k].item_id@)->0], #[trigger] out@[k])
                },
        decreases files@.len() - i,
    {
        proof {
            assert(files@.subrange(0, i + 1).drop_last() =~= files@.subrange(0, i as int));
            assert(files@.subrange(0, i + 1).last() == files@[i as int]);
            reveal(Seq::filter);
        }
        let f = &files[i];
        match item_for(items, &f.item_id) {
            Some(j) => {
                let item = &items[j];
                if item.status != DownloadItemStatus::Completed && item.status != DownloadItemStatus::Skipped {
                    out.push(
                        MissingModpackFileView {
                            item_id: f.item_id.clone(),
                            path: f.target_path.clone(),
                            expected_size: f.expected_size,
                            status: item.status,
                            last_error: copy_opt(&item.error),
                            browser_urls: copy_strings(&f.browser_urls),
                            attempt: item.attempt,
                            max_attempts: item.max_attempts,
                        },
                    );
                }
            },
            None => {},
        }
        i += 1;
    }
    assert(files@.subrange(0, files@.len() as int) =~= files@);
    let remaining = out.len();
    Ok(MissingModpackContentView { remaining, files: out })
}

/// Every required file is resolved: none still waits.
pub fn all_missing_content_resolved(missing: Option<&Vec<MissingModpackFileState>>, items: &Vec<DownloadItem>) -> (r:
    Result<bool, String>)
    ensures
        missing is None ==> r is Err,
        missing matches Some(files) ==> r == Ok::<bool, String>(spec_waiting_files(files@, items@).len() == 0),
{
    match missing_content_view(missing, items) {
        Ok(v) => Ok(v.remaining == 0),
        Err(e) => Err(e),
    }
}

/// A hexadecimal hash of exactly `length` digits.
pub open spec fn spec_valid_hex_hash(hash: Seq<char>, length: nat) -> bool {
    hash.len() == length && forall|i: int| 0 <= i < hash.len() ==> spec_is_ascii_hexdigit(#[trigger] hash[i])
}

pub fn valid_hex_hash(hash: &str, length: usize) -> (r: bool)
    ensures
        r == spec_valid_hex_hash(hash@, length as nat),
{
    let v = crate::text::chars_of(hash);
    if v.len() != length {
        return false;
    }
    let mut i: usize = 0;
    while i < v.len()
        invariant
            i <= v@.len(),
            v@ == hash@,
            forall|k: int| 0 <= k < i ==> spec_is_ascii_hexdigit(#[trigger] v@[k]),
        decreases v@.len() - i,
    {
        if !crate::text::is_ascii_hexdigit(v[i]) {
            return false;
        }
        i += 1;
    }
    true
}

/// How a downloaded file's content is checked beyond its hashes.
#[derive(Debug, Clone, Copy, PartialEq, Eq, Structural)]
pub enum ContentValidation {
    Unchecked,
    Jar,
}

/// What a file must match to be accepted.
#[derive(Debug)]
pub struct Integrity {
    pub size: Option<u64>,
    pub sha1: Option<String>,
    pub sha512: Option<String>,
    pub content: ContentValidation,
}

/// Whether a file's hashes are usable: at least one, a SHA-1 of 40 hex
/// digits, a SHA-512 of 128.
pub open spec fn spec_integrity_usable(f: MissingModpackFileState) -> bool {
    &&& !(f.sha1 matches Some(h) && !spec_valid_hex_hash(h@, 40))
    &&& !(f.sha512 matches Some(h) && !spec_valid_hex_hash(h@, 128))
    &&& (f.sha1 is Some || f.sha512 is Some)
}

/// What a required file must match: its size and hashes, and being a jar
/// where it is checked as one; an error where its hashes are not usable.
pub fn required_integrity(file: &MissingModpackFileState) -> (r: Result<Integrity, String>)
    ensures
        spec_integrity_usable(*file) <==> r is Ok,
        r matches Err(m) ==> m@ == "Modpack file has invalid or missing cryptographic integrity metadata"@,
        r matches Ok(i) ==> {
            &&& i.size == Some(file.expected_size)
            &&& opt_view(i.sha1) == opt_view(file.sha1)
            &&& opt_view(i.sha512) == opt_view(file.sha512)
            &&& i.content == if file.validate_as_jar { ContentValidation::Jar } else { ContentValidation::Unchecked }
        },
{
    let bad_sha1 = match &file.sha1 {
        Some(h) => !valid_hex_hash(h.as_str(), 40),
        None => false,
    };
    let bad_sha512 = match &file.sha512 {
        Some(h) => !valid_hex_hash(h.as_str(), 128),
        None => false,
    };
    if bad_sha1 || bad_sha512 || (file.sha1.is_none() && file.sha512.is_none()) {
        return Err(crate::text::to_owned("Modpack file has invalid or missing cryptographic integrity metadata"));
    }
    Ok(
        Integrity {
            size: Some(file.expected_size),
            sha1: copy_opt(&file.sha1),
            sha512: copy_opt(&file.sha512),
            content: if file.validate_as_jar {
                ContentValidation::Jar
            } else {
                ContentValidation::Unchecked
            },
        },
    )
}

/// The attempt a manual retry makes and the attempts it allows: one more
/// than the item's (saturating), and at least that many.
pub fn retry_attempts(attempt: Option<u32>, max_attempts: Option<u32>) -> (r: (u32, u32))
    ensures
        r.0 == ({
            let a = match attempt { Some(a) => a as int, None => 0 };
            if a == u32::MAX { u32::MAX as int } else { a + 1 }
        }),
        r.1 == ({
            let m = match max_attempts { Some(m) => m, None => 1u32 };
            if m > r.0 { m } else { r.0 }
        }),
{
    let a = match attempt {
        Some(a) => a,
        None => 0,
    };
    let next = a.saturating_add(1);
    let m = match max_attempts {
        Some(m) => m,
        None => 1,
    };
    (next, if m > next { m } else { next })
}

/// The message when an item is not part of the job.
pub fn unknown_item_error(item_id: &str) -> (r: String)
    ensures
        r@ == "Required modpack item does not belong to this job: "@ + item_id@,
{
    crate::text::concat("Required modpack item does not belong to this job: ", item_id)
}

/// The first remembered file with an item id.
pub open spec fn spec_file_for(files: Seq<MissingModpackFileState>, id: Seq<char>) -> Option<int>
    decreases files.len(),
{
    if files.len() == 0 {
        None
    } else if files[0].item_id@ == id {
        Some(0)
    } else {
        match spec_file_for(files.drop_first(), id) {
            Some(i) => Some(i + 1),
            None => None,
        }
    }
}

fn file_for(files: &Vec<MissingModpackFileState>, id: &String) -> (r: Option<usize>)
    ensures
        r matches Some(i) ==> spec_file_for(files@, id@) == Some(i as int) && i < files@.len(),
        r is None ==> spec_file_for(files@, id@) is None,
{
    let mut i: usize = 0;
    assert(files@.skip(0) =~= files@);
    while i < files.len()
        invariant
            i <= files@.len(),
            spec_file_for(files@, id@) == match spec_file_for(files@.skip(i as int), id@) {
                Some(k) => Some(k + i),
                None => None,
            },
        decreases files@.len() - i,
    {
        assert(files@.skip(i as int)[0] == files@[i as int]);
        assert(files@.skip(i as int).drop_first() =~= files@.skip(i + 1));
        if files[i].item_id == *id {
            return Some(i);
        }
        i += 1;
    }
    None
}

/// The file a user resolves: one the job remembers, whose item failed.
pub fn pending_file(missing: Option<&Vec<MissingModpackFileState>>, items: &Vec<DownloadItem>, item_id: &String) -> (r:
    Result<usize, String>)
    ensures
        r matches Ok(i) ==> (missing matches Some(files) && spec_file_for(files@, item_id@) == Some(i as int) && (
        spec_item_for(items@, item_id@) matches Some(j) && items@[j].status == DownloadItemStatus::Failed)),
        r is Err <==> !(missing matches Some(files) && spec_file_for(files@, item_id@) is Some && (spec_item_for(
            items@,
            item_id@,
        ) matches Some(j) && items@[j].status == DownloadItemStatus::Failed)),
        !(missing matches Some(files) && spec_file_for(files@, item_id@) is Some && spec_item_for(items@, item_id@)
            is Some) ==> (r matches Err(m) && m@ == "Required modpack item does not belong to this job: "@
            + item_id@),
        (missing matches Some(files) && spec_file_for(files@, item_id@) is Some && (spec_item_for(items@, item_id@)
            matches Some(j) && items@[j].status != DownloadItemStatus::Failed)) ==> (r matches Err(m) && m@
            == "Only failed required modpack files can be resolved"@),
{
    let files = match missing {
        Some(f) => f,
        None => {
            return Err(unknown_item_error(item_id.as_str()));
        },
    };
    let fi = match file_for(files, item_id) {
        Some(k) => k,
        None => {
            return Err(unknown_item_error(item_id.as_str()));
        },
    };
    match item_for(items, item_id) {
        Some(j) => {
            if items[j].status != DownloadItemStatus::Failed {
                return Err(crate::text::to_owned("Only failed required modpack files can be resolved"));
            }
            Ok(fi)
        },
        None => Err(unknown_item_error(item_id.as_str())),
    }
}

/// Whether `Url::parse` accepts a text as an absolute URL.
pub uninterp spec fn url_parses_spec(input: Seq<char>) -> bool;

/// `Url::scheme` of the URL that `Url::parse` makes of a text.
pub uninterp spec fn url_scheme_spec(input: Seq<char>) -> Seq<char>;

/// `Url::username` of the URL that `Url::parse` makes of a text.
pub uninterp spec fn url_username_spec(input: Seq<char>) -> Seq<char>;

/// Whether `Url::password` is there, for the URL that `Url::parse` makes of a text.
pub uninterp spec fn url_has_password_spec(input: Seq<char>) -> bool;

/// The names of `Url::query_pairs`, in order, for the URL that `Url::parse`
/// makes of a text.
pub uninterp spec fn url_query_names_spec(input: Seq<char>) -> Seq<Seq<char>>;

/// The serialization (`Display`) of the URL that `Url::parse` makes of a text.
pub uninterp spec fn url_text_spec(input: Seq<char>) -> Seq<char>;

/// What the checks of a download link read of its parsed URL.
#[derive(Debug)]
pub struct ParsedUrl {
    pub scheme: String,
    pub username: String,
    pub has_password: bool,
    pub query_names: Vec<String>,
    pub text: String,
}

/// `url::Url::parse` of a text and, where it parses, the URL's scheme, user
/// name, whether it has a password, the names of its query parameters
/// (decoded) and its serialization. The contract names each of these;
/// nothing more of the `url` crate's parsing is claimed.
#[verifier::external_body]
fn parse_url(input: &str) -> (r: Option<ParsedUrl>)
    ensures
        r is Some <==> url_parses_spec(input@),
        r matches Some(u) ==> {
            &&& u.scheme@ == url_scheme_spec(input@)
            &&& u.username@ == url_username_spec(input@)
            &&& u.has_password == url_has_password_spec(input@)
            &&& u.query_names@.map_values(|n: String| n@) == url_query_names_spec(input@)
            &&& u.text@ == url_text_spec(input@)
        },
{
    match url::Url::parse(input) {
        Ok(u) => Some(ParsedUrl {
            scheme: u.scheme().to_string(),
            username: u.username().to_string(),
            has_password: u.password().is_some(),
            query_names: u.query_pairs().map(|(name, _)| name.into_owned()).collect(),
            text: u.to_string(),
        }),
        Err(_) => None,
    }
}

/// The query parameter names that mark a link as carrying a secret, by
/// their ASCII lowercase.
pub open spec fn spec_is_secret_param(name: Seq<char>) -> bool {
    let n = spec_lower_seq(name);
    ||| n == "auth"@
    ||| n == "authorization"@
    ||| n == "key"@
    ||| n == "api_key"@
    ||| n == "apikey"@
    ||| n == "access_token"@
    ||| n == "sig"@
    ||| n == "signature"@
    ||| n == "token"@
    ||| n == "x-amz-signature"@
    ||| n == "x-goog-signature"@
}

/// A link that may be opened in a browser: it parses, is `http` or `https`,
/// has no user name or password, and no query parameter carries a secret.
pub open spec fn spec_public_link(s: Seq<char>) -> bool {
    &&& url_parses_spec(s)
    &&& (url_scheme_spec(s) == "http"@ || url_scheme_spec(s) == "https"@)
    &&& url_username_spec(s).len() == 0
    &&& !url_has_password_spec(s)
    &&& forall|i: int| 0 <= i < url_query_names_spec(s).len() ==> !spec_is_secret_param(#[trigger] url_query_names_spec(s)[i])
}

/// The links of the public downloads, each as its URL is written out.
pub open spec fn spec_browser_urls(downloads: Seq<Seq<char>>) -> Seq<Seq<char>>
    decreases downloads.len(),
{
    if downloads.len() == 0 {
        Seq::empty()
    } else {
        let rest = spec_browser_urls(downloads.drop_last());
        if spec_public_link(downloads.last()) {
            rest.push(url_text_spec(downloads.last()))
        } else {
            rest
        }
    }
}

fn is_secret_param(name: &String) -> (r: bool)
    ensures
        r == spec_is_secret_param(name@),
{
    let v = crate::text::chars_of(name.as_str());
    let n = crate::text::lower_vec(&v);
    crate::text::eq_str(&n, "auth") || crate::text::eq_str(&n, "authorization") || crate::text::eq_str(&n, "key")
        || crate::text::eq_str(&n, "api_key") || crate::text::eq_str(&n, "apikey") || crate::text::eq_str(
        &n,
        "access_token",
    ) || crate::text::eq_str(&n, "sig") || crate::text::eq_str(&n, "signature") || crate::text::eq_str(&n, "token")
        || crate::text::eq_str(&n, "x-amz-signature") || crate::text::eq_str(&n, "x-goog-signature")
}

fn public_link(u: &ParsedUrl, input: &String) -> (r: bool)
    requires
        url_parses_spec(input@),
        u.scheme@ == url_scheme_spec(input@),
        u.username@ == url_username_spec(input@),
        u.has_password == url_has_password_spec(input@),
        u.query_names@.map_values(|n: String| n@) == url_query_names_spec(input@),
    ensures
        r == spec_public_link(input@),
{
    let http = crate::text::same_text(u.scheme.as_str(), "http");
    let https = crate::text::same_text(u.scheme.as_str(), "https");
    if !(http || https) || !crate::text::is_empty_str(u.username.as_str()) || u.has_password {
        return false;
    }
    let mut i: usize = 0;
    while i < u.query_names.len()
        invariant
            i <= u.query_names@.len(),
            u.query_names@.map_values(|n: String| n@) == url_query_names_spec(input@),
            forall|k: int| 0 <= k < i ==> !spec_is_secret_param(#[trigger] url_query_names_spec(input@)[k]),
        decreases u.query_names@.len() - i,
    {
        assert(url_query_names_spec(input@)[i as int] == u.query_names@[i as int]@);
        if is_secret_param(&u.query_names[i]) {
            return false;
        }
        i += 1;
    }
    true
}

/// The manifest's download links that may be offered for a browser
/// download, as their URLs are written out.
pub fn browser_download_urls(downloads: &Vec<String>) -> (r: Vec<String>)
    ensures
        r@.map_values(|s: String| s@) == spec_browser_urls(downloads@.map_values(|s: String| s@)),
{
    let ghost ds = downloads@.map_values(|s: String| s@);
    let mut out: Vec<String> = Vec::new();
    let mut i: usize = 0;
    while i < downloads.len()
        invariant
            i <= downloads@.len(),
            ds == downloads@.map_values(|s: String| s@),
            out@.map_values(|s: String| s@) == spec_browser_urls(ds.subrange(0, i as int)),
        decreases downloads@.len() - i,
    {
        proof {
            assert(ds.subrange(0, i + 1).drop_last() =~= ds.subrange(0, i as int));
            assert(ds.subrange(0, i + 1).last() == downloads@[i as int]@);
        }
        match parse_url(downloads[i].as_str()) {
            Some(u) => {
                if public_link(&u, &downloads[i]) {
                    let ghost before = out@;
                    out.push(u.text);
                    assert(out@.map_values(|s: String| s@) =~= before.map_values(|s: String| s@).push(
                        url_text_spec(downloads@[i as int]@),
                    ));
                }
            },
            None => {},
        }
        i += 1;
    }
    assert(ds.subrange(0, downloads@.len() as int) =~= ds);
    out
}

/// Where an install job stands.
#[derive(Debug, Clone, Copy, PartialEq, Eq, Structural)]
pub enum InstallJobStatus {
    Queued,
    Running,
    WaitingForUser,
    Completed,
    Failed,
    Cancelled,
}

/// Whether missing files of a job may be resolved now: it waits for the
/// user, remembers missing content, and installs a modpack.
pub fn check_waiting_job(status: InstallJobStatus, has_missing_content: bool, is_modpack_install: bool) -> (r: Result<
    (),
    String,
>)
    ensures
        status != InstallJobStatus::WaitingForUser ==> (r matches Err(m) && m@
            == "Missing modpack files can only be resolved while the job is waiting for user action"@),
        status == InstallJobStatus::WaitingForUser && !has_missing_content ==> (r matches Err(m) && m@
            == "This job is not waiting for required Modrinth pack content"@),
        status == InstallJobStatus::WaitingForUser && has_missing_content && !is_modpack_install ==> (r matches Err(m)
            && m@ == "Missing-content resolution is only available for modpack install jobs"@),
        status == InstallJobStatus::WaitingForUser && has_missing_content && is_modpack_install ==> r is Ok,
{
    if status != InstallJobStatus::WaitingForUser {
        return Err(
            crate::text::to_owned("Missing modpack files can only be resolved while the job is waiting for user action"),
        );
    }
    if !has_missing_content {
        return Err(crate::text::to_owned("This job is not waiting for required Modrinth pack content"));
    }
    if !is_modpack_install {
        return Err(crate::text::to_owned("Missing-content resolution is only available for modpack install jobs"));
    }
    Ok(())
}

/// The instance an install job installs into.
#[derive(Debug)]
pub enum InstallTarget {
    NewInstance { instance_id: Option<String> },
    ExistingInstance { instance_id: String },
}

/// The id of the job's target instance; an error where a new instance has
/// none yet.
pub fn target_instance_id(target: &InstallTarget) -> (r: Result<String, String>)
    ensures
        match target {
            InstallTarget::NewInstance { instance_id: Some(id) } => r matches Ok(s) && s@ == id@,
            InstallTarget::ExistingInstance { instance_id } => r matches Ok(s) && s@ == instance_id@,
            InstallTarget::NewInstance { instance_id: None } => r matches Err(m) && m@
                == "Install job has no target instance"@,
        },
{
    match target {
        InstallTarget::NewInstance { instance_id: Some(id) } => Ok(id.clone()),
        InstallTarget::ExistingInstance { instance_id } => Ok(instance_id.clone()),
        InstallTarget::NewInstance { instance_id: None } => Err(crate::text::to_owned("Install job has no target instance")),
    }
}

/// Whether a file the user selected may be imported, before its content is
/// checked: it is a regular file, not a link, of the required size.
pub fn check_selected_file(is_file: bool, is_link: bool, size: u64, required_size: Option<u64>) -> (r: Result<(), String>)
    ensures
        (!is_file || is_link) ==> (r matches Err(m) && m@ == "The selected path is not a regular readable file"@),
        (is_file && !is_link && (required_size matches Some(s) && s != size)) ==> (r matches Err(m) && m@
            == "The selected file size does not match the modpack requirement"@),
        (is_file && !is_link && !(required_size matches Some(s) && s != size)) ==> r is Ok,
{
    if !is_file || is_link {
        return Err(crate::text::to_owned("The selected path is not a regular readable file"));
    }
    match required_size {
        Some(s) => {
            if s != size {
                return Err(crate::text::to_owned("The selected file size does not match the modpack requirement"));
            }
        },
        None => {},
    }
    Ok(())
}

/// The message a user sees when an import fails: an input error's own
/// message, a generic one for anything else.
pub fn user_import_error(input_error: Option<String>) -> (r: String)
    ensures
        input_error matches Some(m) ==> r@ == m@,
        input_error is None ==> r@ == "Unable to import the selected file safely"@,
{
    match input_error {
        Some(m) => m,
        None => crate::text::to_owned("Unable to import the selected file safely"),
    }
}

} // verus!
