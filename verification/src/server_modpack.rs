//! Installing a modpack (`.mrpack`) into a managed server: which files of
//! the index a server gets, where the archive keeps its index and overrides,
//! what is downloaded, and how progress is shown.
use vstd::prelude::*;
use crate::text::{spec_ends_with, spec_replace_char, spec_starts_with};
use crate::update_payload::{zip_entry_count, zip_entry_count_spec, zip_entry_raw_name, zip_entry_raw_name_spec};

verus! {

/// The index of a `.mrpack` archive.
pub open spec fn manifest_entry_name() -> Seq<char> {
    "modrinth.index.json"@
}

/// The `env` of an index file.
#[derive(Debug)]
pub struct MrpackEnv {
    pub server: Option<String>,
}

/// One file that the index lists.
#[derive(Debug)]
pub struct MrpackFile {
    pub path: String,
    /// The file's hashes, by algorithm name.
    pub hashes: Vec<(String, String)>,
    pub env: Option<MrpackEnv>,
    pub downloads: Vec<String>,
    pub file_size: Option<u64>,
}

/// The parts of `modrinth.index.json` the installer reads.
#[derive(Debug)]
pub struct MrpackIndex {
    pub files: Vec<MrpackFile>,
}

/// A server installs every file that is not marked unsupported on servers.
pub open spec fn spec_is_server_installable(file: MrpackFile) -> bool {
    !(file.env matches Some(env) && env.server matches Some(s) && s@ == "unsupported"@)
}

pub fn is_server_installable(file: &MrpackFile) -> (r: bool)
    ensures
        r == spec_is_server_installable(*file),
{
    match &file.env {
        Some(env) => match &env.server {
            Some(s) => !crate::text::same_text(s.as_str(), "unsupported"),
            None => true,
        },
        None => true,
    }
}

/// The folder of the archive that holds the index: the entry's name without
/// `modrinth.index.json` (empty where it does not end so).
pub open spec fn spec_base_folder(manifest_entry: Seq<char>) -> Seq<char> {
    if spec_ends_with(manifest_entry, manifest_entry_name()) {
        manifest_entry.take(manifest_entry.len() - manifest_entry_name().len())
    } else {
        Seq::empty()
    }
}

pub fn base_folder(manifest_entry: &str) -> (r: String)
    ensures
        r@ == spec_base_folder(manifest_entry@),
{
    proof {
        reveal_strlit("modrinth.index.json");
    }
    if crate::text::str_ends_with(manifest_entry, "modrinth.index.json") {
        let v = crate::text::chars_of(manifest_entry);
        let n = v.len();
        crate::text::string_from_range(&v, 0, n - 19)
    } else {
        String::new()
    }
}

/// Whether an archive entry (its name with `\\` read as `/`) is the index: at
/// the top or in some folder.
pub open spec fn spec_is_manifest_entry(name: Seq<char>) -> bool {
    let n = spec_replace_char(name, '\\', '/');
    n == manifest_entry_name() || spec_ends_with(n, "/"@ + manifest_entry_name())
}

/// The first entry of the archive that is the index, with `\\` read as `/`.
pub open spec fn spec_find_manifest_entry(names: Seq<Seq<char>>) -> Option<Seq<char>>
    decreases names.len(),
{
    if names.len() == 0 {
        None
    } else if spec_is_manifest_entry(names[0]) {
        Some(spec_replace_char(names[0], '\\', '/'))
    } else {
        spec_find_manifest_entry(names.drop_first())
    }
}

/// What looking for the index from entry `i` on finds: the index entry
/// (with `\\` read as `/`), an entry whose name cannot be read (`Err(true)`),
/// or nothing (`Err(false)`).
pub open spec fn spec_manifest_from(data: Seq<u8>, i: int, n: int) -> Result<Seq<char>, bool>
    decreases n - i,
{
    if i < 0 || i >= n {
        Err(false)
    } else {
        match zip_entry_raw_name_spec(data, i as usize) {
            None => Err(true),
            Some(name) => if spec_is_manifest_entry(name) {
                Ok(spec_replace_char(name, '\\', '/'))
            } else {
                spec_manifest_from(data, i + 1, n)
            },
        }
    }
}

/// The index entry of a modpack archive, from the archive's bytes: the
/// first entry named `modrinth.index.json`, at the top or under a folder.
/// Entries are read raw, so an encrypted or unusually compressed entry
/// before the index does not stop the search.
/// An archive that `zip` cannot open, an entry whose name cannot be read
/// before the index, and an archive without the index are refused.
pub fn archive_manifest_entry(data: &[u8]) -> (r: Result<String, String>)
    ensures
        match zip_entry_count_spec(data@) {
            None => r matches Err(m) && spec_starts_with(m@, "Modpack archive is invalid: "@),
            Some(n) => match spec_manifest_from(data@, 0, n as int) {
                Ok(e) => r matches Ok(s) && s@ == e,
                Err(true) => r matches Err(m) && spec_starts_with(m@, "Failed to read modpack archive entry: "@),
                Err(false) => r matches Err(m) && m@ == "Modpack archive is missing modrinth.index.json"@,
            },
        },
{
    let count = match zip_entry_count(data) {
        Ok(n) => n,
        Err(e) => {
            let m = crate::text::concat("Modpack archive is invalid: ", e.as_str());
            proof {
                let p = "Modpack archive is invalid: "@;
                assert((p + e@).subrange(0, p.len() as int) =~= p);
            }
            return Err(m);
        },
    };
    let mut i: usize = 0;
    while i < count
        invariant
            i <= count,
            zip_entry_count_spec(data@) == Some(count),
            spec_manifest_from(data@, 0, count as int) == spec_manifest_from(data@, i as int, count as int),
        decreases count - i,
    {
        let name = match zip_entry_raw_name(data, i) {
            Ok(n) => n,
            Err(e) => {
                let m = crate::text::concat("Failed to read modpack archive entry: ", e.as_str());
                proof {
                    let p = "Failed to read modpack archive entry: "@;
                    assert((p + e@).subrange(0, p.len() as int) =~= p);
                }
                return Err(m);
            },
        };
        let ghost nv = name@;
        let single = vec![name];
        proof {
            assert(single@.map_values(|n: String| n@) =~= seq![nv]);
            assert(seq![nv].drop_first() =~= Seq::<Seq<char>>::empty());
            assert(spec_find_manifest_entry(Seq::<Seq<char>>::empty()) is None);
            assert(spec_find_manifest_entry(seq![nv]) == (if spec_is_manifest_entry(nv) {
                Some(spec_replace_char(nv, '\\', '/'))
            } else {
                None
            }));
        }
        match find_manifest_entry(&single) {
            Ok(entry) => {
                return Ok(entry);
            },
            Err(_) => {},
        }
        i += 1;
    }
    Err(crate::text::to_owned("Modpack archive is missing modrinth.index.json"))
}

/// Finds the index among the archive's entry names, or says it is missing.
pub fn find_manifest_entry(names: &Vec<String>) -> (r: Result<String, String>)
    ensures
        match spec_find_manifest_entry(names@.map_values(|n: String| n@)) {
            Some(e) => r matches Ok(s) && s@ == e,
            None => r matches Err(m) && m@ == "Modpack archive is missing modrinth.index.json"@,
        },
{
    let ghost ns = names@.map_values(|n: String| n@);
    let mut i: usize = 0;
    assert(ns.skip(0) =~= ns);
    while i < names.len()
        invariant
            i <= names@.len(),
            ns == names@.map_values(|n: String| n@),
            spec_find_manifest_entry(ns) == spec_find_manifest_entry(ns.skip(i as int)),
        decreases names@.len() - i,
    {
        assert(ns.skip(i as int)[0] == ns[i as int]);
        assert(ns.skip(i as int).drop_first() =~= ns.skip(i + 1));
        let v = crate::text::chars_of(names[i].as_str());
        let n = crate::text::replace_char(&v, '\\', '/');
        let ns_text = crate::text::string_from(&n);
        let top = crate::text::same_text(ns_text.as_str(), "modrinth.index.json");
        let nested = crate::text::str_ends_with(ns_text.as_str(), "/modrinth.index.json");
        proof {
            reveal_strlit("/modrinth.index.json");
            reveal_strlit("modrinth.index.json");
            reveal_strlit("/");
            assert("/modrinth.index.json"@ =~= "/"@ + manifest_entry_name());
        }
        if top || nested {
            return Ok(ns_text);
        }
        i += 1;
    }
    Err(crate::text::to_owned("Modpack archive is missing modrinth.index.json"))
}

/// The archive folders whose contents are copied over the server:
/// `BASEoverrides/` and `BASEserver/overrides/`.
pub fn override_prefixes(base: &str) -> (r: (String, String))
    ensures
        r.0@ == base@ + "overrides/"@,
        r.1@ == base@ + "server/overrides/"@,
{
    (crate::text::concat(base, "overrides/"), crate::text::concat(base, "server/overrides/"))
}

/// The files a server installs, in index order.
pub open spec fn spec_installable(files: Seq<MrpackFile>) -> Seq<MrpackFile> {
    files.filter(|f: MrpackFile| spec_is_server_installable(f))
}

/// The sum of the known sizes of some files.
pub open spec fn spec_total_size(files: Seq<MrpackFile>) -> nat
    decreases files.len(),
{
    if files.len() == 0 {
        0
    } else {
        spec_total_size(files.drop_last()) + match files.last().file_size {
            Some(s) => s as nat,
            None => 0nat,
        }
    }
}

/// The first hash of a file under a name.
pub open spec fn spec_hash_named(hashes: Seq<(String, String)>, name: Seq<char>) -> Option<Seq<char>>
    decreases hashes.len(),
{
    if hashes.len() == 0 {
        None
    } else if hashes[0].0@ == name {
        Some(hashes[0].1@)
    } else {
        spec_hash_named(hashes.drop_first(), name)
    }
}

/// One download of the installation: path, URL, SHA-1 where known, size.
pub type DownloadView = (Seq<char>, Seq<char>, Option<Seq<char>>, u64);

/// The download of a file: its first URL, where it has one.
pub open spec fn spec_file_download(f: MrpackFile) -> Option<DownloadView> {
    if f.downloads@.len() == 0 {
        None
    } else {
        Some((f.path@, f.downloads@[0]@, spec_hash_named(f.hashes@, "sha1"@), match f.file_size {
            Some(s) => s,
            None => 0,
        }))
    }
}

pub open spec fn spec_downloads(files: Seq<MrpackFile>) -> Seq<DownloadView>
    decreases files.len(),
{
    if files.len() == 0 {
        Seq::empty()
    } else {
        let rest = spec_downloads(files.drop_last());
        match spec_file_download(files.last()) {
            Some(d) => rest.push(d),
            None => rest,
        }
    }
}

/// What installing a modpack downloads.
#[derive(Debug)]
pub struct ModpackDownloadPlan {
    /// How many files the server installs.
    pub installable_count: usize,
    /// The bytes those files add up to, where their sizes are known.
    pub total_bytes: u64,
    /// Path, URL, SHA-1 and size of each file that has a URL.
    pub files: Vec<(String, String, Option<String>, u64)>,
}

pub open spec fn download_view(d: (String, String, Option<String>, u64)) -> DownloadView {
    (d.0@, d.1@, match d.2 {
        Some(s) => Some(s@),
        None => None,
    }, d.3)
}

fn hash_named(hashes: &Vec<(String, String)>, name: &str) -> (r: Option<String>)
    ensures
        match spec_hash_named(hashes@, name@) {
            Some(h) => r matches Some(s) && s@ == h,
            None => r is None,
        },
{
    let mut i: usize = 0;
    assert(hashes@.skip(0) =~= hashes@);
    while i < hashes.len()
        invariant
            i <= hashes@.len(),
            spec_hash_named(hashes@, name@) == spec_hash_named(hashes@.skip(i as int), name@),
        decreases hashes@.len() - i,
    {
        assert(hashes@.skip(i as int)[0] == hashes@[i as int]);
        assert(hashes@.skip(i as int).drop_first() =~= hashes@.skip(i + 1));
        if crate::text::same_text(hashes[i].0.as_str(), name) {
            return Some(hashes[i].1.clone());
        }
        i += 1;
    }
    None
}

/// The downloads of a modpack for a server: the installable files, their
/// total size, and each one's path, first URL, SHA-1 and size. `requires`
/// keeps the total within `u64`, where summing it cannot overflow.
pub fn download_plan(index: &MrpackIndex) -> (r: ModpackDownloadPlan)
    requires
        spec_total_size(spec_installable(index.files@)) <= u64::MAX,
    ensures
        r.installable_count == spec_installable(index.files@).len(),
        r.total_bytes == spec_total_size(spec_installable(index.files@)),
        r.files@.map_values(|d: (String, String, Option<String>, u64)| download_view(d)) == spec_downloads(
            spec_installable(index.files@),
        ),
{
    let ghost fs = index.files@;
    let ghost keep = |f: MrpackFile| spec_is_server_installable(f);
    let mut count: usize = 0;
    let mut total: u64 = 0;
    let mut files: Vec<(String, String, Option<String>, u64)> = Vec::new();
    let mut i: usize = 0;
    proof {
        assert(fs.subrange(0, 0).filter(keep) =~= Seq::<MrpackFile>::empty());
    }
    while i < index.files.len()
        invariant
            i <= fs.len(),
            fs == index.files@,
            keep == (|f: MrpackFile| spec_is_server_installable(f)),
            spec_total_size(fs.filter(keep)) <= u64::MAX,
            count == fs.subrange(0, i as int).filter(keep).len(),
            total == spec_total_size(fs.subrange(0, i as int).filter(keep)),
            files@.map_values(|d: (String, String, Option<String>, u64)| download_view(d)) == spec_downloads(
                fs.subrange(0, i as int).filter(keep),
            ),
        decreases fs.len() - i,
    {
        proof {
            assert(fs.subrange(0, i + 1).drop_last() =~= fs.subrange(0, i as int));
            assert(fs.subrange(0, i + 1).last() == fs[i as int]);
            reveal(Seq::filter);
            lemma_total_size_prefix(fs, keep, i + 1);
            lemma_total_size_step(fs, keep, i as int);
            if keep(fs[i as int]) {
                assert(fs.subrange(0, i + 1).filter(keep).drop_last() =~= fs.subrange(0, i as int).filter(keep));
            }
        }
        let f = &index.files[i];
        if is_server_installable(f) {
            count = count + 1;
            match f.file_size {
                Some(s) => {
                    total = total + s;
                },
                None => {},
            }
            if f.downloads.len() > 0 {
                let sha1 = hash_named(&f.hashes, "sha1");
                proof {
                    reveal_strlit("sha1");
                }
                let size = match f.file_size {
                    Some(s) => s,
                    None => 0,
                };
                let ghost before = files@;
                files.push((f.path.clone(), f.downloads[0].clone(), sha1, size));
                proof {
                    assert(files@.map_values(|d: (String, String, Option<String>, u64)| download_view(d)) =~= before.map_values(
                        |d: (String, String, Option<String>, u64)| download_view(d),
                    ).push(spec_file_download(*f)->0));
                }
            }
        }
        i += 1;
    }
    assert(fs.subrange(0, fs.len() as int) =~= fs);
    ModpackDownloadPlan { installable_count: count, total_bytes: total, files }
}

proof fn lemma_total_size_prefix(fs: Seq<MrpackFile>, keep: spec_fn(MrpackFile) -> bool, n: int)
    requires
        0 <= n <= fs.len(),
    ensures
        spec_total_size(fs.subrange(0, n).filter(keep)) <= spec_total_size(fs.filter(keep)),
    decreases fs.len() - n,
{
    if n < fs.len() {
        lemma_total_size_prefix(fs, keep, n + 1);
        lemma_total_size_step(fs, keep, n);
    } else {
        assert(fs.subrange(0, n) =~= fs);
    }
}

proof fn lemma_total_size_step(fs: Seq<MrpackFile>, keep: spec_fn(MrpackFile) -> bool, n: int)
    requires
        0 <= n < fs.len(),
    ensures
        ({
            let a = fs.subrange(0, n).filter(keep);
            let b = fs.subrange(0, n + 1).filter(keep);
            &&& keep(fs[n]) ==> b == a.push(fs[n])
            &&& !keep(fs[n]) ==> b == a
            &&& spec_total_size(b) == spec_total_size(a) + (if keep(fs[n]) {
                match fs[n].file_size {
                    Some(s) => s as nat,
                    None => 0nat,
                }
            } else {
                0nat
            })
        }),
{
    let a = fs.subrange(0, n).filter(keep);
    let b = fs.subrange(0, n + 1).filter(keep);
    assert(fs.subrange(0, n + 1).drop_last() =~= fs.subrange(0, n));
    assert(fs.subrange(0, n + 1).last() == fs[n]);
    reveal(Seq::filter);
    if keep(fs[n]) {
        assert(b == a.push(fs[n]));
        assert(b.drop_last() =~= a);
    }
}

/// The progress shared by the downloads of an installation.
#[derive(Debug)]
pub struct AggregateProgress {
    /// Bytes of the files that finished.
    pub bytes_done: u64,
    /// The most that was shown so far; what is shown never goes back.
    pub reported: u64,
    /// The bytes of all files, where known (zero otherwise).
    pub total: u64,
}

impl AggregateProgress {
    pub fn new(total: u64) -> (r: Self)
        ensures
            r.bytes_done == 0,
            r.reported == 0,
            r.total == total,
    {
        AggregateProgress { bytes_done: 0, reported: 0, total }
    }

    /// Progress within a file: shows the finished bytes plus those of the
    /// file (saturating), never less than was shown before; the total shown
    /// is the installation's where known, else the file's where known.
    pub fn report(&mut self, downloaded: u64, file_total: u64) -> (r: (u64, Option<u64>))
        ensures
            ({
                let current = if old(self).bytes_done + downloaded > u64::MAX {
                    u64::MAX as int
                } else {
                    old(self).bytes_done + downloaded
                };
                let shown = if old(self).reported > current { old(self).reported as int } else { current };
                &&& r.0 == shown
                &&& final(self).reported == shown
                &&& final(self).bytes_done == old(self).bytes_done
                &&& final(self).total == old(self).total
                &&& r.1 == if old(self).total > 0 {
                    Some(old(self).total)
                } else if file_total > 0 {
                    Some(file_total)
                } else {
                    None
                }
            }),
    {
        let current = self.bytes_done.saturating_add(downloaded);
        let shown = if self.reported > current {
            self.reported
        } else {
            current
        };
        self.reported = shown;
        let total = if self.total > 0 {
            Some(self.total)
        } else if file_total > 0 {
            Some(file_total)
        } else {
            None
        };
        (shown, total)
    }

    /// A file finished: its bytes join the finished ones (wrapping, as the
    /// shared counter does).
    pub fn file_done(&mut self, size: u64)
        ensures
            final(self).bytes_done == (old(self).bytes_done + size) % 0x1_0000_0000_0000_0000,
            final(self).reported == old(self).reported,
            final(self).total == old(self).total,
    {
        self.bytes_done = self.bytes_done.wrapping_add(size);
    }
}

/// The modpack a server was installed from, as its manifest records it.
#[derive(Debug)]
pub struct ModpackInfo {
    pub project_id: String,
    pub version_id: String,
    pub title: String,
    pub icon_url: Option<String>,
}

/// The modpack a server records: only where its project, version and title
/// are all known.
pub fn modpack_info(
    project_id: Option<String>,
    version_id: Option<String>,
    title: Option<String>,
    icon_url: Option<String>,
) -> (r: Option<ModpackInfo>)
    ensures
        (project_id is Some && version_id is Some && title is Some) <==> r is Some,
        r matches Some(m) ==> (Some(m.project_id) == project_id && Some(m.version_id) == version_id && Some(m.title)
            == title && m.icon_url == icon_url),
{
    match (project_id, version_id, title) {
        (Some(p), Some(v), Some(t)) => Some(ModpackInfo { project_id: p, version_id: v, title: t, icon_url }),
        _ => None,
    }
}

} // verus!
