//! The content files of an instance: which folder makes which kind of
//! content, which files a scan picks up and how it records them, which
//! leftovers of an install are cleaned away, and which files may receive
//! Modrinth update suggestions.
use vstd::prelude::*;
use crate::downloads::{spec_path_parts, spec_stem_and_extension};
use crate::model::{ContentProvider, ContentProviderRef, ProjectType};
use crate::text::{spec_decimal, spec_ends_with, spec_eq_ignore_ascii_case, spec_lower_seq, spec_split};

verus! {

/// The kind of content an instance folder holds, by the folder's name.
pub open spec fn spec_from_folder_name(name: Seq<char>) -> Option<ProjectType> {
    if name == "mods"@ {
        Some(ProjectType::Mod)
    } else if name == "datapacks"@ {
        Some(ProjectType::DataPack)
    } else if name == "resourcepacks"@ {
        Some(ProjectType::ResourcePack)
    } else if name == "shaderpacks"@ {
        Some(ProjectType::ShaderPack)
    } else if name == "schematics"@ {
        Some(ProjectType::Schematic)
    } else if name == "saves"@ {
        Some(ProjectType::WorldSave)
    } else {
        None
    }
}

pub fn from_folder_name(name: &Vec<char>) -> (r: Option<ProjectType>)
    ensures
        r == spec_from_folder_name(name@),
{
    if crate::text::eq_str(name, "mods") {
        Some(ProjectType::Mod)
    } else if crate::text::eq_str(name, "datapacks") {
        Some(ProjectType::DataPack)
    } else if crate::text::eq_str(name, "resourcepacks") {
        Some(ProjectType::ResourcePack)
    } else if crate::text::eq_str(name, "shaderpacks") {
        Some(ProjectType::ShaderPack)
    } else if crate::text::eq_str(name, "schematics") {
        Some(ProjectType::Schematic)
    } else if crate::text::eq_str(name, "saves") {
        Some(ProjectType::WorldSave)
    } else {
        None
    }
}

/// The kind of the innermost of some folders that names one.
pub open spec fn spec_innermost_type(dirs: Seq<Seq<char>>) -> Option<ProjectType>
    decreases dirs.len(),
{
    if dirs.len() == 0 {
        None
    } else {
        match spec_from_folder_name(dirs.last()) {
            Some(t) => Some(t),
            None => spec_innermost_type(dirs.drop_last()),
        }
    }
}

/// The kind of a content file by where it lies: the innermost folder on its
/// `/`-separated path that is a content folder.
pub open spec fn spec_project_type_from_relative_path(path: Seq<char>) -> Option<ProjectType> {
    let parts = spec_path_parts(path);
    if parts.len() == 0 {
        None
    } else {
        spec_innermost_type(parts.drop_last())
    }
}

fn path_parts(path: &Vec<char>) -> (r: Vec<Vec<char>>)
    ensures
        r@.len() == spec_path_parts(path@).len(),
        forall|k: int| 0 <= k < r@.len() ==> (#[trigger] r@[k])@ == spec_path_parts(path@)[k],
{
    let pieces = crate::text::split_chars(path, '/');
    let ghost ps = spec_split(path@, '/');
    let ghost keep = |p: Seq<char>| p.len() > 0 && p != "."@;
    let mut out: Vec<Vec<char>> = Vec::new();
    let mut i: usize = 0;
    proof {
        assert(ps.subrange(0, 0).filter(keep) =~= Seq::<Seq<char>>::empty());
    }
    while i < pieces.len()
        invariant
            i <= pieces@.len(),
            pieces@.len() == ps.len(),
            ps == spec_split(path@, '/'),
            keep == (|p: Seq<char>| p.len() > 0 && p != "."@),
            forall|k: int| 0 <= k < pieces@.len() ==> (#[trigger] pieces@[k])@ == ps[k],
            out@.len() == ps.subrange(0, i as int).filter(keep).len(),
            forall|k: int| 0 <= k < out@.len() ==> (#[trigger] out@[k])@ == ps.subrange(0, i as int).filter(keep)[k],
        decreases pieces@.len() - i,
    {
        let p = &pieces[i];
        let dot = p.len() == 1 && p[0] == '.';
        proof {
            assert(ps.subrange(0, i + 1).drop_last() =~= ps.subrange(0, i as int));
            assert(ps.subrange(0, i + 1).last() == ps[i as int]);
            reveal(Seq::filter);
            reveal_strlit(".");
            if p@.len() == 1 {
                assert(dot == (p@ =~= "."@));
            } else {
                assert(p@ != "."@);
            }
        }
        if p.len() > 0 && !dot {
            out.push(crate::text::slice_vec(p, 0, p.len()));
            proof {
                assert(p@.subrange(0, p@.len() as int) =~= p@);
            }
        }
        i += 1;
    }
    assert(ps.subrange(0, pieces@.len() as int) =~= ps);
    out
}

/// The kind of content a file is, by the folders on its relative path.
pub fn project_type_from_relative_path(relative_path: &str) -> (r: Option<ProjectType>)
    ensures
        r == spec_project_type_from_relative_path(relative_path@),
{
    let v = crate::text::chars_of(relative_path);
    let parts = path_parts(&v);
    let ghost ps = spec_path_parts(relative_path@);
    if parts.len() == 0 {
        return None;
    }
    let mut k = parts.len() - 1;
    assert(ps.drop_last().subrange(0, k as int) =~= ps.drop_last());
    while k > 0
        invariant
            k < parts@.len(),
            parts@.len() == ps.len(),
            ps == spec_path_parts(relative_path@),
            forall|q: int| 0 <= q < parts@.len() ==> (#[trigger] parts@[q])@ == ps[q],
            spec_innermost_type(ps.drop_last()) == spec_innermost_type(ps.drop_last().subrange(0, k as int)),
        decreases k,
    {
        proof {
            let sub = ps.drop_last().subrange(0, k as int);
            assert(sub.last() == ps[k - 1]);
            assert(sub.drop_last() =~= ps.drop_last().subrange(0, k - 1));
        }
        match from_folder_name(&parts[k - 1]) {
            Some(t) => {
                return Some(t);
            },
            None => {},
        }
        k -= 1;
    }
    None
}

/// `s` without every trailing `.disabled` (`trim_end_matches`).
pub open spec fn spec_trim_disabled(s: Seq<char>) -> Seq<char>
    decreases s.len(),
{
    if spec_ends_with(s, ".disabled"@) && s.len() >= 9 {
        spec_trim_disabled(s.take(s.len() - 9))
    } else {
        s
    }
}

pub fn trim_disabled(s: &Vec<char>) -> (r: Vec<char>)
    ensures
        r@ == spec_trim_disabled(s@),
{
    let suffix = crate::text::chars_of(".disabled");
    proof {
        reveal_strlit(".disabled");
    }
    let mut end = s.len();
    assert(s@.take(end as int) =~= s@);
    loop
        invariant
            end <= s.len(),
            suffix@ == ".disabled"@,
            suffix@.len() == 9,
            spec_trim_disabled(s@) == spec_trim_disabled(s@.take(end as int)),
        decreases end,
    {
        let cur = crate::text::slice_vec(s, 0, end);
        assert(cur@ =~= s@.take(end as int));
        if end >= 9 && crate::text::ends_with(&cur, &suffix) {
            assert(s@.take(end as int).take(end - 9) =~= s@.take(end - 9));
            end = end - 9;
        } else {
            return cur;
        }
    }
}

/// Whether a file in a folder of the given kind is content that a scan
/// records: by its extension (ignoring `.disabled` endings and ASCII case),
/// `jar` for mods, `zip` for data, resource and shader packs, `litematic`,
/// `schematic` or `schem` for schematics; never for world saves.
pub open spec fn spec_is_scannable_project_file(project_type: ProjectType, file_name: Seq<char>) -> bool {
    match spec_stem_and_extension(spec_trim_disabled(file_name)).1 {
        None => false,
        Some(ext) => match project_type {
            ProjectType::Mod => spec_eq_ignore_ascii_case(ext, "jar"@),
            ProjectType::DataPack | ProjectType::ResourcePack | ProjectType::ShaderPack => spec_eq_ignore_ascii_case(
                ext,
                "zip"@,
            ),
            ProjectType::Schematic => spec_eq_ignore_ascii_case(ext, "litematic"@) || spec_eq_ignore_ascii_case(
                ext,
                "schematic"@,
            ) || spec_eq_ignore_ascii_case(ext, "schem"@),
            ProjectType::WorldSave => false,
        },
    }
}

pub fn is_scannable_project_file(project_type: ProjectType, file_name: &str) -> (r: bool)
    ensures
        r == spec_is_scannable_project_file(project_type, file_name@),
{
    let v = crate::text::chars_of(file_name);
    let t = trim_disabled(&v);
    let (_, ext) = crate::downloads::stem_and_extension(&t);
    match ext {
        None => false,
        Some(e) => {
            let es = crate::text::string_from(&e);
            match project_type {
                ProjectType::Mod => crate::text::str_eq_ignore_ascii_case(es.as_str(), "jar"),
                ProjectType::DataPack | ProjectType::ResourcePack | ProjectType::ShaderPack => crate::text::str_eq_ignore_ascii_case(
                    es.as_str(),
                    "zip",
                ),
                ProjectType::Schematic => crate::text::str_eq_ignore_ascii_case(es.as_str(), "litematic")
                    || crate::text::str_eq_ignore_ascii_case(es.as_str(), "schematic")
                    || crate::text::str_eq_ignore_ascii_case(es.as_str(), "schem"),
                ProjectType::WorldSave => false,
            }
        },
    }
}

/// A content file that a scan found.
#[derive(Debug)]
pub struct ScannedContentFile {
    pub relative_path: String,
    pub file_name: String,
    pub enabled: bool,
    pub size: u64,
    pub hash_cache_key: String,
}

/// How a scan records a file: its path below the instance, whether it is
/// enabled (its name does not end in `.disabled`), and the key of its hash in
/// the cache, `SIZE-INSTANCE/PATH`.
pub fn scanned_file(relative_dir: &str, file_name: &str, size: u64, instance_path: &str) -> (r: ScannedContentFile)
    ensures
        r.relative_path@ == relative_dir@ + "/"@ + file_name@,
        r.file_name@ == file_name@,
        r.enabled == !spec_ends_with(file_name@, ".disabled"@),
        r.size == size,
        r.hash_cache_key@ == spec_decimal(size as nat) + "-"@ + instance_path@ + "/"@ + (relative_dir@ + "/"@
            + file_name@),
{
    let p1 = crate::text::concat(relative_dir, "/");
    let relative_path = crate::text::concat(p1.as_str(), file_name);
    let size_text = crate::text::decimal(size);
    let k1 = crate::text::concat(size_text.as_str(), "-");
    let k2 = crate::text::concat(k1.as_str(), instance_path);
    let k3 = crate::text::concat(k2.as_str(), "/");
    let hash_cache_key = crate::text::concat(k3.as_str(), relative_path.as_str());
    let enabled = !crate::text::str_ends_with(file_name, ".disabled");
    ScannedContentFile {
        relative_path,
        file_name: crate::text::to_owned(file_name),
        enabled,
        size,
        hash_cache_key,
    }
}

/// The folder a nested schematic folder is scanned as: `DIR/NAME`. Only
/// schematics are scanned below their top folder.
pub fn nested_scan_dir(project_type: ProjectType, relative_dir: &str, dir_name: &str) -> (r: Option<String>)
    ensures
        project_type != ProjectType::Schematic ==> r is None,
        project_type == ProjectType::Schematic ==> (r matches Some(d) && d@ == relative_dir@ + "/"@ + dir_name@),
{
    if project_type == ProjectType::Schematic {
        let p = crate::text::concat(relative_dir, "/");
        Some(crate::text::concat(p.as_str(), dir_name))
    } else {
        None
    }
}

/// A leftover of an interrupted install: a name ending in `.installing`,
/// `.installing.previous` or `.installing.download`.
pub open spec fn spec_is_install_leftover(name: Seq<char>) -> bool {
    spec_ends_with(name, ".installing"@) || spec_ends_with(name, ".installing.previous"@) || spec_ends_with(
        name,
        ".installing.download"@,
    )
}

pub fn is_install_leftover(name: &str) -> (r: bool)
    ensures
        r == spec_is_install_leftover(name@),
{
    crate::text::str_ends_with(name, ".installing") || crate::text::str_ends_with(name, ".installing.previous")
        || crate::text::str_ends_with(name, ".installing.download")
}

/// The extension a cached icon keeps: that of its archive entry where it is
/// `png`, `jpg` or `jpeg` in any ASCII case, else `png`.
pub open spec fn spec_icon_extension(entry_name: Seq<char>) -> Seq<char> {
    let ext = match crate::downloads::spec_file_name(entry_name) {
        Some(n) => match spec_stem_and_extension(n).1 {
            Some(e) => e,
            None => Seq::empty(),
        },
        None => Seq::empty(),
    };
    let lower = spec_lower_seq(ext);
    if lower == "png"@ || lower == "jpg"@ || lower == "jpeg"@ {
        ext
    } else {
        "png"@
    }
}

pub fn icon_extension(entry_name: &str) -> (r: String)
    ensures
        r@ == spec_icon_extension(entry_name@),
{
    let v = crate::text::chars_of(entry_name);
    let ext = match crate::downloads::file_name(&v) {
        Some(n) => match crate::downloads::stem_and_extension(&n).1 {
            Some(e) => e,
            None => Vec::new(),
        },
        None => Vec::new(),
    };
    let lower = crate::text::lower_vec(&ext);
    if crate::text::eq_str(&lower, "png") || crate::text::eq_str(&lower, "jpg") || crate::text::eq_str(&lower, "jpeg") {
        crate::text::string_from(&ext)
    } else {
        crate::text::to_owned("png")
    }
}

/// Whether a file may receive Modrinth update suggestions: always where it
/// came from Modrinth, never where it came from CurseForge, and otherwise
/// (untracked or local) where every provider reference it has is a Modrinth
/// one.
pub open spec fn spec_modrinth_update_enabled(origin: Option<ContentProvider>, refs: Seq<ContentProviderRef>) -> bool {
    match origin {
        Some(ContentProvider::Modrinth) => true,
        Some(ContentProvider::CurseForge) => false,
        _ => forall|i: int| 0 <= i < refs.len() ==> (#[trigger] refs[i]) is Modrinth,
    }
}

pub fn modrinth_update_enabled(origin_provider: Option<ContentProvider>, provider_refs: &Vec<ContentProviderRef>) -> (r: bool)
    ensures
        r == spec_modrinth_update_enabled(origin_provider, provider_refs@),
{
    match origin_provider {
        Some(ContentProvider::Modrinth) => true,
        Some(ContentProvider::CurseForge) => false,
        _ => {
            let mut i: usize = 0;
            while i < provider_refs.len()
                invariant
                    i <= provider_refs@.len(),
                    !(origin_provider matches Some(ContentProvider::Modrinth)),
                    !(origin_provider matches Some(ContentProvider::CurseForge)),
                    forall|k: int| 0 <= k < i ==> (#[trigger] provider_refs@[k]) is Modrinth,
                decreases provider_refs@.len() - i,
            {
                match &provider_refs[i] {
                    ContentProviderRef::Modrinth { .. } => {},
                    ContentProviderRef::CurseForge { .. } => {
                        assert(!(provider_refs@[i as int] is Modrinth));
                        return false;
                    },
                }
                i += 1;
            }
            true
        },
    }
}

/// A content file of an instance as the database records it.
#[derive(Debug)]
pub struct InstanceFile {
    pub id: String,
    pub instance_id: String,
    pub relative_path: String,
    pub file_name: String,
    pub enabled: bool,
    pub sha1: String,
    pub size: u64,
    pub missing: bool,
    /// Seconds since the Unix epoch.
    pub added_at: i64,
    /// Seconds since the Unix epoch.
    pub modified_at: i64,
    pub local_mod_data: Option<String>,
    pub icon_path: Option<String>,
}

/// A content file as plain values.
#[verifier::ext_equal]
pub struct InstanceFileView {
    pub id: Seq<char>,
    pub instance_id: Seq<char>,
    pub relative_path: Seq<char>,
    pub file_name: Seq<char>,
    pub enabled: bool,
    pub sha1: Seq<char>,
    pub size: u64,
    pub missing: bool,
    pub added_at: i64,
    pub modified_at: i64,
    pub local_mod_data: Option<Seq<char>>,
    pub icon_path: Option<Seq<char>>,
}

pub open spec fn opt_view(o: Option<String>) -> Option<Seq<char>> {
    match o {
        Some(s) => Some(s@),
        None => None,
    }
}

impl View for InstanceFile {
    type V = InstanceFileView;

    open spec fn view(&self) -> InstanceFileView {
        InstanceFileView {
            id: self.id@,
            instance_id: self.instance_id@,
            relative_path: self.relative_path@,
            file_name: self.file_name@,
            enabled: self.enabled,
            sha1: self.sha1@,
            size: self.size,
            missing: self.missing,
            added_at: self.added_at,
            modified_at: self.modified_at,
            local_mod_data: opt_view(self.local_mod_data),
            icon_path: opt_view(self.icon_path),
        }
    }
}

/// A file hash that the hash cache holds.
#[derive(Debug)]
pub struct CachedFileHash {
    pub size: u64,
    pub path: String,
    pub hash: String,
}

/// The key a cached hash is found by: `SIZE-PATH`, without `.disabled`
/// endings.
pub open spec fn spec_hash_key(h: CachedFileHash) -> Seq<char> {
    spec_decimal(h.size as nat) + "-"@ + spec_trim_disabled(h.path@)
}

/// The last of the cached hashes with a key (a later entry replaces an
/// earlier one under the same key).
pub open spec fn spec_hash_for(hashes: Seq<CachedFileHash>, key: Seq<char>) -> Option<int>
    decreases hashes.len(),
{
    if hashes.len() == 0 {
        None
    } else if spec_hash_key(hashes.last()) == key {
        Some(hashes.len() - 1)
    } else {
        spec_hash_for(hashes.drop_last(), key)
    }
}

/// The last recorded file with a relative path.
pub open spec fn spec_existing_for(existing: Seq<InstanceFile>, path: Seq<char>) -> Option<int>
    decreases existing.len(),
{
    if existing.len() == 0 {
        None
    } else if existing.last().relative_path@ == path {
        Some(existing.len() - 1)
    } else {
        spec_existing_for(existing.drop_last(), path)
    }
}

/// The record of a scanned file whose hash is cached: the id, addition time,
/// metadata and icon of its earlier record where there is one (a fresh id
/// and now otherwise), its scanned name, path, state and size, the cached
/// hash, present, modified now.
pub open spec fn spec_synced_file(
    instance_id: Seq<char>,
    f: ScannedContentFile,
    h: CachedFileHash,
    e: Option<InstanceFile>,
    now: i64,
    fresh_id: Seq<char>,
) -> InstanceFileView {
    InstanceFileView {
        id: match e {
            Some(x) => x.id@,
            None => fresh_id,
        },
        instance_id,
        relative_path: f.relative_path@,
        file_name: f.file_name@,
        enabled: f.enabled,
        sha1: h.hash@,
        size: f.size,
        missing: false,
        added_at: match e {
            Some(x) => x.added_at,
            None => now,
        },
        modified_at: now,
        local_mod_data: match e {
            Some(x) => opt_view(x.local_mod_data),
            None => None,
        },
        icon_path: match e {
            Some(x) => opt_view(x.icon_path),
            None => None,
        },
    }
}

/// The records of the scanned files whose hashes are cached, in scan order;
/// the `k`-th scanned file takes the `k`-th fresh id where it needs one.
pub open spec fn spec_synced_files(
    instance_id: Seq<char>,
    scanned: Seq<ScannedContentFile>,
    hashes: Seq<CachedFileHash>,
    existing: Seq<InstanceFile>,
    now: i64,
    fresh_ids: Seq<String>,
) -> Seq<InstanceFileView>
    decreases scanned.len(),
{
    if scanned.len() == 0 {
        Seq::empty()
    } else {
        let rest = spec_synced_files(instance_id, scanned.drop_last(), hashes, existing, now, fresh_ids);
        let f = scanned.last();
        match spec_hash_for(hashes, spec_trim_disabled(f.hash_cache_key@)) {
            Some(j) => rest.push(
                spec_synced_file(
                    instance_id,
                    f,
                    hashes[j],
                    match spec_existing_for(existing, f.relative_path@) {
                        Some(e) => Some(existing[e]),
                        None => None,
                    },
                    now,
                    fresh_ids[scanned.len() - 1]@,
                ),
            ),
            None => rest,
        }
    }
}

fn hash_key(h: &CachedFileHash) -> (r: Vec<char>)
    ensures
        r@ == spec_hash_key(*h),
{
    let size_text = crate::text::decimal(h.size);
    let p = crate::text::chars_of(h.path.as_str());
    let t = trim_disabled(&p);
    let ts = crate::text::string_from(&t);
    let k1 = crate::text::concat(size_text.as_str(), "-");
    let k = crate::text::concat(k1.as_str(), ts.as_str());
    crate::text::chars_of(k.as_str())
}

fn hash_for(hashes: &Vec<CachedFileHash>, key: &Vec<char>) -> (r: Option<usize>)
    ensures
        r matches Some(j) ==> spec_hash_for(hashes@, key@) == Some(j as int),
        r is None ==> spec_hash_for(hashes@, key@) is None,
        r matches Some(j) ==> j < hashes@.len(),
{
    let mut k = hashes.len();
    assert(hashes@.subrange(0, k as int) =~= hashes@);
    while k > 0
        invariant
            k <= hashes@.len(),
            spec_hash_for(hashes@, key@) == spec_hash_for(hashes@.subrange(0, k as int), key@),
        decreases k,
    {
        let hk = hash_key(&hashes[k - 1]);
        proof {
            assert(hashes@.subrange(0, k as int).last() == hashes@[k - 1]);
            assert(hashes@.subrange(0, k as int).drop_last() =~= hashes@.subrange(0, k - 1));
        }
        if crate::text::chars_eq(&hk, key) {
            return Some(k - 1);
        }
        k -= 1;
    }
    None
}

fn existing_for(existing: &Vec<InstanceFile>, path: &String) -> (r: Option<usize>)
    ensures
        r matches Some(j) ==> spec_existing_for(existing@, path@) == Some(j as int),
        r is None ==> spec_existing_for(existing@, path@) is None,
        r matches Some(j) ==> j < existing@.len(),
{
    let mut k = existing.len();
    assert(existing@.subrange(0, k as int) =~= existing@);
    while k > 0
        invariant
            k <= existing@.len(),
            spec_existing_for(existing@, path@) == spec_existing_for(existing@.subrange(0, k as int), path@),
        decreases k,
    {
        proof {
            assert(existing@.subrange(0, k as int).last() == existing@[k - 1]);
            assert(existing@.subrange(0, k as int).drop_last() =~= existing@.subrange(0, k - 1));
        }
        if existing[k - 1].relative_path == *path {
            return Some(k - 1);
        }
        k -= 1;
    }
    None
}

fn copy_opt(o: &Option<String>) -> (r: Option<String>)
    ensures
        opt_view(r) == opt_view(*o),
{
    match o {
        Some(s) => Some(s.clone()),
        None => None,
    }
}

/// The records of a scan: every scanned file whose hash is cached, matched
/// with its earlier record by relative path.
pub fn sync_scanned_files(
    instance_id: &str,
    scanned: &Vec<ScannedContentFile>,
    hashes: &Vec<CachedFileHash>,
    existing: &Vec<InstanceFile>,
    now: i64,
    fresh_ids: &Vec<String>,
) -> (r: Vec<InstanceFile>)
    requires
        fresh_ids@.len() >= scanned@.len(),
    ensures
        r@.map_values(|f: InstanceFile| f@) == spec_synced_files(instance_id@, scanned@, hashes@, existing@, now, fresh_ids@),
{
    let mut out: Vec<InstanceFile> = Vec::new();
    let mut i: usize = 0;
    while i < scanned.len()
        invariant
            i <= scanned@.len(),
            fresh_ids@.len() >= scanned@.len(),
            out@.map_values(|f: InstanceFile| f@) == spec_synced_files(
                instance_id@,
                scanned@.subrange(0, i as int),
                hashes@,
                existing@,
                now,
                fresh_ids@,
            ),
        decreases scanned@.len() - i,
    {
        let f = &scanned[i];
        proof {
            assert(scanned@.subrange(0, i + 1).drop_last() =~= scanned@.subrange(0, i as int));
            assert(scanned@.subrange(0, i + 1).last() == scanned@[i as int]);
        }
        let kv = crate::text::chars_of(f.hash_cache_key.as_str());
        let key = trim_disabled(&kv);
        match hash_for(hashes, &key) {
            Some(j) => {
                let h = &hashes[j];
                let e = existing_for(existing, &f.relative_path);
                let file = match e {
                    Some(x) => {
                        let old = &existing[x];
                        let nf = InstanceFile {
                            id: old.id.clone(),
                            instance_id: crate::text::to_owned(instance_id),
                            relative_path: f.relative_path.clone(),
                            file_name: f.file_name.clone(),
                            enabled: f.enabled,
                            sha1: h.hash.clone(),
                            size: f.size,
                            missing: false,
                            added_at: old.added_at,
                            modified_at: now,
                            local_mod_data: copy_opt(&old.local_mod_data),
                            icon_path: copy_opt(&old.icon_path),
                        };
                        assert(nf@ =~= spec_synced_file(instance_id@, *f, *h, Some(existing@[x as int]), now, fresh_ids@[i as int]@));
                        nf
                    },
                    None => {
                        let nf = InstanceFile {
                        id: fresh_ids[i].clone(),
                        instance_id: crate::text::to_owned(instance_id),
                        relative_path: f.relative_path.clone(),
                        file_name: f.file_name.clone(),
                        enabled: f.enabled,
                        sha1: h.hash.clone(),
                        size: f.size,
                        missing: false,
                        added_at: now,
                        modified_at: now,
                        local_mod_data: None,
                        icon_path: None,
                        };
                        assert(nf@ =~= spec_synced_file(instance_id@, *f, *h, None, now, fresh_ids@[i as int]@));
                        nf
                    },
                };
                let ghost before = out@;
                proof {
                    let ev = match spec_existing_for(existing@, f.relative_path@) {
                        Some(x) => Some(existing@[x]),
                        None => None,
                    };
                    assert(file@ =~= spec_synced_file(instance_id@, *f, *h, ev, now, fresh_ids@[i as int]@));
                }
                out.push(file);
                proof {
                    assert(out@.map_values(|f: InstanceFile| f@) =~= before.map_values(|f: InstanceFile| f@).push(file@));
                }
            },
            None => {},
        }
        i += 1;
    }
    assert(scanned@.subrange(0, scanned@.len() as int) =~= scanned@);
    out
}

/// What a sync still extracts from a file: mod metadata for a mod without
/// any, and an icon for a mod or resource pack that was never looked at.
pub fn extraction_needed(project_type: ProjectType, has_metadata: bool, has_icon_path: bool) -> (r: (bool, bool))
    ensures
        r.0 == (project_type == ProjectType::Mod && !has_metadata),
        r.1 == (!has_icon_path && (project_type == ProjectType::Mod || project_type == ProjectType::ResourcePack)),
{
    let metadata = project_type == ProjectType::Mod && !has_metadata;
    let icon = !has_icon_path && (project_type == ProjectType::Mod || project_type == ProjectType::ResourcePack);
    (metadata, icon)
}

} // verus!
