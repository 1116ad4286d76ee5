//! Deciding what kind of Minecraft content a dropped or imported file or
//! folder is, from what the file system reports about it.
use vstd::prelude::*;
use crate::import::ImportLauncherType;
use crate::text::{spec_eq_ignore_ascii_case, spec_lower_seq, spec_replace_char, spec_split};

verus! {

/// Most distinct top-level entries of a ZIP that is still read as a single
/// item rather than a loose collection.
pub const ZIP_TOP_LEVEL_LIMIT: usize = 200;

/// Most shortcut hops followed before the target is classified as it is.
pub const MAX_SHORTCUT_HOPS: u32 = 8;

/// What a dropped path is.
#[derive(Debug)]
pub enum DroppedItemType {
    /// A recognised third-party launcher root folder.
    Launcher { launcher_type: ImportLauncherType, base_path: String },
    /// HMCL with separate launcher and data directories.
    HmclLauncher { launcher_dir: String, data_dir: String },
    Mod { file_path: String },
    /// A `.litematic` or `.schematic` file.
    Litematic { file_path: String },
    ResourcePack { file_path: String },
    ShaderPack { file_path: String },
    WorldSave { file_path: String },
    /// A shortcut that was followed to another item.
    ShortcutResolved { original: String, resolved_to: Box<DroppedItemType> },
    /// A modpack archive.
    Modpack { file_path: String },
    Unknown { reason: String },
}

pub enum DropView {
    Launcher(ImportLauncherType, Seq<char>),
    HmclLauncher(Seq<char>, Seq<char>),
    Mod(Seq<char>),
    Litematic(Seq<char>),
    ResourcePack(Seq<char>),
    ShaderPack(Seq<char>),
    WorldSave(Seq<char>),
    ShortcutResolved(Seq<char>, Box<DropView>),
    Modpack(Seq<char>),
    Unknown(Seq<char>),
}

pub open spec fn drop_view(d: DroppedItemType) -> DropView
    decreases d,
{
    match d {
        DroppedItemType::Launcher { launcher_type, base_path } => DropView::Launcher(launcher_type, base_path@),
        DroppedItemType::HmclLauncher { launcher_dir, data_dir } => DropView::HmclLauncher(launcher_dir@, data_dir@),
        DroppedItemType::Mod { file_path } => DropView::Mod(file_path@),
        DroppedItemType::Litematic { file_path } => DropView::Litematic(file_path@),
        DroppedItemType::ResourcePack { file_path } => DropView::ResourcePack(file_path@),
        DroppedItemType::ShaderPack { file_path } => DropView::ShaderPack(file_path@),
        DroppedItemType::WorldSave { file_path } => DropView::WorldSave(file_path@),
        DroppedItemType::ShortcutResolved { original, resolved_to } => DropView::ShortcutResolved(
            original@,
            Box::new(drop_view(*resolved_to)),
        ),
        DroppedItemType::Modpack { file_path } => DropView::Modpack(file_path@),
        DroppedItemType::Unknown { reason } => DropView::Unknown(reason@),
    }
}

/// The archive formats that pack detection reports.
#[derive(Clone, Copy, Debug, PartialEq, Eq, Structural)]
pub enum LocalPackFormat {
    Mrpack,
    CurseForge,
    Mcbbs,
    Hmcl,
    MmcExport,
    LauncherBundled,
    PlainArchive,
    InstanceFolder,
}

/// Why a ZIP could not be listed.
#[derive(Clone, Copy, Debug, PartialEq, Eq, Structural)]
pub enum ZipOpenError {
    CannotOpen,
    NotZip,
}

/// A distinct top-level entry of a ZIP: a root file, or a folder holding
/// files.
#[derive(Debug)]
pub enum ZipEntryKind {
    RootFile(String),
    SubFile(String),
}

impl ZipEntryKind {
    pub open spec fn spec_name(&self) -> Seq<char> {
        match self {
            ZipEntryKind::RootFile(n) => n@,
            ZipEntryKind::SubFile(n) => n@,
        }
    }

    pub fn name(&self) -> (r: &String)
        ensures
            r@ == self.spec_name(),
    {
        match self {
            ZipEntryKind::RootFile(n) => n,
            ZipEntryKind::SubFile(n) => n,
        }
    }
}

/// A ZIP's top-level layout and content markers, from entry names alone.
#[derive(Debug)]
pub struct ZipListing {
    pub top_level: Vec<ZipEntryKind>,
    pub probe_has_level_dat: bool,
    pub probe_has_pack_mcmeta: bool,
    pub probe_has_shaders_dir: bool,
    pub too_many: bool,
}

/// What the file system reports about a dropped path.
#[derive(Debug)]
pub struct DropFacts {
    /// The path as displayed.
    pub path: String,
    pub exists: bool,
    /// The target of a shortcut at this path, when it resolves elsewhere.
    pub shortcut: Option<Box<DropFacts>>,
    /// The last component of the path.
    pub file_name: Option<String>,
    /// The folder holding the path.
    pub parent: Option<String>,
    pub is_dir: bool,
    /// The modpack format detected in the archive, when detection succeeds.
    pub pack_format: Option<LocalPackFormat>,
    /// The ZIP's entry names.
    pub zip_entries: Result<Vec<String>, ZipOpenError>,
    /// The parent folder holds a Plain Craft Launcher executable.
    pub parent_has_pcl: bool,
    /// A PCL Community Edition configuration exists.
    pub pcl_config_exists: bool,
    /// The parent folder holds a Hello Minecraft! Launcher executable.
    pub parent_has_hmcl: bool,
    /// The main class of the JAR's manifest.
    pub jar_main_class: Option<String>,
    /// HMCL's data folder next to the JAR.
    pub jar_hmcl_data_dir: Option<String>,
    pub has_multimc_cfg: bool,
    pub has_prismlauncher_cfg: bool,
    /// Some `instances/<sub>/instance.cfg` exists.
    pub has_instance_cfg: bool,
    /// `.hmcl/config/launcher-settings.json` exists.
    pub has_hmcl_portable_config: bool,
    /// HMCL's data folder for this folder.
    pub hmcl_data_dir: Option<String>,
    pub has_level_dat: bool,
    pub has_pack_mcmeta: bool,
    pub has_shaders_dir: bool,
    /// Some `versions/<id>/<id>.json` exists.
    pub has_version_json: bool,
    pub has_root_jar: bool,
    pub has_root_json: bool,
    pub has_mods_jar: bool,
}

/// The extension of a file name, as `Path::extension` reads it: the text
/// after the last `.`, unless that dot starts the name.
pub open spec fn spec_extension(name: Seq<char>) -> Option<Seq<char>> {
    if exists|i: int| 0 < i < name.len() && name[i] == '.' {
        let i = choose|i: int| 0 < i < name.len() && name[i] == '.' && forall|k: int| i < k < name.len() ==> name[k] != '.';
        Some(name.subrange(i + 1, name.len() as int))
    } else {
        None
    }
}

/// The file name without its extension (`Path::file_stem`).
pub open spec fn spec_stem(name: Seq<char>) -> Seq<char> {
    if exists|i: int| 0 < i < name.len() && name[i] == '.' {
        let i = choose|i: int| 0 < i < name.len() && name[i] == '.' && forall|k: int| i < k < name.len() ==> name[k] != '.';
        name.subrange(0, i)
    } else {
        name
    }
}

/// Position of the last `.` after the first character.
fn last_dot(v: &Vec<char>) -> (r: Option<usize>)
    ensures
        r matches Some(i) ==> 0 < i < v@.len() && v@[i as int] == '.' && forall|k: int| i < k < v@.len() ==> v@[k] != '.',
        r is None ==> !exists|i: int| 0 < i < v@.len() && v@[i] == '.',
{
    let mut i = v.len();
    while i > 1
        invariant
            i <= v.len(),
            forall|k: int| i <= k < v@.len() ==> v@[k] != '.',
        decreases i,
    {
        if v[i - 1] == '.' {
            return Some(i - 1);
        }
        i -= 1;
    }
    proof {
        if exists|j: int| 0 < j < v@.len() && v@[j] == '.' {
            let j = choose|j: int| 0 < j < v@.len() && v@[j] == '.';
            assert(j >= i);
        }
    }
    None
}

proof fn lemma_last_dot(name: Seq<char>, i: int)
    requires
        0 < i < name.len(),
        name[i] == '.',
        forall|k: int| i < k < name.len() ==> name[k] != '.',
    ensures
        spec_extension(name) == Some(name.subrange(i + 1, name.len() as int)),
        spec_stem(name) == name.subrange(0, i),
{
    let c = choose|c: int| 0 < c < name.len() && name[c] == '.' && forall|k: int| c < k < name.len() ==> name[k] != '.';
    if c < i {
        assert(name[i] != '.');
    } else if c > i {
        assert(name[c] != '.');
    }
}

pub fn extension_of(name: &str) -> (r: Option<String>)
    ensures
        match r {
            Some(e) => spec_extension(name@) == Some(e@),
            None => spec_extension(name@) is None,
        },
{
    let v = crate::text::chars_of(name);
    match last_dot(&v) {
        Some(i) => {
            proof {
                lemma_last_dot(name@, i as int);
            }
            Some(crate::text::string_from_range(&v, i + 1, v.len()))
        },
        None => None,
    }
}

pub fn stem_of(name: &str) -> (r: String)
    ensures
        r@ == spec_stem(name@),
{
    let v = crate::text::chars_of(name);
    match last_dot(&v) {
        Some(i) => {
            proof {
                lemma_last_dot(name@, i as int);
            }
            crate::text::string_from_range(&v, 0, i)
        },
        None => crate::text::to_owned(name),
    }
}

pub open spec fn ext_is(facts: DropFacts, e: Seq<char>) -> bool {
    facts.file_name matches Some(n) && (spec_extension(n@) matches Some(x) && spec_eq_ignore_ascii_case(x, e))
}

fn ext_of_facts(facts: &DropFacts) -> (r: Option<String>)
    ensures
        match r {
            Some(e) => facts.file_name matches Some(n) && spec_extension(n@) == Some(e@),
            None => !(facts.file_name matches Some(n) && spec_extension(n@) is Some),
        },
{
    match &facts.file_name {
        Some(n) => extension_of(n.as_str()),
        None => None,
    }
}

fn ext_is_exec(facts: &DropFacts, e: &str) -> (r: bool)
    ensures
        r == ext_is(*facts, e@),
{
    match ext_of_facts(facts) {
        Some(x) => crate::text::str_eq_ignore_ascii_case(x.as_str(), e),
        None => false,
    }
}

/// The archive is a ZIP or a Modrinth pack.
pub open spec fn is_zip_path(facts: DropFacts) -> bool {
    ext_is(facts, "zip"@) || ext_is(facts, "mrpack"@)
}

/// The name the last component of a path was read under, after its last
/// `/` (used for entries of a ZIP).
pub open spec fn last_segment(s: Seq<char>) -> Seq<char> {
    spec_split(s, '/').last()
}

/// The component before the first `/`.
pub open spec fn first_segment(s: Seq<char>) -> Seq<char> {
    spec_split(s, '/')[0]
}

pub open spec fn has_slash(s: Seq<char>) -> bool {
    exists|i: int| 0 <= i < s.len() && s[i] == '/'
}

/// A listing entry: skipped when empty or a directory.
pub open spec fn listed(name: Seq<char>) -> bool {
    name.len() > 0 && name.last() != '/'
}

pub struct ListingView {
    pub top: Seq<(bool, Seq<char>)>,
    pub level_dat: bool,
    pub pack_mcmeta: bool,
    pub shaders: bool,
    pub too_many: bool,
}

/// The listing of the first entries of a ZIP: markers are noted at any depth,
/// and each new top-level name is recorded (with whether it is a folder)
/// until the limit is reached.
pub open spec fn spec_listing(names: Seq<Seq<char>>) -> ListingView
    decreases names.len(),
{
    if names.len() == 0 {
        ListingView { top: Seq::empty(), level_dat: false, pack_mcmeta: false, shaders: false, too_many: false }
    } else {
        let prev = spec_listing(names.drop_last());
        let name = names.last();
        if !listed(name) {
            prev
        } else {
            let file = last_segment(name);
            let top = first_segment(name);
            let flags = ListingView {
                top: prev.top,
                level_dat: prev.level_dat || file == "level.dat"@,
                pack_mcmeta: prev.pack_mcmeta || file == "pack.mcmeta"@,
                shaders: prev.shaders || spec_split(name, '/').contains("shaders"@),
                too_many: prev.too_many,
            };
            if exists|k: int| 0 <= k < prev.top.len() && (#[trigger] prev.top[k]).1 == top {
                flags
            } else if prev.top.len() >= ZIP_TOP_LEVEL_LIMIT {
                ListingView { too_many: true, ..flags }
            } else {
                ListingView { top: prev.top.push((has_slash(name), top)), ..flags }
            }
        }
    }
}

pub open spec fn listing_view(l: ZipListing) -> ListingView {
    ListingView {
        top: l.top_level@.map_values(|e: ZipEntryKind| (e is SubFile, e.spec_name())),
        level_dat: l.probe_has_level_dat,
        pack_mcmeta: l.probe_has_pack_mcmeta,
        shaders: l.probe_has_shaders_dir,
        too_many: l.too_many,
    }
}

fn contains_piece(pieces: &Vec<Vec<char>>, s: &str) -> (r: bool)
    ensures
        r == pieces@.map_values(|p: Vec<char>| p@).contains(s@),
{
    let ghost pv = pieces@.map_values(|p: Vec<char>| p@);
    let mut i: usize = 0;
    while i < pieces.len()
        invariant
            i <= pieces.len(),
            pv == pieces@.map_values(|p: Vec<char>| p@),
            forall|k: int| 0 <= k < i ==> pv[k] != s@,
        decreases pieces.len() - i,
    {
        if crate::text::eq_str(&pieces[i], s) {
            assert(pv[i as int] == s@);
            return true;
        }
        i += 1;
    }
    false
}

/// Lists a ZIP from its entry names.
pub fn zip_listing_from_names(names: &Vec<String>) -> (r: ZipListing)
    ensures
        listing_view(r) == spec_listing(names@.map_values(|s: String| s@)),
{
    let ghost nv = names@.map_values(|s: String| s@);
    let mut listing = ZipListing {
        top_level: Vec::new(),
        probe_has_level_dat: false,
        probe_has_pack_mcmeta: false,
        probe_has_shaders_dir: false,
        too_many: false,
    };
    let mut i: usize = 0;
    assert(nv.subrange(0, 0) =~= Seq::<Seq<char>>::empty());
    assert(listing_view(listing).top =~= Seq::<(bool, Seq<char>)>::empty());
    while i < names.len()
        invariant
            i <= names.len(),
            nv == names@.map_values(|s: String| s@),
            listing_view(listing) == spec_listing(nv.subrange(0, i as int)),
        decreases names.len() - i,
    {
        let ghost prev = listing_view(listing);
        assert(nv.subrange(0, i + 1).drop_last() =~= nv.subrange(0, i as int));
        assert(nv.subrange(0, i + 1).last() == names@[i as int]@);
        let name = crate::text::chars_of(names[i].as_str());
        if name.len() == 0 || name[name.len() - 1] == '/' {
            i += 1;
            continue;
        }
        let pieces = crate::text::split_chars(&name, '/');
        let ghost sp = spec_split(name@, '/');
        proof {
            crate::text::lemma_split_nonempty(name@, '/');
            assert(pieces@.map_values(|p: Vec<char>| p@) =~= sp);
        }
        let file = &pieces[pieces.len() - 1];
        if crate::text::eq_str(file, "level.dat") {
            listing.probe_has_level_dat = true;
        }
        if crate::text::eq_str(file, "pack.mcmeta") {
            listing.probe_has_pack_mcmeta = true;
        }
        if contains_piece(&pieces, "shaders") {
            listing.probe_has_shaders_dir = true;
        }
        let top = crate::text::string_from(&pieces[0]);
        let mut seen = false;
        let mut k: usize = 0;
        while k < listing.top_level.len()
            invariant
                k <= listing.top_level.len(),
                listing_view(listing).top == prev.top,
                seen == exists|x: int| 0 <= x < k && (#[trigger] prev.top[x]).1 == top@,
            decreases listing.top_level.len() - k,
        {
            assert(prev.top[k as int].1 == listing.top_level@[k as int].spec_name());
            if *listing.top_level[k].name() == top {
                seen = true;
            }
            k += 1;
        }
        if seen {
            i += 1;
            continue;
        }
        if listing.top_level.len() >= ZIP_TOP_LEVEL_LIMIT {
            listing.too_many = true;
            i += 1;
            continue;
        }
        let mut slash = false;
        let mut c: usize = 0;
        while c < name.len()
            invariant
                c <= name.len(),
                slash == exists|x: int| 0 <= x < c && name@[x] == '/',
            decreases name.len() - c,
        {
            if name[c] == '/' {
                slash = true;
            }
            c += 1;
        }
        let entry = if slash {
            ZipEntryKind::SubFile(top)
        } else {
            ZipEntryKind::RootFile(top)
        };
        let ghost ev = (entry is SubFile, entry.spec_name());
        let ghost before = listing.top_level@;
        listing.top_level.push(entry);
        assert(listing.top_level@.map_values(|e: ZipEntryKind| (e is SubFile, e.spec_name())) =~= before.map_values(
            |e: ZipEntryKind| (e is SubFile, e.spec_name()),
        ).push(ev));
        i += 1;
    }
    assert(nv.subrange(0, nv.len() as int) =~= nv);
    listing
}


pub open spec fn unknown(reason: Seq<char>) -> DropView {
    DropView::Unknown(reason)
}

/// The decision on a listed ZIP: content markers first, then the limits,
/// else the archive needs extracting.
pub open spec fn spec_classify_zip_listing(l: ListingView, path: Seq<char>) -> DropView {
    if l.level_dat {
        DropView::WorldSave(path)
    } else if l.pack_mcmeta {
        DropView::ResourcePack(path)
    } else if l.shaders {
        DropView::ShaderPack(path)
    } else if l.too_many {
        unknown("ZIP archive has too many top-level entries"@)
    } else if l.top.len() == 0 {
        unknown("Empty zip file"@)
    } else {
        unknown("ZIP archive requires extraction to determine content type"@)
    }
}

/// Some listed entry of `names` is a file named `file`, at any depth.
pub open spec fn lists_file(names: Seq<Seq<char>>, file: Seq<char>) -> bool {
    exists|i: int| 0 <= i < names.len() && listed(#[trigger] names[i]) && last_segment(names[i]) == file
}

/// Some listed entry of `names` has a path segment `seg`.
pub open spec fn lists_segment(names: Seq<Seq<char>>, seg: Seq<char>) -> bool {
    exists|i: int| 0 <= i < names.len() && listed(#[trigger] names[i]) && spec_split(names[i], '/').contains(seg)
}

proof fn lemma_listing_markers(names: Seq<Seq<char>>)
    ensures
        spec_listing(names).level_dat == lists_file(names, "level.dat"@),
        spec_listing(names).pack_mcmeta == lists_file(names, "pack.mcmeta"@),
        spec_listing(names).shaders == lists_segment(names, "shaders"@),
    decreases names.len(),
{
    if names.len() > 0 {
        let d = names.drop_last();
        lemma_listing_markers(d);
        let n = names.last();
        assert(names[names.len() - 1] == n);
        assert forall|f: Seq<char>| lists_file(names, f) == (lists_file(d, f) || (listed(n) && last_segment(n) == f)) by {
            if lists_file(d, f) {
                let i = choose|i: int| 0 <= i < d.len() && listed(#[trigger] d[i]) && last_segment(d[i]) == f;
                assert(names[i] == d[i]);
            }
            if lists_file(names, f) {
                let i = choose|i: int| 0 <= i < names.len() && listed(#[trigger] names[i]) && last_segment(names[i]) == f;
                if i < d.len() {
                    assert(names[i] == d[i]);
                }
            }
        }
        assert(lists_segment(names, "shaders"@) == (lists_segment(d, "shaders"@) || (listed(n) && spec_split(
            n,
            '/',
        ).contains("shaders"@)))) by {
            if lists_segment(d, "shaders"@) {
                let i = choose|i: int|
                    0 <= i < d.len() && listed(#[trigger] d[i]) && spec_split(d[i], '/').contains("shaders"@);
                assert(names[i] == d[i]);
            }
            if lists_segment(names, "shaders"@) {
                let i = choose|i: int|
                    0 <= i < names.len() && listed(#[trigger] names[i]) && spec_split(names[i], '/').contains(
                        "shaders"@,
                    );
                if i < d.len() {
                    assert(names[i] == d[i]);
                }
            }
        }
    }
}

/// How a ZIP is read from its entries: a listed `level.dat` makes a world
/// save; else a listed `pack.mcmeta` a resource pack; else a `shaders`
/// folder a shader pack; and each of these kinds comes only from its marker.
pub proof fn zip_kinds_follow_their_markers(names: Seq<Seq<char>>, path: Seq<char>)
    ensures
        ({
            let v = spec_classify_zip_listing(spec_listing(names), path);
            &&& lists_file(names, "level.dat"@) ==> v == DropView::WorldSave(path)
            &&& !lists_file(names, "level.dat"@) && lists_file(names, "pack.mcmeta"@) ==> v == DropView::ResourcePack(path)
            &&& !lists_file(names, "level.dat"@) && !lists_file(names, "pack.mcmeta"@) && lists_segment(
                names,
                "shaders"@,
            ) ==> v == DropView::ShaderPack(path)
            &&& v is WorldSave ==> lists_file(names, "level.dat"@)
            &&& v is ResourcePack ==> lists_file(names, "pack.mcmeta"@)
            &&& v is ShaderPack ==> lists_segment(names, "shaders"@)
        }),
{
    lemma_listing_markers(names);
}

/// The same for a dropped ZIP that is no modpack: its kind follows the
/// markers among its entries.
pub proof fn dropped_zip_kinds_follow_their_markers(f: DropFacts)
    requires
        !is_modpack_format(f.pack_format),
        f.zip_entries is Ok,
    ensures
        ({
            let names = (f.zip_entries->Ok_0)@.map_values(|s: String| s@);
            let v = spec_classify_zip_path(f);
            &&& lists_file(names, "level.dat"@) ==> v == DropView::WorldSave(f.path@)
            &&& !lists_file(names, "level.dat"@) && lists_file(names, "pack.mcmeta"@) ==> v == DropView::ResourcePack(
                f.path@,
            )
            &&& !lists_file(names, "level.dat"@) && !lists_file(names, "pack.mcmeta"@) && lists_segment(
                names,
                "shaders"@,
            ) ==> v == DropView::ShaderPack(f.path@)
            &&& v is ResourcePack ==> lists_file(names, "pack.mcmeta"@)
            &&& v is ShaderPack ==> lists_segment(names, "shaders"@)
        }),
{
    let names = (f.zip_entries->Ok_0)@.map_values(|s: String| s@);
    zip_kinds_follow_their_markers(names, f.path@);
}

/// A dropped ZIP that exists and is no shortcut is classified by its
/// contents, so the markers decide its kind as above.
pub proof fn dropped_zip_is_read_by_its_entries(f: DropFacts, depth: nat)
    requires
        f.exists,
        f.shortcut is None,
        is_zip_path(f),
    ensures
        spec_classify(f, depth) == spec_classify_zip_path(f),
{
}

pub open spec fn is_modpack_format(f: Option<LocalPackFormat>) -> bool {
    match f {
        Some(LocalPackFormat::PlainArchive) | Some(LocalPackFormat::InstanceFolder) | None => false,
        _ => true,
    }
}

pub open spec fn spec_classify_zip_path(f: DropFacts) -> DropView {
    if is_modpack_format(f.pack_format) {
        DropView::Modpack(f.path@)
    } else {
        match f.zip_entries {
            Err(ZipOpenError::CannotOpen) => unknown("Cannot open ZIP file"@),
            Err(ZipOpenError::NotZip) => unknown("File is not a valid ZIP archive"@),
            Ok(names) => spec_classify_zip_listing(spec_listing(names@.map_values(|s: String| s@)), f.path@),
        }
    }
}

pub open spec fn spec_classify_exe(f: DropFacts) -> DropView {
    match f.parent {
        Some(p) => if f.parent_has_pcl {
            DropView::Launcher(
                if f.pcl_config_exists {
                    ImportLauncherType::PCL2CE
                } else {
                    ImportLauncherType::PCL2
                },
                p@,
            )
        } else if f.parent_has_hmcl {
            DropView::Launcher(ImportLauncherType::HMCL, p@)
        } else {
            unknown("Unrecognised executable: "@ + f.path@)
        },
        None => unknown("Unrecognised executable: "@ + f.path@),
    }
}

pub open spec fn spec_classify_jar(f: DropFacts) -> DropView {
    if f.jar_main_class matches Some(m) && m@ == "org.jackhuang.hmcl.Main"@ {
        match (f.parent, f.jar_hmcl_data_dir) {
            (Some(p), Some(d)) => DropView::HmclLauncher(p@, d@),
            (Some(p), None) => DropView::Launcher(ImportLauncherType::HMCL, p@),
            _ => DropView::Launcher(ImportLauncherType::HMCL, Seq::empty()),
        }
    } else {
        DropView::Mod(f.path@)
    }
}

pub open spec fn spec_classify_file(f: DropFacts) -> DropView {
    if f.file_name matches Some(n) && (spec_extension(n@) matches Some(e) && (spec_lower_seq(e)
        == "litematic"@ || spec_lower_seq(e) == "schematic"@)) {
        DropView::Litematic(f.path@)
    } else {
        unknown("Unrecognised file type: "@ + f.path@)
    }
}

/// A `.disabled` file is read as what it would be without that suffix.
pub open spec fn spec_classify_disabled(f: DropFacts) -> DropView {
    match f.file_name {
        None => spec_classify_file(f),
        Some(n) => {
            let underlying = spec_split(spec_stem(n@), '.').last();
            if spec_eq_ignore_ascii_case(underlying, "jar"@) {
                spec_classify_jar(f)
            } else if spec_eq_ignore_ascii_case(underlying, "zip"@) || spec_eq_ignore_ascii_case(
                underlying,
                "mrpack"@,
            ) {
                spec_classify_zip_path(f)
            } else {
                spec_classify_file(f)
            }
        },
    }
}

pub open spec fn spec_classify_folder_content(f: DropFacts) -> DropView {
    if f.has_level_dat {
        DropView::WorldSave(f.path@)
    } else if f.has_pack_mcmeta {
        DropView::ResourcePack(f.path@)
    } else if f.has_shaders_dir {
        DropView::ShaderPack(f.path@)
    } else if f.has_version_json || (f.has_root_jar && f.has_root_json) || f.has_mods_jar {
        DropView::Launcher(ImportLauncherType::Generic, f.path@)
    } else {
        unknown(
            "Unrecognised content: "@ + match f.file_name {
                Some(n) => n@,
                None => f.path@,
            },
        )
    }
}

pub open spec fn spec_classify_folder(f: DropFacts) -> DropView {
    if f.has_multimc_cfg {
        DropView::Launcher(ImportLauncherType::MultiMC, f.path@)
    } else if f.has_prismlauncher_cfg {
        DropView::Launcher(ImportLauncherType::PrismLauncher, f.path@)
    } else if f.has_instance_cfg {
        DropView::Launcher(ImportLauncherType::MultiMC, f.path@)
    } else if f.has_hmcl_portable_config && f.hmcl_data_dir is Some {
        DropView::HmclLauncher(f.path@, f.hmcl_data_dir->0@)
    } else {
        spec_classify_folder_content(f)
    }
}

/// The classification of a dropped path, following at most
/// `MAX_SHORTCUT_HOPS` shortcuts; the priority is existence, shortcuts,
/// archives, executables, disabled files, JARs, folders, then other files.
pub open spec fn spec_classify(f: DropFacts, depth: nat) -> DropView
    decreases f,
{
    if !f.exists {
        unknown("Path does not exist"@)
    } else if f.shortcut is Some && depth < MAX_SHORTCUT_HOPS {
        DropView::ShortcutResolved(f.path@, Box::new(spec_classify(*f.shortcut->0, depth + 1)))
    } else if is_zip_path(f) {
        spec_classify_zip_path(f)
    } else if ext_is(f, "exe"@) {
        spec_classify_exe(f)
    } else if ext_is(f, "disabled"@) {
        spec_classify_disabled(f)
    } else if ext_is(f, "jar"@) {
        spec_classify_jar(f)
    } else if f.is_dir {
        spec_classify_folder(f)
    } else {
        spec_classify_file(f)
    }
}

fn unknown_exec(reason: &str) -> (r: DroppedItemType)
    ensures
        drop_view(r) == unknown(reason@),
{
    DroppedItemType::Unknown { reason: crate::text::to_owned(reason) }
}

pub fn classify_zip_listing(listing: &ZipListing, path: &String) -> (r: DroppedItemType)
    ensures
        drop_view(r) == spec_classify_zip_listing(listing_view(*listing), path@),
{
    if listing.probe_has_level_dat {
        return DroppedItemType::WorldSave { file_path: path.clone() };
    }
    if listing.probe_has_pack_mcmeta {
        return DroppedItemType::ResourcePack { file_path: path.clone() };
    }
    if listing.probe_has_shaders_dir {
        return DroppedItemType::ShaderPack { file_path: path.clone() };
    }
    if listing.too_many {
        return unknown_exec("ZIP archive has too many top-level entries");
    }
    if listing.top_level.len() == 0 {
        return unknown_exec("Empty zip file");
    }
    unknown_exec("ZIP archive requires extraction to determine content type")
}

fn classify_zip_path(f: &DropFacts) -> (r: DroppedItemType)
    ensures
        drop_view(r) == spec_classify_zip_path(*f),
{
    let modpack = match f.pack_format {
        Some(LocalPackFormat::PlainArchive) | Some(LocalPackFormat::InstanceFolder) | None => false,
        _ => true,
    };
    if modpack {
        return DroppedItemType::Modpack { file_path: f.path.clone() };
    }
    match &f.zip_entries {
        Err(ZipOpenError::CannotOpen) => unknown_exec("Cannot open ZIP file"),
        Err(ZipOpenError::NotZip) => unknown_exec("File is not a valid ZIP archive"),
        Ok(names) => {
            let listing = zip_listing_from_names(names);
            classify_zip_listing(&listing, &f.path)
        },
    }
}

fn classify_launcher_exe(f: &DropFacts) -> (r: DroppedItemType)
    ensures
        drop_view(r) == spec_classify_exe(*f),
{
    match &f.parent {
        Some(p) => {
            if f.parent_has_pcl {
                let launcher_type = if f.pcl_config_exists {
                    ImportLauncherType::PCL2CE
                } else {
                    ImportLauncherType::PCL2
                };
                return DroppedItemType::Launcher { launcher_type, base_path: p.clone() };
            }
            if f.parent_has_hmcl {
                return DroppedItemType::Launcher { launcher_type: ImportLauncherType::HMCL, base_path: p.clone() };
            }
        },
        None => {},
    }
    DroppedItemType::Unknown { reason: crate::text::concat("Unrecognised executable: ", f.path.as_str()) }
}

fn classify_jar(f: &DropFacts) -> (r: DroppedItemType)
    ensures
        drop_view(r) == spec_classify_jar(*f),
{
    let hmcl = match &f.jar_main_class {
        Some(m) => {
            let v = crate::text::chars_of(m.as_str());
            crate::text::eq_str(&v, "org.jackhuang.hmcl.Main")
        },
        None => false,
    };
    if hmcl {
        match (&f.parent, &f.jar_hmcl_data_dir) {
            (Some(p), Some(d)) => {
                return DroppedItemType::HmclLauncher { launcher_dir: p.clone(), data_dir: d.clone() };
            },
            (Some(p), None) => {
                return DroppedItemType::Launcher { launcher_type: ImportLauncherType::HMCL, base_path: p.clone() };
            },
            _ => {
                return DroppedItemType::Launcher {
                    launcher_type: ImportLauncherType::HMCL,
                    base_path: String::new(),
                };
            },
        }
    }
    DroppedItemType::Mod { file_path: f.path.clone() }
}

fn classify_file(f: &DropFacts) -> (r: DroppedItemType)
    ensures
        drop_view(r) == spec_classify_file(*f),
{
    match ext_of_facts(f) {
        Some(e) => {
            let v = crate::text::chars_of(e.as_str());
            let lower = crate::text::lower_vec(&v);
            if crate::text::eq_str(&lower, "litematic") || crate::text::eq_str(&lower, "schematic") {
                return DroppedItemType::Litematic { file_path: f.path.clone() };
            }
        },
        None => {},
    }
    DroppedItemType::Unknown { reason: crate::text::concat("Unrecognised file type: ", f.path.as_str()) }
}

fn classify_disabled(f: &DropFacts) -> (r: DroppedItemType)
    ensures
        drop_view(r) == spec_classify_disabled(*f),
{
    match &f.file_name {
        None => classify_file(f),
        Some(n) => {
            let stem = stem_of(n.as_str());
            let sv = crate::text::chars_of(stem.as_str());
            let pieces = crate::text::split_chars(&sv, '.');
            proof {
                crate::text::lemma_split_nonempty(sv@, '.');
            }
            let underlying = crate::text::string_from(&pieces[pieces.len() - 1]);
            if crate::text::str_eq_ignore_ascii_case(underlying.as_str(), "jar") {
                classify_jar(f)
            } else if crate::text::str_eq_ignore_ascii_case(underlying.as_str(), "zip")
                || crate::text::str_eq_ignore_ascii_case(underlying.as_str(), "mrpack") {
                classify_zip_path(f)
            } else {
                classify_file(f)
            }
        },
    }
}

fn classify_folder_content(f: &DropFacts) -> (r: DroppedItemType)
    ensures
        drop_view(r) == spec_classify_folder_content(*f),
{
    if f.has_level_dat {
        return DroppedItemType::WorldSave { file_path: f.path.clone() };
    }
    if f.has_pack_mcmeta {
        return DroppedItemType::ResourcePack { file_path: f.path.clone() };
    }
    if f.has_shaders_dir {
        return DroppedItemType::ShaderPack { file_path: f.path.clone() };
    }
    if f.has_version_json || (f.has_root_jar && f.has_root_json) || f.has_mods_jar {
        return DroppedItemType::Launcher { launcher_type: ImportLauncherType::Generic, base_path: f.path.clone() };
    }
    let name = match &f.file_name {
        Some(n) => n.as_str(),
        None => f.path.as_str(),
    };
    DroppedItemType::Unknown { reason: crate::text::concat("Unrecognised content: ", name) }
}

fn classify_folder(f: &DropFacts) -> (r: DroppedItemType)
    ensures
        drop_view(r) == spec_classify_folder(*f),
{
    if f.has_multimc_cfg {
        return DroppedItemType::Launcher { launcher_type: ImportLauncherType::MultiMC, base_path: f.path.clone() };
    }
    if f.has_prismlauncher_cfg {
        return DroppedItemType::Launcher {
            launcher_type: ImportLauncherType::PrismLauncher,
            base_path: f.path.clone(),
        };
    }
    if f.has_instance_cfg {
        return DroppedItemType::Launcher { launcher_type: ImportLauncherType::MultiMC, base_path: f.path.clone() };
    }
    if f.has_hmcl_portable_config {
        match &f.hmcl_data_dir {
            Some(d) => {
                return DroppedItemType::HmclLauncher { launcher_dir: f.path.clone(), data_dir: d.clone() };
            },
            None => {},
        }
    }
    classify_folder_content(f)
}

fn classify_dropped_item_inner(f: &DropFacts, depth: u32) -> (r: DroppedItemType)
    requires
        depth <= MAX_SHORTCUT_HOPS,
    ensures
        drop_view(r) == spec_classify(*f, depth as nat),
    decreases f,
{
    if !f.exists {
        return unknown_exec("Path does not exist");
    }
    match &f.shortcut {
        Some(target) => {
            if depth < MAX_SHORTCUT_HOPS {
                let inner = classify_dropped_item_inner(target, depth + 1);
                return DroppedItemType::ShortcutResolved { original: f.path.clone(), resolved_to: Box::new(inner) };
            }
        },
        None => {},
    }
    if ext_is_exec(f, "zip") || ext_is_exec(f, "mrpack") {
        return classify_zip_path(f);
    }
    if ext_is_exec(f, "exe") {
        return classify_launcher_exe(f);
    }
    if ext_is_exec(f, "disabled") {
        return classify_disabled(f);
    }
    if ext_is_exec(f, "jar") {
        return classify_jar(f);
    }
    if f.is_dir {
        return classify_folder(f);
    }
    classify_file(f)
}

/// Classifies a dropped file or folder from what the file system reports
/// about it; any failure yields `Unknown` with its reason.
pub fn classify_dropped_item(facts: &DropFacts) -> (r: DroppedItemType)
    ensures
        drop_view(r) == spec_classify(*facts, 0),
{
    classify_dropped_item_inner(facts, 0)
}


/// Pieces joined with `/`.
pub open spec fn spec_join_all(ps: Seq<Seq<char>>) -> Seq<char>
    decreases ps.len(),
{
    if ps.len() == 0 {
        Seq::empty()
    } else if ps.len() == 1 {
        ps[0]
    } else {
        spec_join_all(ps.drop_last()) + "/"@ + ps.last()
    }
}

/// The components of a ZIP entry name that name something: empty and `.`
/// components dropped.
pub open spec fn normal_parts(ps: Seq<Seq<char>>) -> Seq<Seq<char>> {
    ps.filter(|p: Seq<char>| p.len() > 0 && p != "."@)
}

/// The safe relative path of a ZIP entry: backslashes read as separators,
/// and refused when absolute or when a component is `..`.
pub open spec fn spec_sanitize_zip_entry_name(name: Seq<char>) -> Option<Seq<char>> {
    let n = spec_replace_char(name, '\\', '/');
    let parts = spec_split(n, '/');
    if n.len() > 0 && n[0] == '/' {
        None
    } else if parts.contains(".."@) {
        None
    } else {
        Some(spec_join_all(normal_parts(parts)))
    }
}

/// Normalizes a ZIP entry name into a relative path that stays inside the
/// extraction folder, or refuses it.
pub fn sanitize_zip_entry_name(name: &str) -> (r: Option<String>)
    ensures
        match r {
            Some(p) => spec_sanitize_zip_entry_name(name@) == Some(p@),
            None => spec_sanitize_zip_entry_name(name@) is None,
        },
{
    let chars = crate::text::chars_of(name);
    let n = crate::text::replace_char(&chars, '\\', '/');
    if n.len() > 0 && n[0] == '/' {
        return None;
    }
    let parts = crate::text::split_chars(&n, '/');
    let ghost pv = spec_split(n@, '/');
    assert(parts@.map_values(|p: Vec<char>| p@) =~= pv);
    if contains_piece(&parts, "..") {
        return None;
    }
    let ghost pred = |p: Seq<char>| p.len() > 0 && p != "."@;
    let mut out: Vec<char> = Vec::new();
    let mut count: usize = 0;
    let mut i: usize = 0;
    assert(pv.subrange(0, 0).filter(pred) =~= Seq::<Seq<char>>::empty()) by {
        reveal(Seq::filter);
    }
    while i < parts.len()
        invariant
            i <= parts.len(),
            pv == spec_split(n@, '/'),
            parts@.len() == pv.len(),
            forall|k: int| 0 <= k < parts@.len() ==> (#[trigger] parts@[k])@ == pv[k],
            pred == (|p: Seq<char>| p.len() > 0 && p != "."@),
            count == pv.subrange(0, i as int).filter(pred).len(),
            out@ == spec_join_all(pv.subrange(0, i as int).filter(pred)),
        decreases parts.len() - i,
    {
        let piece = &parts[i];
        let ghost before = pv.subrange(0, i as int).filter(pred);
        proof {
            assert(pv.subrange(0, i + 1).drop_last() =~= pv.subrange(0, i as int));
            assert(pv.subrange(0, i + 1).last() == piece@);
            reveal(Seq::filter);
        }
        if piece.len() > 0 && !crate::text::eq_str(piece, ".") {
            if count > 0 {
                out.push('/');
            }
            let mut k: usize = 0;
            let ghost base = out@;
            while k < piece.len()
                invariant
                    k <= piece.len(),
                    out@ == base + piece@.subrange(0, k as int),
                decreases piece.len() - k,
            {
                out.push(piece[k]);
                assert(piece@.subrange(0, k + 1) =~= piece@.subrange(0, k as int).push(piece@[k as int]));
                assert(out@ =~= base + piece@.subrange(0, k + 1));
                k += 1;
            }
            assert(piece@.subrange(0, piece@.len() as int) =~= piece@);
            let ghost after = before.push(piece@);
            assert(pv.subrange(0, i + 1).filter(pred) == after);
            if count == 0 {
                assert(out@ =~= spec_join_all(after)) by {
                    assert(spec_join_all(after) == after[0]);
                }
            } else {
                proof {
                    reveal_strlit("/");
                }
                assert(after.drop_last() =~= before);
                assert(after.len() >= 2);
                assert(spec_join_all(after) == spec_join_all(before) + "/"@ + piece@);
                assert(out@ =~= spec_join_all(after));
            }
            count += 1;
        } else {
            assert(pv.subrange(0, i + 1).filter(pred) == before);
        }
        i += 1;
    }
    assert(pv.subrange(0, pv.len() as int) =~= pv);
    Some(crate::text::string_from(&out))
}

/// What Modrinth knows of a mod file, found by its SHA-1 hash.
#[derive(Debug, Clone)]
pub struct ModrinthLookupResult {
    pub hash: String,
    pub project_id: String,
    pub version_id: String,
    pub project_name: Option<String>,
    pub project_slug: Option<String>,
    pub version_number: Option<String>,
    pub game_versions: Vec<String>,
    pub loaders: Vec<String>,
}

/// The lookup result for a file whose hash matched a Modrinth file of
/// `project_id` at `version_id`: the version's number, game versions and
/// loaders where the version is known (none otherwise), and the project's
/// title and slug where the project is known.
pub fn modrinth_lookup_result(
    hash: String,
    project_id: String,
    version_id: String,
    version: Option<(String, Vec<String>, Vec<String>)>,
    project: Option<(String, Option<String>)>,
) -> (r: ModrinthLookupResult)
    ensures
        r.hash == hash,
        r.project_id == project_id,
        r.version_id == version_id,
        r.project_name == (match project {
            Some(p) => Some(p.0),
            None => None,
        }),
        r.project_slug == (match project {
            Some(p) => p.1,
            None => None,
        }),
        r.version_number == (match version {
            Some(v) => Some(v.0),
            None => None,
        }),
        r.game_versions@ == (match version {
            Some(v) => v.1@,
            None => Seq::empty(),
        }),
        r.loaders@ == (match version {
            Some(v) => v.2@,
            None => Seq::empty(),
        }),
{
    let (project_name, project_slug) = match project {
        Some((title, slug)) => (Some(title), slug),
        None => (None, None),
    };
    let (version_number, game_versions, loaders) = match version {
        Some((number, games, loaders)) => (Some(number), games, loaders),
        None => (None, Vec::new(), Vec::new()),
    };
    ModrinthLookupResult {
        hash,
        project_id,
        version_id,
        project_name,
        project_slug,
        version_number,
        game_versions,
        loaders,
    }
}

} // verus!
