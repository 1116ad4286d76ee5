//! Launcher kinds, importable instances, and the naming rules of instance
//! imports.
use vstd::prelude::*;

verus! {

/// A launcher whose instances can be imported.
#[derive(Clone, Copy, Debug, PartialEq, Eq, Structural)]
pub enum ImportLauncherType {
    MultiMC,
    PrismLauncher,
    ATLauncher,
    GDLauncher,
    Curseforge,
    ModrinthApp,
    PCL2,
    PCL2CE,
    HMCL,
    Generic,
    Unknown,
}

impl ImportLauncherType {
    pub open spec fn spec_display_name(self) -> Seq<char> {
        match self {
            ImportLauncherType::MultiMC => "MultiMC"@,
            ImportLauncherType::PrismLauncher => "PrismLauncher"@,
            ImportLauncherType::ATLauncher => "ATLauncher"@,
            ImportLauncherType::GDLauncher => "GDLauncher"@,
            ImportLauncherType::Curseforge => "Curseforge"@,
            ImportLauncherType::ModrinthApp => "Modrinth source installation"@,
            ImportLauncherType::PCL2 => "PCL2"@,
            ImportLauncherType::PCL2CE => "PCL2CE"@,
            ImportLauncherType::HMCL => "HMCL"@,
            ImportLauncherType::Generic => "Generic"@,
            ImportLauncherType::Unknown => "Unknown"@,
        }
    }

    /// The launcher's name as shown to the user.
    pub fn display_name(&self) -> (r: &'static str)
        ensures
            r@ == self.spec_display_name(),
    {
        match self {
            ImportLauncherType::MultiMC => "MultiMC",
            ImportLauncherType::PrismLauncher => "PrismLauncher",
            ImportLauncherType::ATLauncher => "ATLauncher",
            ImportLauncherType::GDLauncher => "GDLauncher",
            ImportLauncherType::Curseforge => "Curseforge",
            ImportLauncherType::ModrinthApp => "Modrinth source installation",
            ImportLauncherType::PCL2 => "PCL2",
            ImportLauncherType::PCL2CE => "PCL2CE",
            ImportLauncherType::HMCL => "HMCL",
            ImportLauncherType::Generic => "Generic",
            ImportLauncherType::Unknown => "Unknown",
        }
    }
}

/// A scanned importable instance with its resolved path.
#[derive(Debug)]
pub struct ImportableInstance {
    pub name: String,
    pub path: String,
}

/// Collects importable instances, each path once.
#[derive(Debug)]
pub struct InstanceCollector {
    pub instances: Vec<ImportableInstance>,
}

impl InstanceCollector {
    /// No two collected instances share a path.
    pub open spec fn wf(&self) -> bool {
        forall|i: int, j: int|
            0 <= i < j < self.instances@.len() ==> self.instances@[i].path@ != self.instances@[j].path@
    }

    pub fn new() -> (r: InstanceCollector)
        ensures
            r.instances@.len() == 0,
            r.wf(),
    {
        InstanceCollector { instances: Vec::new() }
    }

    /// Adds an instance unless one with the same path was collected.
    pub fn push(&mut self, name: String, path: String)
        requires
            old(self).wf(),
        ensures
            final(self).wf(),
            (exists|i: int| 0 <= i < old(self).instances@.len() && (#[trigger] old(self).instances@[i]).path@ == path@)
                ==> final(self).instances@ == old(self).instances@,
            !(exists|i: int| 0 <= i < old(self).instances@.len() && (#[trigger] old(self).instances@[i]).path@ == path@)
                ==> final(self).instances@ == old(self).instances@.push(ImportableInstance { name, path }),
    {
        let mut i: usize = 0;
        while i < self.instances.len()
            invariant
                i <= self.instances.len(),
                *self == *old(self),
                self.wf(),
                forall|k: int| 0 <= k < i ==> (#[trigger] self.instances@[k]).path@ != path@,
            decreases self.instances.len() - i,
        {
            if self.instances[i].path == path {
                assert(self.instances@ == old(self).instances@);
                return ;
            }
            i += 1;
        }
        self.instances.push(ImportableInstance { name, path });
    }
}

/// `name` split at its first `:`; without one, the whole name and an empty
/// rest.
pub open spec fn spec_split_config_name(name: Seq<char>) -> (Seq<char>, Seq<char>) {
    if exists|i: int| 0 <= i < name.len() && name[i] == ':' {
        let i = choose|i: int| 0 <= i < name.len() && name[i] == ':' && forall|k: int| 0 <= k < i ==> name[k] != ':';
        (name.subrange(0, i), name.subrange(i + 1, name.len() as int))
    } else {
        (name, Seq::empty())
    }
}

pub fn split_config_name(name: &str) -> (r: (String, String))
    ensures
        (r.0@, r.1@) == spec_split_config_name(name@),
{
    let v = crate::text::chars_of(name);
    let mut i: usize = 0;
    while i < v.len()
        invariant
            i <= v.len(),
            v@ == name@,
            forall|k: int| 0 <= k < i ==> v@[k] != ':',
        decreases v.len() - i,
    {
        if v[i] == ':' {
            proof {
                let c = choose|c: int| 0 <= c < name@.len() && name@[c] == ':' && forall|k: int| 0 <= k < c ==> name@[k] != ':';
                if c < i {
                } else if c > i {
                    assert(name@[i as int] == ':');
                }
            }
            return (crate::text::string_from_range(&v, 0, i), crate::text::string_from_range(&v, i + 1, v.len()));
        }
        i += 1;
    }
    (crate::text::to_owned(name), String::new())
}

/// `base` joined with the relative path `rest`.
pub open spec fn spec_join(base: Seq<char>, rest: Seq<char>) -> Seq<char> {
    if base.len() == 0 {
        rest
    } else if base.last() == '/' {
        base + rest
    } else {
        base + "/"@ + rest
    }
}

pub fn join_path(base: &str, rest: &str) -> (r: String)
    ensures
        r@ == spec_join(base@, rest@),
{
    let v = crate::text::chars_of(base);
    if v.len() == 0 {
        return crate::text::to_owned(rest);
    }
    if v[v.len() - 1] == '/' {
        return crate::text::concat(base, rest);
    }
    let a = crate::text::concat(base, "/");
    crate::text::concat(a.as_str(), rest)
}

/// Where an instance folder named in a launcher's configuration lives:
/// `versions/<id>` under the base's `versions` folder, the base itself when
/// the base folder has the instance's name, else a folder of the base.
pub open spec fn spec_resolve_instance_path(
    base: Seq<char>,
    base_file_name: Option<Seq<char>>,
    folder: Seq<char>,
) -> Seq<char> {
    if crate::text::spec_starts_with(folder, "versions/"@) {
        spec_join(spec_join(base, "versions"@), folder.subrange(9, folder.len() as int))
    } else if base_file_name == Some(folder) {
        base
    } else {
        spec_join(base, folder)
    }
}

pub fn resolve_instance_path(base: &str, base_file_name: Option<&str>, folder: &str) -> (r: String)
    ensures
        r@ == spec_resolve_instance_path(
            base@,
            match base_file_name {
                Some(n) => Some(n@),
                None => None,
            },
            folder@,
        ),
{
    let f = crate::text::chars_of(folder);
    let prefix = crate::text::chars_of("versions/");
    proof {
        reveal_strlit("versions/");
    }
    if crate::text::starts_with(&f, &prefix) {
        let rest = crate::text::string_from_range(&f, 9, f.len());
        let versions = join_path(base, "versions");
        return join_path(versions.as_str(), rest.as_str());
    }
    match base_file_name {
        Some(n) => {
            let nv = crate::text::chars_of(n);
            if crate::text::eq_str(&nv, folder) {
                return crate::text::to_owned(base);
            }
        },
        None => {},
    }
    join_path(base, folder)
}

} // verus!
