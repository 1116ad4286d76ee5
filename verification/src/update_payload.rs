//! The installer inside a downloaded update: the download itself, or the
//! first `.exe` entry of a zip archive.
use vstd::prelude::*;
use crate::downloads::{lowercase_spec, to_lowercase};
use crate::text::{concat, spec_ends_with, str_ends_with};

verus! {

/// How many entries `zip` lists in the archive `data`, or nothing where
/// `ZipArchive::new` refuses it.
pub uninterp spec fn zip_entry_count_spec(data: Seq<u8>) -> Option<usize>;

/// The name `zip` gives entry `i` of the archive `data` (`by_index`, then
/// `name`), or nothing where `by_index` fails.
pub uninterp spec fn zip_entry_name_spec(data: Seq<u8>, i: usize) -> Option<Seq<char>>;

/// The name `zip` gives entry `i` of the archive `data` read without
/// decompressing it (`by_index_raw`, then `name`), or nothing where
/// `by_index_raw` fails.
pub uninterp spec fn zip_entry_raw_name_spec(data: Seq<u8>, i: usize) -> Option<Seq<char>>;

/// What `zip` reads from entry `i` of the archive `data` (`by_index`, then
/// `read_to_end`), or nothing where either fails.
pub uninterp spec fn zip_entry_bytes_spec(data: Seq<u8>, i: usize) -> Option<Seq<u8>>;

/// `zip::ZipArchive::new` over the bytes, then `len`. The error is the text
/// of `zip`'s error, of which nothing is claimed.
#[verifier::external_body]
pub(crate) fn zip_entry_count(data: &[u8]) -> (r: Result<usize, String>)
    ensures
        match r {
            Ok(n) => zip_entry_count_spec(data@) == Some(n),
            Err(_) => zip_entry_count_spec(data@) is None,
        },
{
    match zip::ZipArchive::new(std::io::Cursor::new(data)) {
        Ok(archive) => Ok(archive.len()),
        Err(e) => Err(e.to_string()),
    }
}

/// The archive read again from the same bytes, `by_index(i)`, then `name`.
/// The error is the text of `zip`'s error, of which nothing is claimed.
#[verifier::external_body]
fn zip_entry_name(data: &[u8], i: usize) -> (r: Result<String, String>)
    ensures
        match r {
            Ok(name) => zip_entry_name_spec(data@, i) == Some(name@),
            Err(_) => zip_entry_name_spec(data@, i) is None,
        },
{
    let mut archive = match zip::ZipArchive::new(std::io::Cursor::new(data)) {
        Ok(archive) => archive,
        Err(e) => return Err(e.to_string()),
    };
    let name = match archive.by_index(i) {
        Ok(entry) => Ok(entry.name().to_string()),
        Err(e) => Err(e.to_string()),
    };
    name
}

/// The archive read again from the same bytes, `by_index_raw(i)` (which
/// neither decrypts nor decompresses), then `name`. The error is the text of
/// `zip`'s error, of which nothing is claimed.
#[verifier::external_body]
pub(crate) fn zip_entry_raw_name(data: &[u8], i: usize) -> (r: Result<String, String>)
    ensures
        match r {
            Ok(name) => zip_entry_raw_name_spec(data@, i) == Some(name@),
            Err(_) => zip_entry_raw_name_spec(data@, i) is None,
        },
{
    let mut archive = match zip::ZipArchive::new(std::io::Cursor::new(data)) {
        Ok(archive) => archive,
        Err(e) => return Err(e.to_string()),
    };
    let name = match archive.by_index_raw(i) {
        Ok(entry) => Ok(entry.name().to_string()),
        Err(e) => Err(e.to_string()),
    };
    name
}

/// The archive read again from the same bytes, `by_index(i)`, then
/// `read_to_end`. The error is the text of the error, of which nothing is
/// claimed.
#[verifier::external_body]
fn zip_entry_bytes(data: &[u8], i: usize) -> (r: Result<Vec<u8>, String>)
    ensures
        match r {
            Ok(bytes) => zip_entry_bytes_spec(data@, i) == Some(bytes@),
            Err(_) => zip_entry_bytes_spec(data@, i) is None,
        },
{
    let mut archive = match zip::ZipArchive::new(std::io::Cursor::new(data)) {
        Ok(archive) => archive,
        Err(e) => return Err(e.to_string()),
    };
    let mut entry = match archive.by_index(i) {
        Ok(entry) => entry,
        Err(e) => return Err(e.to_string()),
    };
    let mut buf = Vec::new();
    match std::io::Read::read_to_end(&mut entry, &mut buf) {
        Ok(_) => Ok(buf),
        Err(e) => Err(e.to_string()),
    }
}

/// The download starts like a zip archive (`PK`).
pub open spec fn spec_is_zip(data: Seq<u8>) -> bool {
    data.len() >= 2 && data[0] == 80 && data[1] == 75
}

/// The search for the installer stops at entry `i`: its name cannot be
/// read, or, lowercased, it ends in `.exe`.
pub open spec fn spec_stops_at(data: Seq<u8>, i: usize) -> bool {
    match zip_entry_name_spec(data, i) {
        None => true,
        Some(name) => spec_ends_with(lowercase_spec(name), ".exe"@),
    }
}

/// The first entry from `i` on, before `n`, that the search stops at.
pub open spec fn spec_stop_index(data: Seq<u8>, i: nat, n: nat) -> Option<nat>
    decreases n - i,
{
    if i >= n {
        None
    } else if spec_stops_at(data, i as usize) {
        Some(i)
    } else {
        spec_stop_index(data, i + 1, n)
    }
}

proof fn lemma_prefix(p: Seq<char>, rest: Seq<char>)
    ensures
        p.is_prefix_of(p + rest),
{
    assert(p =~= (p + rest).subrange(0, p.len() as int));
}

/// The installer of a downloaded update: the download itself where it is
/// not a zip archive, else the first entry whose name ends in `.exe` (case
/// ignored). Each failure of `zip` is reported with what was being done.
pub fn extract_installer_payload(data: &[u8]) -> (r: Result<Vec<u8>, String>)
    ensures
        !spec_is_zip(data@) ==> (r matches Ok(v) && v@ == data@),
        spec_is_zip(data@) ==> match zip_entry_count_spec(data@) {
            None => r matches Err(m) && "Failed to open downloaded update archive: "@.is_prefix_of(m@),
            Some(n) => match spec_stop_index(data@, 0, n as nat) {
                None => r matches Err(m) && m@ == "Downloaded update archive contains no .exe file"@,
                Some(i) => match zip_entry_name_spec(data@, i as usize) {
                    None => r matches Err(m) && "Failed to read update archive entry: "@.is_prefix_of(m@),
                    Some(name) => match zip_entry_bytes_spec(data@, i as usize) {
                        Some(bytes) => r matches Ok(v) && v@ == bytes,
                        None => r matches Err(m) && ("Failed to extract "@ + name
                            + " from update archive: "@).is_prefix_of(m@),
                    },
                },
            },
        },
{
    if !(data.len() >= 2 && data[0] == 80 && data[1] == 75) {
        return Ok(vstd::slice::slice_to_vec(data));
    }
    let n = match zip_entry_count(data) {
        Ok(n) => n,
        Err(e) => {
            proof {
                lemma_prefix("Failed to open downloaded update archive: "@, e@);
            }
            return Err(concat("Failed to open downloaded update archive: ", e.as_str()));
        },
    };
    let mut i: usize = 0;
    while i < n
        invariant
            i <= n,
            spec_is_zip(data@),
            zip_entry_count_spec(data@) == Some(n),
            spec_stop_index(data@, 0, n as nat) == spec_stop_index(data@, i as nat, n as nat),
        decreases n - i,
    {
        let name = match zip_entry_name(data, i) {
            Ok(name) => name,
            Err(e) => {
                proof {
                    lemma_prefix("Failed to read update archive entry: "@, e@);
                }
                return Err(concat("Failed to read update archive entry: ", e.as_str()));
            },
        };
        let lower = to_lowercase(name.as_str());
        if str_ends_with(lower.as_str(), ".exe") {
            match zip_entry_bytes(data, i) {
                Ok(bytes) => {
                    return Ok(bytes);
                },
                Err(e) => {
                    let m1 = concat("Failed to extract ", name.as_str());
                    let m2 = concat(m1.as_str(), " from update archive: ");
                    proof {
                        lemma_prefix(m2@, e@);
                    }
                    return Err(concat(m2.as_str(), e.as_str()));
                },
            }
        }
        i += 1;
    }
    Err(crate::text::to_owned("Downloaded update archive contains no .exe file"))
}

} // verus!
