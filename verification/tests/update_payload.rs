use std::io::Write;
use theseus::server_modpack::archive_manifest_entry;
use theseus::update_payload::extract_installer_payload;
use zip::write::SimpleFileOptions;

fn archive(entries: &[(&str, &[u8])]) -> Vec<u8> {
    let mut writer = zip::ZipWriter::new(std::io::Cursor::new(Vec::new()));
    let options = SimpleFileOptions::default().compression_method(zip::CompressionMethod::Stored);
    for (name, data) in entries {
        writer.start_file(*name, options).unwrap();
        writer.write_all(data).unwrap();
    }
    writer.finish().unwrap().into_inner()
}

#[test]
fn payload_that_is_not_zip_is_the_download_itself() {
    let data = b"MZ\x90\x00installer".to_vec();
    assert_eq!(extract_installer_payload(&data), Ok(data.clone()));
    assert_eq!(extract_installer_payload(b"P"), Ok(b"P".to_vec()));
}

#[test]
fn payload_is_the_first_exe_entry_of_an_archive() {
    let data = archive(&[("readme.txt", b"hello"), ("Setup.EXE", b"MZfirst"), ("other.exe", b"MZsecond")]);
    assert_eq!(extract_installer_payload(&data), Ok(b"MZfirst".to_vec()));
}

#[test]
fn archive_without_exe_is_refused() {
    let data = archive(&[("readme.txt", b"hello")]);
    assert_eq!(
        extract_installer_payload(&data),
        Err("Downloaded update archive contains no .exe file".to_string())
    );
}

#[test]
fn broken_archive_is_refused() {
    let r = extract_installer_payload(b"PK\x03\x04garbage");
    assert!(r.unwrap_err().starts_with("Failed to open downloaded update archive: "));
}

#[test]
fn modpack_index_is_found_in_the_archive_bytes() {
    let top = archive(&[("overrides/a.txt", b"a"), ("modrinth.index.json", b"{}")]);
    assert_eq!(archive_manifest_entry(&top), Ok("modrinth.index.json".to_string()));
    let nested = archive(&[("pack\\modrinth.index.json", b"{}"), ("modrinth.index.json", b"{}")]);
    assert_eq!(archive_manifest_entry(&nested), Ok("pack/modrinth.index.json".to_string()));
    let missing = archive(&[("readme.txt", b"hello")]);
    assert_eq!(
        archive_manifest_entry(&missing),
        Err("Modpack archive is missing modrinth.index.json".to_string())
    );
    assert!(archive_manifest_entry(b"not a zip").unwrap_err().starts_with("Modpack archive is invalid: "));
}
