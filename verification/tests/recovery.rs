use theseus::missing_content::{
    all_missing_content_resolved, browser_download_urls, missing_content_view, pending_file, required_integrity,
    retry_attempts, valid_hex_hash, ContentValidation, DownloadItem, DownloadItemStatus, MissingModpackFileState,
};

#[test]
fn browser_urls_only_use_public_manifest_urls() {
    let urls = browser_download_urls(&vec![
        "https://cdn.modrinth.com/data/project/versions/file.jar".to_string(),
        "https://secret@example.com/file.jar".to_string(),
        "https://mirror.example/file.jar?api_key=secret".to_string(),
        "https://mirror.example/file.jar?x-amz-signature=secret".to_string(),
        "file:///tmp/file.jar".to_string(),
        "https://fallback.example/file.jar".to_string(),
    ]);
    assert_eq!(
        urls,
        vec!["https://cdn.modrinth.com/data/project/versions/file.jar", "https://fallback.example/file.jar",]
    );
}

fn file(item_id: &str, sha1: Option<&str>) -> MissingModpackFileState {
    MissingModpackFileState {
        item_id: item_id.to_string(),
        manifest_path: item_id.to_string(),
        target_path: item_id.to_string(),
        expected_size: 8,
        sha1: sha1.map(str::to_string),
        sha512: None,
        download_urls: vec!["https://cdn.example/only.bin".to_string()],
        browser_urls: vec!["https://cdn.example/only.bin".to_string()],
        validate_as_jar: false,
    }
}

fn item(id: &str, status: DownloadItemStatus) -> DownloadItem {
    DownloadItem { id: id.to_string(), status, error: None, attempt: Some(1), max_attempts: Some(2) }
}

#[test]
fn last_recovered_file_is_the_auto_resume_trigger() {
    let files = vec![file("mods/only.bin", Some("0123456789abcdef0123456789abcdef01234567"))];
    let failed = vec![item("mods/only.bin", DownloadItemStatus::Failed)];
    assert!(!all_missing_content_resolved(Some(&files), &failed).unwrap());
    let recovered = vec![item("mods/only.bin", DownloadItemStatus::Completed)];
    assert!(all_missing_content_resolved(Some(&files), &recovered).unwrap());
}

#[test]
fn missing_content_view_lists_only_unresolved_files() {
    let files = vec![file("mods/one.bin", None), file("mods/two.bin", None), file("mods/three.bin", None)];
    let items = vec![
        item("mods/one.bin", DownloadItemStatus::Completed),
        item("mods/two.bin", DownloadItemStatus::Failed),
        item("mods/three.bin", DownloadItemStatus::Skipped),
    ];
    let view = missing_content_view(Some(&files), &items).unwrap();
    assert_eq!(view.remaining, 1);
    assert_eq!(view.files[0].item_id, "mods/two.bin");
    assert_eq!(view.files[0].status, DownloadItemStatus::Failed);
    assert_eq!(
        missing_content_view(None, &items).unwrap_err(),
        "This install job has no persisted missing-content context"
    );
}

#[test]
fn integrity_requires_well_formed_hashes() {
    assert!(valid_hex_hash("0123456789abcdef0123456789ABCDEF01234567", 40));
    assert!(!valid_hex_hash("0123456789abcdef0123456789ABCDEF0123456", 40));
    assert!(!valid_hex_hash("g123456789abcdef0123456789ABCDEF01234567", 40));
    let good = file("mods/a.jar", Some("0123456789abcdef0123456789abcdef01234567"));
    let integrity = required_integrity(&good).unwrap();
    assert_eq!(integrity.size, Some(8));
    assert_eq!(integrity.content, ContentValidation::Unchecked);
    let missing = file("mods/a.jar", None);
    assert_eq!(
        required_integrity(&missing).unwrap_err(),
        "Modpack file has invalid or missing cryptographic integrity metadata"
    );
    let short = file("mods/a.jar", Some("abc"));
    assert!(required_integrity(&short).is_err());
}

#[test]
fn only_failed_files_of_the_job_can_be_resolved() {
    let files = vec![file("mods/one.bin", None), file("mods/two.bin", None)];
    let items = vec![item("mods/one.bin", DownloadItemStatus::Failed), item("mods/two.bin", DownloadItemStatus::Completed)];
    assert_eq!(pending_file(Some(&files), &items, &"mods/one.bin".to_string()), Ok(0));
    assert_eq!(
        pending_file(Some(&files), &items, &"mods/two.bin".to_string()).unwrap_err(),
        "Only failed required modpack files can be resolved"
    );
    assert_eq!(
        pending_file(Some(&files), &items, &"mods/not-in-job.bin".to_string()).unwrap_err(),
        "Required modpack item does not belong to this job: mods/not-in-job.bin"
    );
}

#[test]
fn retry_counts_one_more_attempt() {
    assert_eq!(retry_attempts(None, None), (1, 1));
    assert_eq!(retry_attempts(Some(2), Some(2)), (3, 3));
    assert_eq!(retry_attempts(Some(1), Some(5)), (2, 5));
    assert_eq!(retry_attempts(Some(u32::MAX), None), (u32::MAX, u32::MAX));
}
