use theseus::server_modpack::{base_folder, is_server_installable, MrpackEnv, MrpackFile};
use theseus::servers::{
    is_jna_macos_assertion, resolve_jar_name, safe_join, sanitize_folder_name, strip_ansi, ServerManifest,
};

#[test]
fn sanitize_folder_name_replaces_unsafe_characters() {
    assert_eq!(sanitize_folder_name("My Server!"), "My-Server");
    assert_eq!(sanitize_folder_name("../etc"), "etc");
    assert_eq!(sanitize_folder_name("///"), "server");
}

#[test]
fn safe_join_rejects_traversal() {
    let dir = "/tmp/servers/a";
    assert!(safe_join(dir, "server.properties").is_ok());
    assert!(safe_join(dir, "../secret").is_err());
    assert!(safe_join(dir, "/etc/passwd").is_err());
    assert!(safe_join(dir, "a//b").is_err());
    assert!(safe_join(dir, "").is_err());
}

fn check_strip_ansi() {
    let line = "[16:02:30 INFO]: \u{1b}[38;2;255;170;0m/mspt: \u{1b}[38;2;255;255;255mView server tick times\u{1b}[0m";
    assert_eq!(strip_ansi(line), "[16:02:30 INFO]: /mspt: View server tick times");
    assert_eq!(strip_ansi("\u{1b}]0;Server console\u{7}ready"), "ready");
    assert_eq!(strip_ansi("\u{1b}]0;Server console\u{1b}\\done"), "done");
    assert_eq!(strip_ansi("plain text stays"), "plain text stays");
    assert_eq!(strip_ansi("h\u{e9}llo \u{1b}[31mred"), "h\u{e9}llo red");
}

#[test]
fn servers_strips_ansi_escape_sequences_from_server_output() {
    check_strip_ansi();
}

#[test]
fn logs_strips_ansi_escape_sequences_from_server_output() {
    check_strip_ansi();
}

#[test]
fn detects_jna_macos_assertion() {
    let line = "Assertion failed: (count <= len && \"snprintf() output has been truncated\"), function LOAD_ERROR, file dispatch.c, line 74.";
    assert!(is_jna_macos_assertion(line));
    assert!(!is_jna_macos_assertion("Assertion failed: something else, file other.c, line 1."));
    assert!(!is_jna_macos_assertion("regular log output"));
}

fn mrpack_file(env: Option<MrpackEnv>) -> MrpackFile {
    MrpackFile {
        path: "mods/a.jar".to_string(),
        hashes: Vec::new(),
        env,
        downloads: vec!["https://example.com/a.jar".to_string()],
        file_size: Some(10),
    }
}

#[test]
fn server_only_files_are_installable() {
    let installable = mrpack_file(None);
    assert!(is_server_installable(&installable));

    let optional = mrpack_file(Some(MrpackEnv { server: Some("optional".to_string()) }));
    assert!(is_server_installable(&optional));

    let client_only = mrpack_file(Some(MrpackEnv { server: Some("unsupported".to_string()) }));
    assert!(!is_server_installable(&client_only));
}

#[test]
fn base_folder_derivation() {
    assert_eq!(base_folder("modrinth.index.json"), "");
    assert_eq!(base_folder("my-pack/modrinth.index.json"), "my-pack/");
}

fn manifest(server_type: &str) -> ServerManifest {
    ServerManifest {
        id: "test-12345678".to_string(),
        name: "Test".to_string(),
        server_type: server_type.to_string(),
        game_version: "26.2".to_string(),
        loader_version: Some("0.19.3".to_string()),
        jar_name: None,
        java_path: None,
        memory_mb: None,
        icon_path: None,
        jvm_args: Vec::new(),
        created_at: 1_700_000_000,
        last_started_at: None,
        last_exit_crashed: false,
    }
}

#[test]
fn resolves_jar_name_from_type_then_manifest() {
    let mut manifest = manifest("fabric");
    assert_eq!(resolve_jar_name(&manifest), "fabric-server.jar");

    manifest.server_type = "vanilla".to_string();
    assert_eq!(resolve_jar_name(&manifest), "server.jar");

    manifest.jar_name = Some("custom.jar".to_string());
    assert_eq!(resolve_jar_name(&manifest), "custom.jar");
}
