use theseus::drop_classifier::{classify_dropped_item, DropFacts, DroppedItemType, ZipOpenError};
use theseus::import::ImportLauncherType;

fn facts(path: &str) -> DropFacts {
    DropFacts {
        path: path.to_string(),
        exists: false,
        shortcut: None,
        file_name: None,
        parent: None,
        is_dir: false,
        pack_format: None,
        zip_entries: Err(ZipOpenError::CannotOpen),
        parent_has_pcl: false,
        pcl_config_exists: false,
        parent_has_hmcl: false,
        jar_main_class: None,
        jar_hmcl_data_dir: None,
        has_multimc_cfg: false,
        has_prismlauncher_cfg: false,
        has_instance_cfg: false,
        has_hmcl_portable_config: false,
        hmcl_data_dir: None,
        has_level_dat: false,
        has_pack_mcmeta: false,
        has_shaders_dir: false,
        has_version_json: false,
        has_root_jar: false,
        has_root_json: false,
        has_mods_jar: false,
    }
}

#[test]
fn test_nonexistent_path() {
    let result = classify_dropped_item(&facts("/nonexistent/path"));
    assert!(matches!(result, DroppedItemType::Unknown { .. }), "nonexistent path should be Unknown");
}

#[test]
fn test_regular_mod_jar() {
    let mut f = facts("/tmp/testmod.jar");
    f.exists = true;
    f.file_name = Some("testmod.jar".to_string());
    f.parent = Some("/tmp".to_string());
    let result = classify_dropped_item(&f);
    assert!(matches!(result, DroppedItemType::Mod { .. }), "jar should be Mod, got {result:?}");
}

fn existing(path: &str, file_name: &str, is_dir: bool) -> DropFacts {
    let mut f = facts(path);
    f.exists = true;
    f.file_name = Some(file_name.to_string());
    f.parent = Some("/tmp/drop".to_string());
    f.is_dir = is_dir;
    f
}

#[test]
fn test_litematic_file() {
    let f = existing("/tmp/drop/build.litematic", "build.litematic", false);
    let result = classify_dropped_item(&f);
    assert!(matches!(result, DroppedItemType::Litematic { .. }), "litematic file should be classified as Litematic");
}

#[test]
fn test_resource_pack_folder() {
    let mut f = existing("/tmp/drop/my_resource_pack", "my_resource_pack", true);
    f.has_pack_mcmeta = true;
    let result = classify_dropped_item(&f);
    assert!(matches!(result, DroppedItemType::ResourcePack { .. }), "folder with pack.mcmeta should be ResourcePack");
}

#[test]
fn test_world_save() {
    let mut f = existing("/tmp/drop/New World", "New World", true);
    f.has_level_dat = true;
    let result = classify_dropped_item(&f);
    assert!(matches!(result, DroppedItemType::WorldSave { .. }), "folder with level.dat should be WorldSave");
}

#[test]
fn test_multimc_launcher_folder() {
    let mut f = existing("/tmp/drop/launcher", "launcher", true);
    f.has_multimc_cfg = true;
    let result = classify_dropped_item(&f);
    assert!(
        matches!(result, DroppedItemType::Launcher { launcher_type, .. } if launcher_type == ImportLauncherType::MultiMC),
        "folder with multimc.cfg should be MultiMC launcher"
    );
}

#[test]
fn test_shader_pack_folder() {
    let mut f = existing("/tmp/drop/pack", "pack", true);
    f.has_shaders_dir = true;
    let result = classify_dropped_item(&f);
    assert!(matches!(result, DroppedItemType::ShaderPack { .. }), "folder with shaders/ should be ShaderPack");
}

#[test]
fn test_unknown_file() {
    let f = existing("/tmp/drop/random.xyz", "random.xyz", false);
    let result = classify_dropped_item(&f);
    assert!(matches!(result, DroppedItemType::Unknown { .. }), "unknown extension should be Unknown");
}

fn zip_facts(name: &str, entries: &[&str]) -> DropFacts {
    let mut f = existing(&format!("/tmp/drop/{name}"), name, false);
    f.zip_entries = Ok(entries.iter().map(|e| e.to_string()).collect());
    f
}

#[test]
fn test_zip_single_file() {
    let result = classify_dropped_item(&zip_facts("test.zip", &["test.txt"]));
    assert!(matches!(result, DroppedItemType::Unknown { .. }), "zip with single .txt should resolve to Unknown: {result:?}");
}

#[test]
fn test_zip_nested_world_save() {
    let result = classify_dropped_item(&zip_facts("world.zip", &["My World/level.dat", "My World/region/r.0.0.mca"]));
    assert!(
        matches!(result, DroppedItemType::WorldSave { .. }),
        "zip with a nested level.dat should be classified as WorldSave: {result:?}"
    );
}

#[test]
fn test_zip_nested_resource_pack() {
    let result = classify_dropped_item(&zip_facts("pack.zip", &["My Pack/pack.mcmeta"]));
    assert!(
        matches!(result, DroppedItemType::ResourcePack { .. }),
        "zip with a nested pack.mcmeta should be classified as ResourcePack: {result:?}"
    );
}

#[test]
fn lookup_result_takes_version_and_project_facts_where_known() {
    let full = theseus::drop_classifier::modrinth_lookup_result(
        "abc".to_string(),
        "P".to_string(),
        "V".to_string(),
        Some(("1.2.0".to_string(), vec!["1.20.1".to_string()], vec!["fabric".to_string()])),
        Some(("Sodium".to_string(), Some("sodium".to_string()))),
    );
    assert_eq!(full.hash, "abc");
    assert_eq!(full.project_name.as_deref(), Some("Sodium"));
    assert_eq!(full.project_slug.as_deref(), Some("sodium"));
    assert_eq!(full.version_number.as_deref(), Some("1.2.0"));
    assert_eq!(full.game_versions, vec!["1.20.1".to_string()]);
    assert_eq!(full.loaders, vec!["fabric".to_string()]);
    let bare = theseus::drop_classifier::modrinth_lookup_result(
        "abc".to_string(),
        "P".to_string(),
        "V".to_string(),
        None,
        None,
    );
    assert_eq!(bare.project_id, "P");
    assert_eq!(bare.version_id, "V");
    assert!(bare.project_name.is_none() && bare.project_slug.is_none() && bare.version_number.is_none());
    assert!(bare.game_versions.is_empty() && bare.loaders.is_empty());
}
