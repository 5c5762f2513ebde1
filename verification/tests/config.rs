use merged_lands::path::same_path;
use merged_lands::config::locate::{config_file_for, PathKind};
use merged_lands::config::configuration::{OpenMWConfiguration, SettingValue};
use merged_lands::config::error::ConfigError;
use merged_lands::config::setting::{EncodingType, FileSetting, PlatformDirs};
use std::path::PathBuf;

const ROOT_DIR: &str = "/tmp/openmw_cfg_test";

fn dirs() -> PlatformDirs {
    PlatformDirs {
        userdata: "/home/user/.local/share/openmw".to_string(),
        userconfig: "/home/user/.config/openmw".to_string(),
    }
}

fn cfg_path(dir: &str) -> String {
    format!("{dir}/openmw.cfg")
}

/// Loads a chain of in-memory configuration files, starting at `root_dir`, the way the
/// application walks `config=` entries.
fn try_load_chain(files: &[(&str, &str)], root_dir: &str) -> Result<OpenMWConfiguration, ConfigError> {
    fn read(files: &[(&str, &str)], path: &str) -> Option<String> {
        files
            .iter()
            .find(|(dir, _)| cfg_path(dir) == path)
            .map(|(_, text)| text.to_string())
    }

    fn walk(
        config: &mut OpenMWConfiguration,
        files: &[(&str, &str)],
        path: &str,
        depth: usize,
    ) -> Result<(), ConfigError> {
        OpenMWConfiguration::check_depth(path, depth)?;
        let text = read(files, path).ok_or_else(|| ConfigError::CannotFind(path.to_string()))?;
        let subs = config.load(path, &text)?;
        for (value, mut comment) in subs {
            let setting = config.sub_config_setting(&value, path, &mut comment);
            let sub_path = setting.config_file();
            if read(files, &sub_path).is_some() {
                config.push_sub_configuration(setting);
                walk(config, files, &sub_path, depth + 1)?;
            }
        }
        Ok(())
    }

    let root = cfg_path(root_dir);
    let mut config = OpenMWConfiguration::rooted(&root, dirs());
    walk(&mut config, files, &root, 0)?;
    config.finish_loading();
    Ok(config)
}

fn try_load(text: &str) -> Result<OpenMWConfiguration, ConfigError> {
    try_load_chain(&[(ROOT_DIR, text)], ROOT_DIR)
}

fn load(text: &str) -> OpenMWConfiguration {
    try_load(text).unwrap()
}

fn content_names(config: &OpenMWConfiguration) -> Vec<String> {
    config
        .content_files_iter()
        .into_iter()
        .map(|f| f.value().clone())
        .collect()
}

// Content files

#[test]
fn test_content_files_empty_on_bare_config() {
    let config = load("");
    assert!(config.content_files_iter().is_empty());
}

#[test]
fn test_content_files_parsed_in_order() {
    let config = load("content=Morrowind.esm\ncontent=Tribunal.esm\ncontent=Bloodmoon.esm\n");
    let files: Vec<&String> = config.content_files_iter().into_iter().map(FileSetting::value).collect();
    assert_eq!(files, vec!["Morrowind.esm", "Tribunal.esm", "Bloodmoon.esm"]);
}

#[test]
fn test_has_content_file_found() {
    let config = load("content=Morrowind.esm\n");
    assert!(config.has_content_file("Morrowind.esm"));
}

#[test]
fn test_has_content_file_not_found() {
    let config = load("content=Morrowind.esm\n");
    assert!(!config.has_content_file("Tribunal.esm"));
}

#[test]
fn test_duplicate_content_file_errors_on_load() {
    assert!(try_load("content=Morrowind.esm\ncontent=Morrowind.esm\n").is_err());
}

#[test]
fn test_add_content_file_appends() {
    let mut config = load("content=Morrowind.esm\n");
    config.add_content_file("MyMod.esp").unwrap();
    assert!(config.has_content_file("MyMod.esp"));
}

#[test]
fn test_add_duplicate_content_file_errors() {
    let mut config = load("content=Morrowind.esm\n");
    assert!(config.add_content_file("Morrowind.esm").is_err());
}

#[test]
fn test_add_content_file_source_config_is_cfg_file() {
    let mut config = load("");
    config.add_content_file("Mod.esp").unwrap();
    let files = config.content_files_iter();
    let setting = files[0];
    assert_eq!(
        PathBuf::from(&setting.meta().source_config),
        PathBuf::from(cfg_path(ROOT_DIR)),
        "source_config should be the openmw.cfg file, not a directory"
    );
}

#[test]
fn test_remove_content_file() {
    let mut config = load("content=Morrowind.esm\ncontent=Tribunal.esm\n");
    config.remove_content_file("Morrowind.esm");
    assert!(!config.has_content_file("Morrowind.esm"));
    assert!(config.has_content_file("Tribunal.esm"));
}

#[test]
fn test_set_content_files_replaces_all() {
    let mut config = load("content=Morrowind.esm\ncontent=Tribunal.esm\n");
    config.set_content_files(Some(vec!["NewMod.esp".to_string()]));
    assert!(!config.has_content_file("Morrowind.esm"));
    assert!(!config.has_content_file("Tribunal.esm"));
    assert!(config.has_content_file("NewMod.esp"));
}

#[test]
fn test_set_content_files_none_clears_all() {
    let mut config = load("content=Morrowind.esm\n");
    config.set_content_files(None);
    assert!(config.content_files_iter().is_empty());
}

// Fallback archives

#[test]
fn test_fallback_archives_parsed() {
    let config = load("fallback-archive=Morrowind.bsa\nfallback-archive=Tribunal.bsa\n");
    let archives: Vec<&String> = config.fallback_archives_iter().into_iter().map(FileSetting::value).collect();
    assert_eq!(archives, vec!["Morrowind.bsa", "Tribunal.bsa"]);
}

#[test]
fn test_has_archive_file() {
    let config = load("fallback-archive=Morrowind.bsa\n");
    assert!(config.has_archive_file("Morrowind.bsa"));
    assert!(!config.has_archive_file("Tribunal.bsa"));
}

#[test]
fn test_add_duplicate_archive_errors() {
    let mut config = load("fallback-archive=Morrowind.bsa\n");
    assert!(config.add_archive_file("Morrowind.bsa").is_err());
}

#[test]
fn test_remove_archive_file() {
    let mut config = load("fallback-archive=Morrowind.bsa\nfallback-archive=Tribunal.bsa\n");
    config.remove_archive_file("Morrowind.bsa");
    assert!(!config.has_archive_file("Morrowind.bsa"));
    assert!(config.has_archive_file("Tribunal.bsa"));
}

// Groundcover

#[test]
fn test_groundcover_parsed() {
    let config = load("groundcover=GrassPlugin.esp\n");
    let grass: Vec<&String> = config.groundcover_iter().into_iter().map(FileSetting::value).collect();
    assert_eq!(grass, vec!["GrassPlugin.esp"]);
}

#[test]
fn test_has_groundcover_file() {
    let config = load("groundcover=Grass.esp\n");
    assert!(config.has_groundcover_file("Grass.esp"));
    assert!(!config.has_groundcover_file("Other.esp"));
}

#[test]
fn test_duplicate_groundcover_errors_on_load() {
    assert!(try_load("groundcover=Grass.esp\ngroundcover=Grass.esp\n").is_err());
}

// Data directories

#[test]
fn test_data_directories_absolute_paths_parsed() {
    let config = load("data=/absolute/path/to/data\n");
    assert!(config
        .data_directories_iter()
        .into_iter()
        .any(|d| PathBuf::from(d.parsed()).ends_with("absolute/path/to/data")));
}

#[test]
fn test_add_data_directory() {
    let mut config = load("");
    config.add_data_directory("/some/data/dir");
    assert!(config.has_data_dir("/some/data/dir"));
}

#[test]
fn test_set_data_directories_replaces_all() {
    let mut config = load("data=/old/dir\n");
    config.set_data_directories(Some(vec!["/new/dir".to_string()]));
    assert!(!config.has_data_dir("/old/dir"));
    assert!(config.has_data_dir("/new/dir"));
}

#[test]
fn test_remove_data_directory() {
    let mut config = load("data=/keep/me\n");
    config.add_data_directory("/remove/me");
    config.remove_data_directory("/remove/me");
    assert!(!config.has_data_dir("/remove/me"));
    assert!(config.has_data_dir("/keep/me"));
}

// Fallback (game) settings

#[test]
fn test_game_settings_parsed() {
    let config = load("fallback=iMaxLevel,100\n");
    let setting = config.get_game_setting("iMaxLevel").unwrap();
    assert_eq!(setting.value(), "100");
}

#[test]
fn test_game_settings_last_wins() {
    let config = load("fallback=iKey,1\nfallback=iKey,2\n");
    let setting = config.get_game_setting("iKey").unwrap();
    assert_eq!(setting.value(), "2");
}

#[test]
fn test_game_settings_deduplicates_by_key() {
    let config = load("fallback=iKey,1\nfallback=iKey,2\n");
    let results: Vec<_> = config.game_settings().into_iter().filter(|s| s.key() == "iKey").collect();
    assert_eq!(results.len(), 1, "game_settings() should deduplicate by key");
    assert_eq!(results[0].value(), "2", "last-defined value should win");
}

#[test]
fn test_get_game_setting_missing_returns_none() {
    let config = load("fallback=iKey,1\n");
    assert!(config.get_game_setting("iMissing").is_none());
}

#[test]
fn test_game_setting_color_roundtrip() {
    let config = load("fallback=iSkyColor,100,149,237\n");
    let setting = config.get_game_setting("iSkyColor").unwrap();
    assert_eq!(setting.value(), "100,149,237");
}

#[test]
fn test_game_setting_float_roundtrip() {
    let config = load("fallback=fGravity,9.81\n");
    let setting = config.get_game_setting("fGravity").unwrap();
    assert_eq!(setting.value(), "9.81");
}

#[test]
fn game_setting_without_comma_is_rejected() {
    let result = try_load("fallback=iBroken\n");
    assert!(matches!(result, Err(ConfigError::InvalidGameSetting { .. })));
}

#[test]
fn set_game_settings_keeps_entries_before_the_first_bad_one() {
    let mut config = load("fallback=iOld,1\n");
    let result = config.set_game_settings(Some(vec![
        "iA,1".to_string(),
        "iBroken".to_string(),
        "iC,3".to_string(),
    ]));
    assert!(matches!(result, Err(ConfigError::InvalidGameSetting { .. })));
    assert!(config.get_game_setting("iOld").is_none());
    assert_eq!(config.get_game_setting("iA").unwrap().value(), "1");
    assert!(config.get_game_setting("iC").is_none());
}

// Encoding

#[test]
fn test_encoding_parsed() {
    let config = load("encoding=win1252\n");
    assert_eq!(config.encoding().unwrap().value(), EncodingType::WIN1252);
}

#[test]
fn test_invalid_encoding_errors_on_load() {
    assert!(try_load("encoding=utf8\n").is_err());
}

// Replace semantics

#[test]
fn test_replace_content_clears_prior_plugins() {
    let config = load("content=Old.esm\nreplace=content\ncontent=New.esm\n");
    assert!(!config.has_content_file("Old.esm"));
    assert!(config.has_content_file("New.esm"));
}

#[test]
fn test_replace_data_clears_prior_dirs() {
    let config = load("data=/old\nreplace=data\ndata=/new\n");
    assert!(!config.has_data_dir("/old"));
    assert!(config.has_data_dir("/new"));
}

#[test]
fn replace_is_case_insensitive_and_allows_reusing_names() {
    let config = load("content=A.esm\nreplace=CONTENT\ncontent=A.esm\n");
    assert_eq!(content_names(&config), vec!["A.esm"]);
}

// Display / serialisation

#[test]
fn test_display_contains_version_comment() {
    let config = load("content=Morrowind.esm\n");
    let output = config.to_text();
    assert!(output.contains("# OpenMW-Config Serializer Version:"), "Display should include version comment");
}

#[test]
fn test_display_preserves_content_entries() {
    let config = load("content=Morrowind.esm\ncontent=Tribunal.esm\n");
    let output = config.to_text();
    assert!(output.contains("content=Morrowind.esm"));
    assert!(output.contains("content=Tribunal.esm"));
}

#[test]
fn test_display_preserves_comments() {
    let config = load("# This is a comment\ncontent=Morrowind.esm\n");
    let output = config.to_text();
    assert!(output.contains("# This is a comment"));
}

#[test]
fn written_text_is_exact() {
    let config = load("# c\n\ncontent=A.esm\nfallback=iKey,1\nsome-key = v \n");
    assert_eq!(
        config.to_text(),
        "# c\n\ncontent=A.esm\nfallback=iKey,1\nsome-key=v\n# OpenMW-Config Serializer Version: 0.1.93\n"
    );
}

// Generic settings

#[test]
fn test_generic_setting_preserved() {
    let config = load("some-unknown-key=some-value\n");
    let output = config.to_text();
    assert!(output.contains("some-unknown-key=some-value"));
}

// save_user / save_subconfig (the text that the application writes)

#[test]
fn test_save_user_round_trips_content_files() {
    let mut config = load("content=Morrowind.esm\ncontent=Tribunal.esm\n");
    config.add_content_file("Bloodmoon.esm").unwrap();
    let saved = config.user_settings_text();

    let reloaded = load(&saved);
    let files = content_names(&reloaded);
    assert!(files.contains(&"Morrowind.esm".to_string()));
    assert!(files.contains(&"Bloodmoon.esm".to_string()));
}

#[test]
fn test_save_subconfig_rejects_unloaded_path() {
    let config = load("content=Morrowind.esm\n");
    let result = config.subconfig_text("/tmp/some/other/dir");
    assert!(matches!(result, Err(ConfigError::SubconfigNotLoaded(_))), "expected SubconfigNotLoaded, got {result:?}");
}

#[test]
fn test_save_subconfig_round_trips_settings() {
    let sub_dir = "/tmp/openmw_sub";
    let root_text = format!("content=Morrowind.esm\nconfig={sub_dir}\n");
    let mut config = try_load_chain(&[(ROOT_DIR, &root_text), (sub_dir, "content=Plugin.esp\n")], ROOT_DIR).unwrap();
    config.add_content_file("NewPlugin.esp").unwrap();
    let saved = config.subconfig_text(sub_dir).unwrap();
    assert!(saved.contains("content=Plugin.esp"), "sub-config content preserved");
}

// ConfigError variants

#[test]
fn test_error_duplicate_archive_file() {
    let result = try_load("fallback-archive=Morrowind.bsa\nfallback-archive=Morrowind.bsa\n");
    assert!(matches!(result, Err(ConfigError::DuplicateArchiveFile { .. })));
}

#[test]
fn test_error_cannot_add_groundcover_file() {
    let mut config = load("groundcover=GrassPlugin.esp\n");
    let result = config.add_groundcover_file("GrassPlugin.esp");
    assert!(matches!(result, Err(ConfigError::CannotAddGroundcoverFile { .. })));
}

#[test]
fn test_error_cannot_find() {
    let result = config_file_for("/nonexistent/totally/fake/path", PathKind::Missing);
    assert!(matches!(result, Err(ConfigError::CannotFind(_) | ConfigError::NotFileOrDirectory(_))));
    assert!(matches!(result, Err(ConfigError::NotFileOrDirectory(p)) if p == "/nonexistent/totally/fake/path"));
}

#[test]
fn test_error_io_from_conversion() {
    let io_err = std::io::Error::new(std::io::ErrorKind::PermissionDenied, "denied");
    let config_err: ConfigError = io_err.into();
    assert!(matches!(config_err, ConfigError::Io(_)));
}

#[test]
fn test_error_invalid_line() {
    let result = try_load("this_has_no_equals_sign\n");
    assert!(matches!(result, Err(ConfigError::InvalidLine { .. })));
}

#[test]
fn test_error_max_depth_exceeded() {
    let text = format!("config={ROOT_DIR}\n");
    let result = try_load_chain(&[(ROOT_DIR, &text)], ROOT_DIR);
    assert!(matches!(result, Err(ConfigError::MaxDepthExceeded(_))));
}

// settings_matching and clear_matching

#[test]
fn test_settings_matching_filters_correctly() {
    let config = load("content=Morrowind.esm\nfallback-archive=Morrowind.bsa\n");
    let content_count = config
        .settings_matching(|s| matches!(s, SettingValue::ContentFile(_)))
        .len();
    assert_eq!(content_count, 1);
}

#[test]
fn test_clear_matching_removes_entries() {
    let mut config = load("content=Morrowind.esm\ncontent=Tribunal.esm\n");
    config.clear_matching(|s| matches!(s, SettingValue::ContentFile(_)));
    assert_eq!(config.content_files_iter().len(), 0);
}

// sub_configs and config chaining

#[test]
fn test_sub_configs_iteration() {
    let sub_dir = "/tmp/openmw_sub_iter";
    let root_text = format!("content=Morrowind.esm\nconfig={sub_dir}\n");
    let config = try_load_chain(&[(ROOT_DIR, &root_text), (sub_dir, "content=Plugin.esp\n")], ROOT_DIR).unwrap();
    assert_eq!(config.sub_configs().len(), 1);
    assert!(config.has_content_file("Plugin.esp"), "sub-config content visible in root");
    assert_eq!(config.user_config_path(), sub_dir);
    assert!(!config.is_user_config());
}

#[test]
fn user_config_of_the_user_configuration_is_itself() {
    let config = load("content=Morrowind.esm\n");
    let user = config
        .user_config(|_| panic!("the root configuration is the user configuration"))
        .unwrap();
    assert!(user.has_content_file("Morrowind.esm"));
    assert_eq!(user.root_config_dir(), ROOT_DIR);
}

#[test]
fn user_config_loads_the_last_sub_configuration() {
    let sub_dir = "/tmp/openmw_user_cfg";
    let root_text = format!("content=Morrowind.esm\nconfig={sub_dir}\n");
    let files = [(ROOT_DIR, root_text.as_str()), (sub_dir, "content=Plugin.esp\n")];
    let config = try_load_chain(&files, ROOT_DIR).unwrap();
    let user = config.user_config(|dir| try_load_chain(&files, &dir)).unwrap();
    assert_eq!(user.root_config_dir(), sub_dir);
    assert!(user.has_content_file("Plugin.esp"));
    assert!(!user.has_content_file("Morrowind.esm"));
}

#[test]
fn missing_sub_config_is_skipped() {
    let root_text = "content=Morrowind.esm\nconfig=/tmp/does_not_exist\n";
    let config = try_load_chain(&[(ROOT_DIR, root_text)], ROOT_DIR).unwrap();
    assert_eq!(config.sub_configs().len(), 0);
    assert!(config.is_user_config());
}

// root_config_file / root_config_dir

#[test]
fn test_root_config_file_points_to_cfg() {
    let config = load("");
    assert_eq!(PathBuf::from(config.root_config_file()), PathBuf::from(ROOT_DIR).join("openmw.cfg"));
}

#[test]
fn test_root_config_dir_is_parent() {
    let config = load("");
    assert_eq!(PathBuf::from(config.root_config_dir()), PathBuf::from(ROOT_DIR));
}

// Engine directories

#[test]
fn data_local_and_resources_vfs_become_data_directories() {
    let config = load("data=/game/Data Files\ndata-local=/user/data\nresources=/engine/resources\n");
    let dirs: Vec<String> = config.data_directories_iter().into_iter().map(|d| d.parsed().clone()).collect();
    assert_eq!(dirs, vec!["/engine/resources/vfs", "/game/Data Files", "/user/data"]);
}

// Clone

#[test]
fn test_clone_is_independent() {
    let mut original = load("content=Morrowind.esm\n");
    let mut cloned = original.clone();
    cloned.add_content_file("Tribunal.esm").unwrap();
    original.add_content_file("Bloodmoon.esm").unwrap();
    assert!(cloned.has_content_file("Tribunal.esm"));
    assert!(!cloned.has_content_file("Bloodmoon.esm"));
    assert!(original.has_content_file("Bloodmoon.esm"));
    assert!(!original.has_content_file("Tribunal.esm"));
}

#[test]
fn written_settings_read_back_with_comments() {
    let text = "# header\n\ncontent=A.esm\n# about the setting\nfallback=iKey,1\ndata=\"Data Files\"\nencoding=win1252\nsome-key=v\n";
    let config = load(text);
    let saved = config.user_settings_text();
    assert_eq!(saved, text);
    let reloaded = load(&saved);
    assert_eq!(reloaded.user_settings_text(), text);
    assert_eq!(content_names(&reloaded), vec!["A.esm"]);
}

#[test]
fn loaded_file_entries_stay_distinct_across_a_chain() {
    let sub_dir = "/tmp/openmw_distinct_sub";
    let root_text = format!("content=A.esp\ncontent=B.esp\nconfig={sub_dir}\n");
    let result = try_load_chain(&[(ROOT_DIR, &root_text), (sub_dir, "content=A.esp\n")], ROOT_DIR);
    assert!(matches!(result, Err(ConfigError::DuplicateContentFile { .. })));
    let result = try_load_chain(&[(ROOT_DIR, &root_text), (sub_dir, "replace=content\ncontent=A.esp\n")], ROOT_DIR).unwrap();
    let names: Vec<String> = result.content_files_iter().into_iter().map(|f| f.value().clone()).collect();
    assert_eq!(names, vec!["A.esp".to_string()]);
}

#[test]
fn data_directories_compare_by_path_components() {
    let mut config = load("data=/game/Data Files\n");
    assert!(config.has_data_dir("/game/Data Files/"));
    assert!(config.has_data_dir("/game//Data Files"));
    assert!(config.has_data_dir("/game/./Data Files"));
    assert!(!config.has_data_dir("game/Data Files"));
    config.remove_data_directory("/game/Data Files/");
    assert!(!config.has_data_dir("/game/Data Files"));
}

#[test]
fn same_path_follows_path_components() {
    assert!(same_path("/a/b/", "/a/b"));
    assert!(same_path("/a//b", "/a/b"));
    assert!(same_path("a/./b", "a/b"));
    assert!(!same_path("./a", "a"));
    assert!(!same_path("/a", "a"));
    assert!(!same_path("/a/../b", "/b"));
}
