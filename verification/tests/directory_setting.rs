use merged_lands::config::setting::{default_config_path, default_userdata_path, DirectorySetting, PlatformDirs};
use std::path::{Path, PathBuf};

fn dirs() -> PlatformDirs {
    PlatformDirs::detect().expect("the platform has user data and configuration directories")
}

fn new_setting(value: &str, config: &Path, comment: &mut String) -> DirectorySetting {
    DirectorySetting::new(value, config.to_str().unwrap(), comment, &dirs())
}

fn parsed(setting: &DirectorySetting) -> PathBuf {
    PathBuf::from(setting.parsed())
}

fn mock_path(path: &str) -> PathBuf {
    PathBuf::from(path)
}

#[test]
fn test_directory_setting_basic_construction() {
    let config_path = PathBuf::from("/my/config");
    let mut comment = "some comment".to_string();

    let setting = new_setting("data", &config_path, &mut comment);

    assert_eq!(setting.original(), "data");
    assert_eq!(parsed(&setting), config_path.join("data"));
    assert_eq!(PathBuf::from(&setting.meta.source_config), config_path);
    assert_eq!(setting.meta.comment, "some comment");
    assert!(comment.is_empty());
}

#[test]
fn test_directory_setting_with_user_data_token() {
    let config_path = PathBuf::from("/irrelevant");
    let mut comment = String::new();

    let setting = new_setting("?userdata?/foo", &config_path, &mut comment);

    let expected_prefix = PathBuf::from(default_userdata_path().unwrap());
    assert!(parsed(&setting).starts_with(expected_prefix));
    assert!(parsed(&setting).ends_with("foo/"));
}

#[test]
fn test_directory_setting_with_user_config_token() {
    let config_path = PathBuf::from("/config/dir");
    let mut comment = String::new();

    let setting = new_setting("?userconfig?/bar", &config_path, &mut comment);

    let expected_prefix = PathBuf::from(default_config_path().unwrap());
    assert!(parsed(&setting).starts_with(expected_prefix));
    assert!(parsed(&setting).ends_with("bar"));
}

#[test]
fn test_directory_setting_quoted_path() {
    let config_path = PathBuf::from("/my/config");
    let mut comment = String::new();

    let setting = new_setting("\"path/with spaces\"", &config_path, &mut comment);

    assert_eq!(setting.original(), "\"path/with spaces\"");
    assert_eq!(parsed(&setting), config_path.join("path").join("with spaces"));
}

#[test]
fn test_directory_setting_relative_path_normalization() {
    let config_path = PathBuf::from("/my/config");
    let mut comment = String::new();

    let setting = new_setting("subdir\\nested", &config_path, &mut comment);

    let expected = config_path.join("subdir").join("nested");
    assert_eq!(parsed(&setting), expected);
}

#[test]
fn test_dot_component_is_removed() {
    let config = mock_path("/etc/openmw");
    let mut comment = String::from("comment");
    let setting = new_setting("./data", &config, &mut comment);
    assert_eq!(parsed(&setting), config.join("data"));
}

#[test]
fn test_double_dot_not_normalized() {
    let config = mock_path("/home/user/.config/openmw");
    let mut comment = String::from("comment");
    let setting = new_setting("../common", &config, &mut comment);
    let expected = config.join("../common");
    assert_eq!(parsed(&setting), expected);
}

#[test]
fn test_dot_components_not_normalized() {
    let config = mock_path("/opt/game/config");
    let mut comment = String::new();
    let setting = new_setting("foo/./bar/../baz", &config, &mut comment);
    let expected = config.join("foo/./bar/../baz");
    assert_eq!(parsed(&setting), expected);
}

#[test]
fn test_absolute_path_not_joined_to_config() {
    let config = mock_path("/etc/openmw");
    let mut comment = String::new();
    let setting = new_setting("/absolute/path/to/data", &config, &mut comment);
    assert_eq!(parsed(&setting), PathBuf::from("/absolute/path/to/data"));
}

#[test]
fn test_absolute_path_original_preserved() {
    let config = mock_path("/etc/openmw");
    let mut comment = String::new();
    let setting = new_setting("/absolute/data", &config, &mut comment);
    assert_eq!(setting.original(), "/absolute/data");
}

#[test]
fn test_backslash_normalised_to_separator() {
    let config = mock_path("/my/config");
    let mut comment = String::new();
    let setting = new_setting("subdir\\nested\\leaf", &config, &mut comment);
    let expected = config.join("subdir").join("nested").join("leaf");
    assert_eq!(parsed(&setting), expected);
}

#[test]
fn test_mixed_separators_normalised() {
    let config = mock_path("/my/config");
    let mut comment = String::new();
    let setting = new_setting("a\\b/c", &config, &mut comment);
    let expected = config.join("a").join("b").join("c");
    assert_eq!(parsed(&setting), expected);
}

#[test]
fn test_quoted_path_stripped_of_quotes() {
    let config = mock_path("/cfg");
    let mut comment = String::new();
    let setting = new_setting("\"simple\"", &config, &mut comment);
    assert_eq!(parsed(&setting), config.join("simple"));
}

#[test]
fn test_quoted_path_ampersand_escapes_next_char() {
    let config = mock_path("/cfg");
    let mut comment = String::new();
    let setting = new_setting("\"foo&\"bar\"", &config, &mut comment);
    assert_eq!(parsed(&setting), config.join("foo\"bar"));
}

#[test]
fn test_quoted_path_ampersand_escapes_ampersand() {
    let config = mock_path("/cfg");
    let mut comment = String::new();
    let setting = new_setting("\"foo&&bar\"", &config, &mut comment);
    assert_eq!(parsed(&setting), config.join("foo&bar"));
}

#[test]
fn test_original_preserves_quotes() {
    let config = mock_path("/cfg");
    let mut comment = String::new();
    let setting = new_setting("\"path with spaces\"", &config, &mut comment);
    assert_eq!(setting.original(), "\"path with spaces\"");
}

#[test]
fn test_userdata_token_only() {
    let config = mock_path("/irrelevant");
    let mut comment = String::new();
    let setting = new_setting("?userdata?", &config, &mut comment);
    assert_eq!(parsed(&setting), PathBuf::from(default_userdata_path().unwrap()));
}

#[test]
fn test_userconfig_token_only() {
    let config = mock_path("/irrelevant");
    let mut comment = String::new();
    let setting = new_setting("?userconfig?", &config, &mut comment);
    assert_eq!(parsed(&setting), PathBuf::from(default_config_path().unwrap()));
}

#[test]
fn test_userdata_token_with_nested_path() {
    let config = mock_path("/irrelevant");
    let mut comment = String::new();
    let setting = new_setting("?userdata?/saves/slot1", &config, &mut comment);
    let expected = PathBuf::from(default_userdata_path().unwrap()).join("saves").join("slot1");
    assert_eq!(parsed(&setting), expected);
}

#[test]
fn test_source_config_stored_verbatim() {
    let config = mock_path("/etc/openmw/openmw.cfg");
    let mut comment = String::new();
    let setting = new_setting("data", &config, &mut comment);
    assert_eq!(PathBuf::from(&setting.meta.source_config), config);
}

#[test]
fn test_comment_cleared_after_new() {
    let config = mock_path("/etc/openmw");
    let mut comment = String::from("# a comment\n");
    let setting = new_setting("data", &config, &mut comment);
    assert_eq!(setting.meta.comment, "# a comment\n");
    assert!(comment.is_empty(), "comment should be cleared after construction");
}

#[test]
fn test_empty_comment_stays_empty() {
    let config = mock_path("/etc/openmw");
    let mut comment = String::new();
    let setting = new_setting("data", &config, &mut comment);
    assert!(setting.meta.comment.is_empty());
}

#[test]
fn setting_read_from_a_cfg_file_resolves_against_its_directory() {
    let mut comment = String::new();
    let setting = DirectorySetting::new("Data Files", "/games/mw/openmw.cfg", &mut comment, &dirs());
    assert_eq!(setting.parsed(), "/games/mw/Data Files");
}

#[test]
fn tokens_resolve_against_the_given_directories() {
    let given = PlatformDirs { userdata: "/u".to_string(), userconfig: "/c".to_string() };
    let mut comment = String::new();
    let data = DirectorySetting::new("?userdata?/x", "/cfg", &mut comment, &given);
    let config = DirectorySetting::new("?userconfig?", "/cfg", &mut comment, &given);
    assert_eq!(data.parsed(), "/u/x");
    assert_eq!(config.parsed(), "/c/");
}
