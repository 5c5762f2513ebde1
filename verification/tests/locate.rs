use merged_lands::config::setting::{data_local_in, openmw_dir_in, PlatformDirs};
use merged_lands::cli::Cli;
use merged_lands::config::error::ConfigError;
use merged_lands::config::locate::{config_file_for, locate_from_env, needs_canonical_form, ConfigLocation, PathKind};
use merged_lands::io::app_config::MergedLandsConfig;
use merged_lands::io::merge_plan::{choose_output_dir, plan_inputs, OutputDir};
use merged_lands::io::parsed_plugins::{DataDirs, LoadedOpenMWConfig, PluginListSource, SortOrder};

#[test]
fn explicit_config_variable_wins() {
    match locate_from_env(Some("/etc/openmw".to_string()), Some("/a:/b".to_string())) {
        Ok(ConfigLocation::Explicit(p)) => assert_eq!(p, "/etc/openmw"),
        other => panic!("unexpected {other:?}"),
    }
}

#[test]
fn empty_explicit_config_is_refused() {
    assert!(matches!(locate_from_env(Some(String::new()), None), Err(ConfigError::NotFileOrDirectory(p)) if p.is_empty()));
}

#[test]
fn home_directory_is_expanded() {
    match locate_from_env(Some("~/games/openmw".to_string()), None) {
        Ok(ConfigLocation::Explicit(p)) => {
            assert!(p.ends_with("/games/openmw"));
            assert!(!p.starts_with('~'));
        }
        other => panic!("unexpected {other:?}"),
    }
}

#[test]
fn config_dir_list_is_split_on_colons() {
    match locate_from_env(None, Some("/a::/b/c".to_string())) {
        Ok(ConfigLocation::Search(dirs)) => assert_eq!(dirs, vec!["/a", "", "/b/c"]),
        other => panic!("unexpected {other:?}"),
    }
    assert!(matches!(locate_from_env(None, None), Ok(ConfigLocation::Default)));
}

#[test]
fn config_file_for_each_kind_of_path() {
    assert_eq!(config_file_for("/cfg", PathKind::Directory { has_cfg: true }).unwrap(), "/cfg/openmw.cfg");
    assert!(matches!(config_file_for("/cfg", PathKind::Directory { has_cfg: false }), Err(ConfigError::CannotFind(p)) if p == "/cfg"));
    assert_eq!(config_file_for("/cfg/custom.cfg", PathKind::File).unwrap(), "/cfg/custom.cfg");
    assert!(matches!(config_file_for("/dev/null", PathKind::Other), Err(ConfigError::NotFileOrDirectory(_))));
    assert!(matches!(config_file_for("/nowhere", PathKind::Missing), Err(ConfigError::NotFileOrDirectory(_))));
    assert!(matches!(config_file_for("", PathKind::File), Err(ConfigError::NotFileOrDirectory(_))));
    assert!(needs_canonical_form("relative/openmw.cfg"));
    assert!(!needs_canonical_form("/abs"));
    assert!(!needs_canonical_form(""));
}

fn loaded() -> LoadedOpenMWConfig {
    LoadedOpenMWConfig {
        data_dirs: DataDirs::from_ordered(vec!["/base".to_string(), "/mods".to_string()]).unwrap(),
        plugins: vec!["Morrowind.esm".to_string(), "Mod.esp".to_string()],
        data_local: "/user/data".to_string(),
    }
}

#[test]
fn openmw_mode_keeps_content_order() {
    let inputs = plan_inputs(&Cli::default(), Some(loaded()));
    assert_eq!(inputs.sort_order, SortOrder::Unsorted);
    assert_eq!(inputs.data_local.as_deref(), Some("/user/data"));
    assert_eq!(inputs.data_dirs.primary(), "/mods");
    match inputs.plugin_source {
        PluginListSource::Explicit(list) => assert_eq!(list, vec!["Morrowind.esm", "Mod.esp"]),
        PluginListSource::MorrowindIni => panic!("expected the content list"),
    }
}

#[test]
fn openmw_mode_with_command_line_plugins_sorts_as_asked() {
    let cli = Cli { input_file_names: vec!["A.esp".to_string()], ..Cli::default() };
    let inputs = plan_inputs(&cli, Some(loaded()));
    assert_eq!(inputs.sort_order, SortOrder::Default);
    match inputs.plugin_source {
        PluginListSource::Explicit(list) => assert_eq!(list, vec!["A.esp"]),
        PluginListSource::MorrowindIni => panic!("expected the command-line list"),
    }
}

#[test]
fn classic_mode_reads_morrowind_ini() {
    let cli = Cli { vanilla: true, ..Cli::default() };
    let inputs = plan_inputs(&cli, None);
    assert!(matches!(inputs.plugin_source, PluginListSource::MorrowindIni));
    assert_eq!(inputs.data_dirs.iter(), vec!["Data Files"]);
    assert!(inputs.data_local.is_none());
}

#[test]
fn output_dir_precedence() {
    let data_local = "/user/data".to_string();
    let cli = Cli { output_file_dir: Some("/explicit".to_string()), ..Cli::default() };
    assert!(matches!(choose_output_dir(&cli, None, Some(&data_local)), OutputDir::Override(d) if d == "/explicit"));

    let config = MergedLandsConfig { output_file_dir: Some("out".to_string()), ..MergedLandsConfig::default() };
    let cli = Cli { merged_lands_dir: "/ml".to_string(), ..Cli::default() };
    assert!(matches!(choose_output_dir(&cli, Some(&config), Some(&data_local)), OutputDir::Configured(d) if d == "/ml/out"));

    assert!(matches!(choose_output_dir(&cli, Some(&MergedLandsConfig::default()), Some(&data_local)), OutputDir::DataLocal(d) if d == "/user/data"));

    let vanilla = Cli { vanilla: true, ..Cli::default() };
    assert!(matches!(choose_output_dir(&vanilla, None, None), OutputDir::DataFiles(d) if d == "Data Files"));
}

#[test]
fn output_dir_needs_no_data_local_when_a_directory_is_given() {
    let cli = Cli { output_file_dir: Some("/explicit".to_string()), ..Cli::default() };
    assert!(matches!(choose_output_dir(&cli, None, None), OutputDir::Override(d) if d == "/explicit"));

    let config = MergedLandsConfig { output_file_dir: Some("/abs/out".to_string()), ..MergedLandsConfig::default() };
    let cli = Cli { merged_lands_dir: "/ml".to_string(), ..Cli::default() };
    assert!(matches!(choose_output_dir(&cli, Some(&config), None), OutputDir::Configured(d) if d == "/abs/out"));
}

#[test]
fn openmw_directories_sit_under_the_platform_directories() {
    assert_eq!(openmw_dir_in(Some("/home/u/.config".to_string())), Some("/home/u/.config/openmw".to_string()));
    assert_eq!(openmw_dir_in(None), None);
    assert_eq!(
        data_local_in(Some("/home/u/.local/share/openmw".to_string())),
        Some("/home/u/.local/share/openmw/data".to_string())
    );
    assert_eq!(data_local_in(None), None);
    let dirs = PlatformDirs::from_found(Some("/d".to_string()), Some("/c".to_string())).unwrap();
    assert_eq!((dirs.userdata.as_str(), dirs.userconfig.as_str()), ("/d", "/c"));
    assert!(PlatformDirs::from_found(None, Some("/c".to_string())).is_none());
    assert!(PlatformDirs::from_found(Some("/d".to_string()), None).is_none());
}
