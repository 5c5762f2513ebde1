use merged_lands::io::app_config::MergedLandsConfig;
use merged_lands::io::merge_plan::{openmw_cfg_source_with, plugins_to_merge};
use merged_lands::cli::{Cli, CliLevelFilter};
use merged_lands::io::parsed_plugins::OpenMWCfgSource;

#[test]
fn default_mode_is_openmw() {
    let cli = Cli::default();
    assert!(cli.is_openmw_mode());
    assert_eq!(cli.output_file_name(), "Merged Lands.omwaddon");
}

#[test]
fn vanilla_mode_changes_default_output_name() {
    let cli = Cli { vanilla: true, ..Cli::default() };
    assert!(!cli.is_openmw_mode());
    assert_eq!(cli.output_file_name(), "Merged Lands.esp");
}

#[test]
fn explicit_output_file_name_wins() {
    let cli = Cli { output_file: Some("custom.esp".to_string()), ..Cli::default() };
    assert_eq!(cli.output_file_name(), "custom.esp");
}

#[test]
fn output_dir_defaults_to_data_files() {
    let cli = Cli::default();
    assert_eq!(cli.output_file_dir(), "Data Files");
    let cli = Cli { output_file_dir: Some("/out".to_string()), ..Cli::default() };
    assert_eq!(cli.output_file_dir(), "/out");
    assert_eq!(cli.output_file_dir_override().map(String::as_str), Some("/out"));
}

#[test]
fn openmw_cfg_source_follows_mode_and_flag() {
    assert!(matches!(Cli::default().openmw_cfg_source(), Some(OpenMWCfgSource::Default)));
    let cli = Cli { openmw_cfg: Some("/x/openmw.cfg".to_string()), ..Cli::default() };
    match cli.openmw_cfg_source() {
        Some(OpenMWCfgSource::Path(p)) => assert_eq!(p, "/x/openmw.cfg"),
        other => panic!("unexpected {other:?}"),
    }
    assert!(Cli { vanilla: true, ..Cli::default() }.openmw_cfg_source().is_none());
}

#[test]
fn stack_size_and_log_file_switch() {
    let cli = Cli::default();
    assert_eq!(cli.stack_size(), 8 * 1024 * 1024);
    assert!(cli.should_write_log_file());
    assert!(!Cli { log_level: CliLevelFilter::Off, ..Cli::default() }.should_write_log_file());
    assert!(cli.plugins().is_none());
    let with_plugins = Cli { input_file_names: vec!["a.esp".to_string()], ..Cli::default() };
    assert_eq!(with_plugins.plugins(), Some(&vec!["a.esp".to_string()]));
}

#[test]
fn merged_lands_toml_names_the_openmw_cfg_when_the_command_line_does_not() {
    let config = MergedLandsConfig { openmw_cfg: Some("/cfg/openmw.cfg".to_string()), ..MergedLandsConfig::default() };
    let cli = Cli::default();
    assert!(matches!(openmw_cfg_source_with(&cli, Some(&config)), Some(OpenMWCfgSource::Path(p)) if p == "/cfg/openmw.cfg"));
    let cli = Cli { openmw_cfg: Some("/cli/openmw.cfg".to_string()), ..Cli::default() };
    assert!(matches!(openmw_cfg_source_with(&cli, Some(&config)), Some(OpenMWCfgSource::Path(p)) if p == "/cli/openmw.cfg"));
    assert!(matches!(openmw_cfg_source_with(&Cli::default(), None), Some(OpenMWCfgSource::Default)));
    let cli = Cli { vanilla: true, ..Cli::default() };
    assert!(openmw_cfg_source_with(&cli, Some(&config)).is_none());
}

#[test]
fn ignored_plugins_are_skipped_before_parsing() {
    let names = vec!["A.esp".to_string(), "Merged.omwaddon".to_string(), "B.esp".to_string(), "C.esp".to_string()];
    let resolved = vec![
        Some("/data/A.esp".to_string()),
        Some("/data/Merged.omwaddon".to_string()),
        Some("/generated/B.esp".to_string()),
        None,
    ];
    let ignore = vec!["merged.OMWADDON".to_string()];
    let ignore_dirs = vec!["/generated".to_string()];
    assert_eq!(plugins_to_merge(&names, &resolved, &ignore, &ignore_dirs), vec!["A.esp".to_string(), "C.esp".to_string()]);
}
