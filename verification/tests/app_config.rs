use merged_lands::io::app_config::{AppConfigSource, LocationError, MergedLandsConfig};

fn with_output_dir(dir: &str) -> MergedLandsConfig {
    MergedLandsConfig { output_file_dir: Some(dir.to_string()), ..MergedLandsConfig::default() }
}

fn files(paths: &[&str]) -> Vec<String> {
    paths.iter().map(|p| p.to_string()).collect()
}

#[test]
fn output_file_dir_resolves_relative_paths_against_merged_lands_dir() {
    let config = with_output_dir("Merged Output");

    let resolved = config.output_file_dir("/tmp/merged_lands").expect("output path should be present");

    assert_eq!(resolved, "/tmp/merged_lands/Merged Output");
}

#[test]
fn output_file_dir_keeps_absolute_paths() {
    let config = with_output_dir("/var/tmp/out");

    let resolved = config.output_file_dir("/tmp/ignored").expect("output path should be present");

    assert_eq!(resolved, "/var/tmp/out");
}

#[test]
fn output_file_dir_is_absent_when_not_configured() {
    assert_eq!(MergedLandsConfig::default().output_file_dir("/tmp"), None);
}

#[test]
fn generated_output_files_falls_back_to_current_output_dir_for_older_configs() {
    let root = "/tmp/app_config_generated_outputs";
    let output_dir = format!("{root}/Output");
    let existing = files(&["/tmp/app_config_generated_outputs/Output/Merged Lands.omwaddon"]);

    let config = MergedLandsConfig {
        generated_output_files: files(&["Merged Lands.omwaddon", "Old Output.esp"]),
        ..MergedLandsConfig::default()
    };

    assert_eq!(
        config.generated_output_files_that_exist(&output_dir, root, |p: &String| existing.contains(p)),
        vec!["Merged Lands.omwaddon"]
    );
}

#[test]
fn generated_output_files_prefers_recorded_generated_output_dir() {
    let root = "/tmp/app_config_generated_output_dir";
    let current_output_dir = format!("{root}/CurrentOutput");
    let generated_output_dir = format!("{root}/GeneratedOutput");
    let existing = files(&[
        "/tmp/app_config_generated_output_dir/GeneratedOutput/Merged Lands.omwaddon",
        "/tmp/app_config_generated_output_dir/CurrentOutput/Old Output.esp",
    ]);

    let config = MergedLandsConfig {
        generated_output_dir: Some(generated_output_dir),
        generated_output_files: files(&["Merged Lands.omwaddon", "Old Output.esp"]),
        ..MergedLandsConfig::default()
    };

    assert_eq!(
        config.generated_output_files_that_exist(&current_output_dir, root, |p: &String| existing.contains(p)),
        vec!["Merged Lands.omwaddon"]
    );
}

#[test]
fn generated_output_dir_default_label_resolves_to_none() {
    let config = MergedLandsConfig {
        generated_output_dir: Some("default_data_local".to_string()),
        ..MergedLandsConfig::default()
    };

    assert_eq!(config.generated_output_dir("/tmp/config"), None);
}

#[test]
fn generated_output_dir_relative_to_config_dir() {
    let config = MergedLandsConfig {
        generated_output_dir: Some("out".to_string()),
        ..MergedLandsConfig::default()
    };
    assert_eq!(config.generated_output_dir("/tmp/config"), Some("/tmp/config/out".to_string()));
}

#[test]
fn record_generated_output_deduplicates_case_insensitively() {
    let mut config = MergedLandsConfig::default();

    config.record_generated_output("/tmp/output", "Merged Lands.omwaddon");
    config.record_generated_output("/tmp/output", "merged lands.OMWADDON");

    assert_eq!(config.generated_output_files.len(), 1);
    assert_eq!(config.generated_output_files, vec!["Merged Lands.omwaddon"]);
}

#[test]
fn record_generated_output_records_output_dir() {
    let mut config = MergedLandsConfig::default();

    config.record_generated_output("/tmp/generated", "Merged Lands.omwaddon");

    assert_eq!(config.generated_output_dir("/tmp/config"), Some("/tmp/generated".to_string()));
}

#[test]
fn set_openmw_cfg_is_read_back() {
    let mut config = MergedLandsConfig::default();
    assert_eq!(config.openmw_cfg(), None);
    config.set_openmw_cfg("/games/openmw/openmw.cfg");
    assert_eq!(config.openmw_cfg().map(String::as_str), Some("/games/openmw/openmw.cfg"));
}

#[test]
fn load_or_create_seeds_default_ignored_plugins_only_for_new_config() {
    let created = MergedLandsConfig::load_or_create(None);
    assert!(created.created);
    assert!(created.config.ignore_plugins().iter().any(|plugin| plugin == "delta-merged.omwaddon"));
    assert!(created.config.ignore_plugins().iter().any(|plugin| plugin == "Merged Objects.esp"));
    assert_eq!(created.config.generated_output_dir.as_deref(), Some("default_data_local"));
    assert_eq!(
        created.config.ignore_plugins(),
        &[
            "delta-merged.omwaddon",
            "deleted_groundcover.omwaddon",
            "S3LightFixes.omwaddon",
            "distant_seafloor_2.00.esm",
            "OMWLLFMod.omwaddon",
            "merged.omwaddon",
            "Merged Objects.esp",
        ]
    );
    assert_eq!(created.config.openmw_cfg, None);
    assert_eq!(created.config.output_file_dir, None);
    assert!(created.config.ignore_plugins_from_path.is_empty());
    assert!(created.config.generated_output_files.is_empty());

    let existing = MergedLandsConfig { ignore_plugins: files(&["Custom.esp"]), ..MergedLandsConfig::default() };
    let loaded = MergedLandsConfig::load_or_create(Some(existing));

    assert!(!loaded.created);
    assert_eq!(loaded.config.ignore_plugins(), &["Custom.esp"]);
}

#[test]
fn resolve_location_uses_explicit_config_dir() {
    let explicit = "/tmp/app_config_explicit/Explicit".to_string();

    let location = MergedLandsConfig::resolve_location(
        Some(explicit.clone()),
        None,
        Ok("/opt/merged_lands".to_string()),
        |_: &String| Ok(()),
    )
    .expect("resolve");

    assert_eq!(location.dir(), &explicit);
    assert_eq!(location.source(), AppConfigSource::Explicit);
}

#[test]
fn resolve_location_prefers_openmw_config_dir() {
    let openmw = "/tmp/app_config_openmw/openmw".to_string();

    let location = MergedLandsConfig::resolve_location(
        None,
        Some(openmw.clone()),
        Ok("/opt/merged_lands".to_string()),
        |_: &String| Ok(()),
    )
    .expect("resolve");

    assert_eq!(location.dir(), &openmw);
    assert_eq!(location.source(), AppConfigSource::OpenMWConfig);
}

#[test]
fn resolve_location_falls_back_to_executable_dir() {
    let location = MergedLandsConfig::resolve_location(
        None,
        Some("/read-only/openmw".to_string()),
        Ok("/opt/merged_lands".to_string()),
        |d: &String| if d.starts_with("/read-only") { Err("read-only".to_string()) } else { Ok(()) },
    )
    .expect("resolve");
    assert_eq!(location.dir(), "/opt/merged_lands");
    assert_eq!(location.source(), AppConfigSource::ExecutableDir);
}

#[test]
fn resolve_location_reports_each_failure() {
    let explicit = MergedLandsConfig::resolve_location(
        Some("/x".to_string()),
        None,
        Ok("/opt".to_string()),
        |_: &String| Err("denied".to_string()),
    );
    assert!(matches!(explicit, Err(LocationError::Explicit(_))));

    let no_exe = MergedLandsConfig::resolve_location(None, None, Err("unknown".to_string()), |_: &String| Ok(()));
    assert!(matches!(no_exe, Err(LocationError::NoExecutableDir(_))));

    let exe = MergedLandsConfig::resolve_location(
        None,
        None,
        Ok("/opt".to_string()),
        |_: &String| Err("denied".to_string()),
    );
    assert!(matches!(exe, Err(LocationError::ExecutableDir(_))));
}

#[test]
fn ignored_plugin_paths_resolve_relative_to_config_dir() {
    let config = MergedLandsConfig {
        ignore_plugins_from_path: files(&["ignored", "/abs/ignored.esp"]),
        ..MergedLandsConfig::default()
    };

    assert_eq!(
        config.ignore_plugins_from_path("/tmp/config"),
        vec!["/tmp/config/ignored", "/abs/ignored.esp"]
    );
}

#[test]
fn default_ignore_list_seeds_the_documented_plugins() {
    let config = MergedLandsConfig::with_default_ignored_plugins();
    assert_eq!(
        config.ignore_plugins().clone(),
        files(&[
            "delta-merged.omwaddon",
            "deleted_groundcover.omwaddon",
            "S3LightFixes.omwaddon",
            "distant_seafloor_2.00.esm",
            "OMWLLFMod.omwaddon",
            "merged.omwaddon",
            "Merged Objects.esp",
        ])
    );
    assert_eq!(config.generated_output_dir.as_deref(), Some("default_data_local"));
    assert!(config.openmw_cfg.is_none() && config.output_file_dir.is_none());
    assert!(config.ignore_plugins_from_path.is_empty() && config.generated_output_files.is_empty());
}
