use notebook_store::config::{
    backup_dir_path, config_file_path, data_file_path, load_config, parse_config, render_config,
    tmp_path, AppConfig,
};
use notebook_store::default_backup_count;
use notebook_store::errors::{StoreError, SwitchStage};

#[test]
fn stock_retention_is_ten() {
    assert_eq!(default_backup_count(), 10);
}

#[test]
fn render_produces_pretty_two_field_object() {
    let cfg = AppConfig { data_dir: String::from("/home/u/notes"), backup_count: 10 };
    let text = render_config(&cfg);
    assert_eq!(
        text,
        "{\n  \"data_dir\": \"/home/u/notes\",\n  \"backup_count\": 10\n}"
    );
}

#[test]
fn parse_accepts_both_field_orders() {
    let a = parse_config("{\"data_dir\": \"/x\", \"backup_count\": 5}").unwrap();
    assert_eq!(a.data_dir, "/x");
    assert_eq!(a.backup_count, 5);
    let z = parse_config("{\"data_dir\": \"/x\", \"backup_count\": 0}").unwrap();
    assert_eq!(z.backup_count, 0);

    let b = parse_config("  {\n \"backup_count\" : 5 ,\n \"data_dir\" : \"/x\" }\n").unwrap();
    assert_eq!(b.data_dir, "/x");
    assert_eq!(b.backup_count, 5);
}

#[test]
fn parse_ignores_unknown_keys_with_scalar_values() {
    let a = parse_config(
        "{\"theme\": \"dark\", \"data_dir\": \"/x\", \"extra\": 42, \"flag\": true, \"other\": null, \"more\": false}",
    )
    .unwrap();
    assert_eq!(a.data_dir, "/x");
    assert_eq!(a.backup_count, 10);
    // an unknown key may even repeat, and may carry a negative number
    let b = parse_config("{\"x\": 1, \"x\": -2, \"data_dir\": \"/y\"}").unwrap();
    assert_eq!(b.data_dir, "/y");
}

#[test]
fn parse_defaults_missing_backup_count() {
    let a = parse_config("{\"data_dir\": \"/x\"}").unwrap();
    assert_eq!(a.backup_count, 10);
}

#[test]
fn parse_rejects_malformed_files() {
    assert!(parse_config("").is_none());
    assert!(parse_config("{}").is_none());
    assert!(parse_config("{\"backup_count\": 5}").is_none());
    assert!(parse_config("{\"data_dir\": \"/x\",}").is_none());
    assert!(parse_config("{\"data_dir\": \"/x\"} trailing").is_none());
    assert!(parse_config("{\"data_dir\": \"/x\", \"data_dir\": \"/y\"}").is_none());
    assert!(parse_config("{\"data_dir\": \"/x\", \"unknown\": [1]}").is_none());
    assert!(parse_config("{\"data_dir\": 3}").is_none());
    assert!(parse_config("{\"data_dir\": \"/x\", \"backup_count\": \"5\"}").is_none());
    assert!(parse_config("{\"data_dir\": \"unterminated}").is_none());
    assert!(parse_config("{\"data_dir\": \"/x\", \"backup_count\": 007}").is_none());
    assert!(parse_config("{\"data_dir\": \"/x\", \"unknown\": 01}").is_none());
    assert!(parse_config("{\"data_dir\": \"bad\\escape\"}").is_none());
}

#[test]
fn parse_resolves_standard_string_escapes() {
    let a = parse_config("{\"data_dir\": \"a\\tb\\nc\\/d\"}").unwrap();
    assert_eq!(a.data_dir, "a\tb\nc/d");
    // an escape outside the table is refused
    assert!(parse_config("{\"data_dir\": \"bad\\q\"}").is_none());
}

#[test]
fn render_parse_round_trips_with_escapes() {
    let cfg = AppConfig {
        data_dir: String::from("C:\\Users\\someone\\my \"notes\""),
        backup_count: 3,
    };
    let text = render_config(&cfg);
    let back = parse_config(&text).unwrap();
    assert_eq!(back.data_dir, cfg.data_dir);
    assert_eq!(back.backup_count, cfg.backup_count);
}

#[test]
fn load_config_bootstraps_on_first_run() {
    let r = load_config(None, "/default/dir").unwrap();
    assert_eq!(r.0.data_dir, "/default/dir");
    assert_eq!(r.0.backup_count, 10);
    assert!(r.1, "a first-run configuration must be persisted");
}

#[test]
fn load_config_repairs_empty_data_dir() {
    let r = load_config(Some("{\"data_dir\": \"\", \"backup_count\": 2}"), "/default").unwrap();
    assert_eq!(r.0.data_dir, "/default");
    assert_eq!(r.0.backup_count, 2);
    assert!(!r.1);
}

#[test]
fn load_config_reports_corrupt_files() {
    let r = load_config(Some("not json at all"), "/default");
    assert!(matches!(r, Err(StoreError::ConfigCorrupt)));
}

#[test]
fn derived_paths() {
    assert_eq!(config_file_path("/cfg"), "/cfg/app_config.json");
    assert_eq!(data_file_path("/data"), "/data/cmd_notebook.json");
    assert_eq!(backup_dir_path("/data"), "/data/.backup");
    assert_eq!(tmp_path("/data/cmd_notebook.json"), "/data/cmd_notebook.json.tmp");
}

#[test]
fn default_config_is_empty_dir_with_stock_retention() {
    let cfg = AppConfig::default();
    assert_eq!(cfg.data_dir, "");
    assert_eq!(cfg.backup_count, 10);
}

#[test]
fn error_messages_name_each_kind() {
    assert_eq!(
        StoreError::ConfigCorrupt.message(),
        "configuration file is malformed"
    );
    assert_eq!(
        StoreError::PlatformPathUnavailable.message(),
        "cannot resolve an application directory"
    );
    assert_eq!(
        StoreError::ConfigWriteFailed.message(),
        "cannot write the configuration file"
    );
    assert_eq!(StoreError::DataReadFailed.message(), "cannot read the data file");
    assert_eq!(StoreError::DataWriteFailed.message(), "cannot write the data file");
    assert_eq!(StoreError::BackupFailed.message(), "cannot create a backup");
    assert_eq!(
        StoreError::DirSwitchFailed(SwitchStage::Copy).message(),
        "directory switch failed while copying data"
    );
    assert_eq!(
        StoreError::DirSwitchFailed(SwitchStage::Backup).message(),
        "directory switch failed while backing up data"
    );
    assert_eq!(
        StoreError::DirSwitchFailed(SwitchStage::ConfigSave).message(),
        "directory switch failed while saving the configuration"
    );
}
