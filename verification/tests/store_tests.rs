use notebook_store::config::AppConfig;
use notebook_store::store::{
    backup_file, backup_needed, check_switch_dir, check_target_dir, copy_data_to_new_dir,
    create_backup_if_changed, get_data_dir_info, is_dir_writable, load_state, reset_data_dir,
    save_state, switch_data_dir, DataDir, DataFileProbe, DirProbe, SwitchDirAction,
    SwitchDirCheck,
};
use notebook_store::timefmt::Timestamp;

fn empty_dir() -> DataDir {
    DataDir { data_file: None, backups: Vec::new() }
}

#[test]
fn save_sequence_retention_two_keeps_two_most_recent() {
    // retention 2; save A, B, C, D at increasing times
    let mut dir = empty_dir();
    save_state(&mut dir, "A", 2, 1);
    save_state(&mut dir, "B", 2, 2);
    save_state(&mut dir, "C", 2, 3);
    let removed = save_state(&mut dir, "D", 2, 4);
    assert_eq!(dir.data_file.as_deref(), Some("D"));
    assert_eq!(dir.backups.len(), 2);
    assert_eq!(dir.backups[0].content, "C");
    assert_eq!(dir.backups[0].mtime, 4);
    assert_eq!(dir.backups[1].content, "B");
    assert_eq!(dir.backups[1].mtime, 3);
    // the backup of "A" is the one pruned by the last save
    assert_eq!(removed.len(), 1);
    assert_eq!(removed[0].content, "A");
}

#[test]
fn save_sequence_count_is_saves_minus_one_under_retention() {
    let mut dir = empty_dir();
    let contents = ["a", "b", "c", "d", "e"];
    for (i, c) in contents.iter().enumerate() {
        save_state(&mut dir, c, 10, (i + 1) as u64);
    }
    assert_eq!(dir.backups.len(), contents.len() - 1);
}

#[test]
fn save_unchanged_content_adds_no_backup() {
    let mut dir = empty_dir();
    save_state(&mut dir, "same", 10, 1);
    assert_eq!(dir.backups.len(), 0);
    save_state(&mut dir, "same", 10, 2);
    assert_eq!(dir.backups.len(), 0);
    save_state(&mut dir, "other", 10, 3);
    assert_eq!(dir.backups.len(), 1);
    save_state(&mut dir, "other", 10, 4);
    assert_eq!(dir.backups.len(), 1);
}

#[test]
fn save_with_zero_retention_keeps_no_backups() {
    let mut dir = empty_dir();
    save_state(&mut dir, "one", 0, 1);
    save_state(&mut dir, "two", 0, 2);
    save_state(&mut dir, "three", 0, 3);
    assert_eq!(dir.data_file.as_deref(), Some("three"));
    assert!(dir.backups.is_empty());
}

#[test]
fn load_after_save_round_trips() {
    let mut dir = empty_dir();
    assert!(load_state(&dir).is_none());
    save_state(&mut dir, "{\"notes\":[1,2]}", 5, 1);
    assert_eq!(load_state(&dir).as_deref(), Some("{\"notes\":[1,2]}"));
}

#[test]
fn backup_if_changed_skips_missing_and_identical() {
    let mut dir = empty_dir();
    let removed = create_backup_if_changed(&mut dir, "new", 5, 1);
    assert!(removed.is_empty());
    assert_eq!(dir.backups.len(), 0);

    dir.data_file = Some(String::from("old"));
    create_backup_if_changed(&mut dir, "old", 5, 2);
    assert_eq!(dir.backups.len(), 0);

    create_backup_if_changed(&mut dir, "new", 5, 3);
    assert_eq!(dir.backups.len(), 1);
    assert_eq!(dir.backups[0].content, "old");
    assert_eq!(dir.backups[0].mtime, 3);
    // the data file itself is untouched by the backup step
    assert_eq!(dir.data_file.as_deref(), Some("old"));
}

#[test]
fn backup_file_copies_even_unchanged_content() {
    let mut dir = empty_dir();
    assert!(!backup_file(&mut dir, 1));
    dir.data_file = Some(String::from("X"));
    assert!(backup_file(&mut dir, 2));
    assert!(backup_file(&mut dir, 3));
    // unconditional copies: two entries of the same content, no pruning
    assert_eq!(dir.backups.len(), 2);
    assert_eq!(dir.backups[0].mtime, 3);
    assert_eq!(dir.backups[1].mtime, 2);
    assert_eq!(dir.backups[0].content, "X");
}

#[test]
fn copy_data_without_data_file_changes_nothing() {
    let current = empty_dir();
    let mut target = empty_dir();
    target.data_file = Some(String::from("kept"));
    copy_data_to_new_dir(&current, &mut target);
    assert_eq!(target.data_file.as_deref(), Some("kept"));
}

#[test]
fn backup_decision_truth_table() {
    assert!(!backup_needed(None, "new"));
    assert!(!backup_needed(Some("same"), "same"));
    assert!(backup_needed(Some("old"), "new"));
}

#[test]
fn switch_cancel_mutates_nothing() {
    let mut cfg = AppConfig { data_dir: String::from("/data/old"), backup_count: 7 };
    let mut current = empty_dir();
    current.data_file = Some(String::from("X"));
    let mut target = empty_dir();
    switch_data_dir(&mut cfg, &mut current, &mut target, "/data/new", SwitchDirAction::Cancel, 9);
    assert_eq!(cfg.data_dir, "/data/old");
    assert_eq!(cfg.backup_count, 7);
    assert_eq!(current.data_file.as_deref(), Some("X"));
    assert!(current.backups.is_empty());
    assert!(target.data_file.is_none());
    assert!(target.backups.is_empty());
}

#[test]
fn switch_copy_to_new_brings_data_and_repoints_config() {
    let mut cfg = AppConfig { data_dir: String::from("/data/old"), backup_count: 3 };
    let mut current = empty_dir();
    current.data_file = Some(String::from("X"));
    let mut target = empty_dir();
    switch_data_dir(
        &mut cfg,
        &mut current,
        &mut target,
        "/data/new",
        SwitchDirAction::CopyToNew,
        9,
    );
    assert_eq!(target.data_file.as_deref(), Some("X"));
    assert!(target.backups.is_empty());
    assert_eq!(cfg.data_dir, "/data/new");
    assert_eq!(cfg.backup_count, 3);
    // the old directory keeps its data file
    assert_eq!(current.data_file.as_deref(), Some("X"));
}

#[test]
fn switch_use_existing_backs_up_current_and_keeps_target() {
    let mut cfg = AppConfig { data_dir: String::from("/data/old"), backup_count: 3 };
    let mut current = empty_dir();
    current.data_file = Some(String::from("mine"));
    let mut target = empty_dir();
    target.data_file = Some(String::from("theirs"));
    switch_data_dir(
        &mut cfg,
        &mut current,
        &mut target,
        "/data/new",
        SwitchDirAction::UseExisting,
        9,
    );
    assert_eq!(target.data_file.as_deref(), Some("theirs"));
    assert_eq!(current.backups.len(), 1);
    assert_eq!(current.backups[0].content, "mine");
    assert_eq!(current.backups[0].mtime, 9);
    assert_eq!(cfg.data_dir, "/data/new");
}

#[test]
fn reset_backs_up_only_away_from_default() {
    let mut cfg = AppConfig { data_dir: String::from("/custom"), backup_count: 4 };
    let mut current = empty_dir();
    current.data_file = Some(String::from("X"));
    reset_data_dir(&mut cfg, &mut current, "/default", 5);
    assert_eq!(cfg.data_dir, "/default");
    assert_eq!(cfg.backup_count, 4);
    assert_eq!(current.backups.len(), 1);
    assert_eq!(current.backups[0].content, "X");

    // already at the default: nothing is backed up
    let mut cfg2 = AppConfig { data_dir: String::from("/default"), backup_count: 4 };
    let mut current2 = empty_dir();
    current2.data_file = Some(String::from("X"));
    reset_data_dir(&mut cfg2, &mut current2, "/default", 6);
    assert_eq!(cfg2.data_dir, "/default");
    assert!(current2.backups.is_empty());
}

#[test]
fn check_creatable_empty_path_classifies_empty() {
    let probe = DirProbe {
        path_exists: false,
        create_ok: true,
        is_dir: true,
        writable: true,
        data_file: DataFileProbe::Missing,
    };
    assert!(matches!(check_target_dir(&probe), SwitchDirCheck::EmptyDir));
    assert!(matches!(check_switch_dir(&probe), SwitchDirCheck::EmptyDir));
}

#[test]
fn check_existing_data_reports_parseable_timestamp() {
    let t = Timestamp { year: 2024, month: 3, day: 5, hour: 7, minute: 8, second: 9 };
    let probe = DirProbe {
        path_exists: true,
        create_ok: false,
        is_dir: true,
        writable: true,
        data_file: DataFileProbe::PresentModified(t),
    };
    match check_target_dir(&probe) {
        SwitchDirCheck::HasExistingData { last_modified } => {
            assert_eq!(last_modified, "2024-03-05 07:08:09");
        }
        other => panic!("expected existing data, got {:?}", other),
    }
}

#[test]
fn check_unknown_timestamp_uses_sentinel() {
    let probe = DirProbe {
        path_exists: true,
        create_ok: false,
        is_dir: true,
        writable: true,
        data_file: DataFileProbe::PresentUnknownTime,
    };
    match check_target_dir(&probe) {
        SwitchDirCheck::HasExistingData { last_modified } => {
            assert_eq!(last_modified, "unknown");
        }
        other => panic!("expected existing data, got {:?}", other),
    }
}

#[test]
fn check_invalid_reasons() {
    let base = DirProbe {
        path_exists: false,
        create_ok: false,
        is_dir: false,
        writable: false,
        data_file: DataFileProbe::Missing,
    };
    match check_target_dir(&base) {
        SwitchDirCheck::Invalid { reason } => assert_eq!(reason, "cannot create directory"),
        other => panic!("unexpected {:?}", other),
    }
    let not_dir = DirProbe { path_exists: true, is_dir: false, ..base };
    match check_target_dir(&not_dir) {
        SwitchDirCheck::Invalid { reason } => assert_eq!(reason, "not a directory"),
        other => panic!("unexpected {:?}", other),
    }
    let not_writable = DirProbe { path_exists: true, is_dir: true, writable: false, ..base };
    match check_target_dir(&not_writable) {
        SwitchDirCheck::Invalid { reason } => assert_eq!(reason, "not writable"),
        other => panic!("unexpected {:?}", other),
    }
}

#[test]
fn writable_verdict_table() {
    assert!(!is_dir_writable(false, false, true, true));
    assert!(!is_dir_writable(false, false, false, false));
    assert!(is_dir_writable(false, true, true, true));
    assert!(is_dir_writable(true, false, true, true));
    assert!(!is_dir_writable(true, false, false, false));
    // the marker must come off again: a write that sticks is not writable
    assert!(!is_dir_writable(true, true, true, false));
    assert!(!is_dir_writable(false, true, true, false));
}

#[test]
fn data_dir_info_snapshot() {
    let cfg = AppConfig { data_dir: String::from("/somewhere"), backup_count: 10 };
    let info = get_data_dir_info(&cfg, "/somewhere", true, false);
    assert_eq!(info.path, "/somewhere");
    assert!(info.is_default);
    assert!(info.data_file_exists);
    assert!(!info.is_writable);

    let info2 = get_data_dir_info(&cfg, "/default", false, true);
    assert!(!info2.is_default);
}
