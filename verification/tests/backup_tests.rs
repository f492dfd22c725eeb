use notebook_store::backup::{cleanup_old_backups, BackupEntry};
use notebook_store::timefmt::{
    backup_filename, format_last_modified, generate_backup_filename, is_backup_name, Timestamp,
};

fn entry(mtime: u64, content: &str) -> BackupEntry {
    BackupEntry { mtime, content: String::from(content) }
}

#[test]
fn prune_keeps_the_newest_entries() {
    let mut v = vec![entry(1, "a"), entry(5, "e"), entry(3, "c"), entry(2, "b"), entry(4, "d")];
    let removed = cleanup_old_backups(&mut v, 2);
    assert_eq!(v.len(), 2);
    assert_eq!(v[0].mtime, 5);
    assert_eq!(v[1].mtime, 4);
    assert_eq!(removed.len(), 3);
    let mut gone: Vec<u64> = removed.iter().map(|e| e.mtime).collect();
    gone.sort();
    assert_eq!(gone, vec![1, 2, 3]);
}

#[test]
fn prune_with_zero_retention_removes_everything() {
    let mut v = vec![entry(1, "a"), entry(2, "b")];
    let removed = cleanup_old_backups(&mut v, 0);
    assert!(v.is_empty());
    assert_eq!(removed.len(), 2);
}

#[test]
fn prune_within_bounds_touches_nothing() {
    let mut v = vec![entry(2, "b"), entry(9, "x"), entry(4, "d")];
    let removed = cleanup_old_backups(&mut v, 3);
    assert!(removed.is_empty());
    // order is preserved exactly when nothing has to go
    assert_eq!(v.iter().map(|e| e.mtime).collect::<Vec<_>>(), vec![2, 9, 4]);
}

#[test]
fn prune_keeps_contents_with_their_times() {
    let mut v = vec![entry(10, "new"), entry(1, "old"), entry(5, "mid")];
    let removed = cleanup_old_backups(&mut v, 2);
    assert_eq!(v[0].content, "new");
    assert_eq!(v[1].content, "mid");
    assert_eq!(removed[0].content, "old");
}

#[test]
fn backup_filename_format_is_exact() {
    let t = Timestamp { year: 2024, month: 3, day: 5, hour: 7, minute: 8, second: 9 };
    assert_eq!(backup_filename(&t), "cmd_notebook_20240305_070809.json");
    let t2 = Timestamp { year: 999, month: 12, day: 31, hour: 23, minute: 59, second: 59 };
    assert_eq!(backup_filename(&t2), "cmd_notebook_09991231_235959.json");
}

#[test]
fn last_modified_label_is_exact() {
    let t = Timestamp { year: 2023, month: 11, day: 30, hour: 0, minute: 0, second: 1 };
    assert_eq!(format_last_modified(&t), "2023-11-30 00:00:01");
}

#[test]
fn backup_name_filter_accepts_generated_names_only() {
    let t = Timestamp { year: 2024, month: 3, day: 5, hour: 7, minute: 8, second: 9 };
    assert!(is_backup_name(&backup_filename(&t)));
    assert!(is_backup_name("cmd_notebook_20240305_070809.json"));
    assert!(!is_backup_name("cmd_notebook.json"));
    assert!(!is_backup_name("other_20240305_070809.json"));
    assert!(!is_backup_name("cmd_notebook_20240305_070809.txt"));
    assert!(!is_backup_name(""));
}

#[test]
fn generated_filename_passes_the_filter() {
    let name = generate_backup_filename();
    assert!(is_backup_name(&name));
    assert_eq!(name.chars().count(), "cmd_notebook_20240305_070809.json".chars().count());
}
