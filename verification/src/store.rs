//! The state store: the data directory as a value, atomic save and load
//! over it, change-detecting backups, and the guarded directory-switch
//! workflow. The filesystem shell around these operations hands in what
//! it read and carries out what the results say.
use vstd::prelude::*;

use crate::backup::{
    abs_entries, cleanup_old_backups, sorted_desc, strictly_sorted_desc, AbsEntry, BackupEntry,
};
use crate::config::{AbsConfig, AppConfig};
use crate::text::str_eq;
use crate::timefmt::{format_last_modified, spec_last_modified, Timestamp};

verus! {

/// A data directory as a value: the data file's content if the file
/// exists, and the backup directory's entries.
#[derive(Clone, Debug)]
pub struct DataDir {
    pub data_file: Option<String>,
    pub backups: Vec<BackupEntry>,
}

/// The mathematical reading of a data directory.
#[verifier::ext_equal]
pub ghost struct AbsDir {
    pub data: Option<Seq<char>>,
    pub backups: Seq<AbsEntry>,
}

impl View for DataDir {
    type V = AbsDir;

    open spec fn view(&self) -> AbsDir {
        AbsDir {
            data: match self.data_file {
                Option::None => None,
                Option::Some(s) => Some(s@),
            },
            backups: abs_entries(self.backups@),
        }
    }
}

impl DataDir {
    /// A directory holding no data file and no backups.
    pub fn new_empty() -> (r: DataDir)
        ensures
            r@.data is None,
            r@.backups.len() == 0,
            dir_wf(r@),
    {
        let r = DataDir { data_file: None, backups: Vec::new() };
        proof {
            assert(abs_entries(r.backups@) =~= Seq::<AbsEntry>::empty());
        }
        r
    }
}

/// Backups stand newest first with pairwise distinct modification times.
pub open spec fn dir_wf(d: AbsDir) -> bool {
    strictly_sorted_desc(d.backups)
}

/// `t` is newer than every backup already present.
pub open spec fn fresh_time(d: AbsDir, t: nat) -> bool {
    forall|i: int| 0 <= i < d.backups.len() ==> d.backups[i].mtime < t
}

/// `min(len, keep)`: how many entries a prune to `keep` leaves of `len`.
pub open spec fn spec_keep(len: nat, keep: nat) -> int {
    if len <= keep {
        len as int
    } else {
        keep as int
    }
}

/// The backups after a new entry of content `c` at time `t` is added in
/// front and the directory is pruned to `keep`.
pub open spec fn abs_backup_push(backups: Seq<AbsEntry>, c: Seq<char>, t: nat, keep: nat) -> Seq<
    AbsEntry,
> {
    (seq![(AbsEntry { mtime: t, content: c })] + backups).take(spec_keep(backups.len() + 1, keep))
}

/// What a save of `c` does to the backups: nothing without a data file,
/// nothing when the content is unchanged, else the old content enters
/// the backups and the directory is pruned.
pub open spec fn abs_backup_step(d: AbsDir, c: Seq<char>, keep: nat, t: nat) -> AbsDir {
    match d.data {
        Option::None => d,
        Option::Some(oldc) => if oldc == c {
            d
        } else {
            AbsDir { data: d.data, backups: abs_backup_push(d.backups, oldc, t, keep) }
        },
    }
}

/// A whole save: the backup step, then the data file holds `c`.
pub open spec fn abs_save(d: AbsDir, c: Seq<char>, keep: nat, t: nat) -> AbsDir {
    AbsDir { data: Some(c), backups: abs_backup_step(d, c, keep, t).backups }
}

/// What a load returns: the data file's content, if the file exists.
pub open spec fn abs_load(d: AbsDir) -> Option<Seq<char>> {
    d.data
}

proof fn lemma_push_front_strict(backups: Seq<AbsEntry>, e: AbsEntry)
    requires
        strictly_sorted_desc(backups),
        forall|i: int| 0 <= i < backups.len() ==> backups[i].mtime < e.mtime,
    ensures
        strictly_sorted_desc(seq![e] + backups),
{
    let s = seq![e] + backups;
    assert forall|i: int, j: int| 0 <= i < j < s.len() implies s[i].mtime > s[j].mtime by {
        if i == 0 {
            assert(s[j] == backups[j - 1]);
        } else {
            assert(s[i] == backups[i - 1] && s[j] == backups[j - 1]);
        }
    }
}

proof fn lemma_take_strict(s: Seq<AbsEntry>, k: int)
    requires
        strictly_sorted_desc(s),
        0 <= k <= s.len(),
    ensures
        strictly_sorted_desc(s.take(k)),
{
    assert forall|i: int, j: int| 0 <= i < j < s.take(k).len() implies s.take(k)[i].mtime > s.take(
        k,
    )[j].mtime by {
        assert(s.take(k)[i] == s[i] && s.take(k)[j] == s[j]);
    }
}

/// Backs up the data file if and only if its content differs from what
/// is about to be written, then prunes to `retention`. Hands back the
/// pruned entries so the shell can delete their files.
pub fn create_backup_if_changed(
    dir: &mut DataDir,
    new_content: &str,
    retention: usize,
    nowk: u64,
) -> (removed: Vec<BackupEntry>)
    requires
        dir_wf(old(dir)@),
        fresh_time(old(dir)@, nowk as nat),
    ensures
        final(dir)@ == abs_backup_step(old(dir)@, new_content@, retention as nat, nowk as nat),
        dir_wf(final(dir)@),
        match old(dir)@.data {
            Option::None => removed@.len() == 0,
            Option::Some(oldc) => if oldc == new_content@ {
                removed@.len() == 0
            } else {
                abs_entries(removed@) == (seq![(AbsEntry { mtime: nowk as nat, content: oldc })]
                    + old(dir)@.backups).skip(
                    spec_keep(old(dir)@.backups.len() + 1, retention as nat),
                )
            },
        },
{
    let make: Option<String> = match &dir.data_file {
        Option::None => None,
        Option::Some(s) => if str_eq(s.as_str(), new_content) {
            None
        } else {
            Some(s.clone())
        },
    };
    match make {
        Option::None => {
            let removed: Vec<BackupEntry> = Vec::new();
            proof {
                assert(dir@ =~= abs_backup_step(
                    dir@,
                    new_content@,
                    retention as nat,
                    nowk as nat,
                ));
            }
            removed
        },
        Option::Some(c) => {
            let ghost prevdir = dir@;
            let ghost prev = dir.backups@;
            let e = BackupEntry { mtime: nowk, content: c };
            dir.backups.insert(0, e);
            proof {
                assert(abs_entries(dir.backups@) =~= seq![e@] + abs_entries(prev));
                lemma_push_front_strict(abs_entries(prev), e@);
                assert(strictly_sorted_desc(abs_entries(dir.backups@)));
            }
            let ghost mid = dir.backups@;
            let removed = cleanup_old_backups(&mut dir.backups, retention);
            proof {
                let keeplen = spec_keep(prev.len() + 1, retention as nat);
                assert(sorted_desc(abs_entries(mid)));
                assert(abs_entries(dir.backups@) == abs_entries(mid).take(keeplen));
                assert(abs_entries(mid) == seq![e@] + abs_entries(prev));
                lemma_take_strict(abs_entries(mid), keeplen);
                assert(abs_entries(dir.backups@) == abs_backup_push(
                    prevdir.backups,
                    e@.content,
                    nowk as nat,
                    retention as nat,
                ));
                assert(dir@ =~= abs_backup_step(
                    prevdir,
                    new_content@,
                    retention as nat,
                    nowk as nat,
                ));
            }
            removed
        },
    }
}

/// The backup decision alone, for a shell that reads the old content
/// itself: a backup is owed if and only if a data file exists and its
/// content differs from what is about to be written.
pub fn backup_needed(old_content: Option<&str>, new_content: &str) -> (r: bool)
    ensures
        r == (old_content is Some && old_content->Some_0@ != new_content@),
{
    match old_content {
        Option::None => false,
        Option::Some(s) => !str_eq(s, new_content),
    }
}

/// Backs up the data file unconditionally (used when a directory is
/// abandoned); no pruning happens here. Reports whether there was a data
/// file to back up.
pub fn backup_file(dir: &mut DataDir, nowk: u64) -> (made: bool)
    requires
        dir_wf(old(dir)@),
        fresh_time(old(dir)@, nowk as nat),
    ensures
        final(dir)@.data == old(dir)@.data,
        made == (old(dir)@.data is Some),
        made ==> final(dir)@.backups == seq![
            (AbsEntry { mtime: nowk as nat, content: old(dir)@.data->Some_0 }),
        ] + old(dir)@.backups,
        !made ==> final(dir)@.backups == old(dir)@.backups,
        dir_wf(final(dir)@),
{
    let make: Option<String> = match &dir.data_file {
        Option::None => None,
        Option::Some(s) => Some(s.clone()),
    };
    match make {
        Option::None => false,
        Option::Some(c) => {
            let ghost prev = dir.backups@;
            let e = BackupEntry { mtime: nowk, content: c };
            dir.backups.insert(0, e);
            proof {
                assert(abs_entries(dir.backups@) =~= seq![e@] + abs_entries(prev));
                lemma_push_front_strict(abs_entries(prev), e@);
            }
            true
        },
    }
}

/// Brings the current data file (if any) to the target directory,
/// leaving the target's backups untouched.
pub fn copy_data_to_new_dir(current: &DataDir, target: &mut DataDir)
    ensures
        final(target)@.backups == old(target)@.backups,
        current@.data is Some ==> final(target)@.data == current@.data,
        current@.data is None ==> final(target)@.data == old(target)@.data,
{
    match &current.data_file {
        Option::None => {},
        Option::Some(s) => {
            target.data_file = Some(s.clone());
        },
    }
}

/// Saves `content` as the data file: the old content is backed up first
/// if it differs, the backups are pruned to `retention`, and the data
/// file then holds exactly `content`. Hands back the pruned entries.
pub fn save_state(dir: &mut DataDir, content: &str, retention: usize, nowk: u64) -> (removed: Vec<
    BackupEntry,
>)
    requires
        dir_wf(old(dir)@),
        fresh_time(old(dir)@, nowk as nat),
    ensures
        final(dir)@ == abs_save(old(dir)@, content@, retention as nat, nowk as nat),
        dir_wf(final(dir)@),
        match old(dir)@.data {
            Option::None => removed@.len() == 0,
            Option::Some(oldc) => if oldc == content@ {
                removed@.len() == 0
            } else {
                abs_entries(removed@) == (seq![(AbsEntry { mtime: nowk as nat, content: oldc })]
                    + old(dir)@.backups).skip(
                    spec_keep(old(dir)@.backups.len() + 1, retention as nat),
                )
            },
        },
{
    let removed = create_backup_if_changed(dir, content, retention, nowk);
    dir.data_file = Some(content.to_owned());
    proof {
        assert(dir@ =~= abs_save(old(dir)@, content@, retention as nat, nowk as nat));
    }
    removed
}

/// Loads the data file's content, or reports that none exists yet.
pub fn load_state(dir: &DataDir) -> (r: Option<String>)
    ensures
        match abs_load(dir@) {
            Option::None => r is None,
            Option::Some(c) => r is Some && r->Some_0@ == c,
        },
{
    match &dir.data_file {
        Option::None => None,
        Option::Some(s) => Some(s.clone()),
    }
}

/// What the shell found when it probed a data file inside a candidate
/// directory.
#[derive(Clone, Copy, Debug)]
pub enum DataFileProbe {
    Missing,
    PresentUnknownTime,
    PresentModified(Timestamp),
}

/// What the shell found when it probed a candidate directory: whether
/// the path existed, whether it could be created, whether it is a
/// directory, whether a marker file could be written, and the data-file
/// probe.
#[derive(Clone, Copy, Debug)]
pub struct DirProbe {
    pub path_exists: bool,
    pub create_ok: bool,
    pub is_dir: bool,
    pub writable: bool,
    pub data_file: DataFileProbe,
}

/// The three-way classification of a candidate directory.
#[derive(Clone, Debug)]
pub enum SwitchDirCheck {
    EmptyDir,
    HasExistingData { last_modified: String },
    Invalid { reason: String },
}

/// The mathematical reading of a classification.
#[verifier::ext_equal]
pub ghost enum AbsCheck {
    EmptyDir,
    HasExistingData(Seq<char>),
    Invalid(Seq<char>),
}

impl View for SwitchDirCheck {
    type V = AbsCheck;

    open spec fn view(&self) -> AbsCheck {
        match self {
            SwitchDirCheck::EmptyDir => AbsCheck::EmptyDir,
            SwitchDirCheck::HasExistingData { last_modified } => AbsCheck::HasExistingData(
                last_modified@,
            ),
            SwitchDirCheck::Invalid { reason } => AbsCheck::Invalid(reason@),
        }
    }
}

/// How a probe classifies: a path that neither exists nor could be
/// created, a non-directory, or an unwritable directory is invalid; a
/// writable directory is empty or has existing data, labelled with the
/// data file's modification time (or `unknown`).
pub open spec fn spec_check_target_dir(p: DirProbe) -> AbsCheck {
    if !p.path_exists && !p.create_ok {
        AbsCheck::Invalid("cannot create directory"@)
    } else if !p.is_dir {
        AbsCheck::Invalid("not a directory"@)
    } else if !p.writable {
        AbsCheck::Invalid("not writable"@)
    } else {
        match p.data_file {
            DataFileProbe::Missing => AbsCheck::EmptyDir,
            DataFileProbe::PresentUnknownTime => AbsCheck::HasExistingData("unknown"@),
            DataFileProbe::PresentModified(t) => AbsCheck::HasExistingData(spec_last_modified(t)),
        }
    }
}

/// Classifies a candidate directory from what the shell probed.
pub fn check_target_dir(probe: &DirProbe) -> (r: SwitchDirCheck)
    ensures
        r@ == spec_check_target_dir(*probe),
{
    if !probe.path_exists && !probe.create_ok {
        SwitchDirCheck::Invalid { reason: "cannot create directory".to_owned() }
    } else if !probe.is_dir {
        SwitchDirCheck::Invalid { reason: "not a directory".to_owned() }
    } else if !probe.writable {
        SwitchDirCheck::Invalid { reason: "not writable".to_owned() }
    } else {
        match probe.data_file {
            DataFileProbe::Missing => SwitchDirCheck::EmptyDir,
            DataFileProbe::PresentUnknownTime => SwitchDirCheck::HasExistingData {
                last_modified: "unknown".to_owned(),
            },
            DataFileProbe::PresentModified(t) => SwitchDirCheck::HasExistingData {
                last_modified: format_last_modified(&t),
            },
        }
    }
}

/// A candidate classifies as an empty directory exactly when it exists
/// or could be created, is a writable directory, and holds no data
/// file yet.
pub proof fn lemma_empty_dir_classification(p: DirProbe)
    ensures
        (spec_check_target_dir(p) == AbsCheck::EmptyDir) <==> ((p.path_exists || p.create_ok)
            && p.is_dir && p.writable && p.data_file is Missing),
{
}

/// A valid candidate holding a data file with a readable modification
/// time classifies as existing data, labelled with exactly that time's
/// `YYYY-MM-DD HH:MM:SS` rendering.
pub proof fn lemma_existing_data_classification(p: DirProbe, t: Timestamp)
    requires
        (p.path_exists || p.create_ok) && p.is_dir && p.writable,
        p.data_file == DataFileProbe::PresentModified(t),
    ensures
        spec_check_target_dir(p) == AbsCheck::HasExistingData(spec_last_modified(t)),
{
}

/// The facade's pure inspection of a candidate directory; safe to call
/// repeatedly, it decides nothing.
pub fn check_switch_dir(probe: &DirProbe) -> (r: SwitchDirCheck)
    ensures
        r@ == spec_check_target_dir(*probe),
{
    check_target_dir(probe)
}

/// The verdict of the writability probe: a directory that exists or
/// could be created, in which writing the marker file and removing it
/// again both succeeded.
pub fn is_dir_writable(path_exists: bool, create_ok: bool, write_ok: bool, remove_ok: bool) -> (r:
    bool)
    ensures
        r == ((path_exists || create_ok) && write_ok && remove_ok),
{
    if !path_exists && !create_ok {
        false
    } else {
        write_ok && remove_ok
    }
}

/// The read-only snapshot shown to the caller.
#[derive(Clone, Debug)]
pub struct DataDirInfo {
    pub path: String,
    pub is_default: bool,
    pub data_file_exists: bool,
    pub is_writable: bool,
}

/// Combines the configuration with what the shell probed into the
/// snapshot; nothing is mutated.
pub fn get_data_dir_info(
    cfg: &AppConfig,
    default_dir: &str,
    data_file_exists: bool,
    writable: bool,
) -> (r: DataDirInfo)
    ensures
        r.path@ == cfg@.data_dir,
        r.is_default == (cfg@.data_dir == default_dir@),
        r.data_file_exists == data_file_exists,
        r.is_writable == writable,
{
    DataDirInfo {
        path: cfg.data_dir.clone(),
        is_default: str_eq(cfg.data_dir.as_str(), default_dir),
        data_file_exists,
        is_writable: writable,
    }
}

/// The caller's choice after seeing a classification.
#[derive(Clone, Copy, Debug, PartialEq, Eq, Structural)]
pub enum SwitchDirAction {
    CopyToNew,
    UseExisting,
    Cancel,
}

/// Applies the chosen switch action.
///
/// `Cancel` touches nothing. `CopyToNew` brings the current data file to
/// the target (the target's backups stay as they are) and repoints the
/// configuration. `UseExisting` backs the current data file up into the
/// current directory's own backups, leaves the target untouched as the
/// authoritative data, and repoints the configuration. The retention
/// count is never changed.
pub fn switch_data_dir(
    cfg: &mut AppConfig,
    current: &mut DataDir,
    target: &mut DataDir,
    new_dir: &str,
    action: SwitchDirAction,
    nowk: u64,
)
    requires
        action is UseExisting ==> dir_wf(old(current)@) && fresh_time(
            old(current)@,
            nowk as nat,
        ),
    ensures
        action is Cancel ==> final(cfg)@ == old(cfg)@ && final(current)@ == old(current)@ && final(target)@ == old(target)@,
        action is Cancel || final(cfg)@ == (AbsConfig {
            data_dir: new_dir@,
            backup_count: old(cfg)@.backup_count,
        }),
        action is CopyToNew ==> final(current)@ == old(current)@,
        action is CopyToNew ==> final(target)@.backups == old(target)@.backups,
        action is CopyToNew && old(current)@.data is Some ==> final(target)@.data == old(current)@.data,
        action is CopyToNew && old(current)@.data is None ==> final(target)@.data == old(target)@.data,
        action is UseExisting ==> final(target)@ == old(target)@,
        action is UseExisting ==> final(current)@.data == old(current)@.data,
        action is UseExisting && old(current)@.data is Some ==> final(current)@.backups == seq![
            (AbsEntry { mtime: nowk as nat, content: old(current)@.data->Some_0 }),
        ] + old(current)@.backups,
        action is UseExisting && old(current)@.data is None ==> final(current)@.backups == old(current)@.backups,
        action is UseExisting ==> dir_wf(final(current)@),
{
    match action {
        SwitchDirAction::Cancel => {},
        SwitchDirAction::CopyToNew => {
            copy_data_to_new_dir(current, target);
            cfg.data_dir = new_dir.to_owned();
            proof {
                assert(cfg@ =~= (AbsConfig {
                    data_dir: new_dir@,
                    backup_count: old(cfg)@.backup_count,
                }));
            }
        },
        SwitchDirAction::UseExisting => {
            backup_file(current, nowk);
            cfg.data_dir = new_dir.to_owned();
            proof {
                assert(cfg@ =~= (AbsConfig {
                    data_dir: new_dir@,
                    backup_count: old(cfg)@.backup_count,
                }));
            }
        },
    }
}

/// Returns to the platform default directory: the current data file is
/// backed up in place when the current directory differs from the
/// default, the configuration then points at the default, and the
/// retention count is preserved. Nothing is ever copied into the
/// default directory.
pub fn reset_data_dir(cfg: &mut AppConfig, current: &mut DataDir, default_dir: &str, nowk: u64)
    requires
        dir_wf(old(current)@),
        old(current)@.data is Some && old(cfg)@.data_dir != default_dir@ ==> fresh_time(
            old(current)@,
            nowk as nat,
        ),
    ensures
        final(cfg)@.data_dir == default_dir@,
        final(cfg)@.backup_count == old(cfg)@.backup_count,
        final(current)@.data == old(current)@.data,
        old(current)@.data is Some && old(cfg)@.data_dir != default_dir@ ==> final(current)@.backups == seq![
            (AbsEntry { mtime: nowk as nat, content: old(current)@.data->Some_0 }),
        ] + old(current)@.backups,
        !(old(current)@.data is Some && old(cfg)@.data_dir != default_dir@) ==> final(current)@.backups == old(current)@.backups,
        dir_wf(final(current)@),
{
    if current.data_file.is_some() {
        if !str_eq(cfg.data_dir.as_str(), default_dir) {
            backup_file(current, nowk);
        }
    }
    cfg.data_dir = default_dir.to_owned();
}

/// A sequence of saves applied in order to a directory.
pub open spec fn abs_apply_saves(d: AbsDir, saves: Seq<(Seq<char>, nat)>, keep: nat) -> AbsDir
    decreases saves.len(),
{
    if saves.len() == 0 {
        d
    } else {
        abs_save(abs_apply_saves(d, saves.drop_last(), keep), saves.last().0, keep, saves.last().1)
    }
}

/// Saving distinct contents `c1 .. cn` into a directory that starts with
/// no data file and no backups leaves `min(n - 1, retention)` backup
/// entries: the first save has nothing to protect, every later one adds
/// a backup, and pruning caps the count at the retention.
pub proof fn lemma_save_sequence_backup_count(
    d: AbsDir,
    saves: Seq<(Seq<char>, nat)>,
    keep: nat,
)
    requires
        d.data is None,
        d.backups.len() == 0,
        saves.len() >= 1,
        forall|i: int, j: int| 0 <= i < j < saves.len() ==> saves[i].0 != saves[j].0,
    ensures
        abs_apply_saves(d, saves, keep).data == Some(saves.last().0),
        abs_apply_saves(d, saves, keep).backups.len() == spec_keep((saves.len() - 1) as nat, keep),
    decreases saves.len(),
{
    if saves.len() == 1 {
        assert(saves.drop_last().len() == 0);
        assert(abs_apply_saves(d, saves.drop_last(), keep) == d);
    } else {
        let prefix = saves.drop_last();
        assert forall|i: int, j: int| 0 <= i < j < prefix.len() implies prefix[i].0
            != prefix[j].0 by {
            assert(prefix[i] == saves[i] && prefix[j] == saves[j]);
        }
        lemma_save_sequence_backup_count(d, prefix, keep);
        let dprev = abs_apply_saves(d, prefix, keep);
        assert(prefix.last() == saves[saves.len() - 2]);
        assert(saves[saves.len() - 2].0 != saves[saves.len() - 1].0);
        assert(dprev.data == Some(saves[saves.len() - 2].0));
        let pushed = seq![
            (AbsEntry { mtime: saves.last().1, content: saves[saves.len() - 2].0 }),
        ] + dprev.backups;
        assert(abs_apply_saves(d, saves, keep).backups == pushed.take(
            spec_keep(dprev.backups.len() + 1, keep),
        ));
    }
}

/// Saving the very content that is already on disk adds no backup entry.
pub proof fn lemma_save_same_content_no_backup(d: AbsDir, keep: nat, t: nat)
    requires
        d.data is Some,
    ensures
        abs_save(d, d.data->Some_0, keep, t).backups == d.backups,
{
}

/// A load right after a save returns exactly what was saved.
pub proof fn lemma_load_after_save(d: AbsDir, c: Seq<char>, keep: nat, t: nat)
    ensures
        abs_load(abs_save(d, c, keep, t)) == Some(c),
{
}

/// Before any save there is nothing to load.
pub proof fn lemma_load_initially_absent(d: AbsDir)
    requires
        d.data is None,
    ensures
        abs_load(d) is None,
{
}

} // verus!
