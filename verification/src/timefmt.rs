//! Calendar timestamps as plain field values, the backup file name derived
//! from them, and the human-readable modification-time label.
use vstd::prelude::*;

use crate::text::{push_padded, spec_decimal, spec_padded, str_eq};
use chrono::Datelike;
use chrono::Timelike;

verus! {

use vstd::string::StrSliceExecFns;
use vstd::string::StringExecFns;

/// A local calendar time, split into plain fields.
#[derive(Clone, Copy, Debug, PartialEq, Eq, Structural)]
pub struct Timestamp {
    pub year: u32,
    pub month: u32,
    pub day: u32,
    pub hour: u32,
    pub minute: u32,
    pub second: u32,
}

impl Timestamp {
    /// Field ranges of a calendar time. The year is left open: any value
    /// can be labelled, it only widens the printed field.
    pub open spec fn wf(self) -> bool {
        &&& 1 <= self.month <= 12
        &&& 1 <= self.day <= 31
        &&& self.hour <= 23
        &&& self.minute <= 59
        &&& self.second <= 59
    }
}

/// Reads the clock. Relies on `chrono::Local::now` and the `chrono`
/// `Datelike` / `Timelike` accessors, whose documentation fixes the ranges:
/// month 1..=12, day 1..=31, hour 0..=23, minute 0..=59, second 0..=59.
/// Nothing is promised of the year. On a machine whose clock predates the
/// Unix epoch or whose timezone data is unusable, `chrono::Local::now`
/// aborts the process rather than returning; that depends on the host,
/// not on any input.
#[verifier::external_body]
pub fn now_local() -> (t: Timestamp)
    ensures
        1 <= t.month <= 12,
        1 <= t.day <= 31,
        t.hour <= 23,
        t.minute <= 59,
        t.second <= 59,
{
    let now = chrono::Local::now();
    Timestamp {
        year: now.year() as u32,
        month: now.month(),
        day: now.day(),
        hour: now.hour(),
        minute: now.minute(),
        second: now.second(),
    }
}

/// The name of a backup entry made at time `t`:
/// `cmd_notebook_YYYYMMDD_HHMMSS.json`.
pub open spec fn spec_backup_filename(t: Timestamp) -> Seq<char> {
    "cmd_notebook_"@ + spec_padded(t.year as nat, 4) + spec_padded(t.month as nat, 2) + spec_padded(
        t.day as nat,
        2,
    ) + "_"@ + spec_padded(t.hour as nat, 2) + spec_padded(t.minute as nat, 2) + spec_padded(
        t.second as nat,
        2,
    ) + ".json"@
}

/// The label shown for a data file's modification time:
/// `YYYY-MM-DD HH:MM:SS`.
pub open spec fn spec_last_modified(t: Timestamp) -> Seq<char> {
    spec_padded(t.year as nat, 4) + "-"@ + spec_padded(t.month as nat, 2) + "-"@ + spec_padded(
        t.day as nat,
        2,
    ) + " "@ + spec_padded(t.hour as nat, 2) + ":"@ + spec_padded(t.minute as nat, 2) + ":"@
        + spec_padded(t.second as nat, 2)
}

/// Builds the backup file name for time `t`.
pub fn backup_filename(t: &Timestamp) -> (r: String)
    ensures
        r@ == spec_backup_filename(*t),
{
    let mut s = "cmd_notebook_".to_owned();
    push_padded(&mut s, t.year as usize, 4);
    push_padded(&mut s, t.month as usize, 2);
    push_padded(&mut s, t.day as usize, 2);
    s.append("_");
    push_padded(&mut s, t.hour as usize, 2);
    push_padded(&mut s, t.minute as usize, 2);
    push_padded(&mut s, t.second as usize, 2);
    s.append(".json");
    s
}

/// Builds the backup file name for the current local time.
pub fn generate_backup_filename() -> (r: String)
    ensures
        exists|t: Timestamp| t.wf() && r@ == spec_backup_filename(t),
{
    let t = now_local();
    let r = backup_filename(&t);
    proof {
        assert(t.wf() && r@ == spec_backup_filename(t));
    }
    r
}

/// Formats the modification-time label for `t`.
pub fn format_last_modified(t: &Timestamp) -> (r: String)
    ensures
        r@ == spec_last_modified(*t),
{
    let mut s = String::new();
    push_padded(&mut s, t.year as usize, 4);
    s.append("-");
    push_padded(&mut s, t.month as usize, 2);
    s.append("-");
    push_padded(&mut s, t.day as usize, 2);
    s.append(" ");
    push_padded(&mut s, t.hour as usize, 2);
    s.append(":");
    push_padded(&mut s, t.minute as usize, 2);
    s.append(":");
    push_padded(&mut s, t.second as usize, 2);
    s
}

/// Whether `s` is shaped like a backup entry's name: it starts with
/// `cmd_notebook_` and ends with `.json`.
pub open spec fn spec_is_backup_name(s: Seq<char>) -> bool {
    &&& s.len() >= 13
    &&& s.subrange(0, 13) == "cmd_notebook_"@
    &&& s.len() >= 5
    &&& s.subrange(s.len() - 5, s.len() as int) == ".json"@
}

/// Every name the store generates for a backup entry passes the
/// backup-name filter that pruning applies, so a backup is never
/// invisible to its own housekeeping.
pub proof fn lemma_generated_name_passes_filter(t: Timestamp)
    ensures
        spec_is_backup_name(spec_backup_filename(t)),
{
    reveal_strlit("cmd_notebook_");
    reveal_strlit(".json");
    let name = spec_backup_filename(t);
    assert(spec_decimal(t.year as nat).len() >= 1);
    assert(spec_padded(t.year as nat, 4).len() >= 4);
    assert(name.len() >= 18);
    assert(name.subrange(0, 13) =~= "cmd_notebook_"@);
    assert(name.subrange(name.len() - 5, name.len() as int) =~= ".json"@);
}

/// Tests whether a directory entry's name is shaped like a backup entry.
pub fn is_backup_name(name: &str) -> (r: bool)
    ensures
        r == spec_is_backup_name(name@),
{
    proof {
        reveal_strlit("cmd_notebook_");
        reveal_strlit(".json");
    }
    let n = name.unicode_len();
    if n < 13 {
        return false;
    }
    let head = name.substring_char(0, 13);
    let tail = name.substring_char(n - 5, n);
    str_eq(head, "cmd_notebook_") && str_eq(tail, ".json")
}

} // verus!
