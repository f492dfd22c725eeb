//! Persistent storage for a note-taking application's state: a JSON
//! document kept at a configurable location, protected by timestamped
//! backups with retention-based pruning, and a guarded workflow for
//! relocating the storage directory without silent data loss. The
//! filesystem itself is modelled as values; a thin shell performs the
//! actual reads and writes and carries out what these operations decide.
pub mod backup;
pub mod config;
pub mod errors;
pub mod json;
pub mod store;
pub mod text;
pub mod timefmt;

use vstd::prelude::*;

verus! {

/// Backup retention used when the configuration does not say otherwise.
pub const DEFAULT_BACKUP_COUNT: usize = 10;

/// Retention count applied to a configuration that names none.
pub fn default_backup_count() -> (r: usize)
    ensures
        r == DEFAULT_BACKUP_COUNT,
{
    DEFAULT_BACKUP_COUNT
}

} // verus!
