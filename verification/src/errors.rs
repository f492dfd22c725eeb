//! The error kinds surfaced by the store, with their human-readable
//! rendering kept separate from the kind itself.
use vstd::prelude::*;

verus! {

/// The stage of a directory switch that did not complete.
#[derive(Clone, Copy, Debug, PartialEq, Eq, Structural)]
pub enum SwitchStage {
    Copy,
    Backup,
    ConfigSave,
}

/// Everything that a store operation can fail with.
#[derive(Clone, Copy, Debug, PartialEq, Eq, Structural)]
pub enum StoreError {
    PlatformPathUnavailable,
    ConfigCorrupt,
    ConfigWriteFailed,
    DataReadFailed,
    DataWriteFailed,
    BackupFailed,
    DirSwitchFailed(SwitchStage),
}

impl StoreError {
    /// The human-readable message for each error kind.
    pub open spec fn spec_message(self) -> Seq<char> {
        match self {
            StoreError::PlatformPathUnavailable => "cannot resolve an application directory"@,
            StoreError::ConfigCorrupt => "configuration file is malformed"@,
            StoreError::ConfigWriteFailed => "cannot write the configuration file"@,
            StoreError::DataReadFailed => "cannot read the data file"@,
            StoreError::DataWriteFailed => "cannot write the data file"@,
            StoreError::BackupFailed => "cannot create a backup"@,
            StoreError::DirSwitchFailed(SwitchStage::Copy) => "directory switch failed while copying data"@,
            StoreError::DirSwitchFailed(SwitchStage::Backup) => "directory switch failed while backing up data"@,
            StoreError::DirSwitchFailed(SwitchStage::ConfigSave) => "directory switch failed while saving the configuration"@,
        }
    }

    /// Renders the error for the caller.
    pub fn message(&self) -> (r: String)
        ensures
            r@ == self.spec_message(),
    {
        match self {
            StoreError::PlatformPathUnavailable => "cannot resolve an application directory".to_owned(),
            StoreError::ConfigCorrupt => "configuration file is malformed".to_owned(),
            StoreError::ConfigWriteFailed => "cannot write the configuration file".to_owned(),
            StoreError::DataReadFailed => "cannot read the data file".to_owned(),
            StoreError::DataWriteFailed => "cannot write the data file".to_owned(),
            StoreError::BackupFailed => "cannot create a backup".to_owned(),
            StoreError::DirSwitchFailed(SwitchStage::Copy) => "directory switch failed while copying data".to_owned(),
            StoreError::DirSwitchFailed(SwitchStage::Backup) => "directory switch failed while backing up data".to_owned(),
            StoreError::DirSwitchFailed(SwitchStage::ConfigSave) => "directory switch failed while saving the configuration".to_owned(),
        }
    }
}

} // verus!
