//! How a file is opened that is read-only on disk. A Perforce workspace keeps
//! every file that is not open read-only, so that there the permission does not
//! mean that the file is not to be edited.

use vstd::prelude::*;

verus! {

/// What a buffer can be used for.
#[derive(Debug, Clone, Copy, PartialEq, Eq, Structural)]
pub enum Capability {
    ReadWrite,
    Read,
}

/// What is known of a read-only file.
#[derive(Debug, Clone, Copy, PartialEq, Eq, Structural)]
pub enum PerforceCheckoutVerdict {
    /// It is opened in its workspace when it is edited.
    AutoCheckout,
    /// It is in no Perforce workspace, or none that opens files by itself.
    NotApplicable,
    /// Nothing yet.
    Unknown,
}

/// What a loaded file can be used for. A writable file can be edited, and a
/// read-only one where editing it opens it in its workspace. Until that is known
/// it is locked.
pub fn capability_for_loaded_file(is_writable: bool, verdict: PerforceCheckoutVerdict) -> (r:
    Capability)
    ensures
        r == (if is_writable || verdict == PerforceCheckoutVerdict::AutoCheckout {
            Capability::ReadWrite
        } else {
            Capability::Read
        }),
{
    if is_writable || verdict == PerforceCheckoutVerdict::AutoCheckout {
        Capability::ReadWrite
    } else {
        Capability::Read
    }
}

/// The settings of the Perforce integration that decide on opening files.
#[derive(Debug, Clone, Copy, PartialEq, Eq, Structural)]
pub struct PerforceSettings {
    /// Whether the integration is on.
    pub enabled: bool,
    /// Whether a file is opened before it is saved.
    pub edit_on_file_save: bool,
}

impl Default for PerforceSettings {
    /// Both are on.
    fn default() -> (r: PerforceSettings)
        ensures
            r.enabled,
            r.edit_on_file_save,
    {
        PerforceSettings { enabled: true, edit_on_file_save: true }
    }
}

/// Whether editing a file opens it in its workspace.
pub fn perforce_auto_checkout_enabled(settings: &PerforceSettings) -> (r: bool)
    ensures
        r == (settings.enabled && settings.edit_on_file_save),
{
    settings.enabled && settings.edit_on_file_save
}

} // verus!
