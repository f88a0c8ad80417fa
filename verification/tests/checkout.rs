//! How a file that is read-only on disk is opened.

use editor_backend::checkout::{
    capability_for_loaded_file, perforce_auto_checkout_enabled, Capability,
    PerforceCheckoutVerdict, PerforceSettings,
};

#[test]
fn writable_file_always_opens_editable() {
    for verdict in [
        PerforceCheckoutVerdict::AutoCheckout,
        PerforceCheckoutVerdict::NotApplicable,
        PerforceCheckoutVerdict::Unknown,
    ] {
        assert_eq!(
            capability_for_loaded_file(true, verdict),
            Capability::ReadWrite,
            "a writable file must open editable regardless of the verdict"
        );
    }
}

#[test]
fn read_only_file_outside_perforce_opens_locked() {
    assert_eq!(
        capability_for_loaded_file(false, PerforceCheckoutVerdict::NotApplicable),
        Capability::Read,
    );
}

#[test]
fn read_only_file_under_perforce_auto_checkout_opens_editable() {
    assert_eq!(
        capability_for_loaded_file(false, PerforceCheckoutVerdict::AutoCheckout),
        Capability::ReadWrite,
        "a locked buffer could never be edited, which is what opens the file"
    );
}

#[test]
fn read_only_file_opens_locked_until_the_verdict_is_known() {
    assert_eq!(
        capability_for_loaded_file(false, PerforceCheckoutVerdict::Unknown),
        Capability::Read,
    );
}

#[test]
fn auto_checkout_gate_follows_the_perforce_settings() {
    assert!(
        perforce_auto_checkout_enabled(&PerforceSettings::default()),
        "auto-checkout is on by default"
    );
    assert!(
        !perforce_auto_checkout_enabled(&PerforceSettings {
            enabled: false,
            ..PerforceSettings::default()
        }),
        "without the integration a read-only file really is read-only"
    );
    assert!(
        !perforce_auto_checkout_enabled(&PerforceSettings {
            edit_on_file_save: false,
            ..PerforceSettings::default()
        }),
        "without the checkout before a save nothing clears the read-only bit"
    );
}
