use lamco_rdp_server::clipboard::file_transfer::strategy::FileTransferMode;

#[test]
fn test_auto_select_native_prefers_fuse() {
    let mode = FileTransferMode::select(false, None);
    assert_eq!(mode, FileTransferMode::Fuse);
}

#[test]
fn test_auto_select_flatpak_uses_staging() {
    let mode = FileTransferMode::select(true, None);
    assert_eq!(mode, FileTransferMode::Staging);
}

#[test]
fn test_override_fuse() {
    let mode = FileTransferMode::select(false, Some("fuse"));
    assert_eq!(mode, FileTransferMode::Fuse);
}

#[test]
fn test_override_staging() {
    let mode = FileTransferMode::select(false, Some("staging"));
    assert_eq!(mode, FileTransferMode::Staging);
}

#[test]
fn test_override_portal() {
    let mode = FileTransferMode::select(false, Some("portal"));
    assert_eq!(mode, FileTransferMode::Portal);
}

#[test]
fn test_override_case_insensitive() {
    let mode = FileTransferMode::select(false, Some("STAGING"));
    assert_eq!(mode, FileTransferMode::Staging);
}

#[test]
fn test_invalid_override_falls_back_to_auto() {
    // Invalid override in native mode → auto → Fuse
    let mode = FileTransferMode::select(false, Some("invalid"));
    assert_eq!(mode, FileTransferMode::Fuse);

    // Invalid override in Flatpak → auto → Staging
    let mode = FileTransferMode::select(true, Some("nonsense"));
    assert_eq!(mode, FileTransferMode::Staging);
}

#[test]
fn test_auto_override_returns_auto() {
    // "auto" override = same as no override
    let mode = FileTransferMode::select(false, Some("auto"));
    assert_eq!(mode, FileTransferMode::Fuse);
}

#[test]
fn test_mode_names() {
    assert_eq!(FileTransferMode::Fuse.name(), "FUSE On-Demand");
    assert_eq!(FileTransferMode::Staging.name(), "Staging Download");
    assert_eq!(FileTransferMode::Portal.name(), "Portal FileTransfer");
}

#[test]
fn settings_win_over_the_environment() {
    assert_eq!(FileTransferMode::select(true, Some("Fuse")), FileTransferMode::Fuse);
    assert_eq!(FileTransferMode::select(true, Some("Auto")), FileTransferMode::Staging);
    assert_eq!(FileTransferMode::from_override_string("PORTAL"), Some(FileTransferMode::Portal));
    assert_eq!(FileTransferMode::from_override_string(" fuse"), None);
    assert_eq!(FileTransferMode::auto_select(true), FileTransferMode::Staging);
}
