use akra_hookers::cli::{
    capture_input_fits, envelope_target, is_wsl_windows_mount, serve_startup, setup_initial_switch,
    status_word, ServeStartup,
};

#[test]
fn capture_input_is_bounded() {
    assert!(capture_input_fits(262_144));
    assert!(!capture_input_fits(262_145));
}

#[test]
fn results_from_wsl_name_their_distribution() {
    assert_eq!(envelope_target(true, Some("Ubuntu"), Some("windows-native")).as_deref(), Some("wsl:Ubuntu"));
    assert_eq!(envelope_target(false, Some("Ubuntu"), Some("windows-native")).as_deref(), Some("windows-native"));
    assert_eq!(envelope_target(true, None, Some("t")).as_deref(), Some("t"));
    assert_eq!(envelope_target(false, None, None), None);
}

#[test]
fn windows_drive_mounts_are_recognised() {
    assert!(is_wsl_windows_mount("/mnt/c"));
    assert!(is_wsl_windows_mount("/mnt/d/source/project"));
    assert!(!is_wsl_windows_mount("/mnt/cd/x"));
    assert!(!is_wsl_windows_mount("/mnt/"));
    assert!(!is_wsl_windows_mount("/home/a"));
}

#[test]
fn startup_settles_the_capture_switch() {
    assert_eq!(serve_startup(true, false), ServeStartup::Reconcile);
    assert_eq!(serve_startup(false, true), ServeStartup::Record(true));
    assert_eq!(setup_initial_switch(false), Some(false));
    assert_eq!(setup_initial_switch(true), None);
    assert_eq!(status_word(true), "enabled");
    assert_eq!(status_word(false), "disabled");
}
