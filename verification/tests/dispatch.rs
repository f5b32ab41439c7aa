use wtr::adapter::{select_adapter, still_living, AdapterChoice, CtlSignal, Platform};

#[test]
fn macos_uses_the_darwin_adapter() {
    assert_eq!(select_adapter(Platform::MacOs, 0), Some(AdapterChoice::Darwin));
    assert_eq!(select_adapter(Platform::MacOs, 1000), Some(AdapterChoice::Darwin));
}

#[test]
fn linux_picks_by_effective_user() {
    assert_eq!(select_adapter(Platform::Linux, 0), Some(AdapterChoice::Fanotify));
    assert_eq!(select_adapter(Platform::Linux, 1000), Some(AdapterChoice::Inotify));
}

#[test]
fn unsupported_platforms_get_no_adapter() {
    assert_eq!(select_adapter(Platform::Unsupported, 0), None);
}

#[test]
fn control_signals_decide_the_worker_loop() {
    assert!(still_living(CtlSignal::Nothing));
    assert!(still_living(CtlSignal::Got(true)));
    assert!(!still_living(CtlSignal::Got(false)));
    assert!(!still_living(CtlSignal::Disconnected));
}
