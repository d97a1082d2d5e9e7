use cursor_pet::events::{
    click_opens_settings, gdk_backend_to_set, menu_command, open_settings, toggle_pause,
    update_step, CursorStream, NoticeKind, PetWindow, SettingsWindow, TrayCommand, UpdateAction,
    UpdateEvent,
};

#[test]
fn stream_sends_only_changes() {
    let mut s = CursorStream::new();
    assert_eq!(s.last, (i32::MIN, i32::MIN));
    assert_eq!(s.step(false, Some((5, 5))), Some((5, 5)));
    assert_eq!(s.step(false, Some((5, 5))), None);
    assert_eq!(s.step(false, None), None);
    assert_eq!(s.step(false, Some((5, 6))), Some((5, 6)));
    assert_eq!(s.last, (5, 6));
}

#[test]
fn stream_is_silent_while_paused() {
    let mut s = CursorStream::new();
    assert_eq!(s.step(true, Some((1, 1))), None);
    assert_eq!(s.last, (i32::MIN, i32::MIN));
    assert_eq!(s.step(false, Some((1, 1))), Some((1, 1)));
    assert_eq!(s.step(true, Some((2, 2))), None);
    assert_eq!(s.last, (1, 1));
}

#[test]
fn pausing() {
    assert!(matches!(toggle_pause(false), (true, PetWindow::Hide)));
    assert!(matches!(toggle_pause(true), (false, PetWindow::Show)));
    let (once, _) = toggle_pause(false);
    let (twice, _) = toggle_pause(once);
    assert!(!twice);
}

#[test]
fn tray_menu() {
    assert!(matches!(menu_command("customize"), TrayCommand::OpenSettings));
    assert!(matches!(menu_command("toggle"), TrayCommand::TogglePet));
    assert!(matches!(menu_command("update"), TrayCommand::CheckForUpdates));
    assert!(matches!(menu_command("quit"), TrayCommand::Quit));
    assert!(matches!(menu_command("Quit"), TrayCommand::Nothing));
    assert!(matches!(menu_command(""), TrayCommand::Nothing));
}

#[test]
fn tray_click() {
    assert!(click_opens_settings(true, true));
    assert!(!click_opens_settings(true, false));
    assert!(!click_opens_settings(false, true));
}

#[test]
fn settings_window() {
    assert!(matches!(open_settings(true, true), SettingsWindow::ShowAndFocus));
    assert!(matches!(open_settings(false, false), SettingsWindow::Create("settings.html")));
    assert!(matches!(open_settings(false, true), SettingsWindow::Create("settings.html?autotest=1")));
}

#[test]
fn gdk_backend() {
    assert_eq!(gdk_backend_to_set(false), Some("wayland"));
    assert_eq!(gdk_backend_to_set(true), None);
}

fn notice(a: UpdateAction) -> Option<(String, &'static str)> {
    match a {
        UpdateAction::Notify(m, NoticeKind::Info) => Some((m, "info")),
        UpdateAction::Notify(m, NoticeKind::Warning) => Some((m, "warning")),
        UpdateAction::Notify(m, NoticeKind::Error) => Some((m, "error")),
        _ => None,
    }
}

#[test]
fn interactive_update_messages() {
    assert!(matches!(update_step(true, UpdateEvent::UpdaterReady), UpdateAction::Check));
    assert!(matches!(update_step(true, UpdateEvent::Found), UpdateAction::Install));
    assert_eq!(
        notice(update_step(true, UpdateEvent::UpdaterUnavailable("no endpoint".into()))),
        Some(("Updater unavailable: no endpoint".to_string(), "error"))
    );
    assert_eq!(
        notice(update_step(true, UpdateEvent::CheckFailed("offline".into()))),
        Some(("Couldn't check for updates: offline".to_string(), "warning"))
    );
    assert_eq!(
        notice(update_step(true, UpdateEvent::UpToDate)),
        Some(("You're on the latest version.".to_string(), "info"))
    );
    assert_eq!(
        notice(update_step(true, UpdateEvent::InstallFailed("disk full".into()))),
        Some(("Update failed: disk full".to_string(), "error"))
    );
    match update_step(true, UpdateEvent::Installed("0.2.0".into())) {
        UpdateAction::OfferRestart(m) => assert_eq!(m, "Updated to v0.2.0. Restart cursor-pet now to apply?"),
        _ => panic!("expected a restart offer"),
    }
}

#[test]
fn silent_update_says_nothing() {
    assert!(matches!(update_step(false, UpdateEvent::UpdaterReady), UpdateAction::Check));
    assert!(matches!(update_step(false, UpdateEvent::Found), UpdateAction::Install));
    for e in [
        UpdateEvent::UpdaterUnavailable("x".into()),
        UpdateEvent::CheckFailed("x".into()),
        UpdateEvent::UpToDate,
        UpdateEvent::Installed("1.0.0".into()),
        UpdateEvent::InstallFailed("x".into()),
    ] {
        assert!(matches!(update_step(false, e), UpdateAction::Done));
    }
}
