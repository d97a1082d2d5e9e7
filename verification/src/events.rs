//! The decisions of the app's event loops and handlers: which cursor
//! positions reach the overlay, what the tray menu does, what pausing does,
//! and how an update check proceeds and what it tells the user.

use vstd::prelude::*;
use crate::text::{cat, str_equal};

verus! {

/// The position sent to the overlay last, and what one poll of the cursor
/// does: `(last position, position sent or None)`. Nothing is sent while
/// paused or when the cursor could not be read, nor when it has not moved.
pub open spec fn stream_step(last: (i32, i32), paused: bool, pos: Option<(i32, i32)>) -> (
    (i32, i32),
    Option<(i32, i32)>,
) {
    if paused {
        (last, None)
    } else {
        match pos {
            Some(p) => if p != last {
                (p, Some(p))
            } else {
                (last, None)
            },
            None => (last, None),
        }
    }
}

/// Streams cursor positions to the overlay, sending only changes, so an idle
/// desktop sends nothing.
pub struct CursorStream {
    /// The position sent last (or a position no cursor has, before the first).
    pub last: (i32, i32),
}

impl CursorStream {
    /// A stream that has sent nothing yet.
    pub fn new() -> (s: Self)
        ensures
            s.last == (i32::MIN, i32::MIN),
    {
        CursorStream { last: (i32::MIN, i32::MIN) }
    }

    /// One poll: `pos` is the cursor as read (if it could be), `paused`
    /// whether the pet is hidden. Returns the position to send, if any.
    pub fn step(&mut self, paused: bool, pos: Option<(i32, i32)>) -> (sent: Option<(i32, i32)>)
        ensures
            (final(self).last, sent) == stream_step(old(self).last, paused, pos),
    {
        if paused {
            return None;
        }
        match pos {
            Some(p) => {
                if p.0 != self.last.0 || p.1 != self.last.1 {
                    self.last = p;
                    Some(p)
                } else {
                    None
                }
            },
            None => None,
        }
    }
}

/// After the cursor moved to `p` and was sent, reading `p` again sends nothing:
/// one position reaches the overlay once until the cursor moves.
pub proof fn lemma_stream_sends_once(last: (i32, i32), p: (i32, i32))
    ensures
        stream_step(stream_step(last, false, Some(p)).0, false, Some(p)).1 is None,
{
}

/// Every move reaches the overlay: when not paused and the cursor reads a
/// position that differs from the last one sent in either coordinate, that
/// position is sent and becomes the last one sent.
pub proof fn lemma_stream_sends_every_move(last: (i32, i32), p: (i32, i32))
    requires
        p.0 != last.0 || p.1 != last.1,
    ensures
        stream_step(last, false, Some(p)) == (p, Some(p)),
{
}

/// While paused, nothing is sent and the last sent position is kept.
pub proof fn lemma_stream_silent_when_paused(last: (i32, i32), pos: Option<(i32, i32)>)
    ensures
        stream_step(last, true, pos) == (last, None::<(i32, i32)>),
{
}

/// What happens to the pet window when pausing is toggled.
pub enum PetWindow {
    Hide,
    Show,
}

/// The paused flag after one toggle.
pub open spec fn toggled(paused: bool) -> bool {
    !paused
}

/// Toggling pause: the new paused flag, and whether the pet window is hidden
/// (now paused) or shown again.
pub fn toggle_pause(paused: bool) -> (r: (bool, PetWindow))
    ensures
        r.0 == toggled(paused),
        r.0 ==> r.1 is Hide,
        !r.0 ==> r.1 is Show,
{
    let now = !paused;
    if now {
        (now, PetWindow::Hide)
    } else {
        (now, PetWindow::Show)
    }
}

/// Toggling twice comes back to where it started, with the window shown
/// again exactly when it was shown before.
pub proof fn lemma_toggle_twice(paused: bool)
    ensures
        toggled(toggled(paused)) == paused,
        toggled(paused) != paused,
{
}

/// What a tray menu entry does.
pub enum TrayCommand {
    OpenSettings,
    TogglePet,
    CheckForUpdates,
    Quit,
    Nothing,
}

/// The tray menu entry `id`'s command.
pub open spec fn tray_command(id: Seq<char>) -> TrayCommand {
    if id == "customize"@ {
        TrayCommand::OpenSettings
    } else if id == "toggle"@ {
        TrayCommand::TogglePet
    } else if id == "update"@ {
        TrayCommand::CheckForUpdates
    } else if id == "quit"@ {
        TrayCommand::Quit
    } else {
        TrayCommand::Nothing
    }
}

/// The command for a click on the tray menu entry `id`.
pub fn menu_command(id: &str) -> (c: TrayCommand)
    ensures
        c == tray_command(id@),
{
    if str_equal(id, "customize") {
        TrayCommand::OpenSettings
    } else if str_equal(id, "toggle") {
        TrayCommand::TogglePet
    } else if str_equal(id, "update") {
        TrayCommand::CheckForUpdates
    } else if str_equal(id, "quit") {
        TrayCommand::Quit
    } else {
        TrayCommand::Nothing
    }
}

/// A click on the tray icon opens the settings window when it is the left
/// button being released.
pub fn click_opens_settings(left_button: bool, released: bool) -> (b: bool)
    ensures
        b == (left_button && released),
{
    left_button && released
}

/// What opening the settings window does.
pub enum SettingsWindow {
    /// The window is already open: show it and give it focus.
    ShowAndFocus,
    /// Create it with this page.
    Create(&'static str),
}

/// Opening settings: bring up the open window, or create one; in self-test
/// mode the page drives a config change itself.
pub fn open_settings(window_open: bool, autotest: bool) -> (r: SettingsWindow)
    ensures
        window_open ==> r is ShowAndFocus,
        !window_open ==> (r matches SettingsWindow::Create(page) && page@ == if autotest {
            "settings.html?autotest=1"@
        } else {
            "settings.html"@
        }),
{
    if window_open {
        SettingsWindow::ShowAndFocus
    } else if autotest {
        SettingsWindow::Create("settings.html?autotest=1")
    } else {
        SettingsWindow::Create("settings.html")
    }
}

/// The GDK backend to ask for before starting, when none is set: the native
/// Wayland one, whose coordinates match the compositor's cursor positions.
pub fn gdk_backend_to_set(already_set: bool) -> (r: Option<&'static str>)
    ensures
        already_set ==> r is None,
        !already_set ==> (r matches Some(b) && b@ == "wayland"@),
{
    if already_set {
        None
    } else {
        Some("wayland")
    }
}

/// What happened in an update check.
pub enum UpdateEvent {
    /// The updater is available.
    UpdaterReady,
    /// The updater could not be set up, with the reason.
    UpdaterUnavailable(String),
    /// Asking for updates failed, with the reason.
    CheckFailed(String),
    /// No newer version exists.
    UpToDate,
    /// A newer version exists.
    Found,
    /// The newer version was installed; it is this version.
    Installed(String),
    /// Installing failed, with the reason.
    InstallFailed(String),
}

/// How a message to the user looks.
pub enum NoticeKind {
    Info,
    Warning,
    Error,
}

/// What the update check does next.
pub enum UpdateAction {
    /// Ask for a newer version.
    Check,
    /// Download and install the newer version.
    Install,
    /// Tell the user, then stop.
    Notify(String, NoticeKind),
    /// Tell the user the update is installed and offer to restart now.
    OfferRestart(String),
    /// Stop without a word.
    Done,
}

/// The next step of an update check after `event`. Only an `interactive`
/// check (from the tray) talks to the user; the one at start-up is silent,
/// and an installed update then applies on the next start.
pub fn update_step(interactive: bool, event: UpdateEvent) -> (a: UpdateAction)
    ensures
        match event {
            UpdateEvent::UpdaterReady => a is Check,
            UpdateEvent::Found => a is Install,
            UpdateEvent::UpdaterUnavailable(e) => if interactive {
                a matches UpdateAction::Notify(m, k) && m@ == "Updater unavailable: "@ + e@ && k is Error
            } else {
                a is Done
            },
            UpdateEvent::CheckFailed(e) => if interactive {
                a matches UpdateAction::Notify(m, k) && m@ == "Couldn't check for updates: "@ + e@
                    && k is Warning
            } else {
                a is Done
            },
            UpdateEvent::UpToDate => if interactive {
                a matches UpdateAction::Notify(m, k) && m@ == "You're on the latest version."@
                    && k is Info
            } else {
                a is Done
            },
            UpdateEvent::Installed(v) => if interactive {
                a matches UpdateAction::OfferRestart(m) && m@ == "Updated to v"@ + v@
                    + ". Restart cursor-pet now to apply?"@
            } else {
                a is Done
            },
            UpdateEvent::InstallFailed(e) => if interactive {
                a matches UpdateAction::Notify(m, k) && m@ == "Update failed: "@ + e@ && k is Error
            } else {
                a is Done
            },
        },
{
    match event {
        UpdateEvent::UpdaterReady => UpdateAction::Check,
        UpdateEvent::Found => UpdateAction::Install,
        UpdateEvent::UpdaterUnavailable(e) => if interactive {
            UpdateAction::Notify(cat("Updater unavailable: ", e.as_str()), NoticeKind::Error)
        } else {
            UpdateAction::Done
        },
        UpdateEvent::CheckFailed(e) => if interactive {
            UpdateAction::Notify(cat("Couldn't check for updates: ", e.as_str()), NoticeKind::Warning)
        } else {
            UpdateAction::Done
        },
        UpdateEvent::UpToDate => if interactive {
            UpdateAction::Notify(String::from_str("You're on the latest version."), NoticeKind::Info)
        } else {
            UpdateAction::Done
        },
        UpdateEvent::Installed(v) => if interactive {
            UpdateAction::OfferRestart(
                cat(cat("Updated to v", v.as_str()).as_str(), ". Restart cursor-pet now to apply?"),
            )
        } else {
            UpdateAction::Done
        },
        UpdateEvent::InstallFailed(e) => if interactive {
            UpdateAction::Notify(cat("Update failed: ", e.as_str()), NoticeKind::Error)
        } else {
            UpdateAction::Done
        },
    }
}

} // verus!
