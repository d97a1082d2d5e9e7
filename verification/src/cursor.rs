//! Where cursor positions come from on this machine: Hyprland's IPC socket
//! when the session runs Hyprland, the operating system's pointer otherwise.

use vstd::prelude::*;
use std::path::PathBuf;
use crate::hypr::{cursor_pos, cursor_reply};

verus! {

/// Where cursor positions come from.
pub enum CursorSource {
    /// Hyprland's IPC socket, at this path.
    Hyprland(PathBuf),
    /// The operating system's pointer, read through `device_query`.
    Native,
}

impl CursorSource {
    /// The source for a session where `hypr_socket` is Hyprland's socket, if
    /// one was found: Hyprland when there is one, the OS pointer otherwise.
    pub fn detect(hypr_socket: Option<PathBuf>) -> (s: Self)
        ensures
            match hypr_socket {
                Some(p) => s == CursorSource::Hyprland(p),
                None => s is Native,
            },
    {
        match hypr_socket {
            Some(p) => CursorSource::Hyprland(p),
            None => CursorSource::Native,
        }
    }

    /// Hyprland's socket, if this source is Hyprland (used for window rules).
    pub fn hypr_sock(&self) -> (r: Option<&PathBuf>)
        ensures
            match self {
                CursorSource::Hyprland(p) => r == Some(p),
                CursorSource::Native => r is None,
            },
    {
        match self {
            CursorSource::Hyprland(p) => Some(p),
            CursorSource::Native => None,
        }
    }

    /// The current cursor position, from what was read: for Hyprland,
    /// `hypr_reply` is its answer to `cursorpos` (`None` when the socket could
    /// not be asked); for the OS pointer, `native` is the pointer's position.
    pub fn cursor(&self, hypr_reply: Option<&str>, native: Option<(i32, i32)>) -> (r: Option<(i32, i32)>)
        ensures
            match self {
                CursorSource::Hyprland(_) => r == match hypr_reply {
                    Some(t) => cursor_reply(t@),
                    None => None,
                },
                CursorSource::Native => r == native,
            },
    {
        match self {
            CursorSource::Hyprland(_) => match hypr_reply {
                Some(t) => cursor_pos(t),
                None => None,
            },
            CursorSource::Native => native,
        }
    }
}

} // verus!
