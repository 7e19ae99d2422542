//! What the running program does about the events that reach it.
use vstd::prelude::*;

use crate::config::Config;
use crate::macos::window_level;
use crate::osc::Control;

verus! {

/// A key, as far as it matters.
#[derive(Clone, Copy, Debug, PartialEq, Eq, Structural)]
pub enum Key {
    /// `F`, which toggles fullscreen everywhere.
    F,
    /// `F11`, the conventional toggle, which macOS keeps for itself.
    F11,
    /// Any other key or button.
    Other,
}

/// What to do when the window gains or loses the focus.
#[derive(Clone, Copy, Debug)]
pub struct FocusSteps {
    /// Attach the drawing context again: the system may hand back a stale
    /// drawable after the window was away.
    pub reattach: bool,
    /// Hide menu bar and Dock again.
    pub hide_menu_bar: bool,
    /// Give the window this level.
    pub level: Option<i64>,
}

/// The window, as the event loop knows it.
#[derive(Clone, Copy, Debug)]
pub struct Session {
    /// Whether the window should be fullscreen.
    pub is_fullscreen: bool,
    /// The width and the height that the drawing context was last attached for.
    pub size: (u32, u32),
}

/// Whether the window is created fullscreen: not on macOS, where that would open
/// a Space of its own, and where it is made fullscreen afterwards.
pub fn opens_fullscreen(cfg: &Config, macos: bool) -> (r: bool)
    ensures
        r == (cfg.fullscreen && !macos),
{
    cfg.fullscreen && !macos
}

/// The display that the window is moved to before anything else. Where the
/// window goes fullscreen, that takes it there.
pub fn moves_to(cfg: &Config) -> (r: Option<usize>)
    ensures
        r == if cfg.fullscreen {
            None
        } else {
            cfg.display
        },
{
    if cfg.fullscreen {
        None
    } else {
        cfg.display
    }
}

/// Whether fullscreen is toggled by this key.
pub open spec fn toggles(key: Key, pressed: bool) -> bool {
    pressed && (key == Key::F || key == Key::F11)
}

impl Session {
    /// The session after a key.
    pub open spec fn after_key(self, key: Key, pressed: bool) -> Session {
        if toggles(key, pressed) {
            Session { is_fullscreen: !self.is_fullscreen, ..self }
        } else {
            self
        }
    }

    /// The session of a window that has just been created.
    pub fn new(cfg: &Config, width: u32, height: u32) -> (r: Self)
        ensures
            r == (Session { is_fullscreen: cfg.fullscreen, size: (width, height) }),
    {
        Session { is_fullscreen: cfg.fullscreen, size: (width, height) }
    }

    /// A key was pressed or released: whether to go fullscreen or leave it now, if
    /// either.
    pub fn on_key(&mut self, key: Key, pressed: bool) -> (r: Option<bool>)
        ensures
            *final(self) == old(self).after_key(key, pressed),
            r == if toggles(key, pressed) {
                Some(final(self).is_fullscreen)
            } else {
                None
            },
    {
        let toggle: bool = match key {
            Key::F | Key::F11 => true,
            Key::Other => false,
        };
        if pressed && toggle {
            self.is_fullscreen = !self.is_fullscreen;
            Some(self.is_fullscreen)
        } else {
            None
        }
    }

    /// A message was applied: whether to go fullscreen or leave it now, if either.
    pub fn on_control(&mut self, control: &Control) -> (r: Option<bool>)
        ensures
            match *control {
                Control::Fullscreen(on) => {
                    &&& r == Some(on)
                    &&& *final(self) == (Session { is_fullscreen: on, ..*old(self) })
                },
                _ => r is None && *final(self) == *old(self),
            },
    {
        match control {
            Control::Fullscreen(on) => {
                self.is_fullscreen = *on;
                Some(*on)
            },
            _ => None,
        }
    }

    /// The window has this size now: whether the drawing context has to be
    /// attached again. The window system does not tell of every change, so the
    /// size is looked at before every frame.
    pub fn on_size(&mut self, width: u32, height: u32) -> (r: bool)
        ensures
            final(self).size == (width, height),
            final(self).is_fullscreen == old(self).is_fullscreen,
            r == (old(self).size != (width, height)),
    {
        let changed: bool = self.size.0 != width || self.size.1 != height;
        self.size = (width, height);
        changed
    }

    /// The focus came or went. On macOS a fullscreen window gives the screen back
    /// to whatever the user switched to, and takes it again on return.
    pub fn on_focus(&self, focused: bool, macos: bool) -> (r: FocusSteps)
        ensures
            r == (FocusSteps {
                reattach: focused,
                hide_menu_bar: macos && self.is_fullscreen && focused,
                level: if !(macos && self.is_fullscreen) {
                    None
                } else if focused {
                    Some(crate::macos::LEVEL_ABOVE_MENU_BAR)
                } else {
                    Some(crate::macos::LEVEL_NORMAL)
                },
            }),
    {
        let manual: bool = macos && self.is_fullscreen;
        FocusSteps {
            reattach: focused,
            hide_menu_bar: manual && focused,
            level: if manual {
                Some(window_level(true, focused))
            } else {
                None
            },
        }
    }
}

/// Toggling twice, with either key, leaves things as they were.
pub proof fn law_toggling_twice_changes_nothing(session: Session, first: Key, second: Key)
    requires
        toggles(first, true),
        toggles(second, true),
    ensures
        session.after_key(first, true).after_key(second, true) == session,
        session.after_key(first, true) == session.after_key(second, true),
{
}

/// Pressing `F` or `F11` turns fullscreen into its opposite. Releasing a key, or any
/// other key, changes nothing, and no key changes the size.
pub proof fn law_keys_toggle_fullscreen(session: Session, key: Key, pressed: bool)
    ensures
        session.after_key(Key::F, true).is_fullscreen == !session.is_fullscreen,
        session.after_key(Key::F11, true).is_fullscreen == !session.is_fullscreen,
        session.after_key(Key::Other, pressed) == session,
        session.after_key(key, false) == session,
        session.after_key(key, pressed).size == session.size,
        toggles(key, pressed) <==> session.after_key(key, pressed).is_fullscreen
            != session.is_fullscreen,
{
}

} // verus!
