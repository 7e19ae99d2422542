//! The bit masks and levels that macOS wants, see `NSWindow.h`,
//! `NSApplication.h` and `NSProcessInfo.h`.
use vstd::prelude::*;

verus! {

/// A window level just above the menu bar (`NSMainMenuWindowLevel` is 24). A
/// window at this level covers the menu bar whatever the presentation options
/// are.
pub const LEVEL_ABOVE_MENU_BAR: i64 = 25;

/// `NSNormalWindowLevel`.
pub const LEVEL_NORMAL: i64 = 0;

/// `NSWindowCollectionBehaviorFullScreenPrimary`.
pub const FULL_SCREEN_PRIMARY: u64 = 0x80;

/// `NSWindowCollectionBehaviorFullScreenAuxiliary`.
pub const FULL_SCREEN_AUXILIARY: u64 = 0x100;

/// `NSWindowCollectionBehaviorFullScreenNone`.
pub const FULL_SCREEN_NONE: u64 = 0x200;

/// `NSApplicationPresentationHideDock`.
pub const HIDE_DOCK: u64 = 0x2;

/// `NSApplicationPresentationHideMenuBar`. Only legal together with
/// [`HIDE_DOCK`].
pub const HIDE_MENU_BAR: u64 = 0x8;

/// `NSActivityIdleDisplaySleepDisabled`.
pub const IDLE_DISPLAY_SLEEP_DISABLED: u64 = 0x100_0000_0000;

/// `NSActivityUserInitiated`, which contains `NSActivityIdleSystemSleepDisabled`.
pub const USER_INITIATED: u64 = 0x00ff_ffff;

/// `NSActivityLatencyCritical`.
pub const LATENCY_CRITICAL: u64 = 0xff_0000_0000;

/// Whether bit `i` of a mask is set.
pub open spec fn bit(mask: u64, i: u64) -> bool {
    (mask >> i) & 1 == 1
}

/// The collection behaviour of a window that offers no native fullscreen.
///
/// Native fullscreen moves a window onto a Space of its own, where it freezes as
/// soon as it loses focus. Only the three fullscreen bits are touched: whatever
/// else was set stays as it was.
pub fn collection_behavior(current: u64) -> (r: u64)
    ensures
        !bit(r, 7),
        !bit(r, 8),
        bit(r, 9),
        forall|i: u64| i < 64 && i != 7 && i != 8 && i != 9 ==> bit(r, i) == #[trigger] bit(
            current,
            i,
        ),
{
    let r: u64 = (current & !(FULL_SCREEN_PRIMARY | FULL_SCREEN_AUXILIARY)) | FULL_SCREEN_NONE;
    proof {
        assert(r == (current & !(0x80u64 | 0x100u64)) | 0x200u64);
        assert((r >> 7u64) & 1 == 0 && (r >> 8u64) & 1 == 0 && (r >> 9u64) & 1 == 1) by (bit_vector)
            requires
                r == (current & !(0x80u64 | 0x100u64)) | 0x200u64,
        ;
        assert forall|i: u64| i < 64 && i != 7 && i != 8 && i != 9 implies bit(r, i)
            == #[trigger] bit(current, i) by {
            assert(((r >> i) & 1 == 1) == ((current >> i) & 1 == 1)) by (bit_vector)
                requires
                    r == (current & !(0x80u64 | 0x100u64)) | 0x200u64,
                    i < 64,
                    i != 7,
                    i != 8,
                    i != 9,
            ;
        }
    }
    r
}

/// The presentation options: menu bar and Dock hidden outright, or as usual.
pub fn presentation_options(hidden: bool) -> (r: u64)
    ensures
        hidden ==> r == HIDE_DOCK + HIDE_MENU_BAR,
        !hidden ==> r == 0,
        bit(r, 3) ==> bit(r, 1),
{
    proof {
        assert((0u64 >> 3u64) & 1 == 0) by (bit_vector);
        assert((0xau64 >> 1u64) & 1 == 1 && 0x2u64 | 0x8u64 == 0xa) by (bit_vector);
    }
    if hidden {
        HIDE_DOCK | HIDE_MENU_BAR
    } else {
        0
    }
}

/// The activity options under which the system neither naps the process nor lets
/// the display sleep.
pub fn activity_options() -> (r: u64)
    ensures
        r == USER_INITIATED + LATENCY_CRITICAL + IDLE_DISPLAY_SLEEP_DISABLED,
{
    proof {
        assert(0x00ff_ffffu64 | 0xff_0000_0000 | 0x100_0000_0000 == 0x1ff_00ff_ffff)
            by (bit_vector);
    }
    USER_INITIATED | LATENCY_CRITICAL | IDLE_DISPLAY_SLEEP_DISABLED
}

/// The level of the window: above the menu bar while it is fullscreen and in
/// front, so that it covers the screen, and normal otherwise, so that it does not
/// sit on top of what the user switched to.
pub fn window_level(fullscreen: bool, in_front: bool) -> (r: i64)
    ensures
        fullscreen && in_front ==> r == LEVEL_ABOVE_MENU_BAR,
        !(fullscreen && in_front) ==> r == LEVEL_NORMAL,
{
    if fullscreen && in_front {
        LEVEL_ABOVE_MENU_BAR
    } else {
        LEVEL_NORMAL
    }
}

} // verus!
