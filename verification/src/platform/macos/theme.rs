//! The macOS accent palette and appearance reading.

use vstd::prelude::*;

use crate::types::ThemeSnapshot;

verus! {

/// macOS's default accent (system blue): the absent (multicolour) setting
/// and any unknown index.
pub const FALLBACK_ACCENT: [u8; 3] = [0x00, 0x7a, 0xff];

/// The fixed macOS accent palette, by `AppleAccentColor` index.
pub open spec fn accent_spec(index: i64) -> Seq<u8> {
    if index == -1 {
        seq![0x8cu8, 0x8cu8, 0x8cu8]
    } else if index == 0 {
        seq![0xffu8, 0x52u8, 0x59u8]
    } else if index == 1 {
        seq![0xf7u8, 0x82u8, 0x1bu8]
    } else if index == 2 {
        seq![0xffu8, 0xc6u8, 0x00u8]
    } else if index == 3 {
        seq![0x62u8, 0xbau8, 0x46u8]
    } else if index == 5 {
        seq![0xa5u8, 0x50u8, 0xa7u8]
    } else if index == 6 {
        seq![0xf7u8, 0x4fu8, 0x9eu8]
    } else {
        FALLBACK_ACCENT@
    }
}

/// The accent for a palette index: graphite, red, orange, yellow, green,
/// blue, purple, pink; blue for anything else.
pub fn accent_for_index(index: i64) -> (r: [u8; 3])
    ensures
        r@ == accent_spec(index),
{
    let r: [u8; 3] = if index == -1 {
        [0x8c, 0x8c, 0x8c]
    } else if index == 0 {
        [0xff, 0x52, 0x59]
    } else if index == 1 {
        [0xf7, 0x82, 0x1b]
    } else if index == 2 {
        [0xff, 0xc6, 0x00]
    } else if index == 3 {
        [0x62, 0xba, 0x46]
    } else if index == 5 {
        [0xa5, 0x50, 0xa7]
    } else if index == 6 {
        [0xf7, 0x4f, 0x9e]
    } else {
        FALLBACK_ACCENT
    };
    proof {
        assert(r@ =~= accent_spec(index));
    }
    r
}

/// The snapshot from the defaults: light unless the interface style is
/// `Dark` (absent is light, the macOS default); the accent from the
/// palette index when one is set, else blue.
pub fn snapshot_from(interface_style_is_dark: bool, accent_index: Option<i64>) -> (r: ThemeSnapshot)
    ensures
        r.is_light == !interface_style_is_dark,
        r.accent_rgb@ == match accent_index {
            Some(i) => accent_spec(i),
            None => FALLBACK_ACCENT@,
        },
{
    ThemeSnapshot {
        is_light: !interface_style_is_dark,
        accent_rgb: match accent_index {
            Some(i) => accent_for_index(i),
            None => FALLBACK_ACCENT,
        },
    }
}

/// What the theme watcher compares between polls: lightness and accent.
pub fn snapshot_key(s: &ThemeSnapshot) -> (r: (bool, [u8; 3]))
    ensures
        r.0 == s.is_light,
        r.1@ == s.accent_rgb@,
{
    (s.is_light, s.accent_rgb)
}

/// Whether the theme changed between two polls, so the listeners are told.
pub fn theme_changed(last: &ThemeSnapshot, now: &ThemeSnapshot) -> (r: bool)
    ensures
        r == (last.is_light != now.is_light || last.accent_rgb@ != now.accent_rgb@),
{
    let a = snapshot_key(last);
    let b = snapshot_key(now);
    let same = a.0 == b.0 && a.1[0] == b.1[0] && a.1[1] == b.1[1] && a.1[2] == b.1[2];
    proof {
        if a.1[0] == b.1[0] && a.1[1] == b.1[1] && a.1[2] == b.1[2] {
            assert(a.1@ =~= b.1@);
        }
    }
    !same
}

} // verus!
