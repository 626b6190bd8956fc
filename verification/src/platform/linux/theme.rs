//! The shell theme the tray icons follow, decided from what the XDG
//! settings portal answered: a GTK theme named dark settles it; otherwise
//! `color-scheme` 2 (prefer light) means light; everything else reads dark.

use vstd::prelude::*;

use crate::text::{chars_of, contains, contains_exec};
use crate::types::ThemeSnapshot;

verus! {

/// embral's own accent, used when the portal has none to give.
pub const FALLBACK_ACCENT: [u8; 3] = [0x3B, 0x82, 0xF6];

/// The ASCII lowercase form of a character.
pub open spec fn ascii_lower(c: char) -> char {
    if 'A' <= c && c <= 'Z' {
        (((c as u8) + 32) as u8) as char
    } else {
        c
    }
}

/// `str::to_ascii_lowercase`.
pub open spec fn ascii_lowercase(s: Seq<char>) -> Seq<char> {
    s.map_values(|c: char| ascii_lower(c))
}

fn ascii_lowercase_exec(s: &str) -> (v: Vec<char>)
    ensures
        v@ == ascii_lowercase(s@),
{
    let src = chars_of(s);
    let mut v: Vec<char> = Vec::new();
    let mut i: usize = 0;
    while i < src.len()
        invariant
            i <= src@.len(),
            src@ == s@,
            v@ == ascii_lowercase(src@.take(i as int)),
        decreases src.len() - i,
    {
        let c = src[i];
        let l = if 'A' <= c && c <= 'Z' {
            ((c as u8) + 32) as char
        } else {
            c
        };
        v.push(l);
        proof {
            assert(ascii_lowercase(src@.take(i + 1)) =~= ascii_lowercase(src@.take(i as int)).push(
                ascii_lower(c),
            ));
        }
        i = i + 1;
    }
    proof {
        assert(src@.take(src@.len() as int) =~= src@);
    }
    v
}

/// `dark`.
pub open spec fn dark() -> Seq<char> {
    seq!['d', 'a', 'r', 'k']
}

/// Whether the tray's surface is light, from the GTK theme name and the
/// `color-scheme` value the portal gave (each when it gave one).
pub open spec fn is_light_spec(gtk_theme: Option<Seq<char>>, color_scheme: Option<u32>) -> bool {
    match gtk_theme {
        Some(t) if contains(ascii_lowercase(t), dark()) => false,
        _ => color_scheme == Some(2u32),
    }
}

/// Decides whether the tray's surface is light.
pub fn is_light_from(gtk_theme: Option<&str>, color_scheme: Option<u32>) -> (r: bool)
    ensures
        r == is_light_spec(
            match gtk_theme {
                Some(t) => Some(t@),
                None => None,
            },
            color_scheme,
        ),
{
    match gtk_theme {
        Some(t) => {
            let lower = ascii_lowercase_exec(t);
            let d = vec!['d', 'a', 'r', 'k'];
            proof {
                assert(d@ =~= dark());
            }
            if contains_exec(lower.as_slice(), d.as_slice()) {
                return false;
            }
        },
        None => {},
    }
    match color_scheme {
        Some(scheme) => scheme == 2,
        None => false,
    }
}

/// The snapshot when the portal cannot be reached: a dark panel (the
/// common case on Linux) and embral's own accent.
pub fn fallback() -> (r: ThemeSnapshot)
    ensures
        !r.is_light,
        r.accent_rgb@ == FALLBACK_ACCENT@,
{
    ThemeSnapshot { is_light: false, accent_rgb: FALLBACK_ACCENT }
}

/// The snapshot from what the portal answered: the light/dark reading,
/// and its accent when it had one (else the fallback accent).
pub fn snapshot_from(gtk_theme: Option<&str>, color_scheme: Option<u32>, accent: Option<[u8; 3]>) -> (r:
    ThemeSnapshot)
    ensures
        r.is_light == is_light_spec(
            match gtk_theme {
                Some(t) => Some(t@),
                None => None,
            },
            color_scheme,
        ),
        r.accent_rgb@ == match accent {
            Some(a) => a@,
            None => FALLBACK_ACCENT@,
        },
{
    ThemeSnapshot {
        is_light: is_light_from(gtk_theme, color_scheme),
        accent_rgb: match accent {
            Some(a) => a,
            None => FALLBACK_ACCENT,
        },
    }
}

} // verus!
