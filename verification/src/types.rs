//! Portable types shared by every platform implementation: pure data that
//! the platform scans produce and the rest of the app consumes.

use vstd::prelude::*;

verus! {

/// Where a platform permission stands.
#[derive(Clone, Copy, PartialEq, Eq, Structural, Debug)]
pub enum PermissionState {
    Granted,
    Denied,
    NotDetermined,
    /// This platform never gates the capability.
    NotRequired,
}

/// Where the machine's power is coming from. A machine with no battery
/// reads as `Plugged`; `Unknown` is only for a platform that cannot answer.
#[derive(Clone, Copy, PartialEq, Eq, Structural, Debug)]
pub enum PowerSource {
    /// Wall power (or a machine with no battery to run from).
    Plugged,
    /// Running down a battery.
    Battery,
    /// The platform did not answer.
    Unknown,
}

/// What an OCR engine made of one image.
#[derive(Debug)]
pub enum Recognized {
    /// The engine ran; empty text is a legitimate answer.
    Text(String),
    /// The engine ran and could not read this file.
    Failed(String),
    /// There is no OCR here; the image stays pending.
    Unavailable,
}

/// What the system-audio capture is recording right now.
#[derive(Debug)]
pub enum SystemAudioSource {
    /// Everything the machine plays; `devices` is 0 where the platform has
    /// no per-device notion.
    Everything { devices: usize },
    /// Exactly these apps' own audio.
    Apps { names: Vec<String> },
}

/// What the recording should be capturing, as chosen in the source picker.
#[derive(Debug)]
pub enum SystemAudioWanted {
    /// Everything the machine plays: the default.
    Everything,
    /// Exactly these process trees.
    Apps(Vec<u32>),
}

impl Default for SystemAudioWanted {
    /// The picker's default: everything the machine plays.
    fn default() -> (r: SystemAudioWanted)
        ensures
            r matches SystemAudioWanted::Everything,
    {
        SystemAudioWanted::Everything
    }
}

/// Sent to the capture threads while a recording runs.
pub enum CaptureCommand {
    /// The selection changed; re-read it and rebuild.
    Reconfigure,
}

/// An application observed by the OS: a mic user, or the focused app. Which
/// fields are present varies by platform.
#[derive(Debug, Clone)]
pub struct AppId {
    pub pid: u32,
    /// Executable base name (e.g. `Zoom.exe`, `zoom.us`).
    pub exe: Option<String>,
    /// Bundle identifier where the platform has one (macOS).
    pub bundle_id: Option<String>,
    /// Human-facing name where the platform has one.
    pub display_name: Option<String>,
}

/// The view of an optional string.
pub open spec fn opt_view(o: Option<String>) -> Option<Seq<char>> {
    match o {
        Some(s) => Some(s@),
        None => None,
    }
}

/// The identities of an app, in the order the matcher tries them: the
/// executable name, the bundle id, the display name, each when present.
pub open spec fn identities_of(
    exe: Option<Seq<char>>,
    bundle_id: Option<Seq<char>>,
    display_name: Option<Seq<char>>,
) -> Seq<Seq<char>> {
    let a = match exe {
        Some(e) => seq![e],
        None => Seq::empty(),
    };
    let b = match bundle_id {
        Some(e) => seq![e],
        None => Seq::empty(),
    };
    let c = match display_name {
        Some(e) => seq![e],
        None => Seq::empty(),
    };
    a + b + c
}

/// The label an app is shown and logged under: the executable name, else
/// the display name, else the bundle id, else nothing.
pub open spec fn label_of(
    exe: Option<Seq<char>>,
    bundle_id: Option<Seq<char>>,
    display_name: Option<Seq<char>>,
) -> Seq<char> {
    match exe {
        Some(e) => e,
        None => match display_name {
            Some(d) => d,
            None => match bundle_id {
                Some(b) => b,
                None => Seq::empty(),
            },
        },
    }
}

impl AppId {
    /// The identity strings of this app.
    pub open spec fn identity_views(&self) -> Seq<Seq<char>> {
        identities_of(opt_view(self.exe), opt_view(self.bundle_id), opt_view(self.display_name))
    }

    /// An app known only by its executable name.
    pub fn from_exe(pid: u32, exe: String) -> (r: AppId)
        ensures
            r.pid == pid,
            opt_view(r.exe) == Some(exe@),
            r.bundle_id is None,
            r.display_name is None,
    {
        AppId { pid, exe: Some(exe), bundle_id: None, display_name: None }
    }

    /// The best human-facing label: the executable name, then the display
    /// name, then the bundle id.
    pub fn label(&self) -> (r: &str)
        ensures
            r@ == label_of(opt_view(self.exe), opt_view(self.bundle_id), opt_view(self.display_name)),
    {
        match &self.exe {
            Some(e) => e.as_str(),
            None => match &self.display_name {
                Some(d) => d.as_str(),
                None => match &self.bundle_id {
                    Some(b) => b.as_str(),
                    None => {
                        proof {
                            reveal_strlit("");
                        }
                        ""
                    },
                },
            },
        }
    }

    /// Every identity string the matcher may test against the allowlist.
    pub fn identities(&self) -> (r: Vec<&str>)
        ensures
            r@.map_values(|s: &str| s@) == self.identity_views(),
    {
        let mut r: Vec<&str> = Vec::new();
        match &self.exe {
            Some(e) => r.push(e.as_str()),
            None => {},
        }
        match &self.bundle_id {
            Some(e) => r.push(e.as_str()),
            None => {},
        }
        match &self.display_name {
            Some(e) => r.push(e.as_str()),
            None => {},
        }
        proof {
            assert(r@.map_values(|s: &str| s@) =~= self.identity_views());
        }
        r
    }
}

/// The shell theme at this instant.
pub struct ThemeSnapshot {
    /// Whether the surface our icons sit on (taskbar / menu bar) is light.
    pub is_light: bool,
    /// The OS accent color.
    pub accent_rgb: [u8; 3],
}

} // verus!
