//! Meeting auto-detection: noticing when a meeting app is using the
//! microphone and starting or stopping recording per the configured
//! policy. The poll loop itself lives with the app; every decision it takes
//! on a tick is here.
//!
//! - `state`: the tick state machine and the app matcher.
//! - `silence`: the silence check-in's rule.

pub mod silence;
pub mod state;

use vstd::prelude::*;

use crate::autodetect::state::{identity_matches, match_app, valid, Detector, DetectorView, PhaseView};
use crate::text::views;
use crate::types::AppId;

verus! {

/// When detection may start a recording.
#[derive(Debug, Clone, Copy, PartialEq, Eq, Structural)]
pub enum AutoStartPolicy {
    /// Any app using the mic starts one.
    Always,
    /// Only an allowlisted app starts one.
    Selective,
    /// An allowlisted app raises a prompt instead.
    Prompt,
    /// Detection is off.
    Manual,
}

/// Which recordings a call ending stops.
#[derive(Debug, Clone, Copy, PartialEq, Eq, Structural)]
pub enum AutoStopScope {
    Never,
    /// Only recordings that detection started.
    AutoStarted,
    /// Whatever is recording.
    All,
}

/// Seconds between polls; the detection delay is quantized to this.
pub const POLL_SECS: u64 = 3;

/// Empty polls tolerated before a call counts as over.
pub const AUTO_STOP_GRACE_TICKS: u32 = 2;

/// Whether a call ending should stop the current recording.
pub fn should_auto_stop(scope: AutoStopScope, was_auto_started: bool) -> (r: bool)
    ensures
        r == match scope {
            AutoStopScope::Never => false,
            AutoStopScope::AutoStarted => was_auto_started,
            AutoStopScope::All => true,
        },
{
    match scope {
        AutoStopScope::Never => false,
        AutoStopScope::AutoStarted => was_auto_started,
        AutoStopScope::All => true,
    }
}

/// The number of polls covering `seconds`: rounded up, at least one.
pub open spec fn ticks_for_spec(seconds: nat) -> nat {
    let t = if seconds % 3 == 0 {
        seconds / 3
    } else {
        seconds / 3 + 1
    };
    if t < 1 {
        1
    } else {
        t
    }
}

/// Polls needed to cover a delay of `seconds`.
pub fn ticks_for(seconds: u32) -> (r: u32)
    ensures
        r == ticks_for_spec(seconds as nat),
{
    let poll = POLL_SECS as u32;
    let t = if seconds % poll == 0 {
        seconds / poll
    } else {
        seconds / poll + 1
    };
    if t < 1 {
        1
    } else {
        t
    }
}

/// The detector's windows for a configured detection delay: the arming
/// window covers the delay, the grace window is the fixed blip allowance.
pub fn detection_windows(detection_delay_secs: u32) -> (r: (u32, u32))
    ensures
        r.0 == ticks_for_spec(detection_delay_secs as nat),
        r.1 == AUTO_STOP_GRACE_TICKS,
{
    (ticks_for(detection_delay_secs), AUTO_STOP_GRACE_TICKS)
}

/// Whether a tick should scan for calls. A manual recording in progress is
/// not tracked against unless every recording stops on call end.
pub fn tracks_calls(recording: bool, auto_started: bool, scope: AutoStopScope) -> (r: bool)
    ensures
        r == !(recording && !auto_started && scope != AutoStopScope::All),
{
    !(recording && !auto_started && scope != AutoStopScope::All)
}

/// Whether an app matches the allowlist on any of its identities.
pub open spec fn app_matches(app: AppId, allowlist: Seq<Seq<char>>) -> bool {
    exists|i: int|
        0 <= i < app.identity_views().len() && identity_matches(
            #[trigger] app.identity_views()[i],
            allowlist,
        )
}

/// Which mic user a tick reports as the call, by position: under `Always`
/// the first allowlisted one, else the first one at all; under `Selective`
/// and `Prompt` only an allowlisted one; under `Manual` none.
pub fn pick_candidate(
    policy: AutoStartPolicy,
    candidates: &[AppId],
    allowlist: &[String],
) -> (r: Option<usize>)
    ensures
        policy == AutoStartPolicy::Manual ==> r is None,
        policy != AutoStartPolicy::Manual && (exists|i: int|
            0 <= i < candidates@.len() && app_matches(
                #[trigger] candidates@[i],
                views(allowlist@),
            )) ==> (r matches Some(k) && k < candidates@.len() && app_matches(
            candidates@[k as int],
            views(allowlist@),
        ) && forall|j: int|
            0 <= j < k ==> !app_matches(#[trigger] candidates@[j], views(allowlist@))),
        policy != AutoStartPolicy::Manual && !(exists|i: int|
            0 <= i < candidates@.len() && app_matches(
                #[trigger] candidates@[i],
                views(allowlist@),
            )) ==> r == (if policy == AutoStartPolicy::Always && candidates@.len() > 0 {
            Some(0usize)
        } else {
            None
        }),
{
    if policy == AutoStartPolicy::Manual {
        return None;
    }
    let mut i: usize = 0;
    while i < candidates.len()
        invariant
            i <= candidates@.len(),
            policy != AutoStartPolicy::Manual,
            forall|j: int| 0 <= j < i ==> !app_matches(#[trigger] candidates@[j], views(allowlist@)),
        decreases candidates.len() - i,
    {
        if match_app(&candidates[i], allowlist) {
            return Some(i);
        }
        i = i + 1;
    }
    if policy == AutoStartPolicy::Always && candidates.len() > 0 {
        Some(0)
    } else {
        None
    }
}

/// What a detected call start does.
#[derive(Debug, Clone, Copy, PartialEq, Eq, Structural)]
pub enum StartAction {
    /// Start recording (detection-started).
    Record,
    /// Ask the user with the "call detected" prompt.
    Prompt,
    /// Nothing.
    Nothing,
}

/// What a detected call start does: nothing while recording; record under
/// `Always` and `Selective`; prompt under `Prompt` unless the user already
/// dismissed this call's prompt.
pub fn on_call_started(policy: AutoStartPolicy, recording: bool, dismissed: bool) -> (r: StartAction)
    ensures
        recording ==> r == StartAction::Nothing,
        !recording ==> r == match policy {
            AutoStartPolicy::Always => StartAction::Record,
            AutoStartPolicy::Selective => StartAction::Record,
            AutoStartPolicy::Prompt => if dismissed {
                StartAction::Nothing
            } else {
                StartAction::Prompt
            },
            AutoStartPolicy::Manual => StartAction::Nothing,
        },
{
    if recording {
        return StartAction::Nothing;
    }
    match policy {
        AutoStartPolicy::Always | AutoStartPolicy::Selective => StartAction::Record,
        AutoStartPolicy::Prompt => if dismissed {
            StartAction::Nothing
        } else {
            StartAction::Prompt
        },
        AutoStartPolicy::Manual => StartAction::Nothing,
    }
}

/// Whether a detected call end stops the recording: the scope says so and
/// something is recording.
pub fn on_call_ended(scope: AutoStopScope, was_auto_started: bool, recording: bool) -> (r: bool)
    ensures
        r == (recording && match scope {
            AutoStopScope::Never => false,
            AutoStopScope::AutoStarted => was_auto_started,
            AutoStopScope::All => true,
        }),
{
    should_auto_stop(scope, was_auto_started) && recording
}

/// A manual recording is never stopped by a call ending unless the scope
/// covers every recording.
pub proof fn lemma_manual_recordings_survive_call_end(scope: AutoStopScope)
    ensures
        scope != AutoStopScope::All ==> !(recording_stops(scope, false)),
{
}

/// Whether a call end stops a running recording that detection did or did
/// not start.
pub open spec fn recording_stops(scope: AutoStopScope, was_auto_started: bool) -> bool {
    match scope {
        AutoStopScope::Never => false,
        AutoStopScope::AutoStarted => was_auto_started,
        AutoStopScope::All => true,
    }
}


// --- The poller's detector ---

/// A fresh detector's state for the given windows.
pub open spec fn fresh(windows: (u32, u32)) -> DetectorView {
    DetectorView {
        phase: PhaseView::Idle,
        arm_ticks: if windows.0 < 1 {
            1
        } else {
            windows.0 as nat
        },
        grace_ticks: if windows.1 < 1 {
            1
        } else {
            windows.1 as nat
        },
    }
}

/// What the detection poller carries from tick to tick: its detector and
/// the windows that detector was built for (`(0, 0)` while detection is
/// off).
pub struct Poller {
    pub detector: Detector,
    pub windows: (u32, u32),
}

impl Poller {
    /// Detection off, nothing observed yet.
    pub fn new() -> (p: Poller)
        ensures
            p.windows == (0u32, 0u32),
            p.detector@ == fresh((1, 1)),
            valid(p.detector@),
    {
        Poller { detector: Detector::new(1, 1), windows: (0, 0) }
    }

    /// Bring the poller in line with the settings before a tick; the tick
    /// goes on only when the result is true. Under the manual policy
    /// detection is off: a detector built for some windows is dropped for a
    /// fresh one and the windows read `(0, 0)`. Otherwise the windows follow
    /// the detection delay, and a detector built for other windows starts
    /// over, so a changed delay never carries a half-counted arming window.
    pub fn configure(&mut self, policy: AutoStartPolicy, detection_delay_secs: u32) -> (active: bool)
        requires
            valid(old(self).detector@),
        ensures
            valid(final(self).detector@),
            active == (policy != AutoStartPolicy::Manual),
            policy == AutoStartPolicy::Manual ==> {
                &&& final(self).windows == (0u32, 0u32)
                &&& old(self).windows == (0u32, 0u32) ==> final(self).detector@ == old(self).detector@
                &&& old(self).windows != (0u32, 0u32) ==> final(self).detector@ == fresh((1, 1))
            },
            policy != AutoStartPolicy::Manual ==> {
                let w = (ticks_for_spec(detection_delay_secs as nat) as u32, AUTO_STOP_GRACE_TICKS);
                &&& final(self).windows == w
                &&& old(self).windows == w ==> final(self).detector@ == old(self).detector@
                &&& old(self).windows != w ==> final(self).detector@ == fresh(w)
            },
    {
        if policy == AutoStartPolicy::Manual {
            if self.windows.0 != 0 || self.windows.1 != 0 {
                self.detector = Detector::new(1, 1);
                self.windows = (0, 0);
            }
            return false;
        }
        let windows = detection_windows(detection_delay_secs);
        if windows.0 != self.windows.0 || windows.1 != self.windows.1 {
            self.detector = Detector::new(windows.0, windows.1);
            self.windows = windows;
        }
        true
    }
}

} // verus!
