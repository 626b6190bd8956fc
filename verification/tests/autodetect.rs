use embral::autodetect::{
    detection_windows, on_call_ended, on_call_started, pick_candidate, should_auto_stop,
    ticks_for, tracks_calls, AutoStartPolicy, AutoStopScope, Poller, StartAction,
    AUTO_STOP_GRACE_TICKS,
};
use embral::types::AppId;

#[test]
fn scope_decides_which_recordings_stop_on_call_end() {
    assert!(!should_auto_stop(AutoStopScope::Never, true));
    assert!(!should_auto_stop(AutoStopScope::Never, false));
    assert!(should_auto_stop(AutoStopScope::AutoStarted, true));
    assert!(!should_auto_stop(AutoStopScope::AutoStarted, false));
    assert!(should_auto_stop(AutoStopScope::All, true));
    assert!(should_auto_stop(AutoStopScope::All, false));
}

#[test]
fn the_delay_rounds_up_to_whole_polls() {
    assert_eq!(ticks_for(0), 1);
    assert_eq!(ticks_for(1), 1);
    assert_eq!(ticks_for(3), 1);
    assert_eq!(ticks_for(4), 2);
    assert_eq!(ticks_for(10), 4);
    assert_eq!(detection_windows(10), (4, AUTO_STOP_GRACE_TICKS));
}

#[test]
fn a_manual_recording_is_not_tracked_unless_every_recording_stops() {
    assert!(tracks_calls(false, false, AutoStopScope::Never));
    assert!(tracks_calls(true, true, AutoStopScope::AutoStarted));
    assert!(!tracks_calls(true, false, AutoStopScope::AutoStarted));
    assert!(tracks_calls(true, false, AutoStopScope::All));
}

fn app(exe: &str) -> AppId {
    AppId::from_exe(10, exe.to_string())
}

#[test]
fn the_candidate_is_the_first_allowlisted_app() {
    let allow = vec!["zoom".to_string()];
    let apps = vec![app("firefox"), app("zoom"), app("Zoom.exe")];
    assert_eq!(pick_candidate(AutoStartPolicy::Selective, &apps, &allow), Some(1));
    assert_eq!(pick_candidate(AutoStartPolicy::Always, &apps, &allow), Some(1));
    assert_eq!(pick_candidate(AutoStartPolicy::Manual, &apps, &allow), None);
    let others = vec![app("firefox"), app("spotify")];
    // Always falls back to whatever holds the mic; the others wait.
    assert_eq!(pick_candidate(AutoStartPolicy::Always, &others, &allow), Some(0));
    assert_eq!(pick_candidate(AutoStartPolicy::Prompt, &others, &allow), None);
    assert_eq!(pick_candidate(AutoStartPolicy::Always, &[], &allow), None);
}

#[test]
fn a_call_start_records_prompts_or_waits() {
    assert_eq!(on_call_started(AutoStartPolicy::Always, false, false), StartAction::Record);
    assert_eq!(on_call_started(AutoStartPolicy::Selective, false, false), StartAction::Record);
    assert_eq!(on_call_started(AutoStartPolicy::Prompt, false, false), StartAction::Prompt);
    assert_eq!(on_call_started(AutoStartPolicy::Prompt, false, true), StartAction::Nothing);
    assert_eq!(on_call_started(AutoStartPolicy::Manual, false, false), StartAction::Nothing);
    assert_eq!(on_call_started(AutoStartPolicy::Always, true, false), StartAction::Nothing);
}

#[test]
fn a_call_end_stops_only_what_the_scope_covers() {
    assert!(on_call_ended(AutoStopScope::AutoStarted, true, true));
    assert!(!on_call_ended(AutoStopScope::AutoStarted, false, true));
    assert!(!on_call_ended(AutoStopScope::All, true, false));
    assert!(on_call_ended(AutoStopScope::All, false, true));
}

#[test]
fn the_poller_starts_over_when_the_delay_changes() {
    let mut poller = Poller::new();
    assert!(!poller.configure(AutoStartPolicy::Manual, 10));
    assert_eq!(poller.windows, (0, 0));

    assert!(poller.configure(AutoStartPolicy::Always, 10));
    assert_eq!(poller.windows, (4, AUTO_STOP_GRACE_TICKS));
    poller.detector.tick(Some("zoom"));
    assert_eq!(poller.detector.phase_name(), "arming");

    // The same settings keep the count going.
    assert!(poller.configure(AutoStartPolicy::Always, 10));
    assert_eq!(poller.detector.phase_name(), "arming");

    // A new delay starts arming over.
    assert!(poller.configure(AutoStartPolicy::Always, 30));
    assert_eq!(poller.windows, (10, AUTO_STOP_GRACE_TICKS));
    assert_eq!(poller.detector.phase_name(), "idle");

    // Switching detection off drops what was observed.
    poller.detector.tick(Some("zoom"));
    assert!(!poller.configure(AutoStartPolicy::Manual, 30));
    assert_eq!(poller.windows, (0, 0));
    assert_eq!(poller.detector.phase_name(), "idle");
}
