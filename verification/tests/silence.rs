use embral::autodetect::silence::{
    check, notice_from_mark, silence_tick, LivenessTracker, Notice, SilenceTick,
    SilenceUnanswered, Verdict, GRACE_SECS, STOOD_DOWN_MARK,
};

const THRESHOLD: u64 = 300; // the 5-minute default

#[test]
fn quiet_until_the_threshold_then_notify_once() {
    assert_eq!(check(0, THRESHOLD, Notice::NotShowing), Verdict::Quiet);
    assert_eq!(check(299, THRESHOLD, Notice::NotShowing), Verdict::Quiet);
    assert_eq!(check(300, THRESHOLD, Notice::NotShowing), Verdict::Notify);
    // With the notice up, later ticks wait rather than re-notify.
    assert_eq!(
        check(360, THRESHOLD, Notice::Pending { age_secs: 60 }),
        Verdict::Waiting
    );
}

#[test]
fn the_grace_running_out_means_unanswered() {
    assert_eq!(
        check(420, THRESHOLD, Notice::Pending { age_secs: GRACE_SECS }),
        Verdict::Unanswered
    );
}

#[test]
fn speech_resuming_clears_a_notice_or_a_stand_down() {
    assert_eq!(
        check(10, THRESHOLD, Notice::Pending { age_secs: 60 }),
        Verdict::Cleared
    );
    assert_eq!(check(10, THRESHOLD, Notice::StoodDown), Verdict::Cleared);
    assert_eq!(check(10, THRESHOLD, Notice::NotShowing), Verdict::Quiet);
}

#[test]
fn a_stand_down_never_renags_while_silence_continues() {
    assert_eq!(check(9999, THRESHOLD, Notice::StoodDown), Verdict::Quiet);
}

#[test]
fn zero_threshold_is_off() {
    assert_eq!(check(9999, 0, Notice::NotShowing), Verdict::Quiet);
    // A notice left up when the setting turns off comes down.
    assert_eq!(
        check(9999, 0, Notice::Pending { age_secs: 10 }),
        Verdict::Cleared
    );
}

#[test]
fn final_tokens_arriving_are_liveness() {
    let mut t = LivenessTracker::default();
    assert!(t.observe_interim("hello"));
    assert!(t.observe_interim("hello world"));
}

#[test]
fn tentative_only_flicker_is_not() {
    let mut t = LivenessTracker::default();
    assert!(t.observe_interim("hello"));
    assert!(!t.observe_interim("hello"));
}

#[test]
fn an_utterance_opens_from_nothing_without_counting() {
    let mut t = LivenessTracker::default();
    assert!(!t.observe_interim(""));
}

#[test]
fn noise_after_a_close_is_not_liveness() {
    let mut t = LivenessTracker::default();
    assert!(t.observe_interim("see you tomorrow"));
    assert!(t.observe_segment());
    assert!(!t.observe_interim(""));
    assert!(!t.observe_interim(""));
}

#[test]
fn a_close_resets_so_the_next_words_count() {
    let mut t = LivenessTracker::default();
    assert!(t.observe_interim("first thought"));
    assert!(t.observe_segment());
    assert!(t.observe_interim("second thought"));
}

#[test]
fn a_revision_still_shows_live_decoding() {
    let mut t = LivenessTracker::default();
    assert!(t.observe_interim("hello world"));
    assert!(t.observe_interim("hello"));
}

// --- The watcher's tick ---

const NOW: u64 = 1_700_000_000_000;

#[test]
fn the_mark_reads_back_as_the_notice() {
    assert_eq!(notice_from_mark(0, NOW), Notice::NotShowing);
    assert_eq!(notice_from_mark(STOOD_DOWN_MARK, NOW), Notice::StoodDown);
    assert_eq!(
        notice_from_mark(NOW - 61_500, NOW),
        Notice::Pending { age_secs: 61 }
    );
    // A mark from the future (a clock step back) reads as just raised.
    assert_eq!(notice_from_mark(NOW + 5_000, NOW), Notice::Pending { age_secs: 0 });
}

#[test]
fn a_newer_recording_or_an_ended_one_retires_the_watcher() {
    let t = silence_tick(2, 1, Some(false), true, 5, SilenceUnanswered::Stop, NOW, NOW, 0);
    assert_eq!(t, SilenceTick::Retire);
    let t = silence_tick(1, 1, None, true, 5, SilenceUnanswered::Stop, NOW, NOW, 0);
    assert_eq!(t, SilenceTick::Retire);
}

#[test]
fn paused_wordless_or_switched_off_recordings_never_count_as_silence() {
    let long_ago = NOW - 3_600_000;
    let paused = silence_tick(1, 1, Some(true), true, 5, SilenceUnanswered::Stop, NOW, long_ago, 0);
    assert_eq!(paused, SilenceTick::Idle);
    let wordless = silence_tick(1, 1, Some(false), false, 5, SilenceUnanswered::Stop, NOW, long_ago, 0);
    assert_eq!(wordless, SilenceTick::Idle);
    let off = silence_tick(1, 1, Some(false), true, 0, SilenceUnanswered::Stop, NOW, long_ago, 0);
    assert_eq!(off, SilenceTick::Idle);
}

#[test]
fn five_silent_minutes_raise_the_notice_with_its_deadline() {
    let last = NOW - 300_000;
    let stop = silence_tick(1, 1, Some(false), true, 5, SilenceUnanswered::Stop, NOW, last, 0);
    assert_eq!(
        stop,
        SilenceTick::RaiseNotice { mark: NOW, stops_at_ms: Some(NOW + 120_000) }
    );
    let keep = silence_tick(1, 1, Some(false), true, 5, SilenceUnanswered::Keep, NOW, last, 0);
    assert_eq!(keep, SilenceTick::RaiseNotice { mark: NOW, stops_at_ms: None });
    // One second short is still quiet.
    let early = silence_tick(1, 1, Some(false), true, 5, SilenceUnanswered::Stop, NOW, last + 1_000, 0);
    assert_eq!(early, SilenceTick::Idle);
}

#[test]
fn an_unanswered_notice_acts_on_the_setting() {
    let last = NOW - 500_000;
    let raised = NOW - 120_000;
    let stop = silence_tick(1, 1, Some(false), true, 5, SilenceUnanswered::Stop, NOW, last, raised);
    assert_eq!(stop, SilenceTick::StopRecording);
    let keep = silence_tick(1, 1, Some(false), true, 5, SilenceUnanswered::Keep, NOW, last, raised);
    assert_eq!(keep, SilenceTick::StandDown);
    // Inside the grace the notice waits.
    let waiting = silence_tick(1, 1, Some(false), true, 5, SilenceUnanswered::Stop, NOW, last, raised + 1_000);
    assert_eq!(waiting, SilenceTick::Idle);
}

#[test]
fn words_arriving_take_the_notice_down() {
    let t = silence_tick(1, 1, Some(false), true, 5, SilenceUnanswered::Stop, NOW, NOW - 2_000, NOW - 30_000);
    assert_eq!(t, SilenceTick::ClearNotice);
    let t = silence_tick(1, 1, Some(false), true, 5, SilenceUnanswered::Keep, NOW, NOW, STOOD_DOWN_MARK);
    assert_eq!(t, SilenceTick::ClearNotice);
}

#[test]
fn a_stood_down_check_in_stays_down_through_the_silence() {
    let t = silence_tick(1, 1, Some(false), true, 5, SilenceUnanswered::Keep, NOW, NOW - 9_000_000, STOOD_DOWN_MARK);
    assert_eq!(t, SilenceTick::Idle);
}
