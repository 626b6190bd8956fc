use embral::autodetect::{AutoStartPolicy, AutoStopScope};
use embral::config::{
    AppConfig, CloudOutOfHours, DictationCleanup, PowerPolicy, TranscriptionProvider,
};
use embral::dictation::{
    delivery_kind, delivery_plan, fallback_text, heard_text, interim_mirror, join_segments,
    mic_device, on_press, on_release, overlay_text, start_gate, tentative_tail, HotkeyAction,
};
use embral::support::AppError;

#[test]
fn fallback_delivers_everything_on_screen() {
    let heard = vec!["First sentence.".to_string(), "Second one.".to_string()];
    assert_eq!(
        fallback_text(&heard, "and a trailing thought"),
        "First sentence. Second one. and a trailing thought"
    );
    assert_eq!(fallback_text(&heard, ""), "First sentence. Second one.");
    assert_eq!(fallback_text(&[], "only tentative words"), "only tentative words");
    assert_eq!(fallback_text(&[], ""), "");
}

#[test]
fn tap_toggles_and_hold_pushes_to_talk() {
    assert_eq!(on_press(false), HotkeyAction::Start);
    assert_eq!(on_release(true, 200), HotkeyAction::Nothing);
    assert_eq!(on_press(true), HotkeyAction::Stop);
    assert_eq!(on_release(true, 900), HotkeyAction::Stop);
    assert_eq!(on_release(false, 2000), HotkeyAction::Nothing);
}

#[test]
fn the_hold_threshold_is_inclusive() {
    assert_eq!(on_release(true, 699), HotkeyAction::Nothing);
    assert_eq!(on_release(true, 700), HotkeyAction::Stop);
}

#[test]
fn segments_join_trimmed_with_blanks_dropped() {
    let texts = vec![" a ".to_string(), "   ".to_string(), "b".to_string(), String::new()];
    assert_eq!(join_segments(&texts), "a b");
    assert_eq!(join_segments(&[]), "");
}

fn config(provider: TranscriptionProvider, out_of_hours: CloudOutOfHours, token: &str) -> AppConfig {
    AppConfig {
        transcription_provider: TranscriptionProvider::Local,
        transcription_power_policy: PowerPolicy::Off,
        cloud_session_token: token.to_string(),
        cloud_account_email: String::new(),
        cloud_out_of_hours: CloudOutOfHours::Local,
        dictation_provider: provider,
        dictation_out_of_hours: out_of_hours,
        dictation_cleanup: DictationCleanup::Off,
        dictation_auto_paste: false,
        dictation_copy_clipboard: false,
        auto_start_policy: AutoStartPolicy::Manual,
        auto_stop: AutoStopScope::Never,
        detection_delay_secs: 10,
        auto_detect_apps: Vec::new(),
        summaries_enabled: false,
        summaries_profile_id: String::new(),
    }
}

#[test]
fn the_dictation_gate_refuses_in_order() {
    let local = config(TranscriptionProvider::Local, CloudOutOfHours::Local, "");
    assert!(matches!(start_gate(true, true, &local, "m", false), Err(AppError::CantDictateWhileRecording)));
    assert!(matches!(start_gate(false, true, &local, "m", false), Err(AppError::DictationAlreadyRunning)));
    match start_gate(false, false, &local, "whisper-small", false) {
        Err(AppError::DictationModelMissing(m)) => assert_eq!(m, "whisper-small"),
        _ => panic!("the missing model is named"),
    }
    assert!(start_gate(false, false, &local, "m", true).is_ok());
    let cloud = config(TranscriptionProvider::Cloud, CloudOutOfHours::Disabled, "");
    assert!(matches!(start_gate(false, false, &cloud, "m", false), Err(AppError::CloudSignInRequired)));
    let signed_in = config(TranscriptionProvider::Cloud, CloudOutOfHours::Disabled, "t");
    assert!(start_gate(false, false, &signed_in, "m", false).is_ok());
}

#[test]
fn a_blank_mic_setting_means_the_default_device() {
    assert_eq!(mic_device("  "), None);
    assert_eq!(mic_device(" USB Mic ").as_deref(), Some("USB Mic"));
}

#[test]
fn the_overlay_shows_what_was_heard_then_the_interim() {
    let heard = vec!["One.".to_string(), "Two.".to_string()];
    assert_eq!(overlay_text(&heard, "three"), "One. Two. three");
    assert_eq!(overlay_text(&heard, ""), "One. Two.");
    assert_eq!(overlay_text(&[], "three"), "three");
    assert_eq!(overlay_text(&[], ""), "");
}

#[test]
fn the_interim_mirror_concatenates_verbatim() {
    assert_eq!(tentative_tail(Some(" wor  ")), " wor");
    assert_eq!(tentative_tail(None), "");
    assert_eq!(interim_mirror(" hello", Some(" wor ")).as_deref(), Some("hello wor"));
    assert_eq!(interim_mirror("hel", Some("lo")).as_deref(), Some("hello"));
    assert_eq!(interim_mirror("  ", Some("   ")), None);
    assert_eq!(heard_text("  done. "), Some("done.".to_string()));
    assert_eq!(heard_text(" "), None);
}

#[test]
fn delivery_follows_the_two_switches() {
    let neither = delivery_plan(false, false);
    assert!(!neither.set_clipboard && !neither.paste && !neither.restore_previous);
    let copy = delivery_plan(true, false);
    assert!(copy.set_clipboard && !copy.paste && !copy.restore_previous);
    let paste = delivery_plan(false, true);
    assert!(paste.set_clipboard && paste.paste && paste.restore_previous);
    let both = delivery_plan(true, true);
    assert!(both.set_clipboard && both.paste && !both.restore_previous);
    assert_eq!(delivery_kind(true, true), "paste");
    assert_eq!(delivery_kind(false, true), "clipboard");
    assert_eq!(delivery_kind(false, false), "history");
}
