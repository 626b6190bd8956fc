use embral::commands::recording::{
    diarization_has_run_away, label_segment, on_stream_failed, rename_live_speaker,
    report_stream_failure, reopens_cloud_stream, start_gate, stop_drafts, strip_speakers, streams_to_cloud, user_title, FailureStep,
    StreamFailureRoute, MAX_LIVE_SPEAKERS,
};
use embral::autodetect::{AutoStartPolicy, AutoStopScope};
use embral::config::{
    AppConfig, CloudOutOfHours, DictationCleanup, PowerPolicy, TranscriptionProvider,
};
use embral::support::{AppError, TranscriptionSegment};
use embral::types::PowerSource;

#[test]
fn a_plausible_meeting_keeps_its_labels() {
    for distinct in 1..=MAX_LIVE_SPEAKERS {
        assert!(!diarization_has_run_away(distinct), "{distinct} speakers");
    }
}

#[test]
fn one_speaker_too_many_stands_the_labels_down() {
    assert!(diarization_has_run_away(MAX_LIVE_SPEAKERS + 1));
    assert!(diarization_has_run_away(40));
}

fn labeled(speaker: &str) -> TranscriptionSegment {
    TranscriptionSegment {
        speaker: Some(speaker.to_string()),
        speaker_id: None,
        text: "words".to_string(),
        start_ms: 0,
        end_ms: 1000,
    }
}

#[test]
fn a_rename_does_not_double_count_its_cluster() {
    let mut seen: Vec<String> = Vec::new();
    let renames = vec![("Speaker 2".to_string(), "Alice".to_string())];
    let mut seg = labeled("Speaker 2");
    assert!(!label_segment(&mut seg, true, &mut seen, &renames));
    assert_eq!(seg.speaker.as_deref(), Some("Alice"));
    let mut again = labeled("Speaker 2");
    assert!(!label_segment(&mut again, true, &mut seen, &renames));
    assert_eq!(seen.len(), 1);
    assert!(seen.contains(&"Speaker 2".to_string()));
}

#[test]
fn labeling_off_strips_and_counts_nothing() {
    let mut seen: Vec<String> = Vec::new();
    let renames: Vec<(String, String)> = Vec::new();
    let mut seg = labeled("Speaker 1");
    assert!(!label_segment(&mut seg, false, &mut seen, &renames));
    assert_eq!(seg.speaker, None);
    assert!(seen.is_empty());
}

#[test]
fn the_label_past_the_ceiling_trips_the_guard() {
    let mut seen: Vec<String> = Vec::new();
    let renames: Vec<(String, String)> = Vec::new();
    for n in 1..=MAX_LIVE_SPEAKERS {
        let mut seg = labeled(&format!("Speaker {n}"));
        assert!(!label_segment(&mut seg, true, &mut seen, &renames), "{n}");
        assert!(seg.speaker.is_some());
    }
    let mut one_too_many = labeled("Speaker 7");
    assert!(label_segment(&mut one_too_many, true, &mut seen, &renames));
    assert_eq!(one_too_many.speaker, None);
    // A label already counted did not push the count past the ceiling.
    let mut repeat = labeled("Speaker 3");
    assert!(!label_segment(&mut repeat, true, &mut seen, &renames));
    assert_eq!(repeat.speaker, None);
    assert_eq!(seen.len(), MAX_LIVE_SPEAKERS + 1);
}

#[test]
fn renaming_twice_sends_the_first_label_straight_to_the_last_name() {
    let mut renames: Vec<(String, String)> = Vec::new();
    let mut segments = vec![labeled("Speaker 1"), labeled("Speaker 2")];
    rename_live_speaker("Speaker 1", "  Bob ", &mut renames, &mut segments);
    assert_eq!(segments[0].speaker.as_deref(), Some("Bob"));
    assert_eq!(segments[1].speaker.as_deref(), Some("Speaker 2"));
    rename_live_speaker("Bob", "Robert", &mut renames, &mut segments);
    assert_eq!(segments[0].speaker.as_deref(), Some("Robert"));
    // A later segment of the first cluster goes straight to the last name.
    let mut later = labeled("Speaker 1");
    let mut seen: Vec<String> = Vec::new();
    assert!(!label_segment(&mut later, true, &mut seen, &renames));
    assert_eq!(later.speaker.as_deref(), Some("Robert"));
}

#[test]
fn a_blank_or_self_rename_changes_nothing() {
    let mut renames: Vec<(String, String)> = Vec::new();
    let mut segments = vec![labeled("Speaker 1")];
    rename_live_speaker("Speaker 1", "   ", &mut renames, &mut segments);
    rename_live_speaker("", "Ann", &mut renames, &mut segments);
    rename_live_speaker("Speaker 1", " Speaker 1 ", &mut renames, &mut segments);
    assert!(renames.is_empty());
    assert_eq!(segments[0].speaker.as_deref(), Some("Speaker 1"));
}

#[test]
fn a_stream_failure_reaches_only_the_current_recording() {
    assert_eq!(report_stream_failure(3, 2, true), StreamFailureRoute::MovedOn);
    assert_eq!(report_stream_failure(3, 3, false), StreamFailureRoute::Ended);
    assert_eq!(report_stream_failure(3, 3, true), StreamFailureRoute::Report);
}

fn config(provider: TranscriptionProvider, token: &str) -> AppConfig {
    AppConfig {
        transcription_provider: provider,
        transcription_power_policy: PowerPolicy::Off,
        cloud_session_token: token.to_string(),
        cloud_account_email: String::new(),
        cloud_out_of_hours: CloudOutOfHours::Local,
        dictation_provider: TranscriptionProvider::Local,
        dictation_out_of_hours: CloudOutOfHours::Local,
        dictation_cleanup: DictationCleanup::Off,
        dictation_auto_paste: false,
        dictation_copy_clipboard: false,
        auto_start_policy: AutoStartPolicy::Manual,
        auto_stop: AutoStopScope::Never,
        detection_delay_secs: 10,
        auto_detect_apps: Vec::new(),
        summaries_enabled: false,
        summaries_profile_id: String::new(),
    }
}

#[test]
fn the_record_gate_refuses_in_order() {
    let local = config(TranscriptionProvider::Local, "");
    assert!(matches!(
        start_gate(true, true, &local, PowerSource::Plugged, "m", false),
        Err(AppError::AlreadyRecording)
    ));
    assert!(matches!(
        start_gate(false, true, &local, PowerSource::Plugged, "m", false),
        Err(AppError::NotConfigured)
    ));
    assert!(matches!(
        start_gate(false, true, &local, PowerSource::Plugged, "m", true),
        Err(AppError::BusyDictating)
    ));
    assert!(matches!(
        start_gate(false, false, &local, PowerSource::Plugged, "m", true),
        Ok(TranscriptionProvider::Local)
    ));
}

#[test]
fn the_gate_asks_about_the_lane_the_power_policy_picks() {
    let mut cloud = config(TranscriptionProvider::Local, "token");
    cloud.transcription_power_policy = PowerPolicy::CloudOnBattery;
    // On battery the cloud lane runs, and signed in it needs no model when
    // the fallback disables transcription.
    cloud.cloud_out_of_hours = CloudOutOfHours::Disabled;
    assert!(matches!(
        start_gate(false, false, &cloud, PowerSource::Battery, "m", false),
        Ok(TranscriptionProvider::Cloud)
    ));
    assert!(matches!(
        start_gate(false, false, &cloud, PowerSource::Plugged, "m", false),
        Err(AppError::NotConfigured)
    ));
}

#[test]
fn signed_out_the_cloud_lane_transcribes_on_the_device() {
    assert!(streams_to_cloud(TranscriptionProvider::Cloud, &config(TranscriptionProvider::Cloud, "t")));
    assert!(!streams_to_cloud(TranscriptionProvider::Cloud, &config(TranscriptionProvider::Cloud, "")));
    assert!(!streams_to_cloud(TranscriptionProvider::Local, &config(TranscriptionProvider::Cloud, "t")));
}

#[test]
fn a_second_stream_failure_gives_up() {
    assert_eq!(on_stream_failed(true, CloudOutOfHours::Local, true), FailureStep::GiveUp);
    assert_eq!(on_stream_failed(false, CloudOutOfHours::Local, true), FailureStep::SwitchToLocal);
    assert_eq!(on_stream_failed(false, CloudOutOfHours::Local, false), FailureStep::Fail);
    assert_eq!(
        on_stream_failed(false, CloudOutOfHours::Disabled, true),
        FailureStep::DisableTranscription
    );
}

#[test]
fn an_unanswered_stop_uses_the_mirrored_drafts() {
    let mirrored = Some(("notes".to_string(), "Title".to_string()));
    let (n, t) = stop_drafts(None, None, mirrored.clone());
    assert_eq!(n.as_deref(), Some("notes"));
    assert_eq!(t.as_deref(), Some("Title"));
    let (n, t) = stop_drafts(Some(String::new()), None, mirrored);
    assert_eq!(n.as_deref(), Some(""));
    assert_eq!(t, None);
    let (n, t) = stop_drafts(None, None, None);
    assert_eq!((n, t), (None, None));
}

#[test]
fn a_blank_title_is_no_title() {
    assert_eq!(user_title(Some("  Standup  ".to_string())).as_deref(), Some("Standup"));
    assert_eq!(user_title(Some("   ".to_string())), None);
    assert_eq!(user_title(None), None);
}

#[test]
fn turning_labels_off_strips_every_segment_heard_so_far() {
    let mut segments = vec![labeled("Speaker 1"), labeled("Speaker 2")];
    segments[1].speaker_id = Some("spk-2".to_string());
    strip_speakers(&mut segments);
    assert_eq!(segments.len(), 2);
    for seg in &segments {
        assert!(seg.speaker.is_none());
        assert!(seg.speaker_id.is_none());
    }
    assert_eq!(segments[0].text, labeled("Speaker 1").text);
}

#[test]
fn resume_reopens_only_a_waiting_cloud_stream() {
    assert!(reopens_cloud_stream(true, true, true, true));
    assert!(!reopens_cloud_stream(true, true, false, true));
    assert!(!reopens_cloud_stream(true, true, true, false));
    assert!(!reopens_cloud_stream(false, true, true, true));
    assert!(!reopens_cloud_stream(true, false, true, true));
}
