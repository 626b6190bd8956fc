use embral::autodetect::{AutoStartPolicy, AutoStopScope};
use embral::config::{
    notes_engine, uses_local_llm, cleanup_uses_builtin, cloud_gap, local_gap, missing_prerequisite, needs_local_model,
    on_cloud_failure, power_lens, provider_for_power, AppConfig, CloudFailureAction,
    CloudOutOfHours, DictationCleanup, PowerPolicy, TranscriptionProvider,
};
use embral::commands::settings::preserve_server_fields;
use embral::janitor::retention_plan;
use embral::llm::{keeps_warm, should_evict};
use embral::types::PowerSource;

fn default_config() -> AppConfig {
    AppConfig {
        transcription_provider: TranscriptionProvider::Local,
        transcription_power_policy: PowerPolicy::Off,
        cloud_session_token: String::new(),
        cloud_account_email: String::new(),
        cloud_out_of_hours: CloudOutOfHours::Local,
        dictation_provider: TranscriptionProvider::Local,
        dictation_out_of_hours: CloudOutOfHours::Local,
        dictation_cleanup: DictationCleanup::Off,
        dictation_auto_paste: false,
        dictation_copy_clipboard: false,
        auto_start_policy: AutoStartPolicy::Manual,
        auto_stop: AutoStopScope::Never,
        detection_delay_secs: 10,
        auto_detect_apps: Vec::new(),
        summaries_enabled: false,
        summaries_profile_id: String::new(),
    }
}

fn cloud_ok(signed_in: bool, local_ready: bool, out_of_hours: CloudOutOfHours) -> bool {
    cloud_gap(signed_in, local_ready, out_of_hours, "parakeet-tdt-en").is_none()
}

#[test]
fn signed_out_with_a_local_model_can_still_record() {
    assert!(cloud_ok(false, true, CloudOutOfHours::Local));
}

#[test]
fn nothing_to_transcribe_with_is_not_configured() {
    assert!(!cloud_ok(false, false, CloudOutOfHours::Local));
    assert!(!cloud_ok(false, false, CloudOutOfHours::Disabled));
}

#[test]
fn a_signed_in_account_needs_the_model_only_for_the_device_fallback() {
    assert!(cloud_ok(true, false, CloudOutOfHours::Disabled));
    assert!(!cloud_ok(true, false, CloudOutOfHours::Local));
    assert!(cloud_ok(true, true, CloudOutOfHours::Local));
}

#[test]
fn the_local_provider_gate_is_purely_a_model_question() {
    assert!(local_gap(true, "parakeet-tdt-en").is_none());
    assert!(local_gap(false, "parakeet-tdt-en").is_some());
}

#[test]
fn every_refusal_names_the_model_it_wanted() {
    let refusals = [
        cloud_gap(false, false, CloudOutOfHours::Local, "parakeet-tdt-v3"),
        cloud_gap(true, false, CloudOutOfHours::Local, "parakeet-tdt-v3"),
        local_gap(false, "parakeet-tdt-v3"),
    ];
    for refusal in refusals {
        let reason = refusal.expect("this config cannot record");
        assert!(reason.contains("parakeet-tdt-v3"), "{reason}");
    }
}

#[test]
fn the_refusals_read_exactly() {
    assert_eq!(
        local_gap(false, "m1").unwrap(),
        "provider is this device, but the model 'm1' is not on disk"
    );
    assert_eq!(
        cloud_gap(false, false, CloudOutOfHours::Disabled, "m1").unwrap(),
        "provider is cloud but no account is signed in, and the fallback model 'm1' is not on disk"
    );
    assert_eq!(
        cloud_gap(true, false, CloudOutOfHours::Local, "m1").unwrap(),
        "provider is cloud with 'switch to this device' as the fallback, but the model 'm1' is not on disk"
    );
}

#[test]
fn a_real_config_reaches_the_pure_rule() {
    let mut config = default_config();
    config.transcription_provider = TranscriptionProvider::Cloud;
    config.cloud_session_token = String::new();
    config.cloud_out_of_hours = CloudOutOfHours::Disabled;
    assert!(missing_prerequisite(&config, &TranscriptionProvider::Cloud, "m", true).is_none());
    assert!(missing_prerequisite(&config, &TranscriptionProvider::Cloud, "m", false).is_some());
}

#[test]
fn the_gate_asks_about_the_lane_the_power_policy_chose() {
    let mut config = default_config();
    config.transcription_provider = TranscriptionProvider::Cloud;
    config.transcription_power_policy = PowerPolicy::CloudOnBattery;
    let provider = provider_for_power(&config, PowerSource::Plugged);
    assert_eq!(provider, TranscriptionProvider::Local);
    assert!(missing_prerequisite(&config, &provider, "m", false).is_some());
}

#[test]
fn the_policy_off_leaves_the_standing_choice_alone() {
    for power in [PowerSource::Plugged, PowerSource::Battery, PowerSource::Unknown] {
        assert_eq!(
            power_lens(TranscriptionProvider::Cloud, PowerPolicy::Off, power),
            TranscriptionProvider::Cloud
        );
        assert_eq!(
            power_lens(TranscriptionProvider::Local, PowerPolicy::Off, power),
            TranscriptionProvider::Local
        );
    }
}

#[test]
fn on_battery_goes_to_the_cloud_and_plugged_in_comes_home() {
    for configured in [TranscriptionProvider::Local, TranscriptionProvider::Cloud] {
        assert_eq!(
            power_lens(configured, PowerPolicy::CloudOnBattery, PowerSource::Battery),
            TranscriptionProvider::Cloud
        );
        assert_eq!(
            power_lens(configured, PowerPolicy::CloudOnBattery, PowerSource::Plugged),
            TranscriptionProvider::Local
        );
    }
}

#[test]
fn an_unknown_power_source_never_routes_audio_off_the_machine() {
    assert_eq!(
        power_lens(TranscriptionProvider::Local, PowerPolicy::CloudOnBattery, PowerSource::Unknown),
        TranscriptionProvider::Local
    );
    assert_eq!(
        power_lens(TranscriptionProvider::Cloud, PowerPolicy::CloudOnBattery, PowerSource::Unknown),
        TranscriptionProvider::Cloud
    );
}

#[test]
fn a_real_config_reaches_the_rule() {
    let mut config = default_config();
    config.transcription_provider = TranscriptionProvider::Local;
    config.transcription_power_policy = PowerPolicy::CloudOnBattery;
    assert_eq!(provider_for_power(&config, PowerSource::Battery), TranscriptionProvider::Cloud);
}

#[test]
fn disable_wins_regardless_of_the_local_model() {
    assert_eq!(
        on_cloud_failure(CloudOutOfHours::Disabled, true),
        CloudFailureAction::DisableTranscription
    );
    assert_eq!(
        on_cloud_failure(CloudOutOfHours::Disabled, false),
        CloudFailureAction::DisableTranscription
    );
}

#[test]
fn switch_to_device_needs_the_model() {
    assert_eq!(on_cloud_failure(CloudOutOfHours::Local, true), CloudFailureAction::SwitchToLocal);
    assert_eq!(on_cloud_failure(CloudOutOfHours::Local, false), CloudFailureAction::Fail);
}

#[test]
fn local_model_needed_only_where_the_device_transcribes() {
    let mut config = default_config();
    config.dictation_provider = TranscriptionProvider::Local;
    assert!(needs_local_model(&config));
    config.dictation_provider = TranscriptionProvider::Cloud;
    config.dictation_out_of_hours = CloudOutOfHours::Local;
    assert!(needs_local_model(&config));
    config.dictation_out_of_hours = CloudOutOfHours::Disabled;
    assert!(!needs_local_model(&config));
}

#[test]
fn signed_out_cloud_cleanup_counts_as_local() {
    let mut config = default_config();
    config.dictation_cleanup = DictationCleanup::Cloud;
    config.cloud_session_token = String::new();
    assert!(cleanup_uses_builtin(&config));
    config.cloud_session_token = "t".to_string();
    assert!(!cleanup_uses_builtin(&config));
    config.dictation_cleanup = DictationCleanup::OnDevice;
    assert!(cleanup_uses_builtin(&config));
    config.dictation_cleanup = DictationCleanup::Off;
    assert!(!cleanup_uses_builtin(&config));
}

#[test]
fn local_llm_usage_follows_its_consumers() {
    let mut config = default_config();
    config.summaries_enabled = true;
    config.summaries_profile_id = "builtin".to_string();
    config.dictation_cleanup = DictationCleanup::Off;
    assert!(uses_local_llm(&config));
    config.summaries_profile_id = String::new();
    assert!(uses_local_llm(&config));
    config.summaries_enabled = false;
    assert!(!uses_local_llm(&config));
    config.dictation_cleanup = DictationCleanup::OnDevice;
    assert!(uses_local_llm(&config));
}

#[test]
fn a_summary_on_another_engine_leaves_the_device_alone() {
    let mut config = default_config();
    config.summaries_enabled = true;
    config.summaries_profile_id = "my-openai".to_string();
    assert!(!uses_local_llm(&config));
}

#[test]
fn a_summary_is_credited_to_its_engine() {
    assert_eq!(notes_engine(""), "builtin");
    assert_eq!(notes_engine("builtin"), "builtin");
    assert_eq!(notes_engine("cloud"), "cloud");
    assert_eq!(notes_engine("my-openai"), "custom");
}

#[test]
fn keep_warm_lapses_once_nothing_uses_the_built_in_model() {
    let mut config = default_config();
    config.dictation_cleanup = DictationCleanup::OnDevice;
    assert!(keeps_warm(true, &config));
    assert!(!keeps_warm(false, &config));
    config.dictation_cleanup = DictationCleanup::Off;
    assert!(!keeps_warm(true, &config));
    assert!(should_evict(keeps_warm(true, &config), true, 10, 600));
    assert!(!should_evict(keeps_warm(true, &config), true, 10, 599));
}

#[test]
fn the_janitor_runs_only_the_clean_ups_asked_for() {
    let plan = retention_plan(30, 0, false, 7, 100);
    assert_eq!(plan.audio_days, 30);
    assert_eq!(plan.meeting_days, 0);
    assert_eq!(plan.dictation_days, 0);
    assert_eq!(plan.dictation_count, 0);
    assert!(plan.prunes);

    let plan = retention_plan(0, 0, true, 7, 100);
    assert_eq!(plan.dictation_days, 7);
    assert_eq!(plan.dictation_count, 100);
    assert!(plan.prunes);

    let plan = retention_plan(0, 0, false, 7, 100);
    assert!(!plan.prunes);
}

#[test]
fn a_stale_save_payload_cannot_clobber_the_session() {
    // The settings draft snapshots config when Settings opens; a sign-in
    // after that snapshot must survive any later save from it.
    let mut current = default_config();
    current.cloud_session_token = "tok".into();
    current.cloud_account_email = "a@b.com".into();

    let mut incoming = default_config();
    incoming.cloud_session_token = String::new();
    incoming.cloud_account_email = String::new();
    incoming.detection_delay_secs = 9; // a real edit rides along

    preserve_server_fields(&mut incoming, &current);
    assert_eq!(incoming.cloud_session_token, "tok");
    assert_eq!(incoming.cloud_account_email, "a@b.com");
    assert_eq!(incoming.detection_delay_secs, 9);
}
