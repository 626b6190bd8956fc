use embral::commands::finalize::{
    audio_filename, meeting_attendees, meeting_title, orphan_candidates, runs_speaker_pipeline,
    stored_audio_path,
};
use embral::commands::meetings::{collect_linked_speakers, parse_rfc3339, parse_since, hit_lead, hit_snippet, pick_meeting_hits};
use embral::commands::settings::{
    audio_app_rows, audio_sources, primary_mic, reset_plan, update_guard, IndexAfterReset,
    ResetScopes,
};
use embral::llm::{
    base_url, health_url, server_args, should_evict, sidecar_plan, startup_step, SidecarPlan,
    StartupStep,
};
use embral::notes_matching::{apply_assignments, naming_pass_runs, NotesNamingMode};
use embral::ocr::{
    ends_the_run, pending_images, read_images, sweep_after, sweep_next, SweepStep, SWEEP_BATCH,
};
use embral::support::{AppError, TranscriptionSegment};
use embral::types::{AppId, Recognized};

fn strings(items: &[&str]) -> Vec<String> {
    items.iter().map(|s| s.to_string()).collect()
}

#[test]
fn a_hit_leads_with_its_first_real_line() {
    assert_eq!(hit_lead("\n   \n  First line here  \nsecond"), "First line here");
    assert_eq!(hit_lead(""), "");
    assert_eq!(hit_lead(" \n\t\n"), "");
    let long = "é".repeat(200);
    assert_eq!(hit_lead(&long).chars().count(), 160);
}

#[test]
fn a_missing_excerpt_leads_with_the_passage() {
    assert_eq!(hit_snippet(Some("<b>north</b>".to_string()), "ignored"), "<b>north</b>");
    assert_eq!(hit_snippet(None, "short passage"), "short passage");
    let long = "a".repeat(150);
    let s = hit_snippet(None, &long);
    assert_eq!(s.chars().count(), 141);
    assert!(s.ends_with('…'));
    assert_eq!(hit_snippet(None, &"b".repeat(140)), "b".repeat(140));
}

#[test]
fn passage_hits_collapse_to_one_row_per_meeting() {
    let ids = vec![
        Some("m1".to_string()),
        None,
        Some("m2".to_string()),
        Some("m1".to_string()),
        Some("m3".to_string()),
    ];
    assert_eq!(pick_meeting_hits(&ids, 12), vec![0, 2, 4]);
    assert_eq!(pick_meeting_hits(&ids, 2), vec![0, 2]);
    // The row limit is checked after a row is taken, so a first row always
    // comes back.
    assert_eq!(pick_meeting_hits(&ids, 0), vec![0]);
    assert_eq!(pick_meeting_hits(&[None, None], 5), Vec::<usize>::new());
}

#[test]
fn an_update_waits_for_work_in_flight() {
    assert!(matches!(update_guard(true, true, true), Some(AppError::RecordingInProgress)));
    assert!(matches!(update_guard(false, true, true), Some(AppError::DictationInProgress)));
    assert!(matches!(update_guard(false, false, true), Some(AppError::ImportInProgress)));
    assert!(update_guard(false, false, false).is_none());
}

#[test]
fn a_reset_clears_what_it_was_asked_to() {
    let all = ResetScopes { settings: true, meetings: true, profiles: true, dictations: true, models: true };
    assert!(matches!(reset_plan(&all, true, false), Err(AppError::StopRecordingBeforeReset)));
    assert!(matches!(reset_plan(&all, false, true), Err(AppError::StopDictatingBeforeReset)));
    let plan = reset_plan(&all, false, false).ok().unwrap();
    assert!(plan.open_library && plan.clear_meetings && plan.clear_models && plan.restore_settings);
    assert_eq!(plan.index, IndexAfterReset::Clear);
    let meetings_only = ResetScopes { settings: false, meetings: true, profiles: false, dictations: false, models: false };
    let plan = reset_plan(&meetings_only, false, false).ok().unwrap();
    assert_eq!(plan.index, IndexAfterReset::AfterDelete);
    assert!(!plan.clear_dictations && !plan.restore_settings);
    let models_only = ResetScopes { settings: false, meetings: false, profiles: false, dictations: false, models: true };
    let plan = reset_plan(&models_only, false, false).ok().unwrap();
    assert!(!plan.open_library);
    assert_eq!(plan.index, IndexAfterReset::Untouched);
}

#[test]
fn the_primary_mic_falls_back_to_the_default() {
    let mics = strings(&["Built-in", "USB Mic"]);
    assert_eq!(primary_mic(" USB Mic ", &mics, "Built-in".to_string()), "USB Mic");
    assert_eq!(primary_mic("", &mics, "Built-in".to_string()), "Built-in");
    assert_eq!(primary_mic("Gone Mic", &mics, "Built-in".to_string()), "Built-in");
}

#[test]
fn the_picker_rows_carry_each_apps_label() {
    let apps = vec![
        AppId { pid: 4, exe: Some("chrome".into()), bundle_id: None, display_name: Some("Chrome".into()) },
        AppId { pid: 5, exe: None, bundle_id: Some("us.zoom.xos".into()), display_name: None },
    ];
    let rows = audio_app_rows(&apps);
    assert_eq!(rows.len(), 2);
    assert_eq!((rows[0].pid, rows[0].name.as_str()), (4, "chrome"));
    assert_eq!((rows[1].pid, rows[1].name.as_str()), (5, "us.zoom.xos"));
    let sources = audio_sources(&apps, strings(&["A"]), "A", "B".to_string());
    assert_eq!(sources.primary_mic, "A");
    assert_eq!(sources.mics, strings(&["A"]));
}

#[test]
fn the_sidecar_listens_on_loopback() {
    assert_eq!(base_url(8641), "http://127.0.0.1:8641/v1");
    assert_eq!(health_url(0), "http://127.0.0.1:0/health");
    assert_eq!(
        server_args("/m/q.gguf", 9000),
        strings(&["-m", "/m/q.gguf", "--host", "127.0.0.1", "--port", "9000", "-c", "16384", "--no-webui"])
    );
}

#[test]
fn an_idle_sidecar_is_evicted_unless_kept_warm() {
    assert!(should_evict(false, true, 5, 300));
    assert!(!should_evict(false, true, 5, 299));
    assert!(!should_evict(true, true, 5, 10_000));
    assert!(!should_evict(false, false, 5, 10_000));
    // Zero minutes means one.
    assert!(should_evict(false, true, 0, 60));
    assert!(!should_evict(false, true, 0, 59));
}

#[test]
fn a_run_of_readings_stops_at_the_first_missing_engine() {
    let names = strings(&["a.png", "b.png", "c.png"]);
    let results = vec![
        Recognized::Text("hello".to_string()),
        Recognized::Failed("not an image".to_string()),
        Recognized::Unavailable,
    ];
    assert_eq!(
        read_images(&names, &results),
        vec![("a.png".to_string(), "hello".to_string()), ("b.png".to_string(), String::new())]
    );
    assert!(read_images(&names, &[Recognized::Unavailable]).is_empty());
    assert!(ends_the_run(&Recognized::Unavailable));
    assert!(!ends_the_run(&Recognized::Text(String::new())));
    // More results than names: only the named ones count.
    let extra = vec![Recognized::Text("x".to_string()), Recognized::Text("y".to_string())];
    assert_eq!(read_images(&names[..1], &extra), vec![("a.png".to_string(), "x".to_string())]);
}

#[test]
fn a_sweep_reads_only_what_nothing_has_read() {
    let stored = strings(&["img-01.png", "img-02.png", "img-03.png"]);
    let known = strings(&["img-02.png"]);
    assert_eq!(pending_images(&stored, &known, SWEEP_BATCH), strings(&["img-01.png", "img-03.png"]));
    assert_eq!(pending_images(&stored, &known, 1), strings(&["img-01.png"]));
    assert_eq!(pending_images(&stored, &stored, 8), Vec::<String>::new());
}

fn seg(speaker: &str) -> TranscriptionSegment {
    TranscriptionSegment {
        speaker: Some(speaker.to_string()),
        speaker_id: None,
        text: "t".to_string(),
        start_ms: 0,
        end_ms: 1,
    }
}

#[test]
fn the_naming_pass_needs_notes_and_a_mode() {
    assert!(!naming_pass_runs(NotesNamingMode::Off, "Ann said hi"));
    assert!(!naming_pass_runs(NotesNamingMode::Suggest, "   "));
    assert!(naming_pass_runs(NotesNamingMode::Automatic, "Ann said hi"));
}

#[test]
fn automatic_naming_renames_and_links_profiles() {
    let mut segments = vec![seg("Speaker 1"), seg("Speaker 2"), seg("Speaker 1")];
    let assignments = vec![
        ("Speaker 1".to_string(), "Ann".to_string()),
        ("Speaker 2".to_string(), "Bo".to_string()),
    ];
    let profiles = vec![("ann".to_string(), "p-old".to_string()), ("ANN".to_string(), "p1".to_string())];
    let out = apply_assignments(NotesNamingMode::Automatic, assignments, &profiles, &mut segments);
    assert!(out.is_empty());
    assert_eq!(segments[0].speaker.as_deref(), Some("Ann"));
    assert_eq!(segments[0].speaker_id.as_deref(), Some("p1"));
    assert_eq!(segments[1].speaker.as_deref(), Some("Bo"));
    assert_eq!(segments[1].speaker_id, None);
    assert_eq!(segments[2].speaker.as_deref(), Some("Ann"));
}

#[test]
fn suggest_mode_leaves_the_segments_alone() {
    let mut segments = vec![seg("Speaker 1")];
    let assignments = vec![("Speaker 1".to_string(), "Ann".to_string())];
    let out = apply_assignments(NotesNamingMode::Suggest, assignments, &[], &mut segments);
    assert_eq!(out.len(), 1);
    assert_eq!((out[0].label.as_str(), out[0].name.as_str()), ("Speaker 1", "Ann"));
    assert_eq!(segments[0].speaker.as_deref(), Some("Speaker 1"));
}

#[test]
fn finalize_keeps_authoritative_labels() {
    assert!(runs_speaker_pipeline(true, true, 3, false, true));
    assert!(!runs_speaker_pipeline(true, true, 3, true, true));
    assert!(runs_speaker_pipeline(true, true, 3, true, false));
    assert!(!runs_speaker_pipeline(true, false, 3, false, false));
    assert!(!runs_speaker_pipeline(true, true, 0, false, false));
    assert!(!runs_speaker_pipeline(false, true, 3, false, false));
}

#[test]
fn a_meeting_is_saved_under_a_title_and_attendees() {
    assert_eq!(meeting_title(Some("Mine".into()), Some("Summary's".into())), "Mine");
    assert_eq!(meeting_title(None, Some("Summary's".into())), "Summary's");
    assert_eq!(meeting_title(None, None), "Untitled Meeting");
    assert_eq!(meeting_attendees(Vec::new(), strings(&["Ann"])), strings(&["Ann"]));
    assert_eq!(meeting_attendees(strings(&["Bo"]), strings(&["Ann"])), strings(&["Bo"]));
}

#[test]
fn the_audio_file_is_named_by_stamp_and_title() {
    assert_eq!(audio_filename("260708T120000_abc123", "Weekly sync"), "260708T120000 - Weekly sync.mp3");
    assert_eq!(audio_filename("short", "T"), "short - T.mp3");
    assert_eq!(stored_audio_path(true, true, "x.mp3"), "audio/x.mp3");
    assert_eq!(stored_audio_path(true, false, "x.mp3"), "");
    assert_eq!(stored_audio_path(false, true, "x.mp3"), "");
}

#[test]
fn a_renamed_away_label_marks_its_profile_for_pruning() {
    let profiles = vec![
        ("speaker 2".to_string(), "p2".to_string()),
        ("Ann".to_string(), "p-ann".to_string()),
        ("SPEAKER 3".to_string(), "p3".to_string()),
    ];
    let superseded = strings(&["Speaker 2", "Speaker 3"]);
    assert_eq!(orphan_candidates(&profiles, &superseded), strings(&["p2", "p3"]));
    assert!(orphan_candidates(&profiles, &[]).is_empty());
}

use embral::commands::models::{begin_download, end_download, holds_sidecar_files};

#[test]
fn one_download_per_model_at_a_time() {
    let mut in_flight: Vec<String> = Vec::new();
    assert!(begin_download(&mut in_flight, "parakeet").is_ok());
    assert!(matches!(begin_download(&mut in_flight, "parakeet"), Err(AppError::AlreadyDownloading)));
    assert!(begin_download(&mut in_flight, "qwen3-4b").is_ok());
    assert_eq!(in_flight, strings(&["parakeet", "qwen3-4b"]));
    end_download(&mut in_flight, "parakeet");
    assert_eq!(in_flight, strings(&["qwen3-4b"]));
    assert!(begin_download(&mut in_flight, "parakeet").is_ok());
}

#[test]
fn the_sidecar_lets_go_of_its_own_files() {
    assert!(holds_sidecar_files("llama-server"));
    assert!(holds_sidecar_files("qwen3-4b"));
    assert!(!holds_sidecar_files("parakeet-tdt-en"));
}

#[test]
fn the_startup_poll_reports_an_exit_before_anything_else() {
    assert!(matches!(startup_step(true, true, 0), StartupStep::Exited));
    assert!(matches!(startup_step(false, true, 200_000), StartupStep::Ready));
    assert!(matches!(startup_step(false, false, 120_000), StartupStep::Wait));
    assert!(matches!(startup_step(false, false, 120_001), StartupStep::TimedOut));
}

#[test]
fn a_live_sidecar_is_reused_and_a_dead_one_restarted() {
    match sidecar_plan(Some((8641, true)), false, false) {
        SidecarPlan::Reuse(url) => assert_eq!(url, "http://127.0.0.1:8641/v1"),
        _ => panic!("a live sidecar is reused"),
    }
    assert!(matches!(sidecar_plan(Some((8641, false)), true, true), SidecarPlan::Start));
    assert!(matches!(sidecar_plan(None, true, true), SidecarPlan::Start));
    assert!(matches!(sidecar_plan(None, true, false), SidecarPlan::NotDownloaded));
    assert!(matches!(sidecar_plan(Some((1, false)), false, true), SidecarPlan::NotDownloaded));
}

fn segment_of(speaker_id: Option<&str>) -> TranscriptionSegment {
    TranscriptionSegment {
        speaker: Some("Speaker".to_string()),
        speaker_id: speaker_id.map(str::to_string),
        text: "words".to_string(),
        start_ms: 0,
        end_ms: 10,
    }
}

#[test]
fn a_deleted_meeting_remembers_each_linked_speaker_once() {
    let mut linked = vec!["spk-a".to_string()];
    let segments = vec![
        segment_of(Some("spk-b")),
        segment_of(None),
        segment_of(Some("spk-a")),
        segment_of(Some("spk-b")),
        segment_of(Some("spk-c")),
    ];
    collect_linked_speakers(&segments, &mut linked);
    assert_eq!(linked, vec!["spk-a", "spk-b", "spk-c"]);
}

#[test]
fn a_since_bound_is_read_as_an_instant() {
    assert!(matches!(parse_since(None), Ok(None)));
    match parse_since(Some("2026-03-14T10:30:00+01:00".to_string())) {
        Ok(Some((secs, nanos))) => {
            assert_eq!(secs, 1_773_480_600);
            assert_eq!(nanos, 0);
        }
        _ => panic!("a valid timestamp parses"),
    }
    match parse_rfc3339("2026-03-14T09:30:00.250Z") {
        Ok((secs, nanos)) => {
            assert_eq!(secs, 1_773_480_600);
            assert_eq!(nanos, 250_000_000);
        }
        _ => panic!("fractional seconds parse"),
    }
    match parse_since(Some("yesterday".to_string())) {
        Err(AppError::Internal(m)) => assert!(!m.is_empty()),
        _ => panic!("a non-timestamp is refused"),
    }
}

#[test]
fn a_sweep_pass_keeps_to_its_budget_and_stops_when_the_engine_is_gone() {
    assert!(matches!(sweep_next(8, 8, true, true), SweepStep::Stop));
    assert!(matches!(sweep_next(3, 8, false, true), SweepStep::Skip));
    assert!(matches!(sweep_next(3, 8, true, false), SweepStep::Skip));
    assert!(matches!(sweep_next(3, 8, true, true), SweepStep::Read { limit: 5 }));
    assert_eq!(sweep_after(3, 8, 0, 0), Some(3));
    assert_eq!(sweep_after(3, 8, 4, 0), None);
    assert_eq!(sweep_after(3, 8, 5, 5), Some(8));
}
