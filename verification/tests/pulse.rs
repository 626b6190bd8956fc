use embral::platform::linux::audio_apps::apps_playing_audio;
use embral::platform::linux::mic_users::processes_using_microphone;
use embral::platform::linux::pulse::{
    app_from_props, apps_from_streams, dedupe, is_our_own, monitor_target, own_markers, SinkInfo,
    StreamProps,
};
use embral::types::AppId;

fn props(pid: Option<&str>, binary: Option<&str>, name: Option<&str>) -> StreamProps {
    StreamProps {
        process_id: pid.map(str::to_string),
        process_binary: binary.map(str::to_string),
        application_name: name.map(str::to_string),
    }
}

fn markers() -> Vec<String> {
    own_markers("embral", Some("embral"))
}

#[test]
fn one_app_holding_several_streams_becomes_one_row() {
    let chrome = |pid| AppId {
        pid,
        exe: Some("chrome".into()),
        bundle_id: None,
        display_name: Some("Google Chrome".into()),
    };
    let zoom = AppId {
        pid: 10,
        exe: Some("zoom".into()),
        bundle_id: None,
        display_name: Some("Zoom".into()),
    };
    let rows = dedupe(vec![chrome(1), chrome(2), zoom.clone(), chrome(3)]);
    assert_eq!(rows.len(), 2, "one Chrome row and one Zoom row");
    assert_eq!(rows[0].exe.as_deref(), Some("chrome"));
    assert_eq!(rows[1].exe.as_deref(), Some("zoom"));
}

#[test]
fn the_row_key_ignores_case_but_not_the_name() {
    let a = AppId { pid: 1, exe: Some("Chrome".into()), bundle_id: None, display_name: None };
    let b = AppId { pid: 2, exe: Some("chrome".into()), bundle_id: None, display_name: None };
    let c = AppId {
        pid: 3,
        exe: Some("chrome".into()),
        bundle_id: None,
        display_name: Some("Chrome Beta".into()),
    };
    let rows = dedupe(vec![a, b, c]);
    assert_eq!(rows.len(), 2);
    assert_eq!(rows[0].pid, 1);
    assert_eq!(rows[1].pid, 3);
}

#[test]
fn reads_the_identities_a_real_browser_call_reports() {
    let p = props(Some("4564"), Some("chrome"), Some("Google Chrome input"));
    let app = app_from_props(&p, 999, &markers()).expect("an identity");
    assert_eq!(app.pid, 4564);
    assert_eq!(app.exe.as_deref(), Some("chrome"));
    assert_eq!(app.display_name.as_deref(), Some("Google Chrome input"));
    assert_eq!(app.bundle_id, None, "Linux has no bundle ids");
    let identities: Vec<&str> = app.identities();
    assert!(identities.contains(&"chrome"));
    assert!(identities.contains(&"Google Chrome input"));
}

#[test]
fn our_own_streams_are_excluded() {
    let ours = props(Some("4242"), Some("embral"), Some("PipeWire ALSA [embral]"));
    assert!(app_from_props(&ours, 4242, &markers()).is_none(), "we are not a meeting");
    assert!(
        app_from_props(&ours, 1, &markers()).is_none(),
        "our own name identifies us regardless of pid"
    );
    let theirs = props(Some("4242"), Some("chrome"), Some("Google Chrome input"));
    assert!(app_from_props(&theirs, 1, &markers()).is_some());
}

#[test]
fn our_own_alsa_bridged_stream_is_excluded_without_a_pid() {
    let p = props(None, None, Some("PipeWire ALSA [embral]"));
    assert!(
        app_from_props(&p, 4242, &markers()).is_none(),
        "we must not detect our own recording as a meeting"
    );
}

#[test]
fn own_name_matching_does_not_swallow_real_apps() {
    for (binary, name) in [
        ("chrome", "Google Chrome input"),
        ("zoom", "Zoom"),
        ("teams-for-linux", "Microsoft Teams"),
    ] {
        let p = props(Some("555"), Some(binary), Some(name));
        assert!(
            app_from_props(&p, 4242, &markers()).is_some(),
            "{binary} is someone else's stream and must survive"
        );
    }
}

#[test]
fn the_own_name_fallback_is_reachable_at_all() {
    let markers = own_markers("embral", Some("embral_lib-3f2a"));
    assert!(!markers.is_empty(), "we must know at least one of our own names");
    assert!(markers.iter().any(|m| m == "embral"), "the package name is a marker");
    for m in &markers {
        assert!(
            is_our_own(0, 1, None, Some(&format!("PipeWire ALSA [{m}]")), &markers),
            "marker {m} must be recognised in a stream name"
        );
    }
    assert!(!is_our_own(0, 1, Some("chrome"), Some("Google Chrome"), &markers));
}

#[test]
fn the_markers_are_lowercase_distinct_and_never_blank() {
    assert_eq!(own_markers("Embral", Some("EMBRAL")), vec!["embral".to_string()]);
    assert_eq!(
        own_markers("embral", Some("Embral-Dev")),
        vec!["embral".to_string(), "embral-dev".to_string()]
    );
    assert_eq!(own_markers("", Some("")), Vec::<String>::new());
    assert_eq!(own_markers("embral", None), vec!["embral".to_string()]);
}

#[test]
fn a_stream_with_no_identity_is_skipped() {
    let p = props(Some("7"), None, None);
    assert!(app_from_props(&p, 0, &markers()).is_none());
    let blank = props(Some("7"), Some("   "), None);
    assert!(app_from_props(&blank, 0, &markers()).is_none());
}

#[test]
fn a_missing_pid_does_not_collide_with_the_exclusion() {
    let p = props(None, Some("zoom"), None);
    let app = app_from_props(&p, 0, &markers()).expect("still an app");
    assert_eq!(app.pid, 0);
    assert_eq!(app.exe.as_deref(), Some("zoom"));
}

#[test]
fn a_pid_that_is_not_a_number_reads_as_unknown() {
    let p = props(Some(" 12x "), Some("zoom"), None);
    assert_eq!(app_from_props(&p, 0, &markers()).unwrap().pid, 0);
    let p = props(Some(" 77 "), Some("zoom"), None);
    assert_eq!(app_from_props(&p, 0, &markers()).unwrap().pid, 77);
}

#[test]
fn the_scan_collects_then_collapses_the_streams() {
    let streams = vec![
        props(Some("1"), Some("chrome"), Some("Google Chrome input")),
        props(Some("2"), Some("embral"), Some("PipeWire ALSA [embral]")),
        props(Some("3"), Some("chrome"), Some("Google Chrome input")),
        props(Some("4"), None, None),
        props(Some("5"), Some("zoom"), Some("ZOOM VoiceEngine")),
    ];
    let apps = apps_from_streams(&streams, 999, &markers());
    assert_eq!(apps.len(), 2);
    assert_eq!(apps[0].pid, 1);
    assert_eq!(apps[1].pid, 5);
    let mic = processes_using_microphone(Some(&streams), 999, &markers());
    assert_eq!(mic.len(), 2);
    assert!(processes_using_microphone(None, 999, &markers()).is_empty());
    let playing = apps_playing_audio(Some(&streams[..1]), 999, &markers());
    assert_eq!(playing.len(), 1);
    assert!(apps_playing_audio(None, 999, &markers()).is_empty());
}

fn sink(name: &str, monitor: Option<&str>, description: Option<&str>, channels: u8, rate: u32) -> SinkInfo {
    SinkInfo {
        name: Some(name.to_string()),
        monitor_source_name: monitor.map(str::to_string),
        description: description.map(str::to_string),
        channels,
        rate,
    }
}

#[test]
fn the_default_sinks_own_monitor_is_recorded() {
    let sinks = vec![
        sink("hdmi", Some("hdmi.monitor"), Some("HDMI"), 2, 48000),
        sink("speakers", Some("alsa_output.speakers.monitor"), Some("Built-in Audio"), 2, 44100),
    ];
    let t = monitor_target(Some("speakers"), &sinks).expect("the default sink has a monitor");
    assert_eq!(t.source_name, "alsa_output.speakers.monitor");
    assert_eq!(t.sink_description, "Built-in Audio");
    assert_eq!(t.channels, 2);
    assert_eq!(t.rate, 44100);
}

#[test]
fn a_sink_without_a_description_is_described_by_its_name() {
    let sinks = vec![sink("usb", Some("custom-monitor"), None, 1, 16000)];
    let t = monitor_target(Some("usb"), &sinks).expect("monitor");
    assert_eq!(t.source_name, "custom-monitor");
    assert_eq!(t.sink_description, "usb");
    assert_eq!(t.channels, 1);
}

#[test]
fn no_default_sink_or_no_monitor_means_nothing_to_record() {
    let sinks = vec![sink("usb", None, Some("USB"), 2, 48000)];
    assert!(monitor_target(None, &sinks).is_none());
    assert!(monitor_target(Some("usb"), &sinks).is_none());
    assert!(monitor_target(Some("other"), &sinks).is_none());
}
