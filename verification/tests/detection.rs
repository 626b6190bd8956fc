use embral::autodetect::state::{match_app, match_identity, Detection, Detector};
use embral::types::AppId;

fn list(items: &[&str]) -> Vec<String> {
    items.iter().map(|s| s.to_string()).collect()
}

fn exe(name: &str) -> AppId {
    AppId::from_exe(1, name.to_string())
}

#[test]
fn matcher_is_case_insensitive_and_exe_agnostic() {
    let allow = list(&["zoom", "ms-teams", "chrome"]);
    assert!(match_app(&exe("Zoom.exe"), &allow));
    assert!(match_app(&exe("ms-teams.exe"), &allow));
    assert!(match_app(&exe("chrome"), &allow));
    assert!(match_app(&exe("GoogleChrome.exe"), &allow)); // substring
    assert!(!match_app(&exe("notepad.exe"), &allow));
    assert!(!match_app(&exe(""), &allow));
}

#[test]
fn matcher_handles_linux_identities() {
    let allow = list(&[
        "zoom", "teams", "chrome", "chromium", "msedge", "firefox", "slack", "discord", "webex",
    ]);

    let browser_call = AppId {
        pid: 4564,
        exe: Some("chrome".into()),
        bundle_id: None,
        display_name: Some("Google Chrome input".into()),
    };
    assert!(match_app(&browser_call, &allow), "a Zoom call in Chrome is detected");
    let name_only = AppId {
        pid: 4564,
        exe: None,
        bundle_id: None,
        display_name: Some("Google Chrome input".into()),
    };
    assert!(match_app(&name_only, &allow), "the suffixed name still matches");

    for binary in [
        "zoom",
        "teams-for-linux",
        "slack",
        "discord",
        "firefox",
        "msedge",
        "chromium",
        "chromium-browser",
    ] {
        assert!(match_app(&exe(binary), &allow), "{binary} must be detected");
    }

    for binary in ["gnome-terminal", "code", "spotify", "pipewire", "pulseaudio"] {
        assert!(!match_app(&exe(binary), &allow), "{binary} is not a meeting");
    }

    let chrome_only = list(&["chrome"]);
    assert!(match_app(&exe("google-chrome"), &chrome_only));
    assert!(
        !match_app(&exe("chromium"), &chrome_only),
        "this is exactly why the Linux list carries chromium separately"
    );
}

#[test]
fn matcher_accepts_any_identity_the_platform_has() {
    let allow = list(&["zoom", "chrome", "slack"]);
    let helper = AppId {
        pid: 7,
        exe: None,
        bundle_id: Some("com.google.Chrome.helper".into()),
        display_name: Some("Google Chrome".into()),
    };
    assert!(match_app(&helper, &allow), "helper bundle ids match brand tokens");
    let zoom = AppId {
        pid: 8,
        exe: Some("zoom.us".into()),
        bundle_id: Some("us.zoom.xos".into()),
        display_name: None,
    };
    assert!(match_app(&zoom, &allow));
    let other = AppId {
        pid: 9,
        exe: None,
        bundle_id: Some("com.apple.notes".into()),
        display_name: Some("Notes".into()),
    };
    assert!(!match_app(&other, &allow));
}

#[test]
fn an_identity_matches_in_either_direction_and_blank_entries_never_match() {
    assert!(match_identity("Zoom.exe", &list(&["zoom"])));
    assert!(match_identity("zoom", &list(&["ZoomWorkplace.exe"])));
    assert!(!match_identity("zoom", &list(&["", ".exe"])));
    assert!(!match_identity(".EXE", &list(&["zoom"])));
}

#[test]
fn start_fires_after_arming_window() {
    let mut d = Detector::new(3, 2);
    assert_eq!(d.tick(Some("zoom")), None);
    assert_eq!(d.tick(Some("zoom")), None);
    assert_eq!(d.tick(Some("zoom")), Some(Detection::Start("zoom".into())));
    assert!(d.call_live());
    assert_eq!(d.tick(Some("zoom")), None);
}

#[test]
fn arming_resets_when_candidate_disappears() {
    let mut d = Detector::new(3, 2);
    d.tick(Some("zoom"));
    d.tick(Some("zoom"));
    assert_eq!(d.tick(None), None); // back to idle
    d.tick(Some("zoom"));
    d.tick(Some("zoom"));
    assert_eq!(d.tick(Some("zoom")), Some(Detection::Start("zoom".into())));
}

#[test]
fn stop_fires_after_grace_and_rejoin_cancels_it() {
    let mut d = Detector::new(1, 3);
    assert_eq!(d.tick(Some("zoom")), Some(Detection::Start("zoom".into())));
    assert_eq!(d.tick(None), None);
    assert_eq!(d.tick(None), None);
    assert_eq!(d.tick(Some("zoom")), None);
    assert!(d.call_live());
    assert_eq!(d.tick(None), None);
    assert_eq!(d.tick(None), None);
    assert_eq!(d.tick(None), Some(Detection::Stop));
    assert!(!d.call_live());
}

#[test]
fn single_tick_windows_fire_immediately() {
    let mut d = Detector::new(1, 1);
    assert_eq!(d.tick(Some("meet")), Some(Detection::Start("meet".into())));
    assert_eq!(d.tick(None), Some(Detection::Stop));
}

#[test]
fn arming_tracks_latest_candidate_name() {
    let mut d = Detector::new(2, 1);
    d.tick(Some("chrome"));
    assert_eq!(d.tick(Some("zoom")), Some(Detection::Start("zoom".into())));
}

#[test]
fn the_phase_name_follows_the_detector() {
    let mut d = Detector::new(2, 2);
    assert_eq!(d.phase_name(), "idle");
    d.tick(Some("zoom"));
    assert_eq!(d.phase_name(), "arming");
    d.tick(Some("zoom"));
    assert_eq!(d.phase_name(), "active");
    d.tick(None);
    assert_eq!(d.phase_name(), "grace");
    d.tick(None);
    assert_eq!(d.phase_name(), "idle");
}

#[test]
fn a_zero_window_behaves_as_one_tick() {
    let mut d = Detector::new(0, 0);
    assert_eq!(d.tick(Some("zoom")), Some(Detection::Start("zoom".into())));
    assert_eq!(d.tick(None), Some(Detection::Stop));
}

#[test]
fn start_and_stop_fire_exactly_on_full_windows() {
    // Arming window 3, grace window 2: a gap resets arming, a blip resets grace.
    let mut d = Detector::new(3, 2);
    let ticks = [
        Some("zoom"), Some("zoom"), None, Some("zoom"), Some("zoom"), Some("zoom"),
        None, Some("zoom"), None, None, Some("zoom"),
    ];
    let mut outs = Vec::new();
    for t in ticks {
        outs.push(match d.tick(t) {
            Some(Detection::Start(app)) => format!("start {app}"),
            Some(Detection::Stop) => "stop".to_string(),
            None => String::new(),
        });
    }
    assert_eq!(outs, vec!["", "", "", "", "", "start zoom", "", "", "", "stop", ""]);
}
