use embral::platform::linux::mcp_paths::desktop_config_dir_on_disk;
use embral::platform::linux::ocr::recognize_text;
use embral::platform::linux::os_build::{os_build, pretty_name, pretty_name_in};
use embral::platform::linux::permissions::{
    check_accessibility, check_microphone, request_accessibility,
};
use embral::platform::linux::power::{power_source_from, SupplyReading};
use embral::platform::linux::proc::exe_name;
use embral::platform::linux::theme::{fallback, is_light_from, snapshot_from, FALLBACK_ACCENT};
use embral::platform::macos::audio_apps::apps_playing_audio as macos_apps_playing_audio;
use embral::platform::macos::theme::{
    accent_for_index, snapshot_from as macos_snapshot_from, snapshot_key, theme_changed,
};
use embral::types::{PermissionState, PowerSource, Recognized, ThemeSnapshot};

const OS_RELEASE: &str = "NAME=\"Debian GNU/Linux\"\nVERSION_ID=\"13\"\nPRETTY_NAME=\"Debian GNU/Linux 13 (trixie)\"\nID=debian\n";

#[test]
fn identifies_the_distribution_and_the_kernel() {
    let pretty = pretty_name(&[OS_RELEASE.to_string()]);
    let build = os_build(&pretty, "6.12.48+deb13-amd64");
    assert!(!build.trim().is_empty());
    assert!(build.contains(' '), "expected 'distro kernel', got {build:?}");
    assert_eq!(build, "Debian GNU/Linux 13 (trixie) 6.12.48+deb13-amd64");
    assert!(!pretty.is_empty());
}

#[test]
fn the_pretty_name_falls_back_file_by_file() {
    assert_eq!(pretty_name_in("PRETTY_NAME=  \"Arch Linux\"  \n").as_deref(), Some("Arch Linux"));
    assert_eq!(pretty_name_in("PRETTY_NAME=\"\"\nPRETTY_NAME=Fedora\n").as_deref(), Some("Fedora"));
    assert_eq!(pretty_name_in("NAME=x\n"), None);
    let texts = vec!["ID=none\n".to_string(), OS_RELEASE.to_string()];
    assert_eq!(pretty_name(&texts), "Debian GNU/Linux 13 (trixie)");
    assert_eq!(pretty_name(&[]), "Linux (unknown distribution)");
}

fn supply(kind: &str, online: Option<&str>) -> SupplyReading {
    SupplyReading { kind: Some(kind.to_string()), online: online.map(str::to_string) }
}

#[test]
fn answers_decisively_on_a_real_machine() {
    let laptop_on_wall = vec![supply("Battery", None), supply("Mains", Some("1"))];
    assert_ne!(power_source_from(Some(&laptop_on_wall)), PowerSource::Unknown);
    let desktop: Vec<SupplyReading> = Vec::new();
    assert_ne!(power_source_from(Some(&desktop)), PowerSource::Unknown);
}

#[test]
fn the_power_source_reads_the_supplies() {
    let on_wall = vec![supply("Battery", None), supply("Mains", Some("1"))];
    assert_eq!(power_source_from(Some(&on_wall)), PowerSource::Plugged);
    let on_battery = vec![supply("Battery", None), supply("Mains", Some("0"))];
    assert_eq!(power_source_from(Some(&on_battery)), PowerSource::Battery);
    let usb_pd = vec![supply("Battery", None), supply("USB_PD", Some("1"))];
    assert_eq!(power_source_from(Some(&usb_pd)), PowerSource::Plugged);
    let desktop = vec![supply("Mains", None)];
    assert_eq!(power_source_from(Some(&desktop)), PowerSource::Plugged);
    let unreadable = vec![SupplyReading { kind: None, online: None }];
    assert_eq!(power_source_from(Some(&unreadable)), PowerSource::Plugged);
    assert_eq!(power_source_from(None), PowerSource::Unknown);
}

#[test]
fn linux_answers_the_capability_questions_itself() {
    assert_eq!(check_microphone(), PermissionState::NotRequired);
    assert_eq!(check_accessibility(), PermissionState::NotRequired);
    assert_eq!(request_accessibility(), PermissionState::NotRequired);
    assert!(matches!(recognize_text(&[0x89, 0x50]), Recognized::Unavailable));
    assert_eq!(desktop_config_dir_on_disk(), None);
    assert_eq!(exe_name("embral-mcp"), "embral-mcp");
    assert!(macos_apps_playing_audio(1).is_empty());
}

#[test]
fn the_shell_theme_reads_dark_from_either_source() {
    assert!(!is_light_from(Some("Adwaita-Dark"), Some(2)));
    assert!(is_light_from(Some("Adwaita"), Some(2)));
    assert!(!is_light_from(Some("Adwaita"), Some(1)));
    assert!(!is_light_from(None, None));
    assert!(is_light_from(None, Some(2)));
    let f = fallback();
    assert!(!f.is_light);
    assert_eq!(f.accent_rgb, FALLBACK_ACCENT);
    let s = snapshot_from(Some("Yaru"), Some(2), Some([1, 2, 3]));
    assert!(s.is_light);
    assert_eq!(s.accent_rgb, [1, 2, 3]);
    assert_eq!(snapshot_from(None, None, None).accent_rgb, FALLBACK_ACCENT);
}

#[test]
fn the_macos_palette_and_the_watchers_key() {
    assert_eq!(accent_for_index(-1), [0x8c, 0x8c, 0x8c]);
    assert_eq!(accent_for_index(3), [0x62, 0xba, 0x46]);
    assert_eq!(accent_for_index(4), [0x00, 0x7a, 0xff]);
    assert_eq!(accent_for_index(42), [0x00, 0x7a, 0xff]);
    let light = macos_snapshot_from(false, Some(0));
    assert!(light.is_light);
    assert_eq!(light.accent_rgb, [0xff, 0x52, 0x59]);
    let dark = macos_snapshot_from(true, None);
    assert_eq!(snapshot_key(&dark), (false, [0x00, 0x7a, 0xff]));
    assert!(theme_changed(&light, &dark));
    let same = ThemeSnapshot { is_light: true, accent_rgb: [0xff, 0x52, 0x59] };
    assert!(!theme_changed(&light, &same));
    let tint = ThemeSnapshot { is_light: true, accent_rgb: [0xff, 0x52, 0x58] };
    assert!(theme_changed(&light, &tint));
}

use embral::commands::assets::{is_meeting_id, retries_asset_name};
use embral::platform::linux::input::{
    focused_app_from, keycode_in, paste_events, wm_class_bytes, KEYSYM_CONTROL_L, KEYSYM_LOWER_V,
};

#[test]
fn the_keycode_is_the_first_row_holding_the_keysym() {
    // Two keysyms per keycode, keycodes from 8.
    let keysyms = [0x61, 0x41, KEYSYM_LOWER_V, 0x56, KEYSYM_CONTROL_L, 0];
    assert_eq!(keycode_in(8, 2, &keysyms, KEYSYM_LOWER_V), Some(9));
    assert_eq!(keycode_in(8, 2, &keysyms, KEYSYM_CONTROL_L), Some(10));
    assert_eq!(keycode_in(8, 2, &keysyms, 0x7a), None);
    // A short last row still counts.
    assert_eq!(keycode_in(8, 4, &[1, 2, 3, 4, 5], 5), Some(9));
}

#[test]
fn the_window_class_is_the_second_half() {
    assert_eq!(wm_class_bytes(b"google-chrome\0Google-chrome\0"), Some(b"Google-chrome".to_vec()));
    assert_eq!(wm_class_bytes(b"only\0"), Some(b"only".to_vec()));
    assert_eq!(wm_class_bytes(b"\0\0a\0\0b\0"), Some(b"b".to_vec()));
    assert_eq!(wm_class_bytes(b"\0\0"), None);
    assert_eq!(wm_class_bytes(b""), None);
}

#[test]
fn the_focused_app_needs_a_window_a_pid_and_an_identity() {
    let app = focused_app_from(Some(5), Some(77), 1, Some("zoom".into()), Some("Zoom".into())).unwrap();
    assert_eq!((app.pid, app.exe.as_deref(), app.display_name.as_deref()), (77, Some("zoom"), Some("Zoom")));
    assert!(focused_app_from(Some(0), Some(77), 1, Some("zoom".into()), None).is_none());
    assert!(focused_app_from(Some(5), Some(0), 1, Some("zoom".into()), None).is_none());
    assert!(focused_app_from(Some(5), Some(1), 1, Some("embral".into()), None).is_none());
    assert!(focused_app_from(Some(5), Some(77), 1, None, None).is_none());
    assert!(focused_app_from(None, Some(77), 1, Some("zoom".into()), None).is_none());
}

#[test]
fn the_paste_chord_releases_in_reverse() {
    assert_eq!(paste_events(37, 55), vec![(true, 37), (true, 55), (false, 55), (false, 37)]);
}

#[test]
fn a_meeting_id_names_a_directory_and_nothing_more() {
    assert!(is_meeting_id("260708T120000_abc123"));
    assert!(!is_meeting_id(""));
    assert!(!is_meeting_id("../etc"));
    assert!(!is_meeting_id("a/b"));
    assert!(!is_meeting_id("C:x"));
    assert!(!is_meeting_id("a\\b"));
    assert!(retries_asset_name(true, 49));
    assert!(!retries_asset_name(true, 50));
    assert!(!retries_asset_name(false, 0));
}

use embral::platform::linux::loopback::{read_buffer_len, read_frames};

#[test]
fn a_monitor_read_covers_twenty_milliseconds() {
    assert_eq!(read_frames(48_000), 960);
    assert_eq!(read_frames(44_100), 882);
    assert_eq!(read_frames(10), 1);
    assert_eq!(read_buffer_len(48_000, 2), 1920);
}

#[test]
fn the_full_standard_keycode_range_is_searched() {
    // Keycodes 8..=255, two keysyms each; the wanted one sits on keycode 255.
    let mut keysyms = vec![0u32; (255 - 8 + 1) * 2];
    let last = keysyms.len() - 1;
    keysyms[last] = KEYSYM_LOWER_V;
    assert_eq!(keycode_in(8, 2, &keysyms, KEYSYM_LOWER_V), Some(255));
}
