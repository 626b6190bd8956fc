use embral::support::{
    attendees_from_segments, canonical_frontmatter, canonicalize_frontmatter,
    canonicalize_start_time, fallback_duration_minutes, format_transcript_document,
    frontmatter_value, meeting_audio_file, meeting_stamp, meeting_start_time, meeting_timestamp_prefix, normalize_attendees, normalize_title,
    parse_attendees, parse_attendees_value, prepend_frontmatter, resolve_indexed_path,
    strip_frontmatter, transcript_frontmatter, AppError, MeetingRecord, TranscriptionSegment,
};

fn strings(items: &[&str]) -> Vec<String> {
    items.iter().map(|s| s.to_string()).collect()
}

const DOC: &str = "---\nstart_time: 2026-07-08T14:00:00+02:00\nduration_minutes: 45\nmeeting_id: 260708T120000_abc123\nattendees: [\"Ann\", \"Bo\"]\n---\n\n# Weekly sync\n\nNotes.";

#[test]
fn the_frontmatter_comes_off_and_leading_blank_lines_with_it() {
    assert_eq!(strip_frontmatter(DOC), "# Weekly sync\n\nNotes.");
    assert_eq!(strip_frontmatter("# No frontmatter"), "# No frontmatter");
    assert_eq!(strip_frontmatter("---\nunclosed"), "---\nunclosed");
    assert_eq!(strip_frontmatter("---\na: 1\n---"), "");
}

#[test]
fn frontmatter_values_are_read_by_key() {
    assert_eq!(frontmatter_value(DOC, "duration_minutes").as_deref(), Some("45"));
    assert_eq!(frontmatter_value(DOC, "meeting_id").as_deref(), Some("260708T120000_abc123"));
    assert_eq!(frontmatter_value(DOC, "missing"), None);
    assert_eq!(frontmatter_value("no fence", "a"), None);
    assert_eq!(frontmatter_value("---\n key : v : w \n---\n", "key").as_deref(), Some("v : w"));
}

#[test]
fn attendees_parse_from_json_or_a_bare_list() {
    assert_eq!(parse_attendees(DOC), strings(&["Ann", "Bo"]));
    assert_eq!(parse_attendees_value("[Ann, \"Bo\", Ann, ]"), strings(&["Ann", "Bo"]));
    assert_eq!(parse_attendees_value("  []  "), Vec::<String>::new());
    assert_eq!(parse_attendees_value("[\" Cy \", \"\"]"), strings(&["Cy"]));
    assert_eq!(parse_attendees("no frontmatter"), Vec::<String>::new());
}

#[test]
fn attendees_are_trimmed_unquoted_and_kept_once() {
    assert_eq!(
        normalize_attendees(strings(&[" Ann ", "\"Bo\"", "Ann", "", "  "])),
        strings(&["Ann", "Bo"])
    );
}

#[test]
fn the_canonical_frontmatter_reads_exactly() {
    assert_eq!(
        canonical_frontmatter("2026-07-08T12:00:00Z", 45, "m1", &strings(&["Ann", "Bo"])),
        "---\nstart_time: 2026-07-08T12:00:00Z\nduration_minutes: 45\nmeeting_id: m1\nattendees: [\"Ann\",\"Bo\"]\n---\n"
    );
    assert_eq!(
        transcript_frontmatter("m1", "s", 1, &[]),
        canonical_frontmatter("s", 1, "m1", &[])
    );
}

#[test]
fn a_new_frontmatter_replaces_the_old_one() {
    assert_eq!(
        prepend_frontmatter(DOC, "---\na: 1\n---\n\n"),
        "---\na: 1\n---\n# Weekly sync\n\nNotes."
    );
    assert_eq!(prepend_frontmatter("Body", "---\n---\n"), "---\n---\nBody");
}

fn seg(speaker: Option<&str>) -> TranscriptionSegment {
    TranscriptionSegment {
        speaker: speaker.map(str::to_string),
        speaker_id: None,
        text: "x".to_string(),
        start_ms: 0,
        end_ms: 1,
    }
}

#[test]
fn the_transcript_names_its_speakers_once_each() {
    let segments = vec![seg(Some(" Ann ")), seg(None), seg(Some("Bo")), seg(Some("Ann")), seg(Some("  "))];
    assert_eq!(attendees_from_segments(&segments), strings(&["Ann", "Bo"]));
}

#[test]
fn the_transcript_document_has_its_heading_and_body() {
    let doc = format_transcript_document(" Weekly ", "m1", "s", 5, &[], " hello \n");
    assert_eq!(
        doc,
        "---\nstart_time: s\nduration_minutes: 5\nmeeting_id: m1\nattendees: []\n---\n\n# Weekly Transcript\n\nhello"
    );
    let empty = format_transcript_document("  ", "m1", "s", 5, &[], "  ");
    assert!(empty.ends_with("\n# Transcript\n\n_No transcript segments were captured._"));
}

#[test]
fn a_blank_title_is_refused() {
    assert_eq!(normalize_title("  Standup ".to_string()).ok().as_deref(), Some("Standup"));
    assert!(matches!(normalize_title("   ".to_string()), Err(AppError::TitleEmpty)));
}

fn record(id: &str, date: &str, duration_seconds: u64) -> MeetingRecord {
    MeetingRecord {
        id: id.to_string(),
        title: "t".to_string(),
        date: date.to_string(),
        duration_seconds,
        chunks: 1,
        audio_path: String::new(),
    }
}

#[test]
fn the_fallback_duration_rounds_up_to_a_minute() {
    assert_eq!(fallback_duration_minutes(&record("m", "d", 0)), 1);
    assert_eq!(fallback_duration_minutes(&record("m", "d", 60)), 1);
    assert_eq!(fallback_duration_minutes(&record("m", "d", 61)), 2);
    assert_eq!(fallback_duration_minutes(&record("m", "d", 3600)), 60);
}

#[test]
fn start_times_are_written_in_utc_to_the_second() {
    assert_eq!(
        canonicalize_start_time("2026-07-08T14:00:00.250+02:00").as_deref(),
        Some("2026-07-08T12:00:00Z")
    );
    assert_eq!(canonicalize_start_time("yesterday"), None);
}

#[test]
fn a_rewritten_frontmatter_keeps_the_documents_own_values() {
    let r = record("260708T120000_abc123", "2026-01-01T00:00:00Z", 600);
    let out = canonicalize_frontmatter(DOC, &r, &strings(&["Ann"]));
    assert_eq!(
        out,
        "---\nstart_time: 2026-07-08T12:00:00Z\nduration_minutes: 45\nmeeting_id: 260708T120000_abc123\nattendees: [\"Ann\"]\n---\n# Weekly sync\n\nNotes."
    );
    let bare = canonicalize_frontmatter("Body", &record("m2", "2026-01-01T00:00:00Z", 61), &[]);
    assert_eq!(
        bare,
        "---\nstart_time: 2026-01-01T00:00:00Z\nduration_minutes: 2\nmeeting_id: m2\nattendees: []\n---\nBody"
    );
}

#[test]
fn the_timestamp_prefix_is_the_ids_first_thirteen_bytes() {
    assert_eq!(meeting_timestamp_prefix(&record("260708T120000_abc123", "d", 1)), "260708T120000");
    assert_eq!(meeting_timestamp_prefix(&record("short", "d", 1)), "short");
    // Byte 13 inside a character: the whole id.
    assert_eq!(meeting_timestamp_prefix(&record("260708T12000é_x", "d", 1)), "260708T12000é_x");
}

#[test]
fn indexed_paths_stay_inside_the_storage_directory() {
    assert_eq!(resolve_indexed_path("/data", "audio/a.mp3").ok().as_deref(), Some("/data/audio/a.mp3"));
    assert_eq!(resolve_indexed_path("/data/", "audio/a.mp3").ok().as_deref(), Some("/data/audio/a.mp3"));
    match resolve_indexed_path("/data", "/etc/passwd") {
        Err(AppError::Internal(m)) => assert_eq!(m, "Indexed meeting path must be relative"),
        _ => panic!("an absolute path is refused"),
    }
    match resolve_indexed_path("/data", "audio/../../etc") {
        Err(AppError::Internal(m)) => assert_eq!(m, "Indexed meeting path escapes the storage directory"),
        _ => panic!("a parent step is refused"),
    }
}

#[test]
fn a_meeting_starts_at_the_stamp_its_id_carries() {
    assert_eq!(meeting_stamp("260314T093000_abcd"), "260314T093000");
    assert_eq!(meeting_stamp("260314T093000"), "260314T093000");
    assert_eq!(meeting_stamp("a_b_c"), "a");
    assert_eq!(meeting_start_time("260314T093000_abcd"), 1_773_480_600);
    assert_eq!(meeting_start_time("260314T093000"), 1_773_480_600);
}

#[test]
fn an_unreadable_stamp_falls_back_to_the_present() {
    let before = 1_700_000_000;
    assert!(meeting_start_time("not-a-stamp_abcd") > before);
}

#[test]
fn a_meetings_audio_resolves_inside_the_storage_directory() {
    assert!(matches!(meeting_audio_file("/data", "   "), Ok(None)));
    assert!(matches!(meeting_audio_file("/data", ""), Ok(None)));
    match meeting_audio_file("/data", " audio/260314T093000_ab.mp3 ") {
        Ok(Some(p)) => assert_eq!(p, "/data/audio/260314T093000_ab.mp3"),
        _ => panic!("a stored relative path resolves"),
    }
    assert!(matches!(meeting_audio_file("/data", "/etc/passwd"), Err(AppError::Internal(_))));
    assert!(matches!(meeting_audio_file("/data", "audio/../../x.mp3"), Err(AppError::Internal(_))));
}

#[test]
fn re_prepending_replaces_the_frontmatter_instead_of_stacking_it() {
    let fm = canonical_frontmatter("2026-07-08T12:00:00Z", 45, "m1", &strings(&["Ann", "Bo"]));
    let once = prepend_frontmatter(DOC, &fm);
    assert_eq!(strip_frontmatter(&once), strip_frontmatter(DOC));
    let twice = prepend_frontmatter(&once, &fm);
    assert_eq!(twice, once);
    assert_eq!(once.matches("start_time:").count(), 1);
}

#[test]
fn whitespace_is_the_unicode_set() {
    assert_eq!(normalize_title(" \u{3000}Sync\u{a0}\t".to_string()).ok().as_deref(), Some("Sync"));
    assert!(normalize_title("\u{2028}\u{85}".to_string()).is_err());
}

#[test]
fn attendees_are_written_as_escaped_json_strings() {
    let fm = canonical_frontmatter("s", 1, "m1", &strings(&["A\"b\\c", "\u{1}x\ty", "é/"]));
    assert!(fm.contains(r#"attendees: ["A\"b\\c","\u0001x\ty","é/"]"#), "{fm}");
}
