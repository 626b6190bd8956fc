use embral::notice::{should_replace, NoticeAction, NoticeBoard, NoticePayload};

#[test]
fn transients_never_clobber_a_live_sticky_notice() {
    assert!(!should_replace(Some(("silence", true)), "switched_to_local", false));
    assert!(should_replace(Some(("notes_ready", false)), "silence", true));
    assert!(should_replace(Some(("notes_ready", false)), "update_ready", false));
    assert!(should_replace(Some(("silence", true)), "silence", true));
    assert!(should_replace(None, "recording_started", false));
}

#[test]
fn a_sticky_notice_replaces_another_sticky_one() {
    assert!(should_replace(Some(("silence", true)), "detected", true));
}

fn payload(kind: &str, title: &str, sticky: bool) -> NoticePayload {
    NoticePayload {
        kind: kind.to_string(),
        title: title.to_string(),
        actions: vec![NoticeAction { id: "ok".to_string(), label: "OK".to_string() }],
        sticky,
        countdown_until_ms: None,
        target: None,
    }
}

#[test]
fn the_board_keeps_a_sticky_notice_against_transients() {
    let mut board = NoticeBoard::new();
    assert!(board.current().is_none());
    assert!(board.offer(payload("silence", "Still recording?", true), true));
    assert!(!board.offer(payload("switched_to_local", "Now on-device", false), true));
    assert_eq!(board.current().as_ref().map(|p| p.title.as_str()), Some("Still recording?"));
    assert!(board.offer(payload("silence", "Stopping soon", true), true));
    assert_eq!(board.current().as_ref().map(|p| p.title.as_str()), Some("Stopping soon"));
}

#[test]
fn a_hidden_or_cleared_window_blocks_nothing() {
    let mut board = NoticeBoard::new();
    assert!(board.offer(payload("silence", "Still recording?", true), true));
    assert!(board.offer(payload("fallback", "Now on-device", false), false));
    assert_eq!(board.current().as_ref().map(|p| p.kind.as_str()), Some("fallback"));
    assert!(board.offer(payload("silence", "Still recording?", true), true));
    board.clear();
    assert!(board.current().is_none());
    assert!(board.offer(payload("fallback", "Now on-device", false), true));
}
