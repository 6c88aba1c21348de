use quotis::backdrop::{
    backdrop_size, bgra_to_rgba, capture_gate, capture_step, frame_to_send, rect_has_area, ring_samples,
    CaptureState, Rect, Sample,
};
use quotis::poll::{
    apply_log_changes, apply_poll_result, checks_allowed, count_tokens, due, due_tools, expired_message, recent_tokens,
    record_poll, reset_local_rows, reset_online_rows, reset_rows, LocalFound, NetErr, PollClock, Snapshot,
    Touched,
};
use quotis::settings::{online, Settings};
use quotis::usage::{message_row, Limit, Percent, Row, Tool};
use quotis::json::JsonNumber;

fn limit(p: u64) -> Limit {
    Limit { used_percent: Percent::Used(JsonNumber::PosInt(p)), resets_at: 1 }
}

fn same(a: &Row, b: &Row) -> bool {
    format!("{a:?}") == format!("{b:?}")
}

fn with_usage() -> Row {
    Row { five_hour: Some(limit(10)), ..Row::default() }
}

#[test]
fn success_connects_and_clears_backoff() {
    let mut snap = Snapshot::new();
    let mut backoff = 600;
    apply_poll_result(&mut snap, &mut backoff, Tool::Claude, true, Ok(with_usage()), "login expired");
    assert!(snap.claude.connected);
    assert_eq!(snap.claude.five_hour, Some(limit(10)));
    assert_eq!(backoff, 0);
}

#[test]
fn rate_limits_back_off_and_keep_usage() {
    let mut snap = Snapshot::new();
    snap.copilot = with_usage();
    let mut backoff = 0;
    apply_poll_result(&mut snap, &mut backoff, Tool::Copilot, true, Err(NetErr::RateLimited(None)), "login expired");
    assert_eq!(backoff, 300);
    assert_eq!(snap.copilot.five_hour, Some(limit(10)));
    assert!(snap.copilot.status.is_none());
    for want in [600, 1200, 2400, 3600, 3600] {
        apply_poll_result(&mut snap, &mut backoff, Tool::Copilot, true, Err(NetErr::RateLimited(None)), "login expired");
        assert_eq!(backoff, want);
    }
    apply_poll_result(&mut snap, &mut backoff, Tool::Copilot, true, Err(NetErr::RateLimited(Some(90))), "login expired");
    assert_eq!(backoff, 90);
    apply_poll_result(&mut snap, &mut backoff, Tool::Copilot, true, Err(NetErr::RateLimited(Some(99999))), "login expired");
    assert_eq!(backoff, 3600);
}

#[test]
fn errors_without_usage_show_a_message() {
    let mut snap = Snapshot::new();
    let mut backoff = 0;
    apply_poll_result(&mut snap, &mut backoff, Tool::Cursor, true, Err(NetErr::RateLimited(None)), "login expired");
    assert_eq!(snap.cursor.status.as_deref(), Some("rate limited, retrying later"));
    assert!(snap.cursor.connected);
    apply_poll_result(&mut snap, &mut backoff, Tool::Cursor, true, Err(NetErr::Unavailable("offline")), "login expired");
    assert_eq!(snap.cursor.status.as_deref(), Some("offline"));
    apply_poll_result(&mut snap, &mut backoff, Tool::Cursor, true, Err(NetErr::Expired), "login expired, open Cursor");
    assert_eq!(snap.cursor.status.as_deref(), Some("login expired, open Cursor"));
    apply_poll_result(&mut snap, &mut backoff, Tool::Cursor, true, Err(NetErr::NotSignedIn), "login expired");
    assert!(!snap.cursor.connected && snap.cursor.status.is_none());
    assert_eq!(backoff, 300);
}

#[test]
fn outdated_results_are_dropped() {
    let mut snap = Snapshot::new();
    let mut backoff = 42;
    apply_poll_result(&mut snap, &mut backoff, Tool::Claude, false, Ok(with_usage()), "login expired");
    assert!(!snap.claude.connected && snap.claude.five_hour.is_none());
    assert_eq!(backoff, 42);
}

#[test]
fn row_by_tool() {
    let mut snap = Snapshot::new();
    *snap.row_mut(Tool::Qwen) = message_row(true, "hi");
    assert_eq!(snap.qwen.status.as_deref(), Some("hi"));
    assert!(snap.gemini.status.is_none());
    snap.set_row(Tool::Gemini, message_row(false, "g"));
    assert_eq!(snap.gemini.status.as_deref(), Some("g"));
}

fn clock(elapsed: Option<u64>, backoff: u64) -> PollClock {
    PollClock { elapsed, backoff }
}

#[test]
fn tools_are_due_by_period_backoff_and_dirt() {
    let mut s = Settings::default();
    assert!(due(Tool::Claude, &s, clock(None, 0), false));
    assert!(!due(Tool::Claude, &s, clock(Some(299), 0), false));
    assert!(due(Tool::Claude, &s, clock(Some(300), 0), false));
    assert!(!due(Tool::Claude, &s, clock(Some(300), 600), false));
    assert!(!due(Tool::Claude, &s, clock(Some(119), 0), true));
    assert!(due(Tool::Claude, &s, clock(Some(120), 0), true));
    assert!(!due(Tool::Copilot, &s, clock(Some(120), 0), true));
    s.claude_refresh_min = 0;
    assert!(due(Tool::Copilot, &s, clock(Some(60), 0), false));
    assert!(!due(Tool::Copilot, &s, clock(Some(59), 0), false));
    s.claude_refresh_min = 1000;
    assert!(!due(Tool::Copilot, &s, clock(Some(3599), 0), false));
    assert!(due(Tool::Copilot, &s, clock(Some(3600), 0), false));
    s.cursor.enabled = false;
    assert!(!due(Tool::Cursor, &s, clock(None, 0), false));
    let d = due_tools(&s, clock(None, 0), clock(Some(10), 0), clock(None, 0), false);
    assert_eq!(d, vec![Tool::Claude]);
}

#[test]
fn applying_settings_resets_online_rows() {
    let mut snap = Snapshot::new();
    snap.claude = with_usage();
    snap.copilot = with_usage();
    snap.cursor = with_usage();
    snap.codex = with_usage();
    let mut s = Settings::default();
    s.cursor.enabled = false;
    reset_online_rows(&mut snap, &s, &vec![Tool::Claude]);
    assert!(snap.claude.five_hour.is_none());
    assert!(snap.copilot.five_hour.is_some());
    assert!(snap.cursor.five_hour.is_none());
    assert!(snap.codex.five_hour.is_some());
    assert_eq!(online(), vec![Tool::Claude, Tool::Copilot, Tool::Cursor]);
}

#[test]
fn tokens_in_recent_windows() {
    let now = 100_000;
    let entries = vec![(now - 60, 100), (now - 6 * 3600, 1000), (now - 30 * 3600, 5000), (now - 18_000, 7)];
    assert_eq!(recent_tokens(&entries, now, 5 * 3600), Some(100));
    assert_eq!(recent_tokens(&entries, now, 24 * 3600), Some(1107));
    assert_eq!(recent_tokens(&vec![(0, u64::MAX), (0, 1)], 0, 10), None);
    let mut row = Row { connected: true, ..Row::default() };
    assert!(count_tokens(&mut row, &entries, now));
    assert_eq!((row.tokens_5h, row.tokens_24h), (Some(100), Some(1107)));
    let mut off = Row::default();
    assert!(count_tokens(&mut off, &entries, now));
    assert!(off.tokens_5h.is_none());
}

#[test]
fn backdrop_geometry() {
    let r = Rect { left: 10, top: 20, right: 330, bottom: 180 };
    assert!(rect_has_area(&r));
    assert!(!rect_has_area(&Rect { left: 5, top: 0, right: 5, bottom: 9 }));
    assert_eq!(backdrop_size(&r), (64, 32));
    assert_eq!(backdrop_size(&Rect { left: 0, top: 0, right: 1000, bottom: 1 }), (64, 1));
    let ring = ring_samples(&r);
    assert_eq!(ring.len(), 4);
    assert_eq!(ring[0], Sample { x: 10, y: 20, width: 320, height: 6, out_width: 24, out_height: 1 });
    assert_eq!(ring[1], Sample { x: 10, y: 174, width: 320, height: 6, out_width: 24, out_height: 1 });
    assert_eq!(ring[2], Sample { x: 10, y: 20, width: 6, height: 160, out_width: 1, out_height: 24 });
    assert_eq!(ring[3], Sample { x: 324, y: 20, width: 6, height: 160, out_width: 1, out_height: 24 });
    for s in &ring {
        assert!(r.left <= s.x && s.x + s.width <= r.right && r.top <= s.y && s.y + s.height <= r.bottom);
    }
    let tiny = Rect { left: -5, top: 7, right: -2, bottom: 9 };
    for s in ring_samples(&tiny) {
        assert_eq!((s.x, s.y, s.width, s.height), (-5, 7, 3, 2));
    }
}

#[test]
fn capture_waits_for_blur_and_a_visible_window() {
    let mut st = CaptureState::new();
    st.last_sent = 42;
    assert!(!capture_gate(&mut st, false, false));
    assert_eq!(st.last_sent, 0);
    st.last_sent = 42;
    assert!(!capture_gate(&mut st, true, true));
    assert_eq!(st.last_sent, 0);
    st.last_sent = 42;
    assert!(capture_gate(&mut st, true, false));
    assert_eq!(st.last_sent, 42);
}

#[test]
fn grabs_are_spaced_and_follow_changes() {
    let r = Rect { left: 0, top: 0, right: 100, bottom: 50 };
    let mut st = CaptureState::new();
    assert!(capture_step(&mut st, r, 7, None));
    assert_eq!((st.last_rect, st.last_ring), (r, 7));
    assert!(!capture_step(&mut st, r, 7, Some(500)));
    assert!(capture_step(&mut st, r, 7, Some(1000)));
    let moved = Rect { left: 1, ..r };
    assert!(!capture_step(&mut st, moved, 7, Some(199)));
    assert_eq!(st.last_rect, r);
    assert!(capture_step(&mut st, moved, 7, Some(200)));
    assert_eq!(st.last_rect, moved);
    assert!(capture_step(&mut st, moved, 8, Some(250)));
    assert_eq!(st.last_ring, 8);
}

#[test]
fn only_new_frames_are_sent() {
    let mut st = CaptureState::new();
    assert!(frame_to_send(&mut st, 5));
    assert!(!frame_to_send(&mut st, 5));
    assert!(frame_to_send(&mut st, 6));
    assert_eq!(st.last_sent, 6);
    capture_gate(&mut st, false, false);
    assert!(frame_to_send(&mut st, 6));
}

#[test]
fn screen_pixels_become_rgba() {
    let mut px = vec![1, 2, 3, 4, 10, 20, 30, 40, 7, 8];
    bgra_to_rgba(&mut px);
    assert_eq!(px, vec![3, 2, 1, 255, 30, 20, 10, 255, 7, 8]);
    let mut none: Vec<u8> = Vec::new();
    bgra_to_rgba(&mut none);
    assert!(none.is_empty());
}

#[test]
fn login_expired_messages() {
    assert_eq!(expired_message(Tool::Claude, "Acme"), "login expired, open Acme Code");
    assert_eq!(expired_message(Tool::Copilot, "Acme"), "login expired, sign in to Copilot again");
    assert_eq!(expired_message(Tool::Cursor, "Acme"), "login expired, open Cursor");
}

#[test]
fn poll_results_count_only_while_wanted() {
    let mut s = Settings::default();
    let mut snap = Snapshot::new();
    let mut backoff = 0u64;
    let mut dirty = true;
    let ok = Row { five_hour: Some(limit(30)), ..Row::default() };
    assert!(record_poll(&mut snap, &mut backoff, &mut dirty, &s, Tool::Copilot, true, Ok(ok.clone()), "x"));
    assert!(snap.copilot.connected);
    assert_eq!(snap.copilot.five_hour, Some(limit(30)));
    assert!(dirty);
    assert!(!record_poll(&mut snap, &mut backoff, &mut dirty, &s, Tool::Claude, false, Ok(ok.clone()), "x"));
    assert!(!snap.claude.connected);
    assert!(!dirty);
    s.cursor.enabled = false;
    assert!(!record_poll(&mut snap, &mut backoff, &mut dirty, &s, Tool::Cursor, true, Ok(ok), "x"));
    assert!(same(&snap.cursor, &Row::default()));
    backoff = 60;
    assert!(record_poll(&mut snap, &mut backoff, &mut dirty, &s, Tool::Copilot, true, Err(NetErr::RateLimited(None)), "x"));
    assert_eq!(backoff, 300);
    assert!(record_poll(&mut snap, &mut backoff, &mut dirty, &s, Tool::Copilot, true, Err(NetErr::RateLimited(None)), "x"));
    assert_eq!(backoff, 600);
    assert_eq!(snap.copilot.five_hour, Some(limit(30)));
    assert!(record_poll(&mut snap, &mut backoff, &mut dirty, &s, Tool::Claude, true, Err(NetErr::Expired), "gone"));
    assert_eq!(snap.claude.status.as_deref(), Some("gone"));
}

#[test]
fn local_rows_show_only_tools_that_are_on_and_found() {
    let mut s = Settings::default();
    s.qwen.enabled = false;
    let mut snap = Snapshot::new();
    snap.codex = with_usage();
    snap.opencode = with_usage();
    snap.gemini = with_usage();
    snap.qwen = with_usage();
    snap.claude = with_usage();
    let found = LocalFound { codex_logs: false, opencode_db: true, gemini_logs: true, qwen_logs: true };
    let on = reset_local_rows(&mut snap, &s, found);
    assert_eq!(on, LocalFound { codex_logs: false, opencode_db: true, gemini_logs: true, qwen_logs: false });
    assert!(same(&snap.codex, &Row::default()));
    assert!(snap.opencode.five_hour.is_some());
    assert!(same(&snap.gemini, &Row { connected: true, ..Row::default() }));
    assert!(same(&snap.qwen, &Row::default()));
    assert!(snap.claude.five_hour.is_some());
}

#[test]
fn applying_settings_hides_tools_that_are_off() {
    let mut s = Settings::default();
    s.codex.enabled = false;
    s.copilot.enabled = false;
    let mut snap = Snapshot::new();
    snap.codex = with_usage();
    snap.copilot = with_usage();
    snap.claude = with_usage();
    snap.cursor = with_usage();
    let found = LocalFound { codex_logs: true, opencode_db: false, gemini_logs: false, qwen_logs: true };
    let on = reset_rows(&mut snap, &s, found, &vec![Tool::Cursor]);
    assert_eq!(on, LocalFound { codex_logs: false, opencode_db: false, gemini_logs: false, qwen_logs: true });
    assert!(same(&snap.codex, &Row::default()));
    assert!(same(&snap.copilot, &Row::default()));
    assert!(same(&snap.cursor, &Row::default()));
    assert!(snap.claude.five_hour.is_some());
    assert!(snap.qwen.connected);
}

#[test]
fn log_changes_update_connected_rows() {
    let mut snap = Snapshot::new();
    snap.codex = Row { connected: true, ..Row::default() };
    let mut dirty = false;
    let fresh = message_row(true, "fresh");
    apply_log_changes(&mut snap, &mut dirty, Touched { claude_logs: false }, Some(fresh.clone()), Some(fresh.clone()));
    assert!(!dirty);
    assert!(same(&snap.codex, &fresh));
    assert!(same(&snap.opencode, &Row::default()));
    apply_log_changes(&mut snap, &mut dirty, Touched { claude_logs: true }, None, None);
    assert!(dirty);
    assert!(same(&snap.codex, &fresh));
    apply_log_changes(&mut snap, &mut dirty, Touched { claude_logs: false }, None, None);
    assert!(dirty);
}

#[test]
fn disconnected_rows_are_not_counted() {
    let mut off = Row::default();
    assert!(count_tokens(&mut off, &vec![(i64::MAX, 5), (i64::MIN, 1)], i64::MIN));
    assert!(same(&off, &Row::default()));
    let mut on = Row { connected: true, ..Row::default() };
    assert!(!count_tokens(&mut on, &vec![(0, u64::MAX), (1, 1)], 10));
    assert!(same(&on, &Row { connected: true, ..Row::default() }));
}

#[test]
fn no_request_while_claude_is_off() {
    let mut s = Settings::default();
    assert!(checks_allowed(&s, Tool::Copilot));
    s.claude.enabled = false;
    for t in [Tool::Claude, Tool::Copilot, Tool::Cursor] {
        assert!(!checks_allowed(&s, t));
        assert!(!due(t, &s, clock(None, 0), true));
    }
    assert!(due_tools(&s, clock(None, 0), clock(None, 0), clock(None, 0), true).is_empty());
    let mut snap = Snapshot::new();
    snap.copilot = with_usage();
    snap.cursor = with_usage();
    let mut backoff = 0u64;
    let mut dirty = true;
    let ok = Row { five_hour: Some(limit(30)), ..Row::default() };
    assert!(!record_poll(&mut snap, &mut backoff, &mut dirty, &s, Tool::Copilot, true, Ok(ok), "x"));
    assert_eq!(snap.copilot.five_hour, Some(limit(10)));
    reset_online_rows(&mut snap, &s, &Vec::new());
    assert!(same(&snap.copilot, &Row::default()));
    assert!(same(&snap.cursor, &Row::default()));
}
