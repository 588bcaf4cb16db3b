use nil_core::capture::{
    capture_step, generate_temp_path, get_hold_lock_path, hold_confirmed, hold_token,
    notification_chose_edit, notification_chose_open, release_is_tap, run_area_capture,
    run_full_capture, CaptureAction, CaptureEvent, CaptureMode,
};

#[test]
fn temp_path_is_named_after_the_millisecond() {
    assert_eq!(generate_temp_path(1700000000123), "/tmp/screenshot_1700000000123.png");
    assert_eq!(generate_temp_path(0), "/tmp/screenshot_0.png");
}

#[test]
fn hold_lock_path_is_fixed() {
    assert_eq!(get_hold_lock_path(), "/tmp/glint_hold.lock");
}

#[test]
fn hold_token_is_pid_colon_millis() {
    assert_eq!(hold_token(42, 1000), "42:1000");
    assert_eq!(hold_token(0, 0), "0:0");
}

#[test]
fn press_keeps_the_lock_only_with_its_own_token() {
    assert!(hold_confirmed("42:1000", Some("42:1000".to_string())));
    assert!(!hold_confirmed("42:1000", Some("43:1000".to_string())));
    assert!(!hold_confirmed("42:1000", Some("42:1000\n".to_string())));
    assert!(!hold_confirmed("42:1000", None));
}

#[test]
fn release_within_the_tap_window_is_a_tap() {
    assert!(release_is_tap("42:1000", 1000));
    assert!(release_is_tap("42:1000", 1599));
    assert!(!release_is_tap("42:1000", 1600));
    assert!(!release_is_tap("42:1000", 999));
}

#[test]
fn malformed_tokens_are_no_tap() {
    assert!(!release_is_tap("bad", 5));
    assert!(!release_is_tap("1:2:3", 3));
    assert!(!release_is_tap("1:", 3));
    assert!(!release_is_tap("1:x", 3));
    assert!(release_is_tap(":7", 7));
    assert!(release_is_tap("1:+7", 7));
}

#[test]
fn token_written_by_a_press_is_read_back_by_a_release() {
    let t = hold_token(1234, 987654321);
    assert!(release_is_tap(&t, 987654321 + 599));
    assert!(!release_is_tap(&t, 987654321 + 600));
}

#[test]
fn notification_answers() {
    assert!(notification_chose_edit(" edit\n"));
    assert!(notification_chose_edit("0"));
    assert!(notification_chose_edit("default"));
    assert!(!notification_chose_edit(""));
    assert!(!notification_chose_edit("open"));
    assert!(notification_chose_open("open\n"));
    assert!(notification_chose_open("0"));
    assert!(!notification_chose_open("edit"));
}

#[test]
fn capture_flow_of_the_focused_screen() {
    match run_full_capture(CaptureEvent::Start { now_millis: 5 }) {
        CaptureAction::Capture { mode, path } => {
            assert_eq!(mode, CaptureMode::Full);
            assert_eq!(path, "/tmp/screenshot_5.png");
        }
        _ => panic!("a capture starts by capturing"),
    }
    match run_full_capture(CaptureEvent::Captured { path: "/tmp/a.png".to_string(), ok: true }) {
        CaptureAction::Notify { path, title, body } => {
            assert_eq!(path, "/tmp/a.png");
            assert_eq!(title, "Captura copiada");
            assert_eq!(body, "Pantalla completa en el portapapeles");
        }
        _ => panic!("a written capture is announced"),
    }
    assert!(matches!(
        run_full_capture(CaptureEvent::Captured { path: "/tmp/a.png".to_string(), ok: false }),
        CaptureAction::Finish
    ));
}

#[test]
fn capture_flow_of_an_area() {
    match run_area_capture(CaptureEvent::Captured { path: "/tmp/b.png".to_string(), ok: true }) {
        CaptureAction::Notify { body, .. } => {
            assert_eq!(body, "\u{c1}rea guardada en el portapapeles");
        }
        _ => panic!("a written capture is announced"),
    }
    match run_area_capture(CaptureEvent::Notified {
        path: "/tmp/b.png".to_string(),
        stdout: "edit\n".to_string(),
    }) {
        CaptureAction::OpenEditor { path } => assert_eq!(path, "/tmp/b.png"),
        _ => panic!("the edit answer opens the editor"),
    }
    assert!(matches!(
        capture_step(
            CaptureMode::Area,
            CaptureEvent::Notified { path: "/tmp/b.png".to_string(), stdout: String::new() }
        ),
        CaptureAction::Finish
    ));
}
