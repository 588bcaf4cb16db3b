use nil_core::screen::{
    area_capture_next, area_capture_start, capture_notification, clipboard_readers,
    clipboard_watchers, copy_next, copy_start, focused_output, full_capture_next,
    first_focused_name, full_capture_start, open_with_desktop, MonitorEntry, saved_notification, selection_area, AreaStage,
    CaptureStep, Command, CommandOutcome, CopyStage, CopyStep, FullStage,
};

fn line(c: &Command) -> Vec<String> {
    let mut v = vec![c.program.clone()];
    v.extend(c.args.iter().cloned());
    v
}

fn words(s: &[&str]) -> Vec<String> {
    s.iter().map(|x| x.to_string()).collect()
}

fn outcome(ran: bool, success: bool, stdout: &str, target_exists: bool) -> CommandOutcome {
    CommandOutcome { ran, success, stdout: stdout.to_string(), target_exists }
}

fn area_run(s: CaptureStep<AreaStage>) -> (AreaStage, Vec<String>) {
    match s {
        CaptureStep::Run { stage, command } => (stage, line(&command)),
        CaptureStep::Done(_) => panic!("expected a command"),
    }
}

fn full_run(s: CaptureStep<FullStage>) -> (FullStage, Vec<String>) {
    match s {
        CaptureStep::Run { stage, command } => (stage, line(&command)),
        CaptureStep::Done(_) => panic!("expected a command"),
    }
}

#[test]
fn area_capture_starts_with_slurp_then_grim() {
    let (stage, l) = area_run(area_capture_start());
    assert_eq!(stage, AreaStage::SelectWithSlurp);
    assert_eq!(l, words(&["slurp"]));
    let (stage, l) = area_run(area_capture_next(
        AreaStage::SelectWithSlurp,
        outcome(true, true, "10,20 300x200\n", false),
        "/tmp/a.png",
    ));
    assert_eq!(stage, AreaStage::GrimRegion);
    assert_eq!(l, words(&["grim", "-g", "10,20 300x200", "/tmp/a.png"]));
}

#[test]
fn area_capture_falls_back_in_order() {
    let p = "/tmp/a.png";
    let (stage, l) = area_run(area_capture_next(AreaStage::SelectWithSlurp, outcome(true, true, "  \n", false), p));
    assert_eq!(stage, AreaStage::GnomeScreenshot);
    assert_eq!(l, words(&["gnome-screenshot", "-a", "-f", p]));
    let (stage, l) = area_run(area_capture_next(AreaStage::GnomeScreenshot, outcome(true, true, "", false), p));
    assert_eq!(stage, AreaStage::GnomeSelectArea);
    assert_eq!(
        l,
        words(&[
            "gdbus",
            "call",
            "--session",
            "--dest",
            "org.gnome.Shell.Screenshot",
            "--object-path",
            "/org/gnome/Shell/Screenshot",
            "--method",
            "org.gnome.Shell.Screenshot.SelectArea",
        ])
    );
    let (stage, l) = area_run(area_capture_next(
        AreaStage::GnomeSelectArea,
        outcome(true, true, "(10, -20, 300, 200)\n", false),
        p,
    ));
    assert_eq!(stage, AreaStage::GnomeScreenshotArea);
    assert_eq!(l[8], "org.gnome.Shell.Screenshot.ScreenshotArea");
    assert_eq!(l[9..].to_vec(), words(&["10", "-20", "300", "200", "false", p]));
    let (stage, l) = area_run(area_capture_next(AreaStage::GnomeScreenshotArea, outcome(true, false, "", false), p));
    assert_eq!(stage, AreaStage::Maim);
    assert_eq!(l, words(&["maim", "-s", p]));
    let (stage, l) = area_run(area_capture_next(AreaStage::Maim, outcome(false, false, "", false), p));
    assert_eq!(stage, AreaStage::Scrot);
    assert_eq!(l, words(&["scrot", "-s", p]));
    assert!(matches!(
        area_capture_next(AreaStage::Scrot, outcome(true, true, "", false), p),
        CaptureStep::Done(false)
    ));
    assert!(matches!(
        area_capture_next(AreaStage::Scrot, outcome(true, true, "", true), p),
        CaptureStep::Done(true)
    ));
}

#[test]
fn area_capture_stops_once_the_image_is_written() {
    assert!(matches!(
        area_capture_next(AreaStage::GrimRegion, outcome(true, true, "", true), "/tmp/a.png"),
        CaptureStep::Done(true)
    ));
    // a selection without positive size goes on to maim
    let (stage, _) = area_run(area_capture_next(
        AreaStage::GnomeSelectArea,
        outcome(true, true, "(10, 20, 0, 200)", false),
        "/tmp/a.png",
    ));
    assert_eq!(stage, AreaStage::Maim);
}

#[test]
fn selection_area_reads_the_first_four_numbers() {
    assert_eq!(selection_area("(10, 20, 300, 200)"), Some((10, 20, 300, 200)));
    assert_eq!(selection_area("(-5, 7, 1, 2, 99)"), Some((-5, 7, 1, 2)));
    assert_eq!(selection_area("(1, 2, 3)"), None);
    assert_eq!(selection_area("(1, 2, -3, 4)"), None);
    assert_eq!(selection_area(""), None);
}

#[test]
fn focused_output_from_compositor_json() {
    let hypr = r#"[{"name":"DP-1","focused":false},{"name":"HDMI-A-1","focused":true}]"#;
    assert_eq!(focused_output(hypr), Some("HDMI-A-1".to_string()));
    assert_eq!(focused_output(r#"[{"name":"DP-1","focused":"yes"}]"#), None);
    assert_eq!(focused_output(r#"[{"focused":true},{"name":"B","focused":true}]"#), Some("B".to_string()));
    assert_eq!(focused_output(r#"{"name":"DP-1","focused":true}"#), None);
    assert_eq!(focused_output("not json"), None);
}

#[test]
fn full_capture_asks_hyprland_then_sway() {
    let p = "/tmp/f.png";
    let (stage, l) = full_run(full_capture_start());
    assert_eq!(stage, FullStage::HyprlandMonitors);
    assert_eq!(l, words(&["hyprctl", "monitors", "-j"]));
    let json = r#"[{"name":"eDP-1","focused":true}]"#;
    let (stage, l) = full_run(full_capture_next(FullStage::HyprlandMonitors, outcome(true, true, json, false), p));
    assert_eq!(stage, FullStage::GrimOutput);
    assert_eq!(l, words(&["grim", "-o", "eDP-1", p]));
    let (stage, l) = full_run(full_capture_next(FullStage::HyprlandMonitors, outcome(false, false, "", false), p));
    assert_eq!(stage, FullStage::SwayOutputs);
    assert_eq!(l, words(&["swaymsg", "-t", "get_outputs", "-r"]));
    // a failed command's output is not read
    let (stage, _) = full_run(full_capture_next(FullStage::SwayOutputs, outcome(true, false, json, false), p));
    assert_eq!(stage, FullStage::Grim);
}

#[test]
fn full_capture_falls_back_in_order() {
    let p = "/tmp/f.png";
    let (stage, l) = full_run(full_capture_next(FullStage::Grim, outcome(true, false, "", false), p));
    assert_eq!(stage, FullStage::GnomeShell);
    assert_eq!(l[8..].to_vec(), words(&["org.gnome.Shell.Screenshot.Screenshot", "true", "false", p]));
    let (stage, l) = full_run(full_capture_next(FullStage::GnomeShell, outcome(true, false, "", false), p));
    assert_eq!(stage, FullStage::GnomeScreenshot);
    assert_eq!(l, words(&["gnome-screenshot", "-f", p]));
    let (stage, l) = full_run(full_capture_next(FullStage::GnomeScreenshot, outcome(true, true, "", false), p));
    assert_eq!(stage, FullStage::Maim);
    assert_eq!(l, words(&["maim", p]));
    let (stage, l) = full_run(full_capture_next(FullStage::Maim, outcome(true, false, "", true), p));
    assert_eq!(stage, FullStage::Scrot);
    assert_eq!(l, words(&["scrot", p]));
    assert!(matches!(
        full_capture_next(FullStage::GrimOutput, outcome(true, true, "", true), p),
        CaptureStep::Done(true)
    ));
    assert!(matches!(
        full_capture_next(FullStage::Scrot, outcome(false, false, "", false), p),
        CaptureStep::Done(false)
    ));
}

#[test]
fn copy_tries_wl_copy_then_xclip() {
    match copy_start(true) {
        CopyStep::Run { stage, command } => {
            assert_eq!(stage, CopyStage::WlCopy);
            assert_eq!(line(&command), words(&["wl-copy", "--type", "image/png"]));
        }
        CopyStep::Done(_) => panic!("a copy starts with wl-copy"),
    }
    match copy_start(false) {
        CopyStep::Run { command, .. } => assert_eq!(line(&command), words(&["wl-copy"])),
        CopyStep::Done(_) => panic!("a copy starts with wl-copy"),
    }
    match copy_next(CopyStage::WlCopy, true, false) {
        CopyStep::Run { stage, command } => {
            assert_eq!(stage, CopyStage::Xclip);
            assert_eq!(
                line(&command),
                words(&["xclip", "-selection", "clipboard", "-t", "image/png"])
            );
        }
        CopyStep::Done(_) => panic!("xclip is tried next"),
    }
    assert!(matches!(copy_next(CopyStage::WlCopy, false, true), CopyStep::Done(Ok(()))));
    match copy_next(CopyStage::Xclip, false, false) {
        CopyStep::Done(Err(e)) => assert_eq!(e, "No se pudo copiar el texto al portapapeles"),
        _ => panic!("the copy fails after xclip"),
    }
    match copy_next(CopyStage::Xclip, true, false) {
        CopyStep::Done(Err(e)) => assert_eq!(e, "No se pudo copiar la imagen al portapapeles"),
        _ => panic!("the copy fails after xclip"),
    }
}

#[test]
fn notification_and_opener_commands() {
    let c = capture_notification("/tmp/a.png", "Captura copiada", "cuerpo");
    assert_eq!(
        line(&c),
        words(&[
            "notify-send", "-a", "Glint", "-i", "/tmp/a.png", "-A", "edit=Editar", "-t", "5000",
            "Captura copiada", "cuerpo",
        ])
    );
    let s = saved_notification("/home/u/Pictures/Screenshots/s.png", "s.png");
    assert_eq!(
        line(&s),
        words(&[
            "notify-send", "-a", "nil-shot", "-i", "/home/u/Pictures/Screenshots/s.png", "-A",
            "open=Abrir", "Captura guardada", "s.png",
        ])
    );
    assert_eq!(line(&open_with_desktop("https://a.b")), words(&["xdg-open", "https://a.b"]));
}

#[test]
fn clipboard_daemon_commands() {
    let (t, i) = clipboard_watchers("/usr/bin/nil-clip");
    assert_eq!(line(&t), words(&["wl-paste", "--watch", "/usr/bin/nil-clip", "--add-stdin"]));
    assert_eq!(
        line(&i),
        words(&["wl-paste", "--type", "image/png", "--watch", "/usr/bin/nil-clip", "--add-stdin-img"])
    );
    let (w, x) = clipboard_readers();
    assert_eq!(line(&w), words(&["wl-paste", "-n"]));
    assert_eq!(line(&x), words(&["xclip", "-selection", "clipboard", "-o"]));
}

#[test]
fn first_focused_monitor_with_a_name() {
    let m = |focused: Option<bool>, name: Option<&str>| MonitorEntry { focused, name: name.map(|n| n.to_string()) };
    assert_eq!(
        first_focused_name(&vec![m(Some(false), Some("A")), m(Some(true), None), m(Some(true), Some("C")), m(Some(true), Some("D"))]),
        Some("C".to_string())
    );
    assert_eq!(first_focused_name(&vec![m(None, Some("A"))]), None);
    assert_eq!(first_focused_name(&vec![]), None);
}
