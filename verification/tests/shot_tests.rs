use nil_core::paths::{
    config_dir_path, config_file_path, home_dir, join_path, save_dir, screenshot_dir_candidates,
    screenshot_dirs,
};
use nil_core::shot::{
    config_from_request, external_url, ocr_source, png_dimensions, saved_capture_path,
    screenshot_filename, select_mode, tiling_desktop, AppState, Config, OcrSource, ShotMode,
};

fn args(v: &[&str]) -> Vec<String> {
    v.iter().map(|s| s.to_string()).collect()
}

#[test]
fn default_config_opens_the_editor() {
    assert!(Config::default().open_editor);
    assert!(config_from_request(None).open_editor);
    assert!(!config_from_request(Some(false)).open_editor);
    assert!(config_from_request(Some(true)).open_editor);
}

#[test]
fn command_line_modes() {
    assert!(matches!(select_mode(&args(&["nil-shot"]), false), ShotMode::Area));
    match select_mode(&args(&["nil-shot", "/tmp/a.png"]), true) {
        ShotMode::OpenImage(p) => assert_eq!(p, "/tmp/a.png"),
        _ => panic!("an existing file is opened"),
    }
    assert!(matches!(select_mode(&args(&["nil-shot", "--press"]), false), ShotMode::Press));
    assert!(matches!(select_mode(&args(&["nil-shot", "--release"]), false), ShotMode::Release));
    assert!(matches!(select_mode(&args(&["nil-shot", "-f"]), false), ShotMode::Full));
    assert!(matches!(select_mode(&args(&["nil-shot", "--full"]), false), ShotMode::Full));
    assert!(matches!(select_mode(&args(&["nil-shot", "-a"]), false), ShotMode::Area));
    assert!(matches!(select_mode(&args(&["nil-shot", "--bogus"]), false), ShotMode::Area));
    match select_mode(&args(&["nil-shot", "-e", "/x.png"]), false) {
        ShotMode::Edit(Some(p)) => assert_eq!(p, "/x.png"),
        _ => panic!("edit takes the image"),
    }
    assert!(matches!(select_mode(&args(&["nil-shot", "--edit"]), false), ShotMode::Edit(None)));
}

#[test]
fn png_header_gives_the_size() {
    let mut b = vec![0x89, b'P', b'N', b'G', b'\r', b'\n', 0x1a, b'\n', 0, 0, 0, 13, b'I', b'H', b'D', b'R'];
    b.extend_from_slice(&1920u32.to_be_bytes());
    b.extend_from_slice(&1080u32.to_be_bytes());
    assert_eq!(png_dimensions(Some(b.clone())), (1920, 1080));
    assert_eq!(png_dimensions(Some(b[..23].to_vec())), (960, 600));
    b[1] = b'Q';
    assert_eq!(png_dimensions(Some(b)), (960, 600));
    assert_eq!(png_dimensions(None), (960, 600));
}

#[test]
fn saved_files_and_links() {
    assert_eq!(screenshot_filename(1700000000), "screenshot_1700000000.png");
    assert_eq!(external_url("  example.com "), "https://example.com");
    assert_eq!(external_url("http://a.b"), "http://a.b");
    assert_eq!(external_url("https://a.b/c"), "https://a.b/c");
    assert_eq!(external_url(""), "https://");
    let once = external_url(" www.x.org ");
    assert_eq!(external_url(&once), once);
}

#[test]
fn tiling_desktops() {
    assert!(tiling_desktop(true, ""));
    assert!(tiling_desktop(false, "Hyprland"));
    assert!(tiling_desktop(false, "SWAY"));
    assert!(!tiling_desktop(false, "GNOME"));
    assert!(!tiling_desktop(false, ""));
}

#[test]
fn app_state_pins_and_holds_the_image() {
    let mut s = AppState::new(None, "/c/config.json".to_string());
    assert!(!s.is_pinned);
    assert_eq!(s.current_image(), Err("No image path provided".to_string()));
    assert!(s.toggle_pin());
    assert!(!s.toggle_pin());
    s.set_image("/tmp/a.png".to_string());
    assert_eq!(s.current_image(), Ok("/tmp/a.png".to_string()));
    assert_eq!(s.config_path, "/c/config.json");
}

#[test]
fn text_recognition_reads_sent_or_stored_image() {
    let stored = AppState::new(Some("/tmp/a.png".to_string()), String::new());
    let empty = AppState::new(None, String::new());
    match ocr_source(&stored, None) {
        Ok(OcrSource::Stored(p)) => assert_eq!(p, "/tmp/a.png"),
        _ => panic!("without data the stored image is read"),
    }
    match ocr_source(&stored, Some(String::new())) {
        Ok(OcrSource::Stored(p)) => assert_eq!(p, "/tmp/a.png"),
        _ => panic!("empty data reads the stored image"),
    }
    match ocr_source(&empty, Some("data:image/png;base64,AQID".to_string())) {
        Ok(OcrSource::Decoded(b)) => assert_eq!(b, vec![1, 2, 3]),
        _ => panic!("sent data is decoded"),
    }
    match ocr_source(&empty, None) {
        Err(e) => assert_eq!(e, "No image path provided"),
        Ok(_) => panic!("nothing to read"),
    }
    match ocr_source(&stored, Some("@@".to_string())) {
        Err(e) => assert!(e.starts_with("Base64 decode error: ")),
        Ok(_) => panic!("bad data is an error"),
    }
}

#[test]
fn paths_join_like_path_join() {
    assert_eq!(join_path("/home/u", "x"), "/home/u/x");
    assert_eq!(join_path("/home/u/", "x"), "/home/u/x");
    assert_eq!(join_path("", "x"), "x");
    assert_eq!(join_path("/home/u", "/abs"), "/abs");
    assert_eq!(home_dir(None), ".");
    assert_eq!(home_dir(Some("/home/u".to_string())), "/home/u");
    assert_eq!(config_dir_path("/home/u"), "/home/u/.config/screenshot-tool");
    assert_eq!(config_file_path("/"), "/.config/screenshot-tool/config.json");
}

#[test]
fn screenshot_folders_in_search_order() {
    assert_eq!(
        screenshot_dir_candidates("/h"),
        vec![
            "/h/Im\u{e1}genes/Capturas de pantalla".to_string(),
            "/h/Pictures/Screenshots".to_string(),
            "/h/Pictures".to_string(),
            "/h/Im\u{e1}genes".to_string(),
        ]
    );
    assert_eq!(
        screenshot_dirs("/h", [false, true, true, false]),
        vec!["/h/Pictures/Screenshots".to_string(), "/h/Pictures".to_string()]
    );
    assert!(screenshot_dirs("/h", [false; 4]).is_empty());
    assert_eq!(screenshot_dirs("/h", [true; 4]).len(), 4);
}

#[test]
fn saved_captures_go_to_the_pictures_folder() {
    assert_eq!(save_dir("/h", true), "/h/Im\u{e1}genes/Capturas de pantalla");
    assert_eq!(save_dir("/h", false), "/h/Pictures/Screenshots");
    assert_eq!(saved_capture_path("/h", false, 12), "/h/Pictures/Screenshots/screenshot_12.png");
}
