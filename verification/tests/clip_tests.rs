use nil_core::clip::{
    clip_mode, clipboard_selection, detect_code_language, filtered_positions,
    format_relative_time, handle_clip_key, poll_step, hex_to_rgb, is_today, item_listed, parse_url_parts,
    should_record_text, ClipAction, ClipMode, ClipboardItem, ClipboardKind, FilterKind,
    KeyResponse, Paste,
};

fn item(id: &str, kind: ClipboardKind, content: &str, pinned: bool, metadata: Option<&str>) -> ClipboardItem {
    ClipboardItem {
        id: id.to_string(),
        kind,
        content: content.to_string(),
        preview: content.to_string(),
        timestamp: 0,
        pinned,
        char_count: content.chars().count(),
        metadata: metadata.map(|m| m.to_string()),
    }
}

fn history() -> Vec<ClipboardItem> {
    vec![
        item("1", ClipboardKind::Text, "Hello World", false, None),
        item("2", ClipboardKind::Image, "/tmp/i.png", true, Some("800x600 PNG")),
        item("3", ClipboardKind::Url, "https://Rust-Lang.org", false, None),
        item("4", ClipboardKind::Color, "#ff0000", true, None),
        item("5", ClipboardKind::Code, "fn main() {}", false, Some("Rust")),
    ]
}

#[test]
fn filter_labels() {
    assert_eq!(FilterKind::All.label(), "Todos los tipos");
    assert_eq!(FilterKind::Image.label(), "Solo im\u{e1}genes");
    assert_eq!(FilterKind::Code.label(), "Solo c\u{f3}digo");
    assert_eq!(FilterKind::Pinned.label(), "Solo fijados");
}

#[test]
fn entries_are_listed_by_kind_and_case_insensitive_search() {
    let h = history();
    assert_eq!(filtered_positions(&h, FilterKind::All, ""), vec![0, 1, 2, 3, 4]);
    assert_eq!(filtered_positions(&h, FilterKind::Pinned, ""), vec![1, 3]);
    assert_eq!(filtered_positions(&h, FilterKind::Url, ""), vec![2]);
    assert_eq!(filtered_positions(&h, FilterKind::All, "rust"), vec![2, 4]);
    assert_eq!(filtered_positions(&h, FilterKind::All, "PNG"), vec![1]);
    assert_eq!(filtered_positions(&h, FilterKind::Text, "WORLD"), vec![0]);
    assert_eq!(filtered_positions(&h, FilterKind::Code, "world"), Vec::<usize>::new());
    assert!(item_listed(&h[4], FilterKind::Code, "MAIN"));
    assert!(!item_listed(&h[0], FilterKind::Image, ""));
}

fn key(k: &str, ctrl: bool, alt: bool, menu: bool, sel: usize, total: usize) -> KeyResponse {
    handle_clip_key(k, ctrl, alt, menu, sel, total)
}

#[test]
fn keys_move_the_selection() {
    assert_eq!(key("ArrowDown", false, false, false, 0, 3).action, ClipAction::Select(1));
    assert_eq!(key("ArrowDown", false, false, false, 2, 3).action, ClipAction::Select(2));
    assert_eq!(key("ArrowDown", false, false, false, 7, 3).action, ClipAction::Select(2));
    assert_eq!(key("ArrowDown", false, false, false, 0, 0).action, ClipAction::Nothing);
    assert_eq!(key("ArrowUp", false, false, false, 2, 3).action, ClipAction::Select(1));
    assert_eq!(key("ArrowUp", false, false, false, 0, 3).action, ClipAction::Nothing);
    assert!(key("ArrowUp", false, false, false, 0, 3).prevent_default);
}

#[test]
fn keys_act_on_the_selected_entry() {
    assert_eq!(key("Enter", false, false, false, 1, 3), KeyResponse { prevent_default: true, action: ClipAction::Paste(1) });
    assert_eq!(key("Enter", false, false, false, 3, 3).action, ClipAction::Nothing);
    assert_eq!(key("Delete", false, false, false, 0, 3).action, ClipAction::Delete(0));
    assert_eq!(key("d", true, false, false, 2, 3).action, ClipAction::Delete(2));
    assert_eq!(key("d", false, false, false, 2, 3), KeyResponse { prevent_default: false, action: ClipAction::Nothing });
    assert_eq!(key("P", true, false, false, 2, 3).action, ClipAction::TogglePin(2));
    assert_eq!(key("2", false, true, false, 0, 3), KeyResponse { prevent_default: true, action: ClipAction::Paste(1) });
    assert_eq!(key("4", false, true, false, 0, 3).action, ClipAction::Nothing);
    assert_eq!(key("0", false, true, false, 0, 3).action, ClipAction::Nothing);
    assert_eq!(key("x", false, true, false, 0, 3).action, ClipAction::Nothing);
}

#[test]
fn keys_with_the_filter_menu() {
    assert_eq!(key("Tab", false, false, false, 0, 3).action, ClipAction::ToggleFilterMenu);
    assert_eq!(key("Tab", false, false, true, 0, 3).action, ClipAction::CloseFilterMenu);
    assert_eq!(key("Escape", false, false, true, 0, 3).action, ClipAction::CloseFilterMenu);
    assert_eq!(key("Enter", false, false, true, 0, 3), KeyResponse { prevent_default: false, action: ClipAction::Nothing });
    assert_eq!(key("Escape", false, false, false, 0, 3).action, ClipAction::CloseWindow);
}

#[test]
fn relative_times() {
    assert_eq!(format_relative_time(100, 50), "Reciente");
    assert_eq!(format_relative_time(100, 500), "Reciente");
    assert_eq!(format_relative_time(3000, 100), "Hace 48 min");
    assert_eq!(format_relative_time(4000, 100), "Hace 1 h");
    assert_eq!(format_relative_time(90_000, 0), "Hace 1 d");
    assert_eq!(format_relative_time(7_300, 100), "Hace 2 h");
    assert!(is_today(86_399, 0));
    assert!(!is_today(86_400, 0));
    assert!(is_today(0, 10));
}

#[test]
fn links_split_into_domain_and_path() {
    assert_eq!(parse_url_parts(" https://a.com/x/y "), ("a.com".to_string(), "/x/y".to_string()));
    assert_eq!(parse_url_parts("http://a.com"), ("a.com".to_string(), "/".to_string()));
    assert_eq!(parse_url_parts("ftp://a.com/b"), ("ftp:".to_string(), "//a.com/b".to_string()));
    assert_eq!(parse_url_parts("a.com/"), ("a.com".to_string(), "/".to_string()));
    assert_eq!(parse_url_parts(""), ("".to_string(), "/".to_string()));
}

#[test]
fn hex_colours_to_rgb() {
    assert_eq!(hex_to_rgb("#ff8000"), Some((255, 128, 0)));
    assert_eq!(hex_to_rgb("  #FfF "), Some((255, 255, 255)));
    assert_eq!(hex_to_rgb("#0a0"), Some((0, 170, 0)));
    assert_eq!(hex_to_rgb("#+f+f+f"), Some((15, 15, 15)));
    assert_eq!(hex_to_rgb("ff8000"), None);
    assert_eq!(hex_to_rgb("#ff80"), None);
    assert_eq!(hex_to_rgb("#gg0000"), None);
    assert_eq!(hex_to_rgb("#+++"), None);
}

#[test]
fn code_languages() {
    assert_eq!(detect_code_language("fn main() {}"), "Rust");
    assert_eq!(detect_code_language("const x = () => 1;"), "JavaScript");
    assert_eq!(detect_code_language("def f():\n  print(1)"), "Python");
    assert_eq!(detect_code_language("SELECT * FROM t"), "SQL");
    assert_eq!(detect_code_language("sudo apt update"), "Shell");
    assert_eq!(detect_code_language("a { color: red; }"), "CSS");
    assert_eq!(detect_code_language("hello"), "C\u{f3}digo");
}

#[test]
fn selecting_an_entry_pastes_its_file_or_text() {
    let h = history();
    match clipboard_selection(&h, "2") {
        Ok(Paste::ImageFile(f)) => assert_eq!(f, "/tmp/i.png"),
        _ => panic!("an image entry is pasted from its file"),
    }
    match clipboard_selection(&h, "3") {
        Ok(Paste::Text(t)) => assert_eq!(t, "https://Rust-Lang.org"),
        _ => panic!("other entries are pasted as text"),
    }
    match clipboard_selection(&h, "9") {
        Err(e) => assert_eq!(e, "Elemento no encontrado"),
        Ok(_) => panic!("an unknown id is not found"),
    }
}

#[test]
fn watcher_records_new_text_only() {
    assert!(should_record_text("a", ""));
    assert!(!should_record_text("", "a"));
    assert!(!should_record_text("a", "a"));
    assert!(should_record_text("b", "a"));
}

#[test]
fn clipboard_program_modes() {
    let args = |v: &[&str]| v.iter().map(|s| s.to_string()).collect::<Vec<String>>();
    assert_eq!(clip_mode(&args(&["nil-clip"])), ClipMode::Ui);
    assert_eq!(clip_mode(&args(&["nil-clip", "--add-stdin"])), ClipMode::AddText);
    assert_eq!(clip_mode(&args(&["nil-clip", "--add-stdin-img"])), ClipMode::AddImage);
    assert_eq!(clip_mode(&args(&["nil-clip", "-d"])), ClipMode::Daemon);
    assert_eq!(clip_mode(&args(&["nil-clip", "--daemon"])), ClipMode::Daemon);
    assert_eq!(clip_mode(&args(&["nil-clip", "--other"])), ClipMode::Ui);
}

#[test]
fn keys_never_point_past_the_list() {
    let keys = ["ArrowDown", "ArrowUp", "Enter", "Delete", "d", "p", "1", "3", "9", "Tab", "Escape"];
    for total in 0..4usize {
        for sel in 0..=total {
            for k in keys {
                for (ctrl, alt) in [(false, false), (true, false), (false, true)] {
                    match handle_clip_key(k, ctrl, alt, false, sel, total).action {
                        ClipAction::Select(i) | ClipAction::Paste(i) | ClipAction::Delete(i) | ClipAction::TogglePin(i) => {
                            assert!(i < total)
                        }
                        _ => {}
                    }
                }
            }
        }
    }
}

#[test]
fn polling_records_only_new_nonempty_text() {
    assert_eq!(poll_step("", "a"), (true, "a".to_string()));
    assert_eq!(poll_step("a", "a"), (false, "a".to_string()));
    assert_eq!(poll_step("a", ""), (false, "a".to_string()));
    let mut last = String::new();
    let mut recorded = Vec::new();
    for read in ["x", "x", "", "y", "x", "x"] {
        let (rec, next) = poll_step(&last, read);
        if rec {
            recorded.push(read.to_string());
        }
        last = next;
    }
    assert_eq!(recorded, vec!["x", "y", "x"]);
}
