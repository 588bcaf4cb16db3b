use nil_core::editor::{aspect_ratio_label, tool_info, Tool};
use nil_core::history::EditHistory;

#[test]
fn tool_labels_name_their_shortcuts() {
    assert_eq!(tool_info(Tool::Select), ("Seleccionar (1)", "Seleccionar \u{b7} 1"));
    assert_eq!(tool_info(Tool::Pen), ("L\u{e1}piz (2)", "L\u{e1}piz \u{b7} 2"));
    assert_eq!(tool_info(Tool::Rectangle), ("Rect\u{e1}ngulo (3)", "Rect\u{e1}ngulo \u{b7} 3"));
    assert_eq!(tool_info(Tool::Blur), ("Censurar (B)", "Censurar \u{b7} B"));
    assert_eq!(tool_info(Tool::Picker), ("Gotero (I)", "Gotero \u{b7} I"));
}

#[test]
fn ratio_label_reduces_small_ratios() {
    assert_eq!(aspect_ratio_label(0, 10, None), "");
    assert_eq!(aspect_ratio_label(10, 0, Some((1, 1))), "");
    assert_eq!(aspect_ratio_label(1920, 1080, Some((16, 9))), "1920 \u{d7} 1080 \u{b7} 16:9");
    assert_eq!(aspect_ratio_label(500, 300, None), "500 \u{d7} 300 \u{b7} 5:3");
    assert_eq!(aspect_ratio_label(640, 1280, None), "640 \u{d7} 1280 \u{b7} 1:2");
    assert_eq!(aspect_ratio_label(17, 1, None), "17 \u{d7} 1");
    assert_eq!(aspect_ratio_label(1001, 1000, None), "1001 \u{d7} 1000");
    assert_eq!(aspect_ratio_label(7, 7, None), "7 \u{d7} 7 \u{b7} 1:1");
}

#[test]
fn undo_takes_back_the_last_annotation_and_redo_replays_it() {
    let mut h: EditHistory<u32> = EditHistory::new();
    assert!(!h.can_undo());
    assert!(!h.can_redo());
    assert!(!h.can_clear());
    h.add(1);
    h.add(2);
    assert_eq!(h.items(), &vec![1, 2]);
    assert!(h.undo().is_none());
    assert_eq!(h.items(), &vec![1]);
    assert!(h.can_redo());
    assert!(h.redo().is_none());
    assert_eq!(h.items(), &vec![1, 2]);
    assert!(!h.can_redo());
}

#[test]
fn recording_forgets_what_was_undone() {
    let mut h: EditHistory<u32> = EditHistory::new();
    h.add(1);
    h.undo();
    assert!(h.can_redo());
    h.add(5);
    assert!(!h.can_redo());
    assert_eq!(h.items(), &vec![5]);
}

#[test]
fn clear_is_undone_by_bringing_the_annotations_back() {
    let mut h: EditHistory<u32> = EditHistory::new();
    h.clear();
    assert!(!h.can_undo());
    h.add(1);
    h.add(2);
    assert!(h.can_clear());
    h.clear();
    assert!(h.items().is_empty());
    h.undo();
    assert_eq!(h.items(), &vec![1, 2]);
    h.redo();
    assert!(h.items().is_empty());
}

#[test]
fn crop_switches_images_on_undo_and_redo() {
    let mut h: EditHistory<u32> = EditHistory::new();
    h.add(3);
    h.crop("old".to_string(), 100, 50, "new".to_string(), 40, 20);
    assert!(h.items().is_empty());
    let s = h.undo().expect("undoing a crop shows the old image");
    assert_eq!((s.image_data.as_str(), s.width, s.height), ("old", 100, 50));
    assert_eq!(h.items(), &vec![3]);
    let s = h.redo().expect("redoing a crop shows the new image");
    assert_eq!((s.image_data.as_str(), s.width, s.height), ("new", 40, 20));
    assert!(h.items().is_empty());
    assert!(h.undo().is_some());
    assert!(h.undo().is_none());
    assert!(h.items().is_empty());
}

use nil_core::editor::{editor_key, EditorAction, EditorView};

fn view(recognizing: bool, blocks_selected: bool, about_open: bool, zoomed: bool) -> EditorView {
    EditorView { recognizing, blocks_selected, about_open, zoomed }
}

#[test]
fn editor_shortcuts_with_ctrl() {
    let v = view(false, false, false, false);
    assert_eq!(editor_key("z", true, false, false, v), (true, EditorAction::Undo));
    assert_eq!(editor_key("Z", true, true, false, v), (true, EditorAction::Redo));
    assert_eq!(editor_key("y", true, false, false, v), (true, EditorAction::Redo));
    assert_eq!(editor_key("C", true, false, false, v), (true, EditorAction::Copy));
    assert_eq!(editor_key("s", true, false, false, v), (true, EditorAction::Save));
    assert_eq!(editor_key("0", true, false, false, v), (true, EditorAction::ResetZoom));
    assert_eq!(editor_key("a", true, false, false, v), (false, EditorAction::Nothing));
    assert_eq!(editor_key("a", true, false, false, view(true, false, false, false)), (true, EditorAction::SelectAllBlocks));
}

#[test]
fn enter_copies_recognised_text() {
    assert_eq!(editor_key("Enter", false, false, false, view(true, true, false, false)), (true, EditorAction::CopySelectedBlocks));
    assert_eq!(editor_key("Enter", false, false, false, view(true, false, false, false)), (true, EditorAction::CopyAllBlocks));
    assert_eq!(editor_key("Enter", false, false, false, view(false, false, false, false)), (false, EditorAction::Nothing));
}

#[test]
fn escape_closes_the_innermost_thing() {
    assert_eq!(editor_key("Escape", false, false, false, view(true, true, true, true)).1, EditorAction::CloseAbout);
    assert_eq!(editor_key("Escape", false, false, false, view(true, true, false, true)).1, EditorAction::ClearBlockSelection);
    assert_eq!(editor_key("Escape", false, false, false, view(true, false, false, true)).1, EditorAction::LeaveRecognition);
    assert_eq!(editor_key("Escape", false, false, false, view(false, false, false, true)).1, EditorAction::ResetZoom);
    assert_eq!(editor_key("Escape", false, false, false, view(false, false, false, false)), (true, EditorAction::Close));
}

#[test]
fn plain_keys_pick_tools() {
    let v = view(false, false, false, false);
    assert_eq!(editor_key("p", false, false, false, v), (false, EditorAction::UseTool { tool: Tool::Pen, clear_preview: true }));
    assert_eq!(editor_key("H", false, true, false, v).1, EditorAction::UseTool { tool: Tool::Highlighter, clear_preview: true });
    assert_eq!(editor_key("i", false, false, false, v).1, EditorAction::UseTool { tool: Tool::Picker, clear_preview: false });
    assert_eq!(editor_key("o", false, false, false, v).1, EditorAction::Recognize);
    assert_eq!(editor_key("[", false, false, false, v).1, EditorAction::ThinnerStroke);
    assert_eq!(editor_key("]", false, false, false, v).1, EditorAction::ThickerStroke);
    assert_eq!(editor_key("p", false, false, true, v), (false, EditorAction::Nothing));
    assert_eq!(editor_key("x", false, false, false, v), (false, EditorAction::Nothing));
}
