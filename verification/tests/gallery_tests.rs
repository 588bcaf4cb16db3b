use nil_core::gallery::{
    drop_repeated_paths, gallery_item, gallery_response, is_gallery_image, select_gallery_page,
    sort_newest_first, take_page, GalleryFile,
};

fn file(path: &str, t: i128) -> GalleryFile {
    GalleryFile { path: path.to_string(), modified_nanos: t }
}

fn paths(v: &[GalleryFile]) -> Vec<String> {
    v.iter().map(|f| f.path.clone()).collect()
}

fn png_header(w: u32, h: u32) -> Vec<u8> {
    let mut b = vec![0x89, b'P', b'N', b'G', b'\r', b'\n', 0x1a, b'\n', 0, 0, 0, 13, b'I', b'H', b'D', b'R'];
    b.extend_from_slice(&w.to_be_bytes());
    b.extend_from_slice(&h.to_be_bytes());
    b
}

#[test]
fn gallery_shows_png_jpeg_and_webp_in_any_case() {
    assert!(is_gallery_image(Some("png")));
    assert!(is_gallery_image(Some("PNG")));
    assert!(is_gallery_image(Some("Jpeg")));
    assert!(is_gallery_image(Some("jpg")));
    assert!(is_gallery_image(Some("webp")));
    assert!(!is_gallery_image(Some("gif")));
    assert!(!is_gallery_image(Some("")));
    assert!(!is_gallery_image(None));
}

#[test]
fn newest_first_is_a_stable_sort() {
    let r = sort_newest_first(vec![file("a", 1), file("b", 3), file("c", 1), file("d", 2), file("e", 3)]);
    assert_eq!(paths(&r), vec!["b", "e", "d", "a", "c"]);
    assert!(sort_newest_first(vec![]).is_empty());
    let r = sort_newest_first(vec![file("old", -5), file("new", 5)]);
    assert_eq!(paths(&r), vec!["new", "old"]);
}

#[test]
fn only_adjacent_repeats_are_dropped() {
    let r = drop_repeated_paths(vec![file("a", 3), file("a", 2), file("b", 1), file("a", 0)]);
    assert_eq!(paths(&r), vec!["a", "b", "a"]);
    assert_eq!(r[0].modified_nanos, 3);
}

#[test]
fn pages_default_to_five() {
    let all: Vec<GalleryFile> = (0..8).map(|i| file(&format!("f{}", i), i)).collect();
    let p = take_page(all.iter().map(|f| file(&f.path, f.modified_nanos)).collect(), 1, 2);
    assert_eq!(paths(&p), vec!["f1", "f2"]);
    let p = take_page(all.iter().map(|f| file(&f.path, f.modified_nanos)).collect(), 0, 0);
    assert_eq!(paths(&p), vec!["f0", "f1", "f2", "f3", "f4"]);
    let p = take_page(all.iter().map(|f| file(&f.path, f.modified_nanos)).collect(), 6, 5);
    assert_eq!(paths(&p), vec!["f6", "f7"]);
    let p = take_page(all, 8, 5);
    assert!(p.is_empty());
}

#[test]
fn gallery_page_sorts_dedups_then_pages() {
    let files = vec![file("x", 1), file("y", 9), file("y", 9), file("z", 5)];
    let (page, total) = select_gallery_page(files, 1, 1);
    assert_eq!(total, 3);
    assert_eq!(paths(&page), vec!["z"]);
}

#[test]
fn gallery_item_reads_size_time_and_preview() {
    let bytes = png_header(2, 3);
    let item = gallery_item(
        "/p/s.png".to_string(),
        "s.png".to_string(),
        1_500_000_000,
        Some(bytes.clone()),
    );
    assert_eq!(item.path, "/p/s.png");
    assert_eq!(item.filename, "s.png");
    assert_eq!(item.timestamp, 1);
    assert_eq!((item.width, item.height), (2, 3));
    assert!(item.preview_base64.starts_with("data:image/png;base64,"));
    let unread = gallery_item("/p/t.jpg".to_string(), "t.jpg".to_string(), -7, None);
    assert_eq!(unread.timestamp, 0);
    assert_eq!((unread.width, unread.height), (960, 600));
    assert_eq!(unread.preview_base64, "");
    let not_png = gallery_item("/p/u.jpg".to_string(), "u.jpg".to_string(), 0, Some(vec![1; 30]));
    assert_eq!((not_png.width, not_png.height), (960, 600));
}

#[test]
fn response_tells_whether_more_follow() {
    let item = || gallery_item("a".to_string(), "a".to_string(), 0, None);
    let r = gallery_response(vec![item(), item()], 5, 2);
    assert_eq!(r.total, 5);
    assert_eq!(r.items.len(), 2);
    assert!(r.has_more);
    let r = gallery_response(vec![item()], 3, 2);
    assert!(!r.has_more);
    let r = gallery_response(vec![], 3, 10);
    assert!(!r.has_more);
}
