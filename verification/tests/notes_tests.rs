use nil_core::note_text::{
    format_time, note_display_title, notes_from_args, stored_bool, stored_usize,
    strip_html_tags, title_from_content, word_count,
};
use nil_core::notes::{
    archive_note, create_note, delete_permanently, empty_trash, list_archived_notes, list_notes,
    restore_note, update_note, Note,
};

fn note(id: &str, archived: Option<u64>) -> Note {
    Note {
        id: id.to_string(),
        title: format!("t{}", id),
        content: format!("c{}", id),
        updated_at: 1,
        archived_at: archived,
    }
}

fn ids(v: &[Note]) -> Vec<String> {
    v.iter().map(|n| n.id.clone()).collect()
}

fn store() -> Vec<Note> {
    vec![note("a", None), note("b", Some(5)), note("c", None), note("d", Some(6))]
}

#[test]
fn notes_list_and_trash_split_the_store() {
    assert_eq!(ids(&list_notes(store())), vec!["a", "c"]);
    assert_eq!(ids(&list_archived_notes(store())), vec!["b", "d"]);
    assert!(list_notes(vec![]).is_empty());
}

#[test]
fn update_changes_only_the_first_note_with_the_id() {
    let mut s = store();
    s.push(note("a", None));
    update_note(&mut s, "a", "T".to_string(), "C".to_string(), 99);
    assert_eq!(s[0].title, "T");
    assert_eq!(s[0].content, "C");
    assert_eq!(s[0].updated_at, 99);
    assert_eq!(s[0].archived_at, None);
    assert_eq!(s[4].title, "ta");
    let before: Vec<String> = s.iter().map(|n| n.title.clone()).collect();
    update_note(&mut s, "zz", "X".to_string(), "Y".to_string(), 100);
    let after: Vec<String> = s.iter().map(|n| n.title.clone()).collect();
    assert_eq!(before, after);
}

#[test]
fn archive_and_restore_move_a_note_between_the_lists() {
    let mut s = store();
    archive_note(&mut s, "a", 50);
    assert_eq!(s[0].archived_at, Some(50));
    assert_eq!(s[0].updated_at, 1);
    assert_eq!(ids(&list_notes(s.iter().map(|n| n.duplicate()).collect())), vec!["c"]);
    assert_eq!(ids(&list_archived_notes(s.iter().map(|n| n.duplicate()).collect())), vec!["a", "b", "d"]);
    restore_note(&mut s, "a", 60);
    assert_eq!(s[0].archived_at, None);
    assert_eq!(s[0].updated_at, 60);
    assert_eq!(s[0].title, "ta");
    assert_eq!(ids(&list_notes(s)), vec!["a", "c"]);
}

#[test]
fn delete_removes_every_note_with_the_id() {
    let mut s = store();
    s.push(note("b", None));
    assert_eq!(ids(&delete_permanently(s, "b")), vec!["a", "c", "d"]);
    assert_eq!(ids(&delete_permanently(store(), "none")), vec!["a", "b", "c", "d"]);
}

#[test]
fn empty_trash_keeps_the_notes_list() {
    let s = empty_trash(store());
    assert_eq!(ids(&s), vec!["a", "c"]);
    assert!(list_archived_notes(s).is_empty());
}

#[test]
fn created_notes_are_empty_fresh_and_appended() {
    let mut s = store();
    let n = create_note(&mut s, 77);
    assert_eq!(n.title, "");
    assert_eq!(n.content, "");
    assert_eq!(n.updated_at, 77);
    assert_eq!(n.archived_at, None);
    assert_eq!(s.len(), 5);
    assert_eq!(s[4].id, n.id);
    assert_eq!(n.id.len(), 36);
    let c: Vec<char> = n.id.chars().collect();
    for (k, ch) in c.iter().enumerate() {
        if [8, 13, 18, 23].contains(&k) {
            assert_eq!(*ch, '-');
        } else {
            assert!(ch.is_ascii_hexdigit() && !ch.is_ascii_uppercase());
        }
    }
    assert_eq!(c[14], '4');
    assert!(['8', '9', 'a', 'b'].contains(&c[19]));
    let m = create_note(&mut s, 78);
    assert_ne!(n.id, m.id);
}

#[test]
fn html_is_read_as_plain_text() {
    assert_eq!(strip_html_tags("<p>Hola&nbsp;mundo</p><br>x"), "Hola mundo\n\nx");
    assert_eq!(strip_html_tags("a &lt;b&gt; &amp; &quot;c&quot;"), "a <b> & \"c\"");
    assert_eq!(strip_html_tags("<h1>T</h1><ul><li>1</li><li>2</li></ul>"), "T\n1\n2\n");
    assert_eq!(strip_html_tags("1<br/>2<br />3</div>"), "1\n2\n3\n");
    assert_eq!(strip_html_tags("no tags"), "no tags");
    assert_eq!(strip_html_tags("a > b"), "a  b");
}

#[test]
fn display_title_prefers_the_first_text_line() {
    let mut n = note("a", None);
    n.content = "<div>  </div><div>First line</div>".to_string();
    assert_eq!(note_display_title(&n), "First line");
    n.content = "<div> </div>".to_string();
    assert_eq!(note_display_title(&n), "ta");
    n.title = String::new();
    assert_eq!(note_display_title(&n), "Nueva nota");
    assert_eq!(title_from_content("  \n  second  \n"), "second");
    assert_eq!(title_from_content(""), "Nueva nota");
}

#[test]
fn words_are_counted_in_the_plain_text() {
    assert_eq!(word_count("<b>one</b> two\nthree"), 3);
    assert_eq!(word_count("a<br>b"), 2);
    assert_eq!(word_count(""), 0);
    assert_eq!(word_count("   "), 0);
}

#[test]
fn elapsed_time_is_rounded_down_to_its_unit() {
    assert_eq!(format_time(1000, 990), "Ahora");
    assert_eq!(format_time(1000, 2000), "Ahora");
    assert_eq!(format_time(1000, 100), "Hace 15 min");
    assert_eq!(format_time(10_000, 2_800), "Hace 2 h");
    assert_eq!(format_time(86_400 * 3, 86_400), "Hace 2 d");
    assert_eq!(format_time(86_400 * 15, 0), "Hace 2 sem");
    assert_eq!(format_time(86_400 * 7, 0), "Hace 1 sem");
}

#[test]
fn command_line_notes() {
    let args: Vec<String> = ["nil-notes", "--new-note", "hello", "--attach-image", "/x.png", "--new-note", "a\nb", "junk", "--new-note"]
        .iter()
        .map(|s| s.to_string())
        .collect();
    let r = notes_from_args(&args);
    assert_eq!(
        r,
        vec![
            ("Nota R\u{e1}pida".to_string(), "hello".to_string()),
            ("Captura".to_string(), "![Captura](file:///x.png)".to_string()),
            ("Nota".to_string(), "a\nb".to_string()),
        ]
    );
    assert!(notes_from_args(&vec!["nil-notes".to_string()]).is_empty());
}

#[test]
fn stored_preferences() {
    assert!(stored_bool(Some("true".to_string()), false));
    assert!(!stored_bool(Some("false".to_string()), true));
    assert!(stored_bool(Some("yes".to_string()), true));
    assert!(!stored_bool(None, false));
    assert_eq!(stored_usize(Some("+12".to_string()), 3), 12);
    assert_eq!(stored_usize(Some("-1".to_string()), 3), 3);
    assert_eq!(stored_usize(Some("".to_string()), 3), 3);
    assert_eq!(stored_usize(None, 3), 3);
}
