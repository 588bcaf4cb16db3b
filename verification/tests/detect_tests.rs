use nil_core::detect::{block_color, block_link, detect_color, detect_url};

#[test]
fn url_with_scheme_is_taken_as_is() {
    assert_eq!(
        detect_url("visit https://example.com/x now"),
        Some("https://example.com/x".to_string())
    );
    assert_eq!(detect_url("http://a.b"), Some("http://a.b".to_string()));
}

#[test]
fn url_is_stripped_of_surrounding_punctuation() {
    assert_eq!(
        detect_url("(www.rust-lang.org)"),
        Some("https://www.rust-lang.org".to_string())
    );
    assert_eq!(detect_url("see example.dev."), Some("https://example.dev".to_string()));
    assert_eq!(detect_url("\"<https://x.io/a>\","), Some("https://x.io/a".to_string()));
}

#[test]
fn bare_domain_needs_known_ending_no_at_and_four_bytes() {
    assert_eq!(detect_url("a.io"), Some("https://a.io".to_string()));
    assert_eq!(detect_url("mail me at a@b.com"), None);
    assert_eq!(detect_url(".io"), None);
    assert_eq!(detect_url("readme.txt"), None);
    assert_eq!(detect_url("noticias.ar hoy"), Some("https://noticias.ar".to_string()));
}

#[test]
fn first_link_wins_and_empty_text_has_none() {
    assert_eq!(
        detect_url("one.com two.org"),
        Some("https://one.com".to_string())
    );
    assert_eq!(detect_url(""), None);
    assert_eq!(detect_url("   \n\t "), None);
}

#[test]
fn hex_colors_are_found_in_words() {
    assert_eq!(detect_color("color: #FF00aa;"), Some("#FF00aa".to_string()));
    assert_eq!(detect_color("#abc"), Some("#abc".to_string()));
    assert_eq!(detect_color("'#abcd'"), Some("#abcd".to_string()));
    assert_eq!(detect_color("#11223344"), Some("#11223344".to_string()));
    assert_eq!(detect_color("#12345"), None);
    assert_eq!(detect_color("#abcg"), None);
    assert_eq!(detect_color("#"), None);
}

#[test]
fn functional_colors_are_found_in_words() {
    assert_eq!(detect_color("rgb(255,0,0)"), Some("rgb(255,0,0)".to_string()));
    assert_eq!(detect_color("color: rgb(255,0,0);"), Some("rgb(255,0,0)".to_string()));
    assert_eq!(detect_color("rgba(0,0,0,0.5),"), Some("rgba(0,0,0,0.5)".to_string()));
    assert_eq!(detect_color("'hsl(1,2%,3%)' #fff"), Some("hsl(1,2%,3%)".to_string()));
    assert_eq!(detect_color("hsla(1,2%,3%,1)"), Some("hsla(1,2%,3%,1)".to_string()));
    assert_eq!(detect_color("rgb(1,2,3"), None);
    assert_eq!(detect_color("(#abc)"), Some("#abc".to_string()));
    assert_eq!(detect_color("#zzz rgb(1,2,3)"), Some("rgb(1,2,3)".to_string()));
}

#[test]
fn block_link_takes_the_whole_text() {
    assert_eq!(block_link("  http://a  "), Some("http://a".to_string()));
    assert_eq!(block_link("www.x"), Some("https://www.x".to_string()));
    assert_eq!(
        block_link("github.com/user/repo"),
        Some("https://github.com/user/repo".to_string())
    );
    assert_eq!(block_link("x.com/a"), Some("https://x.com/a".to_string()));
    assert_eq!(block_link("github.com has spaces"), None);
    assert_eq!(block_link("example.com"), None);
    assert_eq!(block_link("see https://a.b"), None);
}

#[test]
fn block_color_takes_the_whole_text() {
    assert_eq!(block_color("  rgb(1, 2, 3)  "), Some("rgb(1, 2, 3)".to_string()));
    assert_eq!(block_color("hsla(0,0%,0%,1)"), Some("hsla(0,0%,0%,1)".to_string()));
    assert_eq!(block_color("#a1b2c3\n"), Some("#a1b2c3".to_string()));
    assert_eq!(block_color("rgb(1,2,3"), None);
    assert_eq!(block_color("the #fff"), None);
}

#[test]
fn detected_links_name_a_scheme() {
    for text in ["www.a.b", "a.com", "https://q", "github.com/x", "(example.org)"] {
        if let Some(l) = detect_url(text) {
            assert!(l.starts_with("http://") || l.starts_with("https://"));
        }
        if let Some(l) = block_link(text) {
            assert!(l.starts_with("http://") || l.starts_with("https://"));
        }
    }
}
