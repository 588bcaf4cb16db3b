//! Recognition of links and colour codes in free text (OCR output, clipboard text).
use vstd::prelude::*;
use crate::text::{
    append_chars, chars_contain, chars_contain_char, chars_start_with, chars_to_string,
    chars_utf8_len_capped, contains_seq, is_hex_digit, split_words, starts_with, str_to_chars,
    trim, trim_chars, utf8_len, words, TrimSet, occurs_at,
};

verus! {

pub open spec fn http_prefix() -> Seq<char> {
    seq!['h', 't', 't', 'p', ':', '/', '/']
}

pub open spec fn https_prefix() -> Seq<char> {
    seq!['h', 't', 't', 'p', 's', ':', '/', '/']
}

pub open spec fn www_prefix() -> Seq<char> {
    seq!['w', 'w', 'w', '.']
}

/// The domain endings that mark a bare word as a link.
pub open spec fn link_endings() -> Seq<Seq<char>> {
    seq![
        seq!['.', 'c', 'o', 'm'],
        seq!['.', 'o', 'r', 'g'],
        seq!['.', 'i', 'o'],
        seq!['.', 'd', 'e', 'v'],
        seq!['.', 'n', 'e', 't'],
        seq!['.', 'a', 'p', 'p'],
        seq!['.', 'a', 'r'],
    ]
}

/// The functional colour notations that are recognised.
pub open spec fn color_functions() -> Seq<Seq<char>> {
    seq![
        seq!['r', 'g', 'b', '('],
        seq!['r', 'g', 'b', 'a', '('],
        seq!['h', 's', 'l', '('],
        seq!['h', 's', 'l', 'a', '('],
    ]
}

pub open spec fn has_link_ending(c: Seq<char>) -> bool {
    exists|k: int| 0 <= k < link_endings().len() && contains_seq(c, #[trigger] link_endings()[k])
}

pub open spec fn has_color_function(c: Seq<char>) -> bool {
    exists|k: int| 0 <= k < color_functions().len() && starts_with(c, #[trigger] color_functions()[k])
}

/// The link that one word stands for, if any: the word stripped of surrounding quotes,
/// brackets and punctuation, with `https://` put in front unless it already names its scheme.
pub open spec fn link_of_word(w: Seq<char>) -> Option<Seq<char>> {
    let c = trim(w, TrimSet::LinkPunct);
    if starts_with(c, http_prefix()) || starts_with(c, https_prefix()) {
        Some(c)
    } else if starts_with(c, www_prefix()) {
        Some(https_prefix() + c)
    } else if has_link_ending(c) && c.contains('.') && !c.contains('@') && utf8_len(c) >= 4 {
        Some(https_prefix() + c)
    } else {
        None
    }
}

/// A hexadecimal colour code body: 3, 4, 6 or 8 hexadecimal digits.
pub open spec fn is_hex_color_body(h: Seq<char>) -> bool {
    (utf8_len(h) == 3 || utf8_len(h) == 4 || utf8_len(h) == 6 || utf8_len(h) == 8)
        && forall|k: int| 0 <= k < h.len() ==> is_hex_digit(#[trigger] h[k])
}

/// The colour code that one word stands for, if any: the word stripped of surrounding
/// quotes, brackets and punctuation, when it is `#` and a hexadecimal body; otherwise the
/// word stripped of the same but its closing parenthesis, when it is a `rgb(`/`rgba(`/
/// `hsl(`/`hsla(` notation closed by `)`.
pub open spec fn color_of_word(w: Seq<char>) -> Option<Seq<char>> {
    let c = trim(w, TrimSet::ColorPunct);
    if c.len() > 0 && c[0] == '#' {
        color_code(c)
    } else {
        notation_code(trim(w, TrimSet::NotationPunct))
    }
}

/// `f` itself when it is a `rgb(`/`rgba(`/`hsl(`/`hsla(` notation closed by `)`.
pub open spec fn notation_code(f: Seq<char>) -> Option<Seq<char>> {
    if has_color_function(f) && f.len() > 0 && f.last() == ')' {
        Some(f)
    } else {
        None
    }
}

/// `c` itself when it is a colour code: `#` and a hexadecimal body, or a `rgb(`/`rgba(`/
/// `hsl(`/`hsla(` notation closed by `)`.
pub open spec fn color_code(c: Seq<char>) -> Option<Seq<char>> {
    if c.len() > 0 && c[0] == '#' {
        if is_hex_color_body(c.skip(1)) {
            Some(c)
        } else {
            None
        }
    } else if has_color_function(c) && c.len() > 0 && c.last() == ')' {
        Some(c)
    } else {
        None
    }
}

/// The first word of `ws` that stands for a link, as that link.
pub open spec fn first_link(ws: Seq<Seq<char>>) -> Option<Seq<char>>
    decreases ws.len(),
{
    if ws.len() == 0 {
        None
    } else {
        match link_of_word(ws[0]) {
            Some(l) => Some(l),
            None => first_link(ws.drop_first()),
        }
    }
}

/// The first word of `ws` that stands for a colour code, as that code.
pub open spec fn first_color(ws: Seq<Seq<char>>) -> Option<Seq<char>>
    decreases ws.len(),
{
    if ws.len() == 0 {
        None
    } else {
        match color_of_word(ws[0]) {
            Some(c) => Some(c),
            None => first_color(ws.drop_first()),
        }
    }
}

pub open spec fn opt_view(o: Option<String>) -> Option<Seq<char>> {
    match o {
        Some(s) => Some(s@),
        None => None,
    }
}

fn http_chars() -> (v: Vec<char>)
    ensures
        v@ == http_prefix(),
{
    vec!['h', 't', 't', 'p', ':', '/', '/']
}

pub fn https_chars() -> (v: Vec<char>)
    ensures
        v@ == https_prefix(),
{
    vec!['h', 't', 't', 'p', 's', ':', '/', '/']
}

fn www_chars() -> (v: Vec<char>)
    ensures
        v@ == www_prefix(),
{
    vec!['w', 'w', 'w', '.']
}

fn link_ending_chars(k: usize) -> (v: Vec<char>)
    requires
        k < 7,
    ensures
        v@ == link_endings()[k as int],
{
    if k == 0 {
        vec!['.', 'c', 'o', 'm']
    } else if k == 1 {
        vec!['.', 'o', 'r', 'g']
    } else if k == 2 {
        vec!['.', 'i', 'o']
    } else if k == 3 {
        vec!['.', 'd', 'e', 'v']
    } else if k == 4 {
        vec!['.', 'n', 'e', 't']
    } else if k == 5 {
        vec!['.', 'a', 'p', 'p']
    } else {
        vec!['.', 'a', 'r']
    }
}

fn color_function_chars(k: usize) -> (v: Vec<char>)
    requires
        k < 4,
    ensures
        v@ == color_functions()[k as int],
{
    if k == 0 {
        vec!['r', 'g', 'b', '(']
    } else if k == 1 {
        vec!['r', 'g', 'b', 'a', '(']
    } else if k == 2 {
        vec!['h', 's', 'l', '(']
    } else {
        vec!['h', 's', 'l', 'a', '(']
    }
}

fn has_link_ending_exec(c: &Vec<char>) -> (b: bool)
    ensures
        b == has_link_ending(c@),
{
    let mut k: usize = 0;
    while k < 7
        invariant
            k <= 7,
            forall|j: int| 0 <= j < k ==> !contains_seq(c@, #[trigger] link_endings()[j]),
        decreases 7 - k,
    {
        let p = link_ending_chars(k);
        if chars_contain(c, &p) {
            return true;
        }
        k = k + 1;
    }
    false
}

fn has_color_function_exec(c: &Vec<char>) -> (b: bool)
    ensures
        b == has_color_function(c@),
{
    let mut k: usize = 0;
    while k < 4
        invariant
            k <= 4,
            forall|j: int| 0 <= j < k ==> !starts_with(c@, #[trigger] color_functions()[j]),
        decreases 4 - k,
    {
        let p = color_function_chars(k);
        if chars_start_with(c, &p) {
            return true;
        }
        k = k + 1;
    }
    false
}

/// The link that one word stands for, if any.
pub fn link_in_word(w: &Vec<char>) -> (r: Option<Vec<char>>)
    ensures
        match r {
            Some(v) => link_of_word(w@) == Some(v@),
            None => link_of_word(w@) is None,
        },
{
    let c = trim_chars(w, TrimSet::LinkPunct);
    if chars_start_with(&c, &http_chars()) || chars_start_with(&c, &https_chars()) {
        return Some(c);
    }
    if chars_start_with(&c, &www_chars()) {
        let mut out = https_chars();
        append_chars(&mut out, &c);
        return Some(out);
    }
    if has_link_ending_exec(&c) && chars_contain_char(&c, '.') && !chars_contain_char(&c, '@')
        && chars_utf8_len_capped(&c, 4) >= 4 {
        let mut out = https_chars();
        append_chars(&mut out, &c);
        return Some(out);
    }
    None
}

fn all_hex(h: &Vec<char>, from: usize) -> (b: bool)
    requires
        from <= h.len(),
    ensures
        b == forall|k: int| from <= k < h.len() ==> is_hex_digit(#[trigger] h@[k]),
{
    let mut i = from;
    while i < h.len()
        invariant
            from <= i <= h.len(),
            forall|k: int| from <= k < i ==> is_hex_digit(#[trigger] h@[k]),
        decreases h.len() - i,
    {
        let c = h[i];
        if !(('0' <= c && c <= '9') || ('a' <= c && c <= 'f') || ('A' <= c && c <= 'F')) {
            return false;
        }
        i = i + 1;
    }
    true
}

/// The colour code that one word stands for, if any.
pub fn color_in_word(w: &Vec<char>) -> (r: Option<Vec<char>>)
    ensures
        match r {
            Some(v) => color_of_word(w@) == Some(v@),
            None => color_of_word(w@) is None,
        },
{
    let c = trim_chars(w, TrimSet::ColorPunct);
    if c.len() > 0 && c[0] == '#' {
        color_code_of(c)
    } else {
        let f = trim_chars(w, TrimSet::NotationPunct);
        if has_color_function_exec(&f) && f.len() > 0 && f[f.len() - 1] == ')' {
            Some(f)
        } else {
            None
        }
    }
}

fn color_code_of(c: Vec<char>) -> (r: Option<Vec<char>>)
    ensures
        match r {
            Some(v) => color_code(c@) == Some(v@),
            None => color_code(c@) is None,
        },
{
    if c.len() > 0 && c[0] == '#' {
        let mut body: Vec<char> = Vec::new();
        let mut i: usize = 1;
        while i < c.len()
            invariant
                1 <= i <= c.len(),
                body@ == c@.subrange(1, i as int),
            decreases c.len() - i,
        {
            body.push(c[i]);
            i = i + 1;
        }
        assert(body@ == c@.skip(1));
        let n = chars_utf8_len_capped(&body, 9);
        if (n == 3 || n == 4 || n == 6 || n == 8) && all_hex(&body, 0) {
            return Some(c);
        }
        return None;
    }
    if has_color_function_exec(&c) && c.len() > 0 && c[c.len() - 1] == ')' {
        return Some(c);
    }
    None
}

/// The first link found among the words of `text`: a word that, stripped of surrounding
/// quotes, brackets and punctuation, starts with `http://`, `https://` or `www.`, or
/// contains one of the domain endings `.com`, `.org`, `.io`, `.dev`, `.net`, `.app`, `.ar`
/// and no `@` and is at least 4 bytes long. Links without a scheme get `https://` in front.
pub fn detect_url(text: &str) -> (r: Option<String>)
    ensures
        opt_view(r) == first_link(words(text@)),
{
    let chars = str_to_chars(text);
    let ws = split_words(&chars);
    let ghost all = words(text@);
    let mut i: usize = 0;
    assert(all.skip(0) == all);
    while i < ws.len()
        invariant
            i <= ws@.len() == all.len(),
            all == words(text@),
            forall|k: int| 0 <= k < ws@.len() ==> (#[trigger] ws@[k])@ == all[k],
            first_link(all) == first_link(all.skip(i as int)),
        decreases ws.len() - i,
    {
        assert(all.skip(i as int).drop_first() == all.skip(i + 1));
        assert(all.skip(i as int)[0] == all[i as int]);
        match link_in_word(&ws[i]) {
            Some(l) => {
                assert(first_link(all.skip(i as int)) == Some(l@));
                let out = chars_to_string(&l);
                assert(opt_view(Some(out)) == Some(l@));
                return Some(out);
            },
            None => {},
        }
        i = i + 1;
    }
    None
}

/// The first colour code found among the words of `text`: a word that, stripped of
/// surrounding quotes, brackets and punctuation, is `#` followed by 3, 4, 6 or 8
/// hexadecimal digits; or that, stripped of the same but its closing parenthesis, starts
/// with `rgb(`, `rgba(`, `hsl(` or `hsla(` and ends with `)`.
pub fn detect_color(text: &str) -> (r: Option<String>)
    ensures
        opt_view(r) == first_color(words(text@)),
{
    let chars = str_to_chars(text);
    let ws = split_words(&chars);
    let ghost all = words(text@);
    let mut i: usize = 0;
    assert(all.skip(0) == all);
    while i < ws.len()
        invariant
            i <= ws@.len() == all.len(),
            all == words(text@),
            forall|k: int| 0 <= k < ws@.len() ==> (#[trigger] ws@[k])@ == all[k],
            first_color(all) == first_color(all.skip(i as int)),
        decreases ws.len() - i,
    {
        assert(all.skip(i as int).drop_first() == all.skip(i + 1));
        assert(all.skip(i as int)[0] == all[i as int]);
        match color_in_word(&ws[i]) {
            Some(c) => {
                assert(first_color(all.skip(i as int)) == Some(c@));
                let out = chars_to_string(&c);
                assert(opt_view(Some(out)) == Some(c@));
                return Some(out);
            },
            None => {},
        }
        i = i + 1;
    }
    None
}

// ----- whole-text recognition, for a block the user clicked -----

/// The domains whose bare addresses are taken as links.
pub open spec fn known_sites() -> Seq<Seq<char>> {
    seq!["github.com"@, "gitlab.com"@, "twitter.com"@, "x.com"@]
}

pub open spec fn starts_with_known_site(t: Seq<char>) -> bool {
    exists|k: int| 0 <= k < known_sites().len() && starts_with(t, #[trigger] known_sites()[k])
}

/// The link a whole text stands for, if any: the trimmed text when it starts with `http://`
/// or `https://`; with `https://` in front when it starts with `www.`, or with one of the
/// known sites and has no space.
pub open spec fn text_link(text: Seq<char>) -> Option<Seq<char>> {
    let t = trim(text, TrimSet::Space);
    if starts_with(t, http_prefix()) || starts_with(t, https_prefix()) {
        Some(t)
    } else if starts_with(t, www_prefix()) {
        Some(https_prefix() + t)
    } else if starts_with_known_site(t) && !t.contains(' ') {
        Some(https_prefix() + t)
    } else {
        None
    }
}

/// The colour code a whole text stands for, if any: the trimmed text, when it is one.
pub open spec fn text_color(text: Seq<char>) -> Option<Seq<char>> {
    color_code(trim(text, TrimSet::Space))
}

fn known_site_chars(k: usize) -> (v: Vec<char>)
    requires
        k < 4,
    ensures
        v@ == known_sites()[k as int],
{
    let s = if k == 0 {
        "github.com"
    } else if k == 1 {
        "gitlab.com"
    } else if k == 2 {
        "twitter.com"
    } else {
        "x.com"
    };
    str_to_chars(s)
}

fn starts_with_known_site_exec(t: &Vec<char>) -> (b: bool)
    ensures
        b == starts_with_known_site(t@),
{
    let mut k: usize = 0;
    while k < 4
        invariant
            k <= 4,
            forall|j: int| 0 <= j < k ==> !starts_with(t@, #[trigger] known_sites()[j]),
        decreases 4 - k,
    {
        let p = known_site_chars(k);
        if chars_start_with(t, &p) {
            return true;
        }
        k = k + 1;
    }
    false
}

/// The link that a whole recognised block stands for (the editor's click on a block).
pub fn block_link(text: &str) -> (r: Option<String>)
    ensures
        opt_view(r) == text_link(text@),
{
    let t = trim_chars(&str_to_chars(text), TrimSet::Space);
    if chars_start_with(&t, &http_chars()) || chars_start_with(&t, &https_chars()) {
        return Some(chars_to_string(&t));
    }
    if chars_start_with(&t, &www_chars()) || (starts_with_known_site_exec(&t)
        && !chars_contain_char(&t, ' ')) {
        let mut out = https_chars();
        append_chars(&mut out, &t);
        return Some(chars_to_string(&out));
    }
    None
}

/// The colour code that a whole recognised block stands for.
pub fn block_color(text: &str) -> (r: Option<String>)
    ensures
        opt_view(r) == text_color(text@),
{
    match color_code_of(trim_chars(&str_to_chars(text), TrimSet::Space)) {
        Some(c) => Some(chars_to_string(&c)),
        None => None,
    }
}

// ----- what every recognised link and colour looks like -----

/// A link names its scheme.
pub open spec fn has_scheme(l: Seq<char>) -> bool {
    starts_with(l, http_prefix()) || starts_with(l, https_prefix())
}

/// A colour code is `#` and hexadecimal digits, or a notation closed by `)`.
pub open spec fn color_shaped(c: Seq<char>) -> bool {
    c.len() > 0 && (c[0] == '#' || c.last() == ')')
}

proof fn lemma_https_prefixed(c: Seq<char>)
    ensures
        has_scheme(https_prefix() + c),
{
    assert((https_prefix() + c).take(8) =~= https_prefix());
}

/// Every link found in a word, and so every link `detect_url` reports, starts with
/// `http://` or `https://`.
pub proof fn law_word_links_have_scheme(ws: Seq<Seq<char>>)
    ensures
        first_link(ws) matches Some(l) ==> has_scheme(l),
    decreases ws.len(),
{
    if ws.len() > 0 {
        let c = trim(ws[0], TrimSet::LinkPunct);
        lemma_https_prefixed(c);
        law_word_links_have_scheme(ws.drop_first());
    }
}

/// Every link found in a whole block starts with `http://` or `https://`.
pub proof fn law_block_link_has_scheme(text: Seq<char>)
    ensures
        text_link(text) matches Some(l) ==> has_scheme(l),
{
    lemma_https_prefixed(trim(text, TrimSet::Space));
}

/// Every colour code found, in a word or in a whole block, starts with `#` or ends with `)`.
pub proof fn law_colors_are_shaped(ws: Seq<Seq<char>>, text: Seq<char>)
    ensures
        first_color(ws) matches Some(c) ==> color_shaped(c),
        text_color(text) matches Some(c) ==> color_shaped(c),
    decreases ws.len(),
{
    if ws.len() > 0 {
        law_colors_are_shaped(ws.drop_first(), text);
    }
}


/// The literal domain endings of a bare link.
pub open spec fn bare_link_ending(c: Seq<char>) -> bool {
    ||| contains_seq(c, seq!['.', 'c', 'o', 'm'])
    ||| contains_seq(c, seq!['.', 'o', 'r', 'g'])
    ||| contains_seq(c, seq!['.', 'i', 'o'])
    ||| contains_seq(c, seq!['.', 'd', 'e', 'v'])
    ||| contains_seq(c, seq!['.', 'n', 'e', 't'])
    ||| contains_seq(c, seq!['.', 'a', 'p', 'p'])
    ||| contains_seq(c, seq!['.', 'a', 'r'])
}

proof fn lemma_dot_in_ending(c: Seq<char>, e: Seq<char>)
    requires
        contains_seq(c, e),
        e.len() > 0,
        e[0] == '.',
    ensures
        c.contains('.'),
{
    let i = choose|i: int| occurs_at(c, e, i);
    assert(c.subrange(i, i + e.len())[0] == c[i]);
    assert(c[i] == '.');
}

/// A word that, stripped of surrounding quotes, brackets and punctuation, has no `@`, is at
/// least 4 bytes long, holds one of the domain endings `.com`, `.org`, `.io`, `.dev`, `.net`,
/// `.app`, `.ar` and does not start with `http://`, `https://` or `www.`, stands for the link
/// `https://` followed by the stripped word, and a text whose words start with it gives that
/// link.
pub proof fn law_bare_domains_become_links(w: Seq<char>, rest: Seq<Seq<char>>)
    requires
        ({
            let c = trim(w, TrimSet::LinkPunct);
            &&& bare_link_ending(c)
            &&& forall|k: int| 0 <= k < c.len() ==> c[k] != '@'
            &&& utf8_len(c) >= 4
            &&& !starts_with(c, seq!['h', 't', 't', 'p', ':', '/', '/'])
            &&& !starts_with(c, seq!['h', 't', 't', 'p', 's', ':', '/', '/'])
            &&& !starts_with(c, seq!['w', 'w', 'w', '.'])
        }),
    ensures
        link_of_word(w) == Some(seq!['h', 't', 't', 'p', 's', ':', '/', '/'] + trim(w, TrimSet::LinkPunct)),
        first_link(seq![w] + rest) == Some(seq!['h', 't', 't', 'p', 's', ':', '/', '/'] + trim(w, TrimSet::LinkPunct)),
{
    let c = trim(w, TrimSet::LinkPunct);
    let es = link_endings();
    if contains_seq(c, seq!['.', 'c', 'o', 'm']) {
        assert(es[0] == seq!['.', 'c', 'o', 'm']);
        lemma_dot_in_ending(c, es[0]);
    } else if contains_seq(c, seq!['.', 'o', 'r', 'g']) {
        assert(es[1] == seq!['.', 'o', 'r', 'g']);
        lemma_dot_in_ending(c, es[1]);
    } else if contains_seq(c, seq!['.', 'i', 'o']) {
        assert(es[2] == seq!['.', 'i', 'o']);
        lemma_dot_in_ending(c, es[2]);
    } else if contains_seq(c, seq!['.', 'd', 'e', 'v']) {
        assert(es[3] == seq!['.', 'd', 'e', 'v']);
        lemma_dot_in_ending(c, es[3]);
    } else if contains_seq(c, seq!['.', 'n', 'e', 't']) {
        assert(es[4] == seq!['.', 'n', 'e', 't']);
        lemma_dot_in_ending(c, es[4]);
    } else if contains_seq(c, seq!['.', 'a', 'p', 'p']) {
        assert(es[5] == seq!['.', 'a', 'p', 'p']);
        lemma_dot_in_ending(c, es[5]);
    } else {
        assert(es[6] == seq!['.', 'a', 'r']);
        lemma_dot_in_ending(c, es[6]);
    }
    assert(has_link_ending(c));
    assert(!c.contains('@'));
    assert((seq![w] + rest)[0] == w);
}

} // verus!
