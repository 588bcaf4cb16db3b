//! The clipboard history window: the entries, how they are filtered and searched, what the
//! keys do, and how an entry is described (age, link parts, colour values, code language).
use vstd::prelude::*;
use crate::text::{
    append_chars, chars_contain, chars_equal_str, chars_to_string, contains_seq, decimal,
    is_hex_digit, lowercase, parse_unsigned, parse_unsigned_chars, push_decimal, split_first,
    starts_with, chars_start_with, str_is, str_to_chars, to_lowercase, trim, trim_chars,
    utf8_len, before_first, after_first, TrimSet,
};

verus! {

/// What an entry of the clipboard history holds.
#[derive(Clone, Copy, PartialEq, Eq, Structural, Debug)]
pub enum ClipboardKind {
    Text,
    Image,
    Url,
    Color,
    Code,
}

/// An entry of the clipboard history.
pub struct ClipboardItem {
    pub id: String,
    pub kind: ClipboardKind,
    /// The text, or the path of the image file.
    pub content: String,
    pub preview: String,
    pub timestamp: u64,
    pub pinned: bool,
    pub char_count: usize,
    pub metadata: Option<String>,
}

/// Which entries the window lists.
#[derive(Clone, Copy, PartialEq, Eq, Debug)]
pub enum FilterKind {
    All,
    Text,
    Image,
    Url,
    Color,
    Code,
    Pinned,
}

pub open spec fn filter_label(f: FilterKind) -> Seq<char> {
    match f {
        FilterKind::All => "Todos los tipos"@,
        FilterKind::Text => "Solo texto"@,
        FilterKind::Image => "Solo im\u{e1}genes"@,
        FilterKind::Url => "Solo enlaces"@,
        FilterKind::Color => "Solo colores"@,
        FilterKind::Code => "Solo c\u{f3}digo"@,
        FilterKind::Pinned => "Solo fijados"@,
    }
}

impl FilterKind {
    /// The name of the filter in the menu.
    pub fn label(&self) -> (s: &'static str)
        ensures
            s@ == filter_label(*self),
    {
        match self {
            FilterKind::All => "Todos los tipos",
            FilterKind::Text => "Solo texto",
            FilterKind::Image => "Solo im\u{e1}genes",
            FilterKind::Url => "Solo enlaces",
            FilterKind::Color => "Solo colores",
            FilterKind::Code => "Solo c\u{f3}digo",
            FilterKind::Pinned => "Solo fijados",
        }
    }
}

/// Whether an entry passes the kind filter.
pub open spec fn passes_filter(f: FilterKind, kind: ClipboardKind, pinned: bool) -> bool {
    match f {
        FilterKind::All => true,
        FilterKind::Pinned => pinned,
        FilterKind::Text => kind == ClipboardKind::Text,
        FilterKind::Image => kind == ClipboardKind::Image,
        FilterKind::Url => kind == ClipboardKind::Url,
        FilterKind::Color => kind == ClipboardKind::Color,
        FilterKind::Code => kind == ClipboardKind::Code,
    }
}

/// Whether an entry matches the search: the lowercased query occurs in the lowercased content
/// or metadata; every entry matches an empty query.
pub open spec fn matches_query(query_lower: Seq<char>, content: Seq<char>, metadata: Option<Seq<char>>) -> bool {
    query_lower.len() == 0 || contains_seq(lowercase(content), query_lower) || contains_seq(
        lowercase(
            match metadata {
                Some(m) => m,
                None => seq![],
            },
        ),
        query_lower,
    )
}

pub open spec fn listed(item: ClipboardItem, f: FilterKind, query: Seq<char>) -> bool {
    passes_filter(f, item.kind, item.pinned) && matches_query(
        lowercase(query),
        item.content@,
        match item.metadata {
            Some(m) => Some(m@),
            None => None,
        },
    )
}

/// Each kind filter lets through exactly the entries of the kind it names, pinned or not; the
/// filter of all kinds lets every entry through, and the pinned filter the pinned entries.
pub proof fn law_kind_filters_pick_their_kind(kind: ClipboardKind, pinned: bool)
    ensures
        passes_filter(FilterKind::Text, kind, pinned) <==> kind == ClipboardKind::Text,
        passes_filter(FilterKind::Image, kind, pinned) <==> kind == ClipboardKind::Image,
        passes_filter(FilterKind::Url, kind, pinned) <==> kind == ClipboardKind::Url,
        passes_filter(FilterKind::Color, kind, pinned) <==> kind == ClipboardKind::Color,
        passes_filter(FilterKind::Code, kind, pinned) <==> kind == ClipboardKind::Code,
        passes_filter(FilterKind::All, kind, pinned),
        passes_filter(FilterKind::Pinned, kind, pinned) <==> pinned,
{
}

/// Under a kind filter an entry is listed exactly when it is of that kind and matches the
/// search; under the pinned filter exactly when it is pinned and matches the search.
pub proof fn law_listed_under_kind_filter(item: ClipboardItem, query: Seq<char>)
    ensures
        ({
            let m = matches_query(
                lowercase(query),
                item.content@,
                match item.metadata {
                    Some(x) => Some(x@),
                    None => None,
                },
            );
            &&& listed(item, FilterKind::Text, query) <==> (item.kind == ClipboardKind::Text && m)
            &&& listed(item, FilterKind::Image, query) <==> (item.kind == ClipboardKind::Image && m)
            &&& listed(item, FilterKind::Url, query) <==> (item.kind == ClipboardKind::Url && m)
            &&& listed(item, FilterKind::Color, query) <==> (item.kind == ClipboardKind::Color && m)
            &&& listed(item, FilterKind::Code, query) <==> (item.kind == ClipboardKind::Code && m)
            &&& listed(item, FilterKind::Pinned, query) <==> (item.pinned && m)
            &&& listed(item, FilterKind::All, query) <==> m
        }),
{
}

/// Whether the window lists `item` under the filter `f` and the search text `query`.
pub fn item_listed(item: &ClipboardItem, f: FilterKind, query: &str) -> (b: bool)
    ensures
        b == listed(*item, f, query@),
{
    let kind_ok = match f {
        FilterKind::All => true,
        FilterKind::Pinned => item.pinned,
        FilterKind::Text => item.kind == ClipboardKind::Text,
        FilterKind::Image => item.kind == ClipboardKind::Image,
        FilterKind::Url => item.kind == ClipboardKind::Url,
        FilterKind::Color => item.kind == ClipboardKind::Color,
        FilterKind::Code => item.kind == ClipboardKind::Code,
    };
    if !kind_ok {
        return false;
    }
    let q = to_lowercase(query);
    let qc = str_to_chars(q.as_str());
    if qc.len() == 0 {
        return true;
    }
    let content = str_to_chars(to_lowercase(item.content.as_str()).as_str());
    if chars_contain(&content, &qc) {
        return true;
    }
    let meta = match &item.metadata {
        Some(m) => to_lowercase(m.as_str()),
        None => to_lowercase(""),
    };
    proof {
        reveal_strlit("");
        assert(""@ =~= Seq::<char>::empty());
    }
    let mc = str_to_chars(meta.as_str());
    let found = chars_contain(&mc, &qc);
    assert(found == listed(*item, f, query@));
    found
}

/// The positions, in order, of the entries the window lists.
pub open spec fn listed_positions(items: Seq<ClipboardItem>, f: FilterKind, query: Seq<char>) -> Seq<int>
    decreases items.len(),
{
    if items.len() == 0 {
        seq![]
    } else {
        let p = listed_positions(items.drop_last(), f, query);
        if listed(items.last(), f, query) {
            p.push(items.len() - 1)
        } else {
            p
        }
    }
}

/// The positions in `items` of the entries listed under `f` and `query`, in order.
pub fn filtered_positions(items: &Vec<ClipboardItem>, f: FilterKind, query: &str) -> (r: Vec<usize>)
    ensures
        r@.map_values(|i: usize| i as int) == listed_positions(items@, f, query@),
{
    let mut r: Vec<usize> = Vec::new();
    let mut i: usize = 0;
    while i < items.len()
        invariant
            i <= items.len(),
            r@.map_values(|i: usize| i as int) == listed_positions(items@.take(i as int), f, query@),
        decreases items.len() - i,
    {
        let ghost before = r@;
        assert(items@.take(i + 1).drop_last() == items@.take(i as int));
        assert(items@.take(i + 1).last() == items@[i as int]);
        if item_listed(&items[i], f, query) {
            r.push(i);
            assert(r@.map_values(|i: usize| i as int) =~= before.map_values(|i: usize| i as int).push(
                i as int,
            ));
        }
        i = i + 1;
    }
    assert(items@.take(items.len() as int) == items@);
    r
}

// ----- keys -----

/// What a key press in the clipboard window does.
#[derive(Clone, Copy, PartialEq, Eq, Debug)]
pub enum ClipAction {
    Nothing,
    CloseFilterMenu,
    CloseWindow,
    ToggleFilterMenu,
    /// Select the listed entry at this position.
    Select(usize),
    /// Paste the listed entry at this position.
    Paste(usize),
    /// Delete the listed entry at this position.
    Delete(usize),
    /// Pin or unpin the listed entry at this position.
    TogglePin(usize),
}

/// The answer to a key press: what to do, and whether the browser's default is prevented.
#[derive(Clone, Copy, PartialEq, Eq, Debug)]
pub struct KeyResponse {
    pub prevent_default: bool,
    pub action: ClipAction,
}

pub open spec fn response(prevent: bool, action: ClipAction) -> KeyResponse {
    KeyResponse { prevent_default: prevent, action }
}

/// What the key `key` (with the Ctrl and Alt states) does when `total` entries are listed,
/// the one at `selected` is selected, and the filter menu is open or not.
pub open spec fn key_response(
    key: Seq<char>,
    ctrl: bool,
    alt: bool,
    menu_open: bool,
    selected: usize,
    total: usize,
) -> KeyResponse {
    let at_selected = selected < total;
    if menu_open {
        if key == "Escape"@ || key == "Tab"@ {
            response(true, ClipAction::CloseFilterMenu)
        } else {
            response(false, ClipAction::Nothing)
        }
    } else if key == "Escape"@ {
        response(true, ClipAction::CloseWindow)
    } else if key == "ArrowDown"@ {
        if total > 0 {
            response(
                true,
                ClipAction::Select(
                    if selected + 1 < total {
                        (selected + 1) as usize
                    } else {
                        (total - 1) as usize
                    },
                ),
            )
        } else {
            response(true, ClipAction::Nothing)
        }
    } else if key == "ArrowUp"@ {
        if total > 0 && selected > 0 {
            response(true, ClipAction::Select((selected - 1) as usize))
        } else {
            response(true, ClipAction::Nothing)
        }
    } else if key == "Tab"@ {
        response(true, ClipAction::ToggleFilterMenu)
    } else if key == "Enter"@ {
        response(true, if at_selected { ClipAction::Paste(selected) } else { ClipAction::Nothing })
    } else if key == "Delete"@ || (ctrl && key == "d"@) {
        response(true, if at_selected { ClipAction::Delete(selected) } else { ClipAction::Nothing })
    } else if ctrl && (key == "p"@ || key == "P"@) {
        response(
            true,
            if at_selected { ClipAction::TogglePin(selected) } else { ClipAction::Nothing },
        )
    } else if alt {
        match parse_unsigned(key, usize::MAX as nat) {
            Some(d) => if 1 <= d <= 9 && d <= total {
                response(true, ClipAction::Paste((d - 1) as usize))
            } else {
                response(false, ClipAction::Nothing)
            },
            None => response(false, ClipAction::Nothing),
        }
    } else {
        response(false, ClipAction::Nothing)
    }
}

/// The entry a key acts on is always one of the listed entries, as long as the selection
/// itself is within the list (or just past its end).
pub proof fn law_keys_act_on_listed_entries(
    key: Seq<char>,
    ctrl: bool,
    alt: bool,
    menu_open: bool,
    selected: usize,
    total: usize,
)
    requires
        selected <= total,
    ensures
        ({
            let a = key_response(key, ctrl, alt, menu_open, selected, total).action;
            &&& a matches ClipAction::Select(i) ==> i < total
            &&& a matches ClipAction::Paste(i) ==> i < total
            &&& a matches ClipAction::Delete(i) ==> i < total
            &&& a matches ClipAction::TogglePin(i) ==> i < total
        }),
{
}

/// What a key press in the clipboard window does (the key handler of the window).
pub fn handle_clip_key(
    key: &str,
    ctrl: bool,
    alt: bool,
    menu_open: bool,
    selected: usize,
    total: usize,
) -> (r: KeyResponse)
    ensures
        r == key_response(key@, ctrl, alt, menu_open, selected, total),
{
    let at_selected = selected < total;
    if menu_open {
        if str_is(key, "Escape") || str_is(key, "Tab") {
            KeyResponse { prevent_default: true, action: ClipAction::CloseFilterMenu }
        } else {
            KeyResponse { prevent_default: false, action: ClipAction::Nothing }
        }
    } else if str_is(key, "Escape") {
        KeyResponse { prevent_default: true, action: ClipAction::CloseWindow }
    } else if str_is(key, "ArrowDown") {
        if total > 0 {
            let next = if selected < total - 1 {
                selected + 1
            } else {
                total - 1
            };
            KeyResponse { prevent_default: true, action: ClipAction::Select(next) }
        } else {
            KeyResponse { prevent_default: true, action: ClipAction::Nothing }
        }
    } else if str_is(key, "ArrowUp") {
        if total > 0 && selected > 0 {
            KeyResponse { prevent_default: true, action: ClipAction::Select(selected - 1) }
        } else {
            KeyResponse { prevent_default: true, action: ClipAction::Nothing }
        }
    } else if str_is(key, "Tab") {
        KeyResponse { prevent_default: true, action: ClipAction::ToggleFilterMenu }
    } else if str_is(key, "Enter") {
        KeyResponse {
            prevent_default: true,
            action: if at_selected {
                ClipAction::Paste(selected)
            } else {
                ClipAction::Nothing
            },
        }
    } else if str_is(key, "Delete") || (ctrl && str_is(key, "d")) {
        KeyResponse {
            prevent_default: true,
            action: if at_selected {
                ClipAction::Delete(selected)
            } else {
                ClipAction::Nothing
            },
        }
    } else if ctrl && (str_is(key, "p") || str_is(key, "P")) {
        KeyResponse {
            prevent_default: true,
            action: if at_selected {
                ClipAction::TogglePin(selected)
            } else {
                ClipAction::Nothing
            },
        }
    } else if alt {
        match parse_unsigned_chars(&str_to_chars(key), usize::MAX as u128) {
            Some(d) => {
                if 1 <= d && d <= 9 && d <= total as u128 {
                    KeyResponse {
                        prevent_default: true,
                        action: ClipAction::Paste((d - 1) as usize),
                    }
                } else {
                    KeyResponse { prevent_default: false, action: ClipAction::Nothing }
                }
            },
            None => KeyResponse { prevent_default: false, action: ClipAction::Nothing },
        }
    } else {
        KeyResponse { prevent_default: false, action: ClipAction::Nothing }
    }
}

// ----- describing an entry -----

pub open spec fn age_seconds(now: u64, ts: u64) -> nat {
    if now >= ts {
        (now - ts) as nat
    } else {
        0
    }
}

/// How long ago an entry was copied.
pub open spec fn relative_time_text(now: u64, ts: u64) -> Seq<char> {
    let diff = age_seconds(now, ts);
    if diff < 60 {
        "Reciente"@
    } else if diff < 3600 {
        "Hace "@ + decimal(diff / 60) + " min"@
    } else if diff < 86400 {
        "Hace "@ + decimal(diff / 3600) + " h"@
    } else {
        "Hace "@ + decimal(diff / 86400) + " d"@
    }
}

fn count_text(n: u64, suffix: &str) -> (r: String)
    ensures
        r@ == "Hace "@ + decimal(n as nat) + suffix@,
{
    let mut out = str_to_chars("Hace ");
    push_decimal(&mut out, n as u128);
    append_chars(&mut out, &str_to_chars(suffix));
    chars_to_string(&out)
}

/// How long ago an entry copied at `timestamp` was copied, seen at `now`.
pub fn format_relative_time(now: u64, timestamp: u64) -> (r: String)
    ensures
        r@ == relative_time_text(now, timestamp),
{
    let diff = if now >= timestamp {
        now - timestamp
    } else {
        0
    };
    if diff < 60 {
        "Reciente".to_string()
    } else if diff < 3600 {
        count_text(diff / 60, " min")
    } else if diff < 86400 {
        count_text(diff / 3600, " h")
    } else {
        count_text(diff / 86400, " d")
    }
}

/// Whether an entry was copied less than a day before `now`.
pub fn is_today(now: u64, timestamp: u64) -> (b: bool)
    ensures
        b == (age_seconds(now, timestamp) < 86400),
{
    let diff = if now >= timestamp {
        now - timestamp
    } else {
        0
    };
    diff < 86400
}

/// A link without its `https://` or `http://`.
pub open spec fn without_scheme(s: Seq<char>) -> Seq<char> {
    if starts_with(s, "https://"@) {
        s.skip("https://"@.len() as int)
    } else if starts_with(s, "http://"@) {
        s.skip("http://"@.len() as int)
    } else {
        s
    }
}

/// The domain and path of a link: what comes before its first `/` after the scheme, and the
/// rest from that `/` on (`/` when there is none).
pub open spec fn url_parts(url: Seq<char>) -> (Seq<char>, Seq<char>) {
    let rest = without_scheme(trim(url, TrimSet::Space));
    match after_first(rest, '/') {
        Some(p) => (before_first(rest, '/'), seq!['/'] + p),
        None => (rest, "/"@),
    }
}

fn skip_chars(s: &Vec<char>, n: usize) -> (r: Vec<char>)
    requires
        n <= s.len(),
    ensures
        r@ == s@.skip(n as int),
{
    let mut r: Vec<char> = Vec::new();
    let mut i = n;
    while i < s.len()
        invariant
            n <= i <= s.len(),
            r@ == s@.subrange(n as int, i as int),
        decreases s.len() - i,
    {
        r.push(s[i]);
        i = i + 1;
    }
    r
}

/// Splits a link into its domain and path.
pub fn parse_url_parts(url: &str) -> (r: (String, String))
    ensures
        (r.0@, r.1@) == url_parts(url@),
{
    let clean = trim_chars(&str_to_chars(url), TrimSet::Space);
    let https = str_to_chars("https://");
    let http = str_to_chars("http://");
    let rest = if chars_start_with(&clean, &https) {
        skip_chars(&clean, https.len())
    } else if chars_start_with(&clean, &http) {
        skip_chars(&clean, http.len())
    } else {
        clean
    };
    let (domain, path) = split_first(&rest, '/');
    match path {
        Some(p) => {
            let mut full = vec!['/'];
            append_chars(&mut full, &p);
            (chars_to_string(&domain), chars_to_string(&full))
        },
        None => {
            proof {
                // without a slash, what comes before the first slash is everything
                assert(domain@ == rest@) by {
                    lemma_before_first_none(rest@, '/');
                }
            }
            (chars_to_string(&domain), "/".to_string())
        },
    }
}

proof fn lemma_before_first_none(s: Seq<char>, c: char)
    requires
        after_first(s, c) is None,
    ensures
        before_first(s, c) == s,
    decreases s.len(),
{
    if s.len() > 0 {
        lemma_before_first_none(s.drop_first(), c);
        assert(seq![s[0]] + s.drop_first() == s);
    }
}

/// The value of a hexadecimal digit.
pub open spec fn hex_value(c: char) -> nat {
    if '0' <= c && c <= '9' {
        (c as int - '0' as int) as nat
    } else if 'a' <= c && c <= 'f' {
        (c as int - 'a' as int + 10) as nat
    } else {
        (c as int - 'A' as int + 10) as nat
    }
}

/// `u8::from_str_radix` on two characters in base 16: an optional `+` and one digit, or two
/// digits.
pub open spec fn hex_pair(a: char, b: char) -> Option<nat> {
    if a == '+' {
        if is_hex_digit(b) {
            Some(hex_value(b))
        } else {
            None
        }
    } else if is_hex_digit(a) && is_hex_digit(b) {
        Some(hex_value(a) * 16 + hex_value(b))
    } else {
        None
    }
}

/// The colour code without the `#`, when the trimmed text starts with one.
pub open spec fn color_digits(hex: Seq<char>) -> Option<Seq<char>> {
    let t = trim(hex, TrimSet::Space);
    if t.len() > 0 && t[0] == '#' {
        Some(t.drop_first())
    } else {
        None
    }
}

/// Byte offset `b` of the UTF-8 text of `s` falls between characters.
pub open spec fn is_char_boundary_at(s: Seq<char>, b: nat) -> bool {
    exists|k: int| 0 <= k <= s.len() && utf8_len(#[trigger] s.take(k)) == b
}

/// The cases in which the slicing of the colour code stays on character boundaries.
pub open spec fn hex_slices_ok(hex: Seq<char>) -> bool {
    match color_digits(hex) {
        Some(c) => (utf8_len(c) == 6 ==> is_char_boundary_at(c, 2) && is_char_boundary_at(c, 4))
            && (utf8_len(c) == 3 ==> is_char_boundary_at(c, 1) && is_char_boundary_at(c, 2)),
        None => true,
    }
}

/// The red, green and blue of a colour code `#rrggbb` or `#rgb`.
pub open spec fn rgb_of(hex: Seq<char>) -> Option<(nat, nat, nat)> {
    match color_digits(hex) {
        Some(c) => if c.len() == 6 && utf8_len(c) == 6 {
            match (hex_pair(c[0], c[1]), hex_pair(c[2], c[3]), hex_pair(c[4], c[5])) {
                (Some(r), Some(g), Some(b)) => Some((r, g, b)),
                _ => None,
            }
        } else if c.len() == 3 && utf8_len(c) == 3 {
            match (hex_pair(c[0], c[0]), hex_pair(c[1], c[1]), hex_pair(c[2], c[2])) {
                (Some(r), Some(g), Some(b)) => Some((r, g, b)),
                _ => None,
            }
        } else {
            None
        },
        None => None,
    }
}

fn hex_val(c: char) -> (v: u8)
    requires
        is_hex_digit(c),
    ensures
        v as nat == hex_value(c),
        v < 16,
{
    if '0' <= c && c <= '9' {
        ((c as u32) - ('0' as u32)) as u8
    } else if 'a' <= c && c <= 'f' {
        ((c as u32) - ('a' as u32) + 10) as u8
    } else {
        ((c as u32) - ('A' as u32) + 10) as u8
    }
}

fn is_hex(c: char) -> (b: bool)
    ensures
        b == is_hex_digit(c),
{
    ('0' <= c && c <= '9') || ('a' <= c && c <= 'f') || ('A' <= c && c <= 'F')
}

fn parse_hex_pair(a: char, b: char) -> (r: Option<u8>)
    ensures
        match r {
            Some(v) => hex_pair(a, b) == Some(v as nat),
            None => hex_pair(a, b) is None,
        },
{
    if a == '+' {
        if is_hex(b) {
            Some(hex_val(b))
        } else {
            None
        }
    } else if is_hex(a) && is_hex(b) {
        Some(hex_val(a) * 16 + hex_val(b))
    } else {
        None
    }
}

/// The red, green and blue of a colour code `#rrggbb` or `#rgb`. The digits are cut apart at
/// byte offsets, which must fall between characters: codes for which they would not are
/// outside the contract.
pub fn hex_to_rgb(hex: &str) -> (r: Option<(u8, u8, u8)>)
    requires
        hex_slices_ok(hex@),
    ensures
        match r {
            Some((red, green, blue)) => rgb_of(hex@) == Some((red as nat, green as nat, blue as nat)),
            None => rgb_of(hex@) is None,
        },
{
    let t = trim_chars(&str_to_chars(hex), TrimSet::Space);
    if !(t.len() > 0 && t[0] == '#') {
        return None;
    }
    let c = skip_chars(&t, 1);
    assert(c@ == t@.drop_first());
    if c.len() == 6 && crate::text::chars_utf8_len_capped(&c, 7) == 6 {
        match (parse_hex_pair(c[0], c[1]), parse_hex_pair(c[2], c[3]), parse_hex_pair(c[4], c[5])) {
            (Some(r), Some(g), Some(b)) => Some((r, g, b)),
            _ => None,
        }
    } else if c.len() == 3 && crate::text::chars_utf8_len_capped(&c, 7) == 3 {
        match (parse_hex_pair(c[0], c[0]), parse_hex_pair(c[1], c[1]), parse_hex_pair(c[2], c[2])) {
            (Some(r), Some(g), Some(b)) => Some((r, g, b)),
            _ => None,
        }
    } else {
        None
    }
}

/// The language a copied piece of code looks like, from the words it contains.
pub open spec fn code_language(code: Seq<char>) -> Seq<char> {
    let c = trim(code, TrimSet::Space);
    if contains_seq(c, "fn "@) || contains_seq(c, "let mut "@) || contains_seq(c, "impl "@)
        || contains_seq(c, "pub struct"@) {
        "Rust"@
    } else if contains_seq(c, "const "@) || contains_seq(c, "function "@) || contains_seq(c, "=>"@)
        || contains_seq(c, "import React"@) {
        "JavaScript"@
    } else if contains_seq(c, "def "@) || contains_seq(c, "import "@) || contains_seq(c, "print("@) {
        "Python"@
    } else if contains_seq(c, "SELECT "@) || contains_seq(c, "FROM "@) || contains_seq(c, "WHERE "@) {
        "SQL"@
    } else if contains_seq(c, "sudo "@) || contains_seq(c, "curl "@) || contains_seq(c, "cargo "@)
        || contains_seq(c, "git "@) {
        "Shell"@
    } else if c.contains('{') && c.contains(':') && c.contains(';') {
        "CSS"@
    } else {
        "C\u{f3}digo"@
    }
}

fn has(c: &Vec<char>, p: &str) -> (b: bool)
    ensures
        b == contains_seq(c@, p@),
{
    chars_contain(c, &str_to_chars(p))
}

/// The language a copied piece of code looks like.
pub fn detect_code_language(code: &str) -> (r: &'static str)
    ensures
        r@ == code_language(code@),
{
    let c = trim_chars(&str_to_chars(code), TrimSet::Space);
    if has(&c, "fn ") || has(&c, "let mut ") || has(&c, "impl ") || has(&c, "pub struct") {
        "Rust"
    } else if has(&c, "const ") || has(&c, "function ") || has(&c, "=>") || has(&c, "import React") {
        "JavaScript"
    } else if has(&c, "def ") || has(&c, "import ") || has(&c, "print(") {
        "Python"
    } else if has(&c, "SELECT ") || has(&c, "FROM ") || has(&c, "WHERE ") {
        "SQL"
    } else if has(&c, "sudo ") || has(&c, "curl ") || has(&c, "cargo ") || has(&c, "git ") {
        "Shell"
    } else if crate::text::chars_contain_char(&c, '{') && crate::text::chars_contain_char(&c, ':')
        && crate::text::chars_contain_char(&c, ';') {
        "CSS"
    } else {
        "C\u{f3}digo"
    }
}

// ----- the backend -----

/// How a chosen entry goes back to the clipboard.
pub enum Paste {
    /// Copy the image file at this path.
    ImageFile(String),
    /// Copy this text.
    Text(String),
}

/// The entry with `id` to put back on the clipboard: an image entry by its file, any other by
/// its text.
pub fn clipboard_selection(items: &Vec<ClipboardItem>, id: &str) -> (r: Result<Paste, String>)
    ensures
        match r {
            Ok(p) => exists|k: int|
                0 <= k < items@.len() && items@[k].id@ == id@ && (forall|j: int|
                    0 <= j < k ==> items@[j].id@ != id@) && match p {
                    Paste::ImageFile(f) => items@[k].kind == ClipboardKind::Image && f@
                        == items@[k].content@,
                    Paste::Text(t) => items@[k].kind != ClipboardKind::Image && t@
                        == items@[k].content@,
                },
            Err(e) => e@ == "Elemento no encontrado"@ && forall|k: int|
                0 <= k < items@.len() ==> items@[k].id@ != id@,
        },
{
    let mut i: usize = 0;
    while i < items.len()
        invariant
            i <= items.len(),
            forall|j: int| 0 <= j < i ==> items@[j].id@ != id@,
        decreases items.len() - i,
    {
        if str_is(items[i].id.as_str(), id) {
            let item = &items[i];
            let p = if item.kind == ClipboardKind::Image {
                Paste::ImageFile(item.content.clone())
            } else {
                Paste::Text(item.content.clone())
            };
            assert(items@[i as int].id@ == id@);
            return Ok(p);
        }
        i = i + 1;
    }
    Err("Elemento no encontrado".to_string())
}

/// Whether the clipboard watcher records a text it just read: when it is not empty and
/// differs from the last text it recorded.
pub fn should_record_text(text: &str, last: &str) -> (b: bool)
    ensures
        b == (text@.len() > 0 && text@ != last@),
{
    !text.is_empty() && !str_is(text, last)
}

/// One read of the clipboard by the polling watcher: whether the text read is recorded, and
/// the last recorded text afterwards.
pub open spec fn poll_record(last: Seq<char>, read: Seq<char>) -> (bool, Seq<char>) {
    if read.len() > 0 && read != last {
        (true, read)
    } else {
        (false, last)
    }
}

/// The polling watcher's step: given the last recorded text and the text just read, whether
/// to record it and the new last recorded text.
pub fn poll_step(last: &str, read: &str) -> (r: (bool, String))
    ensures
        (r.0, r.1@) == poll_record(last@, read@),
{
    if should_record_text(read, last) {
        (true, read.to_string())
    } else {
        (false, last.to_string())
    }
}

/// The texts the polling watcher records from the successive reads `reads`, starting with
/// `last` as the last recorded text.
pub open spec fn recorded_texts(reads: Seq<Seq<char>>, last: Seq<char>) -> Seq<Seq<char>>
    decreases reads.len(),
{
    if reads.len() == 0 {
        seq![]
    } else {
        let (rec, next) = poll_record(last, reads[0]);
        (if rec {
            seq![reads[0]]
        } else {
            seq![]
        }) + recorded_texts(reads.drop_first(), next)
    }
}

/// Whatever the clipboard reads, the watcher never records an empty text, never records the
/// same text twice in a row, and its first record differs from the text it started with.
pub proof fn law_polling_records_changes(reads: Seq<Seq<char>>, last: Seq<char>)
    ensures
        forall|i: int|
            0 <= i < recorded_texts(reads, last).len() ==> (#[trigger] recorded_texts(
                reads,
                last,
            )[i]).len() > 0,
        forall|i: int|
            0 <= i && i + 1 < recorded_texts(reads, last).len() ==> #[trigger] recorded_texts(
                reads,
                last,
            )[i] != recorded_texts(reads, last)[i + 1],
        recorded_texts(reads, last).len() > 0 ==> recorded_texts(reads, last)[0] != last,
    decreases reads.len(),
{
    if reads.len() > 0 {
        let (rec, next) = poll_record(last, reads[0]);
        law_polling_records_changes(reads.drop_first(), next);
        let rest = recorded_texts(reads.drop_first(), next);
        let all = recorded_texts(reads, last);
        if rec {
            assert(all == seq![reads[0]] + rest);
            assert forall|i: int| 0 <= i < all.len() implies (#[trigger] all[i]).len() > 0 by {
                if i > 0 {
                    assert(all[i] == rest[i - 1]);
                }
            }
            assert forall|i: int| 0 <= i && i + 1 < all.len() implies #[trigger] all[i] != all[i
                + 1] by {
                assert(all[i + 1] == rest[i]);
                if i > 0 {
                    assert(all[i] == rest[i - 1]);
                }
            }
        } else {
            assert(all == rest);
        }
    }
}

/// What the clipboard program was asked to do on its command line.
#[derive(Clone, Copy, PartialEq, Eq, Debug)]
pub enum ClipMode {
    /// Record the text on the standard input.
    AddText,
    /// Record the PNG image on the standard input.
    AddImage,
    /// Watch the clipboard.
    Daemon,
    /// Show the history window.
    Ui,
}

/// The mode for the arguments `args` (the program name first): the history window unless the
/// first argument asks for something else.
pub open spec fn clip_mode_is(args: Seq<String>, m: ClipMode) -> bool {
    if args.len() > 1 && args[1]@ == "--add-stdin"@ {
        m == ClipMode::AddText
    } else if args.len() > 1 && args[1]@ == "--add-stdin-img"@ {
        m == ClipMode::AddImage
    } else if args.len() > 1 && (args[1]@ == "--daemon"@ || args[1]@ == "-d"@) {
        m == ClipMode::Daemon
    } else {
        m == ClipMode::Ui
    }
}

/// Reads the command line of the clipboard program.
pub fn clip_mode(args: &Vec<String>) -> (m: ClipMode)
    ensures
        clip_mode_is(args@, m),
{
    if args.len() <= 1 {
        return ClipMode::Ui;
    }
    let a = args[1].as_str();
    if str_is(a, "--add-stdin") {
        ClipMode::AddText
    } else if str_is(a, "--add-stdin-img") {
        ClipMode::AddImage
    } else if str_is(a, "--daemon") || str_is(a, "-d") {
        ClipMode::Daemon
    } else {
        ClipMode::Ui
    }
}

} // verus!
