//! How the notes window shows a note: its HTML content as plain text, its title, its word
//! count and how long ago it changed; and the notes the command line asks for.
use vstd::prelude::*;
use crate::notes::Note;
use crate::text::{
    append_chars, chars_to_string, decimal, lines, lines_of, parse_unsigned, parse_unsigned_chars,
    push_decimal, replace_all,
    replace_chars, split_words, str_is, str_to_chars, trim, trim_chars, words, TrimSet, free_of,
};

verus! {

/// Drops everything from a `<` up to the next `>`, both included.
pub open spec fn drop_tags(s: Seq<char>, in_tag: bool) -> Seq<char>
    decreases s.len(),
{
    if s.len() == 0 {
        seq![]
    } else if s[0] == '<' {
        drop_tags(s.drop_first(), true)
    } else if s[0] == '>' {
        drop_tags(s.drop_first(), false)
    } else if !in_tag {
        seq![s[0]] + drop_tags(s.drop_first(), in_tag)
    } else {
        drop_tags(s.drop_first(), in_tag)
    }
}

/// The plain text of a note's HTML content: line breaks and the ends of blocks become
/// newlines, the other tags are dropped, and the entities `&nbsp;`, `&amp;`, `&lt;`, `&gt;`,
/// `&quot;` are decoded, in that order.
pub open spec fn plain_text(s: Seq<char>) -> Seq<char> {
    let nl = "\n"@;
    let a = replace_all(s, "<br>"@, nl);
    let a = replace_all(a, "<br/>"@, nl);
    let a = replace_all(a, "<br />"@, nl);
    let a = replace_all(a, "</div>"@, nl);
    let a = replace_all(a, "</p>"@, nl);
    let a = replace_all(a, "</h1>"@, nl);
    let a = replace_all(a, "</h2>"@, nl);
    let a = replace_all(a, "</h3>"@, nl);
    let a = replace_all(a, "</li>"@, nl);
    let t = drop_tags(a, false);
    let t = replace_all(t, "&nbsp;"@, " "@);
    let t = replace_all(t, "&amp;"@, "&"@);
    let t = replace_all(t, "&lt;"@, "<"@);
    let t = replace_all(t, "&gt;"@, ">"@);
    replace_all(t, "&quot;"@, "\""@)
}

fn replace_lit(s: Vec<char>, p: &str, r: &str) -> (out: Vec<char>)
    requires
        p@.len() > 0,
    ensures
        out@ == replace_all(s@, p@, r@),
{
    let pc = str_to_chars(p);
    let rc = str_to_chars(r);
    replace_chars(&s, &pc, &rc)
}

fn drop_tags_chars(s: &Vec<char>) -> (out: Vec<char>)
    ensures
        out@ == drop_tags(s@, false),
{
    let mut out: Vec<char> = Vec::new();
    let mut in_tag = false;
    let mut i: usize = 0;
    assert(s@.skip(0) == s@);
    while i < s.len()
        invariant
            i <= s.len(),
            drop_tags(s@, false) == out@ + drop_tags(s@.skip(i as int), in_tag),
        decreases s.len() - i,
    {
        let ghost t = s@.skip(i as int);
        assert(t[0] == s@[i as int]);
        assert(t.drop_first() == s@.skip(i + 1));
        let c = s[i];
        if c == '<' {
            in_tag = true;
        } else if c == '>' {
            in_tag = false;
        } else if !in_tag {
            let ghost before = out@;
            out.push(c);
            assert(before + (seq![c] + drop_tags(s@.skip(i + 1), false)) == out@ + drop_tags(
                s@.skip(i + 1),
                false,
            ));
        }
        i = i + 1;
    }
    assert(out@ + seq![] == out@);
    out
}

fn plain_chars(s: &str) -> (out: Vec<char>)
    ensures
        out@ == plain_text(s@),
{
    proof {
        reveal_strlit("<br>");
        reveal_strlit("<br/>");
        reveal_strlit("<br />");
        reveal_strlit("</div>");
        reveal_strlit("</p>");
        reveal_strlit("</h1>");
        reveal_strlit("</h2>");
        reveal_strlit("</h3>");
        reveal_strlit("</li>");
        reveal_strlit("&nbsp;");
        reveal_strlit("&amp;");
        reveal_strlit("&lt;");
        reveal_strlit("&gt;");
        reveal_strlit("&quot;");
    }
    let a = str_to_chars(s);
    let a = replace_lit(a, "<br>", "\n");
    let a = replace_lit(a, "<br/>", "\n");
    let a = replace_lit(a, "<br />", "\n");
    let a = replace_lit(a, "</div>", "\n");
    let a = replace_lit(a, "</p>", "\n");
    let a = replace_lit(a, "</h1>", "\n");
    let a = replace_lit(a, "</h2>", "\n");
    let a = replace_lit(a, "</h3>", "\n");
    let a = replace_lit(a, "</li>", "\n");
    let t = drop_tags_chars(&a);
    let t = replace_lit(t, "&nbsp;", " ");
    let t = replace_lit(t, "&amp;", "&");
    let t = replace_lit(t, "&lt;", "<");
    let t = replace_lit(t, "&gt;", ">");
    replace_lit(t, "&quot;", "\"")
}

/// The plain text of a note's HTML content.
pub fn strip_html_tags(s: &str) -> (r: String)
    ensures
        r@ == plain_text(s@),
{
    chars_to_string(&plain_chars(s))
}

/// The first line of `ls` that is not blank, trimmed; empty when there is none.
pub open spec fn first_filled(ls: Seq<Seq<char>>) -> Seq<char>
    decreases ls.len(),
{
    if ls.len() == 0 {
        seq![]
    } else if trim(ls[0], TrimSet::Space).len() > 0 {
        trim(ls[0], TrimSet::Space)
    } else {
        first_filled(ls.drop_first())
    }
}

/// The first non-blank line of the plain text of `content`, trimmed.
pub open spec fn first_text_line(content: Seq<char>) -> Seq<char> {
    first_filled(lines(plain_text(content)))
}

fn first_text_line_chars(content: &str) -> (r: Vec<char>)
    ensures
        r@ == first_text_line(content@),
{
    let plain = plain_chars(content);
    let ls = lines_of(&plain);
    let ghost all = lines(plain@);
    let mut i: usize = 0;
    assert(all.skip(0) == all);
    while i < ls.len()
        invariant
            i <= ls@.len(),
            all == lines(plain@),
            all == lines(plain_text(content@)),
            ls@.len() == all.len(),
            forall|k: int| 0 <= k < ls@.len() ==> (#[trigger] ls@[k])@ == all[k],
            first_filled(all) == first_filled(all.skip(i as int)),
        decreases ls.len() - i,
    {
        assert(all.skip(i as int)[0] == all[i as int]);
        assert(all.skip(i as int).drop_first() == all.skip(i + 1));
        let t = trim_chars(&ls[i], TrimSet::Space);
        if t.len() > 0 {
            return t;
        }
        i = i + 1;
    }
    Vec::new()
}

/// The title a note is listed under: the first non-blank line of its text; else its stored
/// title; else "Nueva nota".
pub open spec fn display_title(content: Seq<char>, title: Seq<char>) -> Seq<char> {
    let first = first_text_line(content);
    if first.len() > 0 {
        first
    } else if title.len() > 0 {
        title
    } else {
        "Nueva nota"@
    }
}

/// The title a note is listed under.
pub fn note_display_title(note: &Note) -> (r: String)
    ensures
        r@ == display_title(note.content@, note.title@),
{
    let first = first_text_line_chars(note.content.as_str());
    if first.len() > 0 {
        chars_to_string(&first)
    } else if !note.title.as_str().is_empty() {
        note.title.clone()
    } else {
        "Nueva nota".to_string()
    }
}

/// The title a note is saved with: the first non-blank line of its text, or "Nueva nota".
pub open spec fn saved_title(content: Seq<char>) -> Seq<char> {
    let first = first_text_line(content);
    if first.len() > 0 {
        first
    } else {
        "Nueva nota"@
    }
}

/// The title the editor saves a note with.
pub fn title_from_content(content: &str) -> (r: String)
    ensures
        r@ == saved_title(content@),
{
    let first = first_text_line_chars(content);
    if first.len() > 0 {
        chars_to_string(&first)
    } else {
        "Nueva nota".to_string()
    }
}

/// The number of words of the plain text of a note's content.
pub fn word_count(s: &str) -> (n: usize)
    ensures
        n == words(plain_text(s@)).len(),
{
    let plain = plain_chars(s);
    split_words(&plain).len()
}

/// How long ago a note changed, from the seconds elapsed (zero when `ts` is in the future).
pub open spec fn elapsed_text(now: u64, ts: u64) -> Seq<char> {
    let diff: nat = if now >= ts {
        (now - ts) as nat
    } else {
        0
    };
    if diff < 60 {
        "Ahora"@
    } else if diff < 3600 {
        "Hace "@ + decimal(diff / 60) + " min"@
    } else if diff < 86400 {
        "Hace "@ + decimal(diff / 3600) + " h"@
    } else if diff < 86400 * 7 {
        "Hace "@ + decimal(diff / 86400) + " d"@
    } else {
        "Hace "@ + decimal(diff / 86400 / 7) + " sem"@
    }
}

fn count_text(prefix: &str, n: u64, suffix: &str) -> (r: String)
    ensures
        r@ == prefix@ + decimal(n as nat) + suffix@,
{
    let mut out = str_to_chars(prefix);
    push_decimal(&mut out, n as u128);
    append_chars(&mut out, &str_to_chars(suffix));
    chars_to_string(&out)
}

/// How long ago a note changed at `ts` changed, seen at `now`.
pub fn format_time(now: u64, ts: u64) -> (r: String)
    ensures
        r@ == elapsed_text(now, ts),
{
    let diff = if now >= ts {
        now - ts
    } else {
        0
    };
    if diff < 60 {
        "Ahora".to_string()
    } else if diff < 3600 {
        count_text("Hace ", diff / 60, " min")
    } else if diff < 86400 {
        count_text("Hace ", diff / 3600, " h")
    } else if diff < 86400 * 7 {
        count_text("Hace ", diff / 86400, " d")
    } else {
        count_text("Hace ", diff / 86400 / 7, " sem")
    }
}

/// The notes that the arguments after the program name ask to create, as (title, content):
/// `--new-note TEXT` creates a note with TEXT, titled "Nota" when it has more than one line and
/// "Nota Rápida" otherwise; `--attach-image PATH` creates a note holding the image as
/// Markdown. Other arguments are skipped.
pub open spec fn cli_notes(args: Seq<String>, i: int) -> Seq<(Seq<char>, Seq<char>)>
    decreases args.len() - i,
{
    if i < 1 || i >= args.len() {
        seq![]
    } else if args[i]@ == "--new-note"@ && i + 1 < args.len() {
        let content = args[i + 1]@;
        let title = if lines(content).len() > 1 {
            "Nota"@
        } else {
            "Nota R\u{e1}pida"@
        };
        seq![(title, content)] + cli_notes(args, i + 2)
    } else if args[i]@ == "--attach-image"@ && i + 1 < args.len() {
        seq![("Captura"@, "![Captura](file://"@ + args[i + 1]@ + ")"@)] + cli_notes(args, i + 2)
    } else {
        cli_notes(args, i + 1)
    }
}

pub open spec fn pairs_view(v: Seq<(String, String)>) -> Seq<(Seq<char>, Seq<char>)> {
    v.map_values(|p: (String, String)| (p.0@, p.1@))
}

/// The notes the command line of the notes program asks for, as (title, content); the caller
/// creates them.
pub fn notes_from_args(args: &Vec<String>) -> (r: Vec<(String, String)>)
    ensures
        pairs_view(r@) == cli_notes(args@, 1),
{
    let mut r: Vec<(String, String)> = Vec::new();
    let mut i: usize = 1;
    while i < args.len()
        invariant
            1 <= i,
            pairs_view(r@) + cli_notes(args@, i as int) == cli_notes(args@, 1),
        decreases args.len() - i,
    {
        let a = args[i].as_str();
        let ghost before = r@;
        if str_is(a, "--new-note") && i + 1 < args.len() {
            let content = args[i + 1].clone();
            let ls = lines_of(&str_to_chars(content.as_str()));
            let title = if ls.len() > 1 {
                "Nota".to_string()
            } else {
                "Nota R\u{e1}pida".to_string()
            };
            r.push((title, content));
            assert(pairs_view(r@) == pairs_view(before).push((r@.last().0@, r@.last().1@)));
            i = i + 2;
        } else if str_is(a, "--attach-image") && i + 1 < args.len() {
            let mut md = str_to_chars("![Captura](file://");
            append_chars(&mut md, &str_to_chars(args[i + 1].as_str()));
            append_chars(&mut md, &str_to_chars(")"));
            r.push(("Captura".to_string(), chars_to_string(&md)));
            assert(pairs_view(r@) == pairs_view(before).push((r@.last().0@, r@.last().1@)));
            i = i + 2;
        } else {
            i = i + 1;
        }
    }
    assert(cli_notes(args@, i as int) == Seq::<(Seq<char>, Seq<char>)>::empty());
    assert(pairs_view(r@) + seq![] == pairs_view(r@));
    r
}

/// What a stored preference text gives as a flag: `true` and `false` are read as such,
/// anything else, or nothing stored, gives the default.
pub open spec fn stored_flag(stored: Option<Seq<char>>, default: bool) -> bool {
    match stored {
        Some(t) => if t == "true"@ {
            true
        } else if t == "false"@ {
            false
        } else {
            default
        },
        None => default,
    }
}

/// A flag preference of the notes window, from its stored text if any.
pub fn stored_bool(stored: Option<String>, default: bool) -> (b: bool)
    ensures
        b == stored_flag(
            match stored {
                Some(t) => Some(t@),
                None => None,
            },
            default,
        ),
{
    match stored {
        Some(t) => if str_is(t.as_str(), "true") {
            true
        } else if str_is(t.as_str(), "false") {
            false
        } else {
            default
        },
        None => default,
    }
}

/// What a stored preference text gives as a count: its value when it parses as a `usize`,
/// else (or with nothing stored) the default.
pub open spec fn stored_count(stored: Option<Seq<char>>, default: usize) -> nat {
    match stored {
        Some(t) => match parse_unsigned(t, usize::MAX as nat) {
            Some(v) => v,
            None => default as nat,
        },
        None => default as nat,
    }
}

/// A count preference of the notes window, from its stored text if any.
pub fn stored_usize(stored: Option<String>, default: usize) -> (n: usize)
    ensures
        n as nat == stored_count(
            match stored {
                Some(t) => Some(t@),
                None => None,
            },
            default,
        ),
{
    match stored {
        Some(t) => match parse_unsigned_chars(&str_to_chars(t.as_str()), usize::MAX as u128) {
            Some(v) => v as usize,
            None => default,
        },
        None => default,
    }
}


// ----- what the plain text of simple markup is -----

/// `s` holds no `<`, `>` or `&`: it is plain text in HTML too.
pub open spec fn markup_free(s: Seq<char>) -> bool {
    free_of(s, '<') && free_of(s, '>') && free_of(s, '&')
}

/// `t` is one tag: it starts with `<`, ends with `>` and holds no other `<` or `>`.
pub open spec fn tag_shape(t: Seq<char>) -> bool {
    &&& t.len() >= 2
    &&& t[0] == '<'
    &&& t.last() == '>'
    &&& forall|k: int| 1 <= k < t.len() ==> t[k] != '<'
    &&& forall|k: int| 0 <= k < t.len() - 1 ==> t[k] != '>'
}

proof fn lemma_replace_absent(s: Seq<char>, p: Seq<char>, r: Seq<char>)
    requires
        p.len() > 0,
        free_of(s, p[0]),
    ensures
        replace_all(s, p, r) == s,
    decreases s.len(),
{
    if s.len() >= p.len() {
        assert(s.take(p.len() as int)[0] == s[0]);
        lemma_replace_absent(s.drop_first(), p, r);
        assert(seq![s[0]] + s.drop_first() == s);
    }
}

proof fn lemma_replace_after_free(s1: Seq<char>, s2: Seq<char>, p: Seq<char>, r: Seq<char>)
    requires
        p.len() > 0,
        free_of(s1, p[0]),
    ensures
        replace_all(s1 + s2, p, r) == s1 + replace_all(s2, p, r),
    decreases s1.len(),
{
    let s = s1 + s2;
    if s1.len() == 0 {
        assert(s == s2);
    } else if s.len() < p.len() {
        assert(replace_all(s2, p, r) == s2);
    } else {
        assert(s[0] == s1[0]);
        assert(s.take(p.len() as int)[0] == s[0]);
        assert(s.drop_first() == s1.drop_first() + s2);
        lemma_replace_after_free(s1.drop_first(), s2, p, r);
        assert(seq![s1[0]] + (s1.drop_first() + replace_all(s2, p, r)) == s1 + replace_all(s2, p, r));
    }
}

proof fn lemma_drop_tags_plain(s: Seq<char>)
    requires
        free_of(s, '<'),
        free_of(s, '>'),
    ensures
        drop_tags(s, false) == s,
    decreases s.len(),
{
    if s.len() > 0 {
        lemma_drop_tags_plain(s.drop_first());
        assert(seq![s[0]] + s.drop_first() == s);
    }
}

proof fn lemma_tag_missed(t: Seq<char>, b: Seq<char>, p: Seq<char>, r: Seq<char>)
    requires
        tag_shape(t),
        free_of(b, '<'),
        free_of(b, '>'),
        p.len() > 0,
        p[0] == '<',
        p.last() == '>',
        p != t,
    ensures
        replace_all(t + b, p, r) == t + b,
{
    let s = t + b;
    if s.len() >= p.len() {
        if s.take(p.len() as int) == p {
            let i = p.len() - 1;
            assert(s.take(p.len() as int)[i] == s[i]);
            assert(s[i] == '>');
            if i < t.len() - 1 {
                assert(t[i] != '>');
            } else if i >= t.len() {
                assert(s[i] == b[i - t.len()]);
            }
            assert(p.len() == t.len());
            assert(s.take(t.len() as int) == t);
            assert(false);
        }
        assert(s.drop_first() == t.drop_first() + b);
        assert(free_of(s.drop_first(), '<'));
        lemma_replace_absent(s.drop_first(), p, r);
        assert(seq![s[0]] + s.drop_first() == s);
    }
}

/// The text once `p` is replaced by a newline, when the text is `a`, a tag `t` and `b`
/// (or, once `t` is gone, `a`, a newline and `b`).
proof fn lemma_tag_step(a: Seq<char>, b: Seq<char>, t: Seq<char>, p: Seq<char>, hit: bool)
    requires
        markup_free(a),
        markup_free(b),
        tag_shape(t),
        p.len() > 0,
        p[0] == '<',
        p.last() == '>',
    ensures
        replace_all(if hit { a + "\n"@ + b } else { a + t + b }, p, "\n"@) == if hit || p == t {
            a + "\n"@ + b
        } else {
            a + t + b
        },
{
    reveal_strlit("\n");
    let nl = "\n"@;
    if hit {
        assert(free_of(a + nl + b, '<'));
        lemma_replace_absent(a + nl + b, p, nl);
    } else {
        assert(a + t + b == a + (t + b));
        lemma_replace_after_free(a, t + b, p, nl);
        if p == t {
            assert((t + b).take(t.len() as int) == t);
            assert((t + b).skip(t.len() as int) == b);
            lemma_replace_absent(b, p, nl);
            assert(a + (nl + b) == a + nl + b);
        } else {
            lemma_tag_missed(t, b, p, nl);
        }
    }
}

proof fn lemma_tag_becomes_newline(a: Seq<char>, b: Seq<char>, t: Seq<char>)
    requires
        markup_free(a),
        markup_free(b),
        tag_shape(t),
        t == "<br>"@ || t == "<br/>"@ || t == "<br />"@ || t == "</div>"@ || t == "</p>"@
            || t == "</h1>"@ || t == "</h2>"@ || t == "</h3>"@ || t == "</li>"@,
    ensures
        plain_text(a + t + b) == a + "\n"@ + b,
{
    reveal_strlit("\n");
    reveal_strlit("<br>");
    reveal_strlit("<br/>");
    reveal_strlit("<br />");
    reveal_strlit("</div>");
    reveal_strlit("</p>");
    reveal_strlit("</h1>");
    reveal_strlit("</h2>");
    reveal_strlit("</h3>");
    reveal_strlit("</li>");
    reveal_strlit("&nbsp;");
    reveal_strlit("&amp;");
    reveal_strlit("&lt;");
    reveal_strlit("&gt;");
    reveal_strlit("&quot;");
    let nl = "\n"@;
    let done = a + nl + b;
    lemma_tag_step(a, b, t, "<br>"@, false);
    let h1 = "<br>"@ == t;
    lemma_tag_step(a, b, t, "<br/>"@, h1);
    let h2 = h1 || "<br/>"@ == t;
    lemma_tag_step(a, b, t, "<br />"@, h2);
    let h3 = h2 || "<br />"@ == t;
    lemma_tag_step(a, b, t, "</div>"@, h3);
    let h4 = h3 || "</div>"@ == t;
    lemma_tag_step(a, b, t, "</p>"@, h4);
    let h5 = h4 || "</p>"@ == t;
    lemma_tag_step(a, b, t, "</h1>"@, h5);
    let h6 = h5 || "</h1>"@ == t;
    lemma_tag_step(a, b, t, "</h2>"@, h6);
    let h7 = h6 || "</h2>"@ == t;
    lemma_tag_step(a, b, t, "</h3>"@, h7);
    let h8 = h7 || "</h3>"@ == t;
    lemma_tag_step(a, b, t, "</li>"@, h8);
    let s1 = replace_all(a + t + b, "<br>"@, nl);
    let s2 = replace_all(s1, "<br/>"@, nl);
    let s3 = replace_all(s2, "<br />"@, nl);
    let s4 = replace_all(s3, "</div>"@, nl);
    let s5 = replace_all(s4, "</p>"@, nl);
    let s6 = replace_all(s5, "</h1>"@, nl);
    let s7 = replace_all(s6, "</h2>"@, nl);
    let s8 = replace_all(s7, "</h3>"@, nl);
    let s9 = replace_all(s8, "</li>"@, nl);
    assert(s9 == done);
    assert(free_of(done, '<') && free_of(done, '>') && free_of(done, '&'));
    lemma_drop_tags_plain(done);
    lemma_replace_absent(done, "&nbsp;"@, " "@);
    lemma_replace_absent(done, "&amp;"@, "&"@);
    lemma_replace_absent(done, "&lt;"@, "<"@);
    lemma_replace_absent(done, "&gt;"@, ">"@);
    lemma_replace_absent(done, "&quot;"@, "\""@);
}

/// Each line break (`<br>`, `<br/>`, `<br />`) and each end of a block (`</div>`, `</p>`,
/// `</h1>`, `</h2>`, `</h3>`, `</li>`) between two pieces of plain text becomes a newline
/// between them in the plain text of a note.
pub proof fn law_block_ends_become_newlines(a: Seq<char>, b: Seq<char>)
    requires
        markup_free(a),
        markup_free(b),
    ensures
        plain_text(a + "<br>"@ + b) == a + "\n"@ + b,
        plain_text(a + "<br/>"@ + b) == a + "\n"@ + b,
        plain_text(a + "<br />"@ + b) == a + "\n"@ + b,
        plain_text(a + "</div>"@ + b) == a + "\n"@ + b,
        plain_text(a + "</p>"@ + b) == a + "\n"@ + b,
        plain_text(a + "</h1>"@ + b) == a + "\n"@ + b,
        plain_text(a + "</h2>"@ + b) == a + "\n"@ + b,
        plain_text(a + "</h3>"@ + b) == a + "\n"@ + b,
        plain_text(a + "</li>"@ + b) == a + "\n"@ + b,
{
    reveal_strlit("<br>");
    reveal_strlit("<br/>");
    reveal_strlit("<br />");
    reveal_strlit("</div>");
    reveal_strlit("</p>");
    reveal_strlit("</h1>");
    reveal_strlit("</h2>");
    reveal_strlit("</h3>");
    reveal_strlit("</li>");
    lemma_tag_becomes_newline(a, b, "<br>"@);
    lemma_tag_becomes_newline(a, b, "<br/>"@);
    lemma_tag_becomes_newline(a, b, "<br />"@);
    lemma_tag_becomes_newline(a, b, "</div>"@);
    lemma_tag_becomes_newline(a, b, "</p>"@);
    lemma_tag_becomes_newline(a, b, "</h1>"@);
    lemma_tag_becomes_newline(a, b, "</h2>"@);
    lemma_tag_becomes_newline(a, b, "</h3>"@);
    lemma_tag_becomes_newline(a, b, "</li>"@);
}

} // verus!
