//! Text recognition: running `tesseract`, reading the word table it prints (TSV), finding the
//! links and colour codes among the words, and gathering the words into lines.
//!
//! The numeric columns (position, size, confidence) are kept as the text of the table: the
//! caller reads them as floating-point numbers, decides which words are confident and large
//! enough, and computes the boxes.
use vstd::prelude::*;
use crate::detect::{color_in_word, color_of_word, link_in_word, link_of_word};
use crate::screen::{command_line, Command};
use vstd::laws_cmp::obeys_cmp;
use vstd::std_specs::btree::{increasing_seq, key_obeys_cmp_spec};
use vstd::std_specs::cmp::OrdSpec;
use vstd::std_specs::iter::IteratorSpec;
use std::collections::BTreeMap;
use crate::text::{
    append_chars, chars_to_string, lines, lines_of, parse_i32, parse_i32_chars, split_chars,
    split_on, str_to_chars, trim, trim_chars, TrimSet, free_of, lemma_split_on_free,
    lemma_split_on_after_sep,
};

verus! {

// ----- the recognition command -----

/// The `tesseract` command line for an image: first with the English and Spanish models and
/// interword spaces kept; the fallback without them.
pub open spec fn tesseract_line(path: Seq<char>, with_languages: bool) -> Seq<Seq<char>> {
    if with_languages {
        seq![
            "tesseract"@,
            path,
            "stdout"@,
            "tsv"@,
            "-l"@,
            "eng+spa"@,
            "--psm"@,
            "11"@,
            "-c"@,
            "preserve_interword_spaces=1"@,
        ]
    } else {
        seq!["tesseract"@, path, "stdout"@, "tsv"@, "--psm"@, "11"@]
    }
}

/// The command that recognises the text of the image at `path`.
pub fn tesseract_command(path: &str, with_languages: bool) -> (c: Command)
    ensures
        command_line(c) == tesseract_line(path@, with_languages),
{
    let args = if with_languages {
        vec![
            path.to_string(),
            "stdout".to_string(),
            "tsv".to_string(),
            "-l".to_string(),
            "eng+spa".to_string(),
            "--psm".to_string(),
            "11".to_string(),
            "-c".to_string(),
            "preserve_interword_spaces=1".to_string(),
        ]
    } else {
        vec![
            path.to_string(),
            "stdout".to_string(),
            "tsv".to_string(),
            "--psm".to_string(),
            "11".to_string(),
        ]
    };
    let c = Command { program: "tesseract".to_string(), args };
    assert(command_line(c) =~= tesseract_line(path@, with_languages));
    c
}


// ----- the command, and what to do with its answer -----

/// What text recognition does next.
pub enum TesseractStep {
    /// Run the fallback command.
    Run(Command),
    /// Read the table the last command printed.
    ReadOutput,
    /// Give up with this error.
    Fail(String),
}

pub enum TesseractStepView {
    Run(Seq<Seq<char>>),
    ReadOutput,
    Fail(Seq<char>),
}

pub open spec fn tesseract_step_view(s: TesseractStep) -> TesseractStepView {
    match s {
        TesseractStep::Run(c) => TesseractStepView::Run(command_line(c)),
        TesseractStep::ReadOutput => TesseractStepView::ReadOutput,
        TesseractStep::Fail(e) => TesseractStepView::Fail(e@),
    }
}

/// After the run with the language models (`with_languages`): its output is read when it ran
/// and succeeded, else the fallback runs. After the fallback: its output is read whenever it
/// ran, whatever its exit status; when it could not run, recognition fails with
/// "Tesseract no disponible: " and the reason.
pub open spec fn tesseract_next_view(
    path: Seq<char>,
    with_languages: bool,
    ran: bool,
    success: bool,
    error: Seq<char>,
) -> TesseractStepView {
    if with_languages {
        if ran && success {
            TesseractStepView::ReadOutput
        } else {
            TesseractStepView::Run(tesseract_line(path, false))
        }
    } else if ran {
        TesseractStepView::ReadOutput
    } else {
        TesseractStepView::Fail("Tesseract no disponible: "@ + error)
    }
}

/// The next step of text recognition on `path`, after the run (with the language models or
/// not) reported whether it ran, whether it succeeded, and the reason it could not run.
pub fn tesseract_next(path: &str, with_languages: bool, ran: bool, success: bool, error: &str) -> (s:
    TesseractStep)
    ensures
        tesseract_step_view(s) == tesseract_next_view(path@, with_languages, ran, success, error@),
{
    if with_languages {
        if ran && success {
            TesseractStep::ReadOutput
        } else {
            TesseractStep::Run(tesseract_command(path, false))
        }
    } else if ran {
        TesseractStep::ReadOutput
    } else {
        let mut out = str_to_chars("Tesseract no disponible: ");
        append_chars(&mut out, &str_to_chars(error));
        TesseractStep::Fail(chars_to_string(&out))
    }
}

// ----- one row of the table -----

/// A word of the table: its line key, its text and the link or colour it stands for, and its
/// numeric columns as written.
pub struct WordView {
    pub block: int,
    pub par: int,
    pub line: int,
    pub text: Seq<char>,
    pub entity: Option<(Seq<char>, Seq<char>)>,
    pub left: Seq<char>,
    pub top: Seq<char>,
    pub width: Seq<char>,
    pub height: Seq<char>,
    pub confidence: Seq<char>,
}

/// The link or colour code a word stands for, with its kind: links first.
pub open spec fn entity_of(text: Seq<char>) -> Option<(Seq<char>, Seq<char>)> {
    match link_of_word(text) {
        Some(l) => Some(("url"@, l)),
        None => match color_of_word(text) {
            Some(c) => Some(("color"@, c)),
            None => None,
        },
    }
}

/// A column read as an `i32`, 0 when it is not one.
pub open spec fn int_or_zero(s: Seq<char>) -> int {
    match parse_i32(s) {
        Some(v) => v,
        None => 0,
    }
}

/// The word of one row of the table, when the row has all its columns, is at the word level
/// (5) and its text is not blank.
pub open spec fn row_word(row: Seq<char>) -> Option<WordView> {
    let cols = split_on(row, '\t');
    if cols.len() < 12 {
        None
    } else {
        let text = trim(cols[11], TrimSet::Space);
        if int_or_zero(cols[0]) == 5 && text.len() > 0 {
            Some(
                WordView {
                    block: int_or_zero(cols[2]),
                    par: int_or_zero(cols[3]),
                    line: int_or_zero(cols[4]),
                    text,
                    entity: entity_of(text),
                    left: cols[6],
                    top: cols[7],
                    width: cols[8],
                    height: cols[9],
                    confidence: cols[10],
                },
            )
        } else {
            None
        }
    }
}

/// The words of the rows of the table.
pub open spec fn row_words(rows: Seq<Seq<char>>) -> Seq<WordView>
    decreases rows.len(),
{
    if rows.len() == 0 {
        seq![]
    } else {
        match row_word(rows.last()) {
            Some(w) => row_words(rows.drop_last()).push(w),
            None => row_words(rows.drop_last()),
        }
    }
}

/// The words of a `tesseract` TSV table: the rows after the header line.
pub open spec fn table_words(tsv: Seq<char>) -> Seq<WordView> {
    let rows = lines(tsv);
    if rows.len() == 0 {
        seq![]
    } else {
        row_words(rows.drop_first())
    }
}

/// A word of the table.
pub struct TableWord {
    pub block: i32,
    pub par: i32,
    pub line: i32,
    pub text: String,
    /// The kind (`url` or `color`) and value of the link or colour the word stands for.
    pub entity: Option<(String, String)>,
    pub left: String,
    pub top: String,
    pub width: String,
    pub height: String,
    pub confidence: String,
}

pub open spec fn word_view(w: TableWord) -> WordView {
    WordView {
        block: w.block as int,
        par: w.par as int,
        line: w.line as int,
        text: w.text@,
        entity: match w.entity {
            Some((k, v)) => Some((k@, v@)),
            None => None,
        },
        left: w.left@,
        top: w.top@,
        width: w.width@,
        height: w.height@,
        confidence: w.confidence@,
    }
}

pub open spec fn words_view(ws: Seq<TableWord>) -> Seq<WordView> {
    ws.map_values(|w: TableWord| word_view(w))
}

fn int_field(s: &Vec<char>) -> (v: i32)
    ensures
        v as int == int_or_zero(s@),
{
    match parse_i32_chars(s) {
        Some(v) => v,
        None => 0,
    }
}


fn entity_in(text: &Vec<char>) -> (r: Option<(String, String)>)
    ensures
        match r {
            Some((k, v)) => entity_of(text@) == Some((k@, v@)),
            None => entity_of(text@) is None,
        },
{
    match link_in_word(text) {
        Some(l) => Some(("url".to_string(), chars_to_string(&l))),
        None => match color_in_word(text) {
            Some(c) => Some(("color".to_string(), chars_to_string(&c))),
            None => None,
        },
    }
}

fn parse_row(row: &Vec<char>) -> (r: Option<TableWord>)
    ensures
        match r {
            Some(w) => row_word(row@) == Some(word_view(w)),
            None => row_word(row@) is None,
        },
{
    let cols = split_chars(row, '\t');
    if cols.len() < 12 {
        return None;
    }
    let text = trim_chars(&cols[11], TrimSet::Space);
    if int_field(&cols[0]) == 5 && text.len() > 0 {
        let entity = entity_in(&text);
        let w = TableWord {
            block: int_field(&cols[2]),
            par: int_field(&cols[3]),
            line: int_field(&cols[4]),
            text: chars_to_string(&text),
            entity,
            left: chars_to_string(&cols[6]),
            top: chars_to_string(&cols[7]),
            width: chars_to_string(&cols[8]),
            height: chars_to_string(&cols[9]),
            confidence: chars_to_string(&cols[10]),
        };
        Some(w)
    } else {
        None
    }
}

/// Reads the words out of the TSV table `tesseract` printed, in table order.
pub fn read_table(tsv: &str) -> (r: Vec<TableWord>)
    ensures
        words_view(r@) == table_words(tsv@),
{
    let chars = str_to_chars(tsv);
    let rows = lines_of(&chars);
    let ghost all_rows = lines(tsv@);
    let mut out: Vec<TableWord> = Vec::new();
    let mut i: usize = 1;
    while i < rows.len()
        invariant
            1 <= i,
            i <= rows@.len() || rows@.len() == 0,
            rows@.len() == all_rows.len(),
            all_rows == lines(tsv@),
            forall|k: int| 0 <= k < rows@.len() ==> (#[trigger] rows@[k])@ == all_rows[k],
            rows@.len() > 0 ==> words_view(out@) == row_words(all_rows.subrange(1, i as int)),
            rows@.len() == 0 ==> out@.len() == 0,
        decreases rows.len() - i,
    {
        let ghost sub = all_rows.subrange(1, i + 1);
        assert(sub.drop_last() == all_rows.subrange(1, i as int));
        assert(sub.last() == rows@[i as int]@);
        let ghost before = out@;
        match parse_row(&rows[i]) {
            Some(w) => {
                out.push(w);
                assert(words_view(out@) =~= words_view(before).push(word_view(w)));
            },
            None => {},
        }
        i = i + 1;
    }
    proof {
        if all_rows.len() > 0 {
            assert(all_rows.subrange(1, all_rows.len() as int) == all_rows.drop_first());
        } else {
            assert(words_view(out@) =~= seq![]);
        }
    }
    out
}

// ----- gathering the words into lines -----

/// The words whose flag is set, in order.
pub open spec fn kept_words(ws: Seq<WordView>, keep: Seq<bool>) -> Seq<WordView>
    decreases ws.len(),
{
    if ws.len() == 0 || keep.len() == 0 {
        seq![]
    } else {
        let p = kept_words(ws.drop_last(), keep.drop_last());
        if keep.last() {
            p.push(ws.last())
        } else {
            p
        }
    }
}

/// A line of text: the words of one (block, paragraph, line) of the table, in the order they
/// came.
pub struct LineView {
    pub key: (int, int, int),
    pub members: Seq<WordView>,
}

pub open spec fn key_of(w: WordView) -> (int, int, int) {
    (w.block, w.par, w.line)
}

/// The order of the lines: by block, then paragraph, then line number.
pub open spec fn key_less(a: (int, int, int), b: (int, int, int)) -> bool {
    a.0 < b.0 || (a.0 == b.0 && (a.1 < b.1 || (a.1 == b.1 && a.2 < b.2)))
}


pub open spec fn new_line(w: WordView) -> LineView {
    LineView { key: key_of(w), members: seq![w] }
}

pub open spec fn extend_line(l: LineView, w: WordView) -> LineView {
    LineView { key: l.key, members: l.members.push(w) }
}

/// Adds a word to the lines, kept in key order: to the line with its key, or as a new line.
pub open spec fn add_word(ls: Seq<LineView>, w: WordView) -> Seq<LineView>
    decreases ls.len(),
{
    if ls.len() == 0 {
        seq![new_line(w)]
    } else if ls[0].key == key_of(w) {
        seq![extend_line(ls[0], w)] + ls.drop_first()
    } else if key_less(key_of(w), ls[0].key) {
        seq![new_line(w)] + ls
    } else {
        seq![ls[0]] + add_word(ls.drop_first(), w)
    }
}

/// The lines of a sequence of words.
pub open spec fn lines_of_words(ws: Seq<WordView>) -> Seq<LineView>
    decreases ws.len(),
{
    if ws.len() == 0 {
        seq![]
    } else {
        add_word(lines_of_words(ws.drop_last()), ws.last())
    }
}

/// The words joined with single spaces.
pub open spec fn join_words(ws: Seq<Seq<char>>) -> Seq<char>
    decreases ws.len(),
{
    if ws.len() == 0 {
        seq![]
    } else if ws.len() == 1 {
        ws[0]
    } else {
        join_words(ws.drop_last()) + seq![' '] + ws.last()
    }
}


/// The links and colours of the words of a line, with the position of their word.
pub open spec fn line_entities(ms: Seq<WordView>) -> Seq<(int, Seq<char>, Seq<char>)>
    decreases ms.len(),
{
    if ms.len() == 0 {
        seq![]
    } else {
        let p = line_entities(ms.drop_last());
        match ms.last().entity {
            Some(kv) => p.push((ms.len() - 1, kv.0, kv.1)),
            None => p,
        }
    }
}

/// A line as it is handed out: its key, its words joined by spaces, its words, and the links
/// and colours among them.
pub struct TextLineView {
    pub key: (int, int, int),
    pub text: Seq<char>,
    pub members: Seq<WordView>,
    pub entities: Seq<(int, Seq<char>, Seq<char>)>,
}

pub open spec fn text_line_of(l: LineView) -> TextLineView {
    TextLineView {
        key: l.key,
        text: join_words(l.members.map_values(|w: WordView| w.text)),
        members: l.members,
        entities: line_entities(l.members),
    }
}

/// The lines of the words whose flag is set, in key order.
pub open spec fn text_lines(ws: Seq<WordView>, keep: Seq<bool>) -> Seq<TextLineView> {
    lines_of_words(kept_words(ws, keep)).map_values(|l: LineView| text_line_of(l))
}

/// A link or colour in a line: the position of its word among the line's words.
pub struct LineEntity {
    pub word: usize,
    pub kind: String,
    pub value: String,
}

/// A line of recognised text.
pub struct TextLine {
    pub block: i32,
    pub par: i32,
    pub line: i32,
    /// The words joined with single spaces.
    pub text: String,
    pub words: Vec<TableWord>,
    pub entities: Vec<LineEntity>,
}

pub open spec fn line_entity_view(e: LineEntity) -> (int, Seq<char>, Seq<char>) {
    (e.word as int, e.kind@, e.value@)
}

pub open spec fn text_line_view(t: TextLine) -> TextLineView {
    TextLineView {
        key: (t.block as int, t.par as int, t.line as int),
        text: t.text@,
        members: words_view(t.words@),
        entities: t.entities@.map_values(|e: LineEntity| line_entity_view(e)),
    }
}

struct LineGroup {
    block: i32,
    par: i32,
    line: i32,
    members: Vec<TableWord>,
}

spec fn group_view(g: LineGroup) -> LineView {
    LineView { key: (g.block as int, g.par as int, g.line as int), members: words_view(g.members@) }
}

fn word_copy(w: &TableWord) -> (c: TableWord)
    ensures
        word_view(c) == word_view(*w),
{
    TableWord {
        block: w.block,
        par: w.par,
        line: w.line,
        text: w.text.clone(),
        entity: match &w.entity {
            Some((k, v)) => Some((k.clone(), v.clone())),
            None => None,
        },
        left: w.left.clone(),
        top: w.top.clone(),
        width: w.width.clone(),
        height: w.height.clone(),
        confidence: w.confidence.clone(),
    }
}

fn join_chars(ws: &Vec<Vec<char>>) -> (r: Vec<char>)
    ensures
        r@ == join_words(ws@.map_values(|w: Vec<char>| w@)),
{
    let ghost all = ws@.map_values(|w: Vec<char>| w@);
    let mut r: Vec<char> = Vec::new();
    let mut i: usize = 0;
    while i < ws.len()
        invariant
            i <= ws.len(),
            all == ws@.map_values(|w: Vec<char>| w@),
            r@ == join_words(all.take(i as int)),
        decreases ws.len() - i,
    {
        let ghost t = all.take(i + 1);
        assert(t.drop_last() == all.take(i as int));
        assert(t.last() == ws@[i as int]@);
        if i > 0 {
            r.push(' ');
        } else {
            assert(all.take(0).len() == 0);
        }
        append_chars(&mut r, &ws[i]);
        i = i + 1;
    }
    assert(all.take(ws.len() as int) == all);
    r
}


fn text_line_from(g: LineGroup) -> (t: TextLine)
    ensures
        text_line_view(t) == text_line_of(group_view(g)),
{
    let ghost ms = words_view(g.members@);
    let mut texts: Vec<Vec<char>> = Vec::new();
    let mut entities: Vec<LineEntity> = Vec::new();
    let mut j: usize = 0;
    while j < g.members.len()
        invariant
            j <= g.members@.len(),
            ms == words_view(g.members@),
            texts@.map_values(|x: Vec<char>| x@) == ms.take(j as int).map_values(|w: WordView| w.text),
            entities@.map_values(|e: LineEntity| line_entity_view(e)) == line_entities(
                ms.take(j as int),
            ),
        decreases g.members.len() - j,
    {
        let ghost t = ms.take(j + 1);
        assert(t.drop_last() == ms.take(j as int));
        assert(t.last() == word_view(g.members@[j as int]));
        let ghost tb = texts@;
        let ghost eb = entities@;
        let m = &g.members[j];
        texts.push(str_to_chars(m.text.as_str()));
        assert(texts@.map_values(|x: Vec<char>| x@) =~= tb.map_values(|x: Vec<char>| x@).push(
            m.text@,
        ));
        assert(t.map_values(|w: WordView| w.text) =~= ms.take(j as int).map_values(
            |w: WordView| w.text,
        ).push(m.text@));
        match &m.entity {
            Some((k, v)) => {
                entities.push(LineEntity { word: j, kind: k.clone(), value: v.clone() });
                assert(entities@.map_values(|e: LineEntity| line_entity_view(e)) =~= eb.map_values(
                    |e: LineEntity| line_entity_view(e),
                ).push((j as int, k@, v@)));
            },
            None => {},
        }
        j = j + 1;
    }
    assert(ms.take(g.members.len() as int) == ms);
    let text = chars_to_string(&join_chars(&texts));
    TextLine { block: g.block, par: g.par, line: g.line, text, words: g.members, entities }
}

fn words_copy(v: &Vec<TableWord>) -> (r: Vec<TableWord>)
    ensures
        words_view(r@) == words_view(v@),
{
    let mut r: Vec<TableWord> = Vec::new();
    let mut i: usize = 0;
    while i < v.len()
        invariant
            i <= v@.len(),
            words_view(r@) == words_view(v@.take(i as int)),
        decreases v.len() - i,
    {
        let ghost before = r@;
        r.push(word_copy(&v[i]));
        assert(v@.take(i + 1) == v@.take(i as int).push(v@[i as int]));
        assert(words_view(r@) =~= words_view(before).push(word_view(v@[i as int])));
        assert(words_view(v@.take(i + 1)) =~= words_view(v@.take(i as int)).push(
            word_view(v@[i as int]),
        ));
        i = i + 1;
    }
    assert(v@.take(v.len() as int) == v@);
    r
}

/// A line key as the table writes it.
pub open spec fn key_int(k: (i32, i32, i32)) -> (int, int, int) {
    (k.0 as int, k.1 as int, k.2 as int)
}

/// The keys of the lines, in order.
pub open spec fn line_keys(ls: Seq<LineView>) -> Seq<(int, int, int)> {
    ls.map_values(|l: LineView| l.key)
}

/// The words of each line, by its key.
pub open spec fn lines_map(ls: Seq<LineView>) -> Map<(int, int, int), Seq<WordView>>
    decreases ls.len(),
{
    if ls.len() == 0 {
        Map::empty()
    } else {
        lines_map(ls.drop_first()).insert(ls[0].key, ls[0].members)
    }
}

spec fn fits_i32(x: (int, int, int)) -> bool {
    i32::MIN <= x.0 <= i32::MAX && i32::MIN <= x.1 <= i32::MAX && i32::MIN <= x.2 <= i32::MAX
}

/// The map from keys to words of lines whose keys increase.
proof fn lemma_lines_map(ls: Seq<LineView>)
    requires
        keys_increasing(ls),
    ensures
        forall|x: (int, int, int)| #[trigger]
            lines_map(ls).contains_key(x) <==> line_keys(ls).contains(x),
        forall|j: int| 0 <= j < ls.len() ==> lines_map(ls)[#[trigger] ls[j].key] == ls[j].members,
    decreases ls.len(),
{
    if ls.len() > 0 {
        let t = ls.drop_first();
        assert forall|i: int, j: int| 0 <= i < j < t.len() implies key_less(
            #[trigger] t[i].key,
            #[trigger] t[j].key,
        ) by {
            assert(t[i] == ls[i + 1] && t[j] == ls[j + 1]);
        }
        lemma_lines_map(t);
        assert forall|x: (int, int, int)| #[trigger]
            lines_map(ls).contains_key(x) <==> line_keys(ls).contains(x) by {
            assert(lines_map(ls) == lines_map(t).insert(ls[0].key, ls[0].members));
            assert(lines_map(t).contains_key(x) <==> line_keys(t).contains(x));
            assert(line_keys(ls)[0] == ls[0].key);
            if line_keys(ls).contains(x) {
                let j = choose|j: int| 0 <= j < line_keys(ls).len() && line_keys(ls)[j] == x;
                if j > 0 {
                    assert(line_keys(t)[j - 1] == x);
                }
            }
            if line_keys(t).contains(x) {
                let j = choose|j: int| 0 <= j < line_keys(t).len() && line_keys(t)[j] == x;
                assert(line_keys(ls)[j + 1] == x);
            }
        }
        assert forall|j: int| 0 <= j < ls.len() implies lines_map(ls)[#[trigger] ls[j].key]
            == ls[j].members by {
            if j > 0 {
                assert(ls[j] == t[j - 1]);
                assert(key_less(ls[0].key, ls[j].key));
            }
        }
    }
}

/// How adding a word changes the map from keys to words: the word joins its line, or starts one.
proof fn lemma_add_word_map(ls: Seq<LineView>, w: WordView)
    requires
        keys_increasing(ls),
    ensures
        lines_map(add_word(ls, w)) == lines_map(ls).insert(
            key_of(w),
            if lines_map(ls).contains_key(key_of(w)) {
                lines_map(ls)[key_of(w)].push(w)
            } else {
                seq![w]
            },
        ),
    decreases ls.len(),
{
    lemma_lines_map(ls);
    let k = key_of(w);
    if ls.len() == 0 {
        let r = seq![new_line(w)];
        assert(r.drop_first() == Seq::<LineView>::empty());
        assert(lines_map(r.drop_first()) == Map::<(int, int, int), Seq<WordView>>::empty());
        assert(lines_map(r) =~= Map::empty().insert(k, seq![w]));
    } else if ls[0].key == k {
        let r = seq![extend_line(ls[0], w)] + ls.drop_first();
        assert(r.drop_first() == ls.drop_first());
        assert(lines_map(ls)[k] == ls[0].members);
        assert(lines_map(r) =~= lines_map(ls).insert(k, ls[0].members.push(w)));
    } else if key_less(k, ls[0].key) {
        let r = seq![new_line(w)] + ls;
        assert(r.drop_first() == ls);
        assert(!lines_map(ls).contains_key(k)) by {
            if line_keys(ls).contains(k) {
                let j = choose|j: int| 0 <= j < line_keys(ls).len() && line_keys(ls)[j] == k;
                if j > 0 {
                    assert(key_less(ls[0].key, ls[j].key));
                }
            }
        }
    } else {
        let t = ls.drop_first();
        assert forall|i: int, j: int| 0 <= i < j < t.len() implies key_less(
            #[trigger] t[i].key,
            #[trigger] t[j].key,
        ) by {
            assert(t[i] == ls[i + 1] && t[j] == ls[j + 1]);
        }
        lemma_add_word_map(t, w);
        let r = seq![ls[0]] + add_word(t, w);
        assert(r.drop_first() == add_word(t, w));
        assert(r[0] == ls[0]);
        assert(lines_map(ls) == lines_map(t).insert(ls[0].key, ls[0].members));
        assert(lines_map(ls).contains_key(k) == lines_map(t).contains_key(k));
        if lines_map(t).contains_key(k) {
            assert(lines_map(ls)[k] == lines_map(t)[k]);
        }
        assert(lines_map(r) =~= lines_map(ls).insert(
            k,
            if lines_map(ls).contains_key(k) {
                lines_map(ls)[k].push(w)
            } else {
                seq![w]
            },
        ));
    }
}

/// Two sequences of keys, each strictly increasing, that hold the same keys are the same.
proof fn lemma_sorted_keys_equal(a: Seq<(int, int, int)>, b: Seq<(int, int, int)>)
    requires
        forall|i: int, j: int| 0 <= i < j < a.len() ==> key_less(#[trigger] a[i], #[trigger] a[j]),
        forall|i: int, j: int| 0 <= i < j < b.len() ==> key_less(#[trigger] b[i], #[trigger] b[j]),
        forall|x: (int, int, int)|
            #![trigger a.contains(x)]
            #![trigger b.contains(x)]
            a.contains(x) <==> b.contains(x),
    ensures
        a == b,
    decreases a.len() + b.len(),
{
    if a.len() == 0 {
        if b.len() > 0 {
            assert(b.contains(b[0]));
        }
        assert(b.len() == 0);
        assert(a =~= b);
    } else if b.len() == 0 {
        assert(a.contains(a[0]));
    } else {
        assert(a.contains(a[0]));
        assert(b.contains(b[0]));
        let i = choose|i: int| 0 <= i < a.len() && a[i] == b[0];
        let j = choose|j: int| 0 <= j < b.len() && b[j] == a[0];
        if a[0] != b[0] {
            assert(i > 0 && j > 0);
            assert(key_less(a[0], a[i]));
            assert(key_less(b[0], b[j]));
        }
        let ta = a.drop_first();
        let tb = b.drop_first();
        assert forall|x: (int, int, int)| #[trigger] ta.contains(x) <==> tb.contains(x) by {
            if ta.contains(x) {
                let p = choose|p: int| 0 <= p < ta.len() && ta[p] == x;
                assert(a[p + 1] == x);
                assert(a.contains(x));
                let q = choose|q: int| 0 <= q < b.len() && b[q] == x;
                assert(key_less(a[0], a[p + 1]));
                assert(q > 0);
                assert(tb[q - 1] == x);
            }
            if tb.contains(x) {
                let p = choose|p: int| 0 <= p < tb.len() && tb[p] == x;
                assert(b[p + 1] == x);
                assert(b.contains(x));
                let q = choose|q: int| 0 <= q < a.len() && a[q] == x;
                assert(key_less(b[0], b[p + 1]));
                assert(q > 0);
                assert(ta[q - 1] == x);
            }
        }
        assert forall|i: int, j: int| 0 <= i < j < ta.len() implies key_less(
            #[trigger] ta[i],
            #[trigger] ta[j],
        ) by {
            assert(ta[i] == a[i + 1] && ta[j] == a[j + 1]);
        }
        assert forall|i: int, j: int| 0 <= i < j < tb.len() implies key_less(
            #[trigger] tb[i],
            #[trigger] tb[j],
        ) by {
            assert(tb[i] == b[i + 1] && tb[j] == b[j + 1]);
        }
        lemma_sorted_keys_equal(ta, tb);
        assert(a =~= seq![a[0]] + ta);
        assert(b =~= seq![b[0]] + tb);
    }
}

/// The line keys compare as the laws of `Ord` say.
spec fn line_keys_ordered() -> bool {
    obeys_cmp::<(i32, i32, i32)>()
}

/// The map's key order agrees with the order of the lines.
proof fn lemma_tuple_order()
    ensures
        line_keys_ordered(),
        key_obeys_cmp_spec::<(i32, i32, i32)>(),
        forall|a: (i32, i32, i32), b: (i32, i32, i32)| #[trigger]
            a.cmp_spec(&b) is Less ==> key_less(key_int(a), key_int(b)),
{
    broadcast use vstd::laws_cmp::group_laws_cmp, vstd::std_specs::btree::group_btree_axioms;

}

proof fn lemma_increasing_keys(ks: Seq<(i32, i32, i32)>)
    requires
        increasing_seq(ks),
    ensures
        forall|i: int, j: int|
            0 <= i < j < ks.len() ==> key_less(key_int(#[trigger] ks[i]), key_int(#[trigger] ks[j])),
{
    broadcast use vstd::laws_cmp::group_laws_cmp, vstd::std_specs::btree::group_btree_axioms;

    lemma_tuple_order();
    assert forall|i: int, j: int| 0 <= i < j < ks.len() implies key_less(
        key_int(#[trigger] ks[i]),
        key_int(#[trigger] ks[j]),
    ) by {
        assert(ks[i].cmp_spec(&ks[j]) is Less);
    }
}

/// Gathers the words whose flag in `keep` is set into lines, in (block, paragraph, line)
/// order; `keep` holds, for each word of `words`, whether it is confident and large enough.
/// The lines are collected in a `BTreeMap` keyed by (block, paragraph, line) and read back in
/// key order.
pub fn group_lines(words: &Vec<TableWord>, keep: &Vec<bool>) -> (r: Vec<TextLine>)
    requires
        keep@.len() == words@.len(),
    ensures
        r@.map_values(|t: TextLine| text_line_view(t)) == text_lines(words_view(words@), keep@),
{
    broadcast use vstd::std_specs::btree::group_btree_axioms;

    proof {
        lemma_tuple_order();
    }
    let ghost ws = words_view(words@);
    let mut m: BTreeMap<(i32, i32, i32), Vec<TableWord>> = BTreeMap::new();
    let ghost mut ls: Seq<LineView> = seq![];
    let mut i: usize = 0;
    assert(lines_map(ls) =~= Map::empty());
    while i < words.len()
        invariant
            i <= words@.len(),
            keep@.len() == words@.len(),
            ws == words_view(words@),
            ls == lines_of_words(kept_words(ws.take(i as int), keep@.take(i as int))),
            keys_increasing(ls),
            line_keys_ordered(),
            forall|k: (i32, i32, i32)| #[trigger]
                m@.contains_key(k) == lines_map(ls).contains_key(key_int(k)),
            forall|k: (i32, i32, i32)| #[trigger]
                m@.contains_key(k) ==> words_view(m@[k]@) == lines_map(ls)[key_int(k)],
            forall|x: (int, int, int)| #[trigger] lines_map(ls).contains_key(x) ==> fits_i32(x),
        decreases words.len() - i,
    {
        let ghost t = ws.take(i + 1);
        let ghost kt = keep@.take(i + 1);
        assert(t.drop_last() == ws.take(i as int));
        assert(kt.drop_last() == keep@.take(i as int));
        assert(t.last() == word_view(words@[i as int]));
        assert(kt.last() == keep@[i as int]);
        if keep[i] {
            let w = &words[i];
            let ghost v = word_view(*w);
            let ghost kb = kept_words(ws.take(i as int), keep@.take(i as int));
            let key = (w.block, w.par, w.line);
            assert(key_int(key) == key_of(v));
            proof {
                lemma_add_word_map(ls, v);
                lemma_add_word_sorted(ls, v);
            }
            let ghost old_map = lines_map(ls);
            let members = match m.remove(&key) {
                Some(mut found) => {
                    found.push(word_copy(w));
                    found
                },
                None => {
                    let mut fresh: Vec<TableWord> = Vec::new();
                    fresh.push(word_copy(w));
                    fresh
                },
            };
            assert(words_view(members@) == if old_map.contains_key(key_of(v)) {
                old_map[key_of(v)].push(v)
            } else {
                seq![v]
            }) by {
                assert(words_view(members@) =~= if old_map.contains_key(key_of(v)) {
                    old_map[key_of(v)].push(v)
                } else {
                    seq![v]
                });
            }
            m.insert(key, members);
            proof {
                ls = add_word(ls, v);
                assert(kept_words(t, kt) == kb.push(v));
                assert(kept_words(t, kt).drop_last() == kb);
                assert forall|k: (i32, i32, i32)| #[trigger]
                    m@.contains_key(k) == lines_map(ls).contains_key(key_int(k)) by {
                    if k != key {
                        assert(key_int(k) != key_int(key));
                    }
                }
                assert forall|k: (i32, i32, i32)| #[trigger] m@.contains_key(k) implies words_view(
                    m@[k]@,
                ) == lines_map(ls)[key_int(k)] by {
                    if k != key {
                        assert(key_int(k) != key_int(key));
                    }
                }
            }
        }
        i = i + 1;
    }
    assert(ws.take(words.len() as int) == ws);
    assert(keep@.take(words.len() as int) == keep@);
    let iter = m.iter();
    let ghost rem = iter.remaining();
    proof {
        let ks = rem.map_values(|kv: (&(i32, i32, i32), &Vec<TableWord>)| *kv.0);
        lemma_increasing_keys(ks);
        lemma_lines_map(ls);
        let a = ks.map_values(|k: (i32, i32, i32)| key_int(k));
        let b = line_keys(ls);
        assert forall|p: int, q: int| 0 <= p < q < a.len() implies key_less(
            #[trigger] a[p],
            #[trigger] a[q],
        ) by {
            assert(a[p] == key_int(ks[p]) && a[q] == key_int(ks[q]));
        }
        assert forall|p: int, q: int| 0 <= p < q < b.len() implies key_less(
            #[trigger] b[p],
            #[trigger] b[q],
        ) by {
            assert(b[p] == ls[p].key && b[q] == ls[q].key);
        }
        assert forall|x: (int, int, int)| #[trigger] a.contains(x) <==> b.contains(x) by {
            if a.contains(x) {
                let p = choose|p: int| 0 <= p < a.len() && a[p] == x;
                assert(ks[p] == *rem[p].0);
                assert(m@.contains_key(*rem[p].0));
                assert(lines_map(ls).contains_key(key_int(ks[p])));
            }
            if b.contains(x) {
                assert(lines_map(ls).contains_key(x));
                assert(fits_i32(x));
                let k: (i32, i32, i32) = (x.0 as i32, x.1 as i32, x.2 as i32);
                assert(key_int(k) == x);
                assert(m@.contains_key(k));
                assert(rem.contains((&k, &m@[k])));
                let p = choose|p: int| 0 <= p < rem.len() && rem[p] == (&k, &m@[k]);
                assert(ks[p] == k);
                assert(a[p] == x);
            }
        }
        lemma_sorted_keys_equal(a, b);
        assert forall|p: int| 0 <= p < rem.len() implies key_int(*rem[p].0) == ls[p].key
            && words_view((*rem[p].1)@) == ls[p].members by {
            assert(a[p] == key_int(ks[p]));
            assert(b[p] == ls[p].key);
            assert(m@.contains_key(*rem[p].0) && m@[*rem[p].0] == *rem[p].1);
        }
        assert(rem.len() == ls.len()) by {
            assert(a.len() == b.len());
        }
    }
    let mut out: Vec<TextLine> = Vec::new();
    for kv in it: iter
        invariant
            it.seq() == rem,
            rem.len() == ls.len(),
            forall|p: int|
                0 <= p < rem.len() ==> key_int(*rem[p].0) == ls[p].key && words_view(
                    (*rem[p].1)@,
                ) == ls[p].members,
            out@.map_values(|t: TextLine| text_line_view(t)) == ls.take(it.index() as int).map_values(
                |l: LineView| text_line_of(l),
            ),
    {
        let ghost j = it.index();
        let ghost before = out@;
        let (k, members) = kv;
        let g = LineGroup { block: k.0, par: k.1, line: k.2, members: words_copy(members) };
        assert(group_view(g) == ls[j as int]);
        let t = text_line_from(g);
        out.push(t);
        assert(out@.map_values(|t: TextLine| text_line_view(t)) =~= before.map_values(
            |t: TextLine| text_line_view(t),
        ).push(text_line_of(ls[j as int])));
        assert(ls.take(j + 1).map_values(|l: LineView| text_line_of(l)) =~= ls.take(j as int).map_values(
            |l: LineView| text_line_of(l),
        ).push(text_line_of(ls[j as int])));
    }
    assert(ls.take(ls.len() as int) == ls);
    out
}

// ----- what the lines keep -----

/// Each line's key is before the key of every line after it.
pub open spec fn keys_increasing(ls: Seq<LineView>) -> bool {
    forall|i: int, j: int| 0 <= i < j < ls.len() ==> key_less(#[trigger] ls[i].key, #[trigger] ls[j].key)
}


proof fn lemma_add_word_above(ls: Seq<LineView>, w: WordView, b: (int, int, int))
    requires
        forall|j: int| 0 <= j < ls.len() ==> key_less(b, #[trigger] ls[j].key),
        key_less(b, key_of(w)),
    ensures
        forall|k: int| 0 <= k < add_word(ls, w).len() ==> key_less(b, #[trigger] add_word(ls, w)[k].key),
    decreases ls.len(),
{
    if ls.len() > 0 && ls[0].key != key_of(w) && !key_less(key_of(w), ls[0].key) {
        let t = ls.drop_first();
        assert forall|j: int| 0 <= j < t.len() implies key_less(b, #[trigger] t[j].key) by {
            assert(t[j] == ls[j + 1]);
        }
        lemma_add_word_above(t, w, b);
        let r = add_word(ls, w);
        assert forall|k: int| 0 <= k < r.len() implies key_less(b, #[trigger] r[k].key) by {
            if k > 0 {
                assert(r[k] == add_word(t, w)[k - 1]);
            }
        }
    } else if ls.len() > 0 && ls[0].key == key_of(w) {
        let r = add_word(ls, w);
        assert forall|k: int| 0 <= k < r.len() implies key_less(b, #[trigger] r[k].key) by {
            if k > 0 {
                assert(r[k] == ls[k]);
            }
        }
    } else if ls.len() > 0 {
        let r = add_word(ls, w);
        assert forall|k: int| 0 <= k < r.len() implies key_less(b, #[trigger] r[k].key) by {
            if k > 0 {
                assert(r[k] == ls[k - 1]);
            }
        }
    }
}

proof fn lemma_add_word_sorted(ls: Seq<LineView>, w: WordView)
    requires
        keys_increasing(ls),
    ensures
        keys_increasing(add_word(ls, w)),
    decreases ls.len(),
{
    let r = add_word(ls, w);
    if ls.len() == 0 {
    } else if ls[0].key == key_of(w) {
        assert forall|i: int, j: int| 0 <= i < j < r.len() implies key_less(
            #[trigger] r[i].key,
            #[trigger] r[j].key,
        ) by {
            assert(r[j] == ls[j]);
            if i > 0 {
                assert(r[i] == ls[i]);
            }
        }
    } else if key_less(key_of(w), ls[0].key) {
        assert forall|i: int, j: int| 0 <= i < j < r.len() implies key_less(
            #[trigger] r[i].key,
            #[trigger] r[j].key,
        ) by {
            assert(r[j] == ls[j - 1]);
            if i > 0 {
                assert(r[i] == ls[i - 1]);
            } else if j - 1 > 0 {
                assert(key_less(ls[0].key, ls[j - 1].key));
            }
        }
    } else {
        let t = ls.drop_first();
        assert forall|i: int, j: int| 0 <= i < j < t.len() implies key_less(
            #[trigger] t[i].key,
            #[trigger] t[j].key,
        ) by {
            assert(t[i] == ls[i + 1] && t[j] == ls[j + 1]);
        }
        assert forall|j: int| 0 <= j < t.len() implies key_less(ls[0].key, #[trigger] t[j].key) by {
            assert(t[j] == ls[j + 1]);
        }
        lemma_add_word_sorted(t, w);
        lemma_add_word_above(t, w, ls[0].key);
        let a = add_word(t, w);
        assert forall|i: int, j: int| 0 <= i < j < r.len() implies key_less(
            #[trigger] r[i].key,
            #[trigger] r[j].key,
        ) by {
            assert(r[j] == a[j - 1]);
            if i > 0 {
                assert(r[i] == a[i - 1]);
            }
        }
    }
}

/// The lines come in block, paragraph and line order, each (block, paragraph, line) once.
pub proof fn law_lines_in_key_order(ws: Seq<WordView>)
    ensures
        keys_increasing(lines_of_words(ws)),
    decreases ws.len(),
{
    if ws.len() > 0 {
        law_lines_in_key_order(ws.drop_last());
        lemma_add_word_sorted(lines_of_words(ws.drop_last()), ws.last());
    }
}


proof fn lemma_row_words_skip(a: Seq<Seq<char>>, r: Seq<char>, b: Seq<Seq<char>>)
    requires
        row_word(r) is None,
    ensures
        row_words(a.push(r) + b) == row_words(a + b),
    decreases b.len(),
{
    if b.len() == 0 {
        assert(a.push(r) + b == a.push(r));
        assert(a.push(r).drop_last() == a);
        assert(a + b == a);
    } else {
        lemma_row_words_skip(a, r, b.drop_last());
        assert((a.push(r) + b).drop_last() == a.push(r) + b.drop_last());
        assert((a + b).drop_last() == a + b.drop_last());
        assert((a.push(r) + b).last() == b.last());
        assert((a + b).last() == b.last());
    }
}

/// A row of the table that is not a word (too few columns, another level, blank text)
/// contributes nothing: the words read are the same without it.
pub proof fn law_rejected_row_ignored(a: Seq<Seq<char>>, r: Seq<char>, b: Seq<Seq<char>>)
    requires
        row_word(r) is None,
    ensures
        row_words(a.push(r) + b) == row_words(a + b),
{
    lemma_row_words_skip(a, r, b);
}

/// The header line never contributes: tables that differ only in their first line have the
/// same words.
pub proof fn law_header_ignored(t1: Seq<char>, t2: Seq<char>)
    requires
        lines(t1).len() > 0,
        lines(t2).len() > 0,
        lines(t1).drop_first() == lines(t2).drop_first(),
    ensures
        table_words(t1) == table_words(t2),
{
}

proof fn lemma_kept_skip(ws: Seq<WordView>, keep: Seq<bool>, i: int)
    requires
        ws.len() == keep.len(),
        0 <= i < ws.len(),
        !keep[i],
    ensures
        kept_words(ws.remove(i), keep.remove(i)) == kept_words(ws, keep),
    decreases ws.len(),
{
    if i == ws.len() - 1 {
        assert(ws.remove(i) == ws.drop_last());
        assert(keep.remove(i) == keep.drop_last());
    } else {
        lemma_kept_skip(ws.drop_last(), keep.drop_last(), i);
        assert(ws.remove(i).drop_last() == ws.drop_last().remove(i));
        assert(keep.remove(i).drop_last() == keep.drop_last().remove(i));
        assert(ws.remove(i).last() == ws.last());
        assert(keep.remove(i).last() == keep.last());
    }
}

/// A word that is not kept (not confident or too small) contributes nothing: the lines are
/// the same without it.
pub proof fn law_unkept_word_ignored(ws: Seq<WordView>, keep: Seq<bool>, i: int)
    requires
        ws.len() == keep.len(),
        0 <= i < ws.len(),
        !keep[i],
    ensures
        text_lines(ws.remove(i), keep.remove(i)) == text_lines(ws, keep),
{
    lemma_kept_skip(ws, keep, i);
}

/// The lines of a table's text, when the caller keeps the words its decision `keep` accepts
/// (a decision on each word's own columns: its confidence and size).
pub open spec fn table_lines(tsv: Seq<char>, keep: spec_fn(WordView) -> bool) -> Seq<TextLineView> {
    text_lines(table_words(tsv), table_words(tsv).map_values(keep))
}

/// The words of the rows that the caller keeps.
spec fn kept_rows(rows: Seq<Seq<char>>, keep: spec_fn(WordView) -> bool) -> Seq<WordView>
    decreases rows.len(),
{
    if rows.len() == 0 {
        seq![]
    } else {
        let p = kept_rows(rows.drop_last(), keep);
        match row_word(rows.last()) {
            Some(w) => if keep(w) {
                p.push(w)
            } else {
                p
            },
            None => p,
        }
    }
}

proof fn lemma_kept_rows(rows: Seq<Seq<char>>, keep: spec_fn(WordView) -> bool)
    ensures
        kept_words(row_words(rows), row_words(rows).map_values(keep)) == kept_rows(rows, keep),
    decreases rows.len(),
{
    if rows.len() > 0 {
        lemma_kept_rows(rows.drop_last(), keep);
        let ws = row_words(rows.drop_last());
        match row_word(rows.last()) {
            Some(w) => {
                let ws2 = ws.push(w);
                assert(ws2.drop_last() == ws);
                assert(ws2.map_values(keep).drop_last() == ws.map_values(keep));
                assert(ws2.map_values(keep).last() == keep(w));
            },
            None => {},
        }
    } else {
        assert(row_words(rows).len() == 0);
    }
}

proof fn lemma_kept_rows_skip(
    a: Seq<Seq<char>>,
    r: Seq<char>,
    b: Seq<Seq<char>>,
    keep: spec_fn(WordView) -> bool,
)
    requires
        match row_word(r) {
            Some(w) => !keep(w),
            None => true,
        },
    ensures
        kept_rows(a.push(r) + b, keep) == kept_rows(a + b, keep),
    decreases b.len(),
{
    if b.len() == 0 {
        assert(a.push(r) + b == a.push(r));
        assert(a.push(r).drop_last() == a);
        assert(a + b == a);
    } else {
        lemma_kept_rows_skip(a, r, b.drop_last(), keep);
        assert((a.push(r) + b).drop_last() == a.push(r) + b.drop_last());
        assert((a + b).drop_last() == a + b.drop_last());
        assert((a.push(r) + b).last() == b.last());
        assert((a + b).last() == b.last());
    }
}

/// Removing from the table's text a line after the header that gives no kept word (it is no
/// word, or the caller's decision rejects its word) leaves the lines unchanged.
pub proof fn law_rejected_table_line_ignored(
    s1: Seq<char>,
    s2: Seq<char>,
    i: int,
    keep: spec_fn(WordView) -> bool,
)
    requires
        0 < i < lines(s1).len(),
        lines(s2) == lines(s1).remove(i),
        match row_word(lines(s1)[i]) {
            Some(w) => !keep(w),
            None => true,
        },
    ensures
        table_lines(s2, keep) == table_lines(s1, keep),
{
    let rows1 = lines(s1);
    let rows2 = lines(s2);
    let a = rows1.subrange(1, i);
    let r = rows1[i];
    let b = rows1.subrange(i + 1, rows1.len() as int);
    assert(rows1.drop_first() == a.push(r) + b);
    assert(rows2.drop_first() == a + b);
    lemma_kept_rows(rows1.drop_first(), keep);
    lemma_kept_rows(rows2.drop_first(), keep);
    lemma_kept_rows_skip(a, r, b, keep);
}

/// The header line never contributes to the lines: tables whose text differs only in their
/// first line give the same lines.
pub proof fn law_header_line_ignored(s1: Seq<char>, s2: Seq<char>, keep: spec_fn(WordView) -> bool)
    requires
        lines(s1).len() > 0,
        lines(s2).len() > 0,
        lines(s1).drop_first() == lines(s2).drop_first(),
    ensures
        table_lines(s1, keep) == table_lines(s2, keep),
{
}


// ----- the columns of a row -----

/// Columns joined into one row of the table, separated by tabs.
pub open spec fn tab_joined(cols: Seq<Seq<char>>) -> Seq<char>
    decreases cols.len(),
{
    if cols.len() <= 1 {
        if cols.len() == 1 {
            cols[0]
        } else {
            seq![]
        }
    } else {
        tab_joined(cols.drop_last()) + seq!['\t'] + cols.last()
    }
}

proof fn lemma_split_tab_joined(cols: Seq<Seq<char>>)
    requires
        cols.len() >= 1,
        forall|k: int| 0 <= k < cols.len() ==> free_of(#[trigger] cols[k], '\t'),
    ensures
        split_on(tab_joined(cols), '\t') == cols,
    decreases cols.len(),
{
    if cols.len() == 1 {
        lemma_split_on_free(cols[0], '\t');
        assert(seq![cols[0]] == cols);
    } else {
        let init = cols.drop_last();
        assert(forall|k: int| 0 <= k < init.len() ==> #[trigger] init[k] == cols[k]);
        lemma_split_tab_joined(init);
        assert(free_of(cols[cols.len() - 1], '\t'));
        lemma_split_on_after_sep(tab_joined(init), cols.last(), '\t');
        assert(init.push(cols.last()) == cols);
    }
}

proof fn lemma_tab_joined_free(cols: Seq<Seq<char>>, x: char)
    requires
        x != '\t',
        forall|k: int| 0 <= k < cols.len() ==> free_of(#[trigger] cols[k], x),
    ensures
        free_of(tab_joined(cols), x),
    decreases cols.len(),
{
    if cols.len() > 1 {
        let init = cols.drop_last();
        assert(forall|k: int| 0 <= k < init.len() ==> #[trigger] init[k] == cols[k]);
        lemma_tab_joined_free(init, x);
        assert(free_of(cols[cols.len() - 1], x));
        let a = tab_joined(init);
        let r = a + seq!['\t'] + cols.last();
        assert forall|k: int| 0 <= k < r.len() implies r[k] != x by {
            if k < a.len() {
                assert(r[k] == a[k]);
            } else if k > a.len() {
                assert(r[k] == cols.last()[k - a.len() - 1]);
            }
        }
    } else if cols.len() == 1 {
        assert(free_of(cols[0], x));
    }
}

/// A cell of the table: no tab and no line break in it.
pub open spec fn table_cell(c: Seq<char>) -> bool {
    free_of(c, '\t') && free_of(c, '\n')
}

/// A row of the table, read column by column: for a header line and a row of twelve
/// tab-separated columns, the table has one word when the level (first column) is 5 and the
/// text (last column) is not blank, and none otherwise. That word has its line key read from
/// the block, paragraph and line columns, its text trimmed from the last column, and as its
/// left edge, top edge, width, height and confidence exactly the seventh to the eleventh
/// columns.
pub proof fn law_word_columns(
    header: Seq<char>,
    c0: Seq<char>,
    c1: Seq<char>,
    c2: Seq<char>,
    c3: Seq<char>,
    c4: Seq<char>,
    c5: Seq<char>,
    c6: Seq<char>,
    c7: Seq<char>,
    c8: Seq<char>,
    c9: Seq<char>,
    c10: Seq<char>,
    c11: Seq<char>,
)
    requires
        free_of(header, '\n'),
        table_cell(c0),
        table_cell(c1),
        table_cell(c2),
        table_cell(c3),
        table_cell(c4),
        table_cell(c5),
        table_cell(c6),
        table_cell(c7),
        table_cell(c8),
        table_cell(c9),
        table_cell(c10),
        table_cell(c11),
    ensures
        ({
            let row = tab_joined(seq![c0, c1, c2, c3, c4, c5, c6, c7, c8, c9, c10, c11]);
            let ws = table_words(header + seq!['\n'] + row);
            let is_word = parse_i32(c0) == Some(5int) && trim(c11, TrimSet::Space).len() > 0;
            &&& !is_word ==> ws.len() == 0
            &&& is_word ==> ws.len() == 1
            &&& is_word ==> ws[0].block == int_or_zero(c2)
            &&& is_word ==> ws[0].par == int_or_zero(c3)
            &&& is_word ==> ws[0].line == int_or_zero(c4)
            &&& is_word ==> ws[0].text == trim(c11, TrimSet::Space)
            &&& is_word ==> ws[0].left == c6
            &&& is_word ==> ws[0].top == c7
            &&& is_word ==> ws[0].width == c8
            &&& is_word ==> ws[0].height == c9
            &&& is_word ==> ws[0].confidence == c10
        }),
{
    let cols = seq![c0, c1, c2, c3, c4, c5, c6, c7, c8, c9, c10, c11];
    let row = tab_joined(cols);
    assert(forall|k: int| 0 <= k < 12 ==> table_cell(#[trigger] cols[k]));
    lemma_split_tab_joined(cols);
    lemma_tab_joined_free(cols, '\n');
    let tsv = header + seq!['\n'] + row;
    lemma_split_on_free(header, '\n');
    lemma_split_on_after_sep(header, row, '\n');
    let f = split_on(tsv, '\n');
    assert(f == seq![header, row]);
    assert(split_on(row, '\t').len() == 12);
    assert(row.len() > 0);
    let ls = lines(tsv);
    assert(ls.len() == 2);
    assert(ls[1] == row);
    assert(ls.drop_first() == seq![row]);
    assert(seq![row].drop_last() == Seq::<Seq<char>>::empty());
    assert(cols[0] == c0 && cols[11] == c11);
    assert(cols[2] == c2 && cols[3] == c3 && cols[4] == c4 && cols[6] == c6 && cols[7] == c7);
    assert(cols[8] == c8 && cols[9] == c9 && cols[10] == c10);
    assert(seq![row].last() == row);
    assert(seq![row].drop_last() == Seq::<Seq<char>>::empty());
    assert(row_words(Seq::<Seq<char>>::empty()) == Seq::<WordView>::empty());
    if parse_i32(c0) == Some(5int) && trim(c11, TrimSet::Space).len() > 0 {
        assert(int_or_zero(cols[0]) == 5);
        assert(row_word(row) is Some);
        let w = row_word(row)->Some_0;
        assert(row_words(seq![row]) == Seq::<WordView>::empty().push(w));
        assert(Seq::<WordView>::empty().push(w) == seq![w]);
        assert(table_words(tsv) == seq![w]);
    } else {
        assert(int_or_zero(cols[0]) != 5 || trim(cols[11], TrimSet::Space).len() == 0);
        assert(row_word(row) is None);
        assert(table_words(tsv) == row_words(seq![row]));
    }
}

} // verus!
