//! The image editor's tools and the size label of a crop selection.
use vstd::prelude::*;
use crate::text::{append_chars, chars_to_string, decimal, push_decimal, str_is, str_to_chars};

verus! {

/// The drawing tools of the editor.
#[derive(Clone, Copy, PartialEq, Eq, Debug)]
pub enum Tool {
    Select,
    Pen,
    Highlighter,
    Arrow,
    Line,
    Rectangle,
    Circle,
    Blur,
    Picker,
}

/// The tooltip and the short label of each tool, with its keyboard shortcut.
pub open spec fn tool_labels(tool: Tool) -> (Seq<char>, Seq<char>) {
    match tool {
        Tool::Select => ("Seleccionar (1)"@, "Seleccionar \u{b7} 1"@),
        Tool::Pen => ("L\u{e1}piz (2)"@, "L\u{e1}piz \u{b7} 2"@),
        Tool::Highlighter => ("Resaltar (2)"@, "Resaltar \u{b7} 2"@),
        Tool::Rectangle => ("Rect\u{e1}ngulo (3)"@, "Rect\u{e1}ngulo \u{b7} 3"@),
        Tool::Arrow => ("Flecha (3)"@, "Flecha \u{b7} 3"@),
        Tool::Line => ("L\u{ed}nea (3)"@, "L\u{ed}nea \u{b7} 3"@),
        Tool::Circle => ("C\u{ed}rculo (3)"@, "C\u{ed}rculo \u{b7} 3"@),
        Tool::Blur => ("Censurar (B)"@, "Censurar \u{b7} B"@),
        Tool::Picker => ("Gotero (I)"@, "Gotero \u{b7} I"@),
    }
}

/// The tooltip and the short label of a tool.
pub fn tool_info(tool: Tool) -> (r: (&'static str, &'static str))
    ensures
        (r.0@, r.1@) == tool_labels(tool),
{
    match tool {
        Tool::Select => ("Seleccionar (1)", "Seleccionar \u{b7} 1"),
        Tool::Pen => ("L\u{e1}piz (2)", "L\u{e1}piz \u{b7} 2"),
        Tool::Highlighter => ("Resaltar (2)", "Resaltar \u{b7} 2"),
        Tool::Rectangle => ("Rect\u{e1}ngulo (3)", "Rect\u{e1}ngulo \u{b7} 3"),
        Tool::Arrow => ("Flecha (3)", "Flecha \u{b7} 3"),
        Tool::Line => ("L\u{ed}nea (3)", "L\u{ed}nea \u{b7} 3"),
        Tool::Circle => ("C\u{ed}rculo (3)", "C\u{ed}rculo \u{b7} 3"),
        Tool::Blur => ("Censurar (B)", "Censurar \u{b7} B"),
        Tool::Picker => ("Gotero (I)", "Gotero \u{b7} I"),
    }
}

/// The greatest common divisor, by Euclid's recursion.
pub open spec fn gcd(a: nat, b: nat) -> nat
    decreases b,
{
    if b == 0 {
        a
    } else {
        gcd(b, a % b)
    }
}

pub proof fn lemma_gcd_positive(a: nat, b: nat)
    requires
        a > 0 || b > 0,
    ensures
        gcd(a, b) > 0,
    decreases b,
{
    if b > 0 {
        lemma_gcd_positive(b, a % b);
    }
}

/// `n` is a multiple of `d`.
pub open spec fn divides(d: nat, n: nat) -> bool {
    exists|k: nat| #[trigger] (k * d) == n
}

proof fn lemma_divides_mod(d: nat, a: nat, b: nat)
    requires
        b > 0,
        divides(d, a),
        divides(d, b),
    ensures
        divides(d, a % b),
{
    let ka = choose|k: nat| #[trigger] (k * d) == a;
    let kb = choose|k: nat| #[trigger] (k * d) == b;
    let q = a / b;
    assert(a == q * b + a % b) by (nonlinear_arith)
        requires
            b > 0,
            q == a / b,
    ;
    assert(q * b == (q * kb) * d) by (nonlinear_arith)
        requires
            b == kb * d,
    ;
    let qk: int = (q * kb) as int;
    assert((ka - qk) * d == ka * d - qk * d) by (nonlinear_arith);
    assert(a % b == (ka - q * kb) * d);
    if d > 0 {
        assert(ka - q * kb >= 0) by (nonlinear_arith)
            requires
                a % b == (ka - q * kb) * d,
                a % b >= 0,
                d > 0,
        ;
    } else {
        assert(a % b == 0) by (nonlinear_arith)
            requires
                a % b == (ka - q * kb) * d,
                d == 0,
        ;
        assert((0 as nat) * d == a % b);
    }
    let m: nat = if d > 0 {
        (ka - q * kb) as nat
    } else {
        0
    };
    assert(m * d == a % b);
}

proof fn lemma_divides_from_mod(d: nat, a: nat, b: nat)
    requires
        b > 0,
        divides(d, b),
        divides(d, a % b),
    ensures
        divides(d, a),
{
    let kb = choose|k: nat| #[trigger] (k * d) == b;
    let kr = choose|k: nat| #[trigger] (k * d) == a % b;
    let q = a / b;
    assert(a == q * b + a % b) by (nonlinear_arith)
        requires
            b > 0,
            q == a / b,
    ;
    assert(a == (q * kb + kr) * d) by (nonlinear_arith)
        requires
            a == q * b + a % b,
            b == kb * d,
            a % b == kr * d,
    ;
    let m: nat = q * kb + kr;
    assert(m * d == a);
}

/// `gcd(a, b)` divides both numbers, and every number that divides both divides it: it is
/// their greatest common divisor.
pub proof fn law_gcd_is_greatest_common_divisor(a: nat, b: nat, d: nat)
    ensures
        divides(gcd(a, b), a),
        divides(gcd(a, b), b),
        divides(d, a) && divides(d, b) ==> divides(d, gcd(a, b)),
    decreases b,
{
    if b == 0 {
        assert(1 * a == a);
        assert((0 as nat) * a == 0);
    } else {
        law_gcd_is_greatest_common_divisor(b, a % b, d);
        lemma_divides_from_mod(gcd(b, a % b), a, b);
        if divides(d, a) && divides(d, b) {
            lemma_divides_mod(d, a, b);
        }
    }
}

fn gcd_exec(a: u32, b: u32) -> (g: u32)
    ensures
        g == gcd(a as nat, b as nat),
{
    let mut x = a;
    let mut y = b;
    while y != 0
        invariant
            gcd(x as nat, y as nat) == gcd(a as nat, b as nat),
        decreases y,
    {
        let t = y;
        y = x % y;
        x = t;
    }
    x
}

/// `w × h`, the size of a selection.
pub open spec fn size_text(w: nat, h: nat) -> Seq<char> {
    decimal(w) + " \u{d7} "@ + decimal(h)
}

/// `size · a:b`.
pub open spec fn size_ratio_text(w: nat, h: nat, a: nat, b: nat) -> Seq<char> {
    size_text(w, h) + " \u{b7} "@ + decimal(a) + ":"@ + decimal(b)
}

/// The label of a `w` by `h` selection (in whole pixels): nothing for an empty selection;
/// the size and the common ratio it was matched to, if any; else the size and the reduced
/// ratio when both of its terms are at most 16; else the size alone.
pub open spec fn ratio_label(w: nat, h: nat, known: Option<(u32, u32)>) -> Seq<char> {
    if w == 0 || h == 0 {
        Seq::empty()
    } else {
        match known {
            Some((a, b)) => size_ratio_text(w, h, a as nat, b as nat),
            None => {
                let g = gcd(w, h);
                if w / g <= 16 && h / g <= 16 {
                    size_ratio_text(w, h, w / g, h / g)
                } else {
                    size_text(w, h)
                }
            },
        }
    }
}

/// The label shown beside a crop selection of `w` by `h` pixels; `known` is the common ratio
/// (such as 16:9) that the selection's proportions were found close to, if any.
pub fn aspect_ratio_label(w: u32, h: u32, known: Option<(u32, u32)>) -> (s: String)
    ensures
        s@ == ratio_label(w as nat, h as nat, known),
{
    if w == 0 || h == 0 {
        return String::new();
    }
    let mut out: Vec<char> = Vec::new();
    push_decimal(&mut out, w as u128);
    append_chars(&mut out, &str_to_chars(" \u{d7} "));
    push_decimal(&mut out, h as u128);
    let ratio = match known {
        Some((a, b)) => Some((a, b)),
        None => {
            let g = gcd_exec(w, h);
            proof {
                lemma_gcd_positive(w as nat, h as nat);
            }
            let rw = w / g;
            let rh = h / g;
            if rw <= 16 && rh <= 16 {
                Some((rw, rh))
            } else {
                None
            }
        },
    };
    match ratio {
        Some((a, b)) => {
            append_chars(&mut out, &str_to_chars(" \u{b7} "));
            push_decimal(&mut out, a as u128);
            out.push(':');
            push_decimal(&mut out, b as u128);
            assert(":"@ == seq![':']) by {
                reveal_strlit(":");
            }
        },
        None => {},
    }
    chars_to_string(&out)
}

// ----- the keyboard -----

/// What a key press in the editor does.
#[derive(Clone, Copy, PartialEq, Eq, Debug)]
pub enum EditorAction {
    Nothing,
    /// Select every recognised block.
    SelectAllBlocks,
    /// Copy the text of the selected blocks.
    CopySelectedBlocks,
    /// Copy the text of every block.
    CopyAllBlocks,
    Undo,
    Redo,
    /// Copy the image.
    Copy,
    /// Save the image.
    Save,
    /// Back to the whole image, not zoomed or moved.
    ResetZoom,
    CloseAbout,
    ClearBlockSelection,
    /// Leave text recognition, forgetting its blocks and selection.
    LeaveRecognition,
    /// Close the editor.
    Close,
    /// Take up a tool (leaving text recognition); `clear_preview` when the colour picker's
    /// preview is dropped too.
    UseTool { tool: Tool, clear_preview: bool },
    /// Recognise the text of the image.
    Recognize,
    /// The next thinner stroke width.
    ThinnerStroke,
    /// The next thicker stroke width.
    ThickerStroke,
}

/// What the editor is showing when a key is pressed.
#[derive(Clone, Copy, PartialEq, Eq, Debug)]
pub struct EditorView {
    /// Text recognition is active.
    pub recognizing: bool,
    /// Some recognised blocks are selected.
    pub blocks_selected: bool,
    /// The about panel is open.
    pub about_open: bool,
    /// The image is zoomed in (beyond 105%).
    pub zoomed: bool,
}

pub open spec fn is_key(key: Seq<char>, lower: Seq<char>, upper: Seq<char>) -> bool {
    key == lower || key == upper
}

/// The tool a plain key takes up, if any.
pub open spec fn tool_key(key: Seq<char>) -> Option<Tool> {
    if is_key(key, "p"@, "P"@) {
        Some(Tool::Pen)
    } else if is_key(key, "h"@, "H"@) {
        Some(Tool::Highlighter)
    } else if is_key(key, "a"@, "A"@) {
        Some(Tool::Arrow)
    } else if is_key(key, "r"@, "R"@) {
        Some(Tool::Rectangle)
    } else if is_key(key, "c"@, "C"@) {
        Some(Tool::Circle)
    } else if is_key(key, "b"@, "B"@) {
        Some(Tool::Blur)
    } else if is_key(key, "i"@, "I"@) {
        Some(Tool::Picker)
    } else {
        None
    }
}

/// The answer to a key press: whether the browser's default is prevented, and the action.
/// Ctrl stands for Ctrl or the Meta key.
pub open spec fn editor_key_response(
    key: Seq<char>,
    ctrl: bool,
    shift: bool,
    alt: bool,
    v: EditorView,
) -> (bool, EditorAction) {
    if ctrl && is_key(key, "a"@, "A"@) && v.recognizing {
        (true, EditorAction::SelectAllBlocks)
    } else if key == "Enter"@ && v.recognizing {
        (true, if v.blocks_selected { EditorAction::CopySelectedBlocks } else { EditorAction::CopyAllBlocks })
    } else if ctrl && is_key(key, "z"@, "Z"@) && !shift {
        (true, EditorAction::Undo)
    } else if (ctrl && is_key(key, "y"@, "Y"@)) || (ctrl && shift && is_key(key, "z"@, "Z"@)) {
        (true, EditorAction::Redo)
    } else if ctrl && is_key(key, "c"@, "C"@) {
        (true, EditorAction::Copy)
    } else if ctrl && is_key(key, "s"@, "S"@) {
        (true, EditorAction::Save)
    } else if ctrl && key == "0"@ {
        (true, EditorAction::ResetZoom)
    } else if key == "Escape"@ {
        (
            true,
            if v.about_open {
                EditorAction::CloseAbout
            } else if v.blocks_selected {
                EditorAction::ClearBlockSelection
            } else if v.recognizing {
                EditorAction::LeaveRecognition
            } else if v.zoomed {
                EditorAction::ResetZoom
            } else {
                EditorAction::Close
            },
        )
    } else if !ctrl && !alt {
        (
            false,
            match tool_key(key) {
                Some(t) => EditorAction::UseTool { tool: t, clear_preview: t != Tool::Picker },
                None => if is_key(key, "o"@, "O"@) {
                    EditorAction::Recognize
                } else if key == "["@ {
                    EditorAction::ThinnerStroke
                } else if key == "]"@ {
                    EditorAction::ThickerStroke
                } else {
                    EditorAction::Nothing
                },
            },
        )
    } else {
        (false, EditorAction::Nothing)
    }
}

fn key_is(key: &str, lower: &str, upper: &str) -> (b: bool)
    ensures
        b == is_key(key@, lower@, upper@),
{
    str_is(key, lower) || str_is(key, upper)
}

fn tool_for_key(key: &str) -> (t: Option<Tool>)
    ensures
        t == tool_key(key@),
{
    if key_is(key, "p", "P") {
        Some(Tool::Pen)
    } else if key_is(key, "h", "H") {
        Some(Tool::Highlighter)
    } else if key_is(key, "a", "A") {
        Some(Tool::Arrow)
    } else if key_is(key, "r", "R") {
        Some(Tool::Rectangle)
    } else if key_is(key, "c", "C") {
        Some(Tool::Circle)
    } else if key_is(key, "b", "B") {
        Some(Tool::Blur)
    } else if key_is(key, "i", "I") {
        Some(Tool::Picker)
    } else {
        None
    }
}

/// What a key press in the editor does, given what it shows; the first result tells whether
/// the browser's default is prevented.
pub fn editor_key(key: &str, ctrl: bool, shift: bool, alt: bool, v: EditorView) -> (r: (
    bool,
    EditorAction,
))
    ensures
        r == editor_key_response(key@, ctrl, shift, alt, v),
{
    if ctrl && key_is(key, "a", "A") && v.recognizing {
        (true, EditorAction::SelectAllBlocks)
    } else if str_is(key, "Enter") && v.recognizing {
        (true, if v.blocks_selected { EditorAction::CopySelectedBlocks } else { EditorAction::CopyAllBlocks })
    } else if ctrl && key_is(key, "z", "Z") && !shift {
        (true, EditorAction::Undo)
    } else if (ctrl && key_is(key, "y", "Y")) || (ctrl && shift && key_is(key, "z", "Z")) {
        (true, EditorAction::Redo)
    } else if ctrl && key_is(key, "c", "C") {
        (true, EditorAction::Copy)
    } else if ctrl && key_is(key, "s", "S") {
        (true, EditorAction::Save)
    } else if ctrl && str_is(key, "0") {
        (true, EditorAction::ResetZoom)
    } else if str_is(key, "Escape") {
        let a = if v.about_open {
            EditorAction::CloseAbout
        } else if v.blocks_selected {
            EditorAction::ClearBlockSelection
        } else if v.recognizing {
            EditorAction::LeaveRecognition
        } else if v.zoomed {
            EditorAction::ResetZoom
        } else {
            EditorAction::Close
        };
        (true, a)
    } else if !ctrl && !alt {
        let a = match tool_for_key(key) {
            Some(t) => EditorAction::UseTool {
                tool: t,
                clear_preview: match t {
                    Tool::Picker => false,
                    _ => true,
                },
            },
            None => if key_is(key, "o", "O") {
                EditorAction::Recognize
            } else if str_is(key, "[") {
                EditorAction::ThinnerStroke
            } else if str_is(key, "]") {
                EditorAction::ThickerStroke
            } else {
                EditorAction::Nothing
            },
        };
        (false, a)
    } else {
        (false, EditorAction::Nothing)
    }
}

} // verus!
