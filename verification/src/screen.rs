//! Which desktop tools a capture runs, in what order, and what their answers mean.
//!
//! A capture tries the tools one after the other until one writes the image: the step
//! functions take the stage just run and what its command reported, and give the next
//! command or the final answer. The commands are run by the caller.
use vstd::prelude::*;
use crate::text::{
    append_chars, chars_to_string, decimal, parse_i32, parse_i32_chars, push_decimal,
    str_to_chars, trim, trim_chars, TrimSet,
};

verus! {

/// A program to run with its arguments.
pub struct Command {
    pub program: String,
    pub args: Vec<String>,
}

pub open spec fn string_views(v: Seq<String>) -> Seq<Seq<char>> {
    v.map_values(|a: String| a@)
}

/// The command line: the program followed by its arguments.
pub open spec fn command_line(c: Command) -> Seq<Seq<char>> {
    seq![c.program@] + string_views(c.args@)
}

/// What running a command reported.
pub struct CommandOutcome {
    /// The command could be started and waited for.
    pub ran: bool,
    /// It exited successfully.
    pub success: bool,
    /// What it printed (decoded lossily as UTF-8).
    pub stdout: String,
    /// The capture file exists afterwards.
    pub target_exists: bool,
}

/// A capture command wrote the image.
pub open spec fn wrote_image(o: CommandOutcome) -> bool {
    o.ran && o.success && o.target_exists
}

/// The stages of an area capture.
#[derive(Clone, Copy, PartialEq, Eq, Debug)]
pub enum AreaStage {
    SelectWithSlurp,
    GrimRegion,
    GnomeScreenshot,
    GnomeSelectArea,
    GnomeScreenshotArea,
    Maim,
    Scrot,
}

/// The stages of a capture of the focused screen.
#[derive(Clone, Copy, PartialEq, Eq, Debug)]
pub enum FullStage {
    HyprlandMonitors,
    SwayOutputs,
    GrimOutput,
    Grim,
    GnomeShell,
    GnomeScreenshot,
    Maim,
    Scrot,
}

/// What a capture does next.
pub enum CaptureStep<S> {
    /// Run `command`; it is stage `stage`.
    Run { stage: S, command: Command },
    /// The capture is over; `true` when the image was written.
    Done(bool),
}

/// A step, with its command taken as its command line.
pub enum StepView<S> {
    Run(S, Seq<Seq<char>>),
    Done(bool),
}

pub open spec fn step_view<S>(s: CaptureStep<S>) -> StepView<S> {
    match s {
        CaptureStep::Run { stage, command } => StepView::Run(stage, command_line(command)),
        CaptureStep::Done(b) => StepView::Done(b),
    }
}

pub open spec fn gdbus_call(method: Seq<char>, extra: Seq<Seq<char>>) -> Seq<Seq<char>> {
    seq![
        "gdbus"@,
        "call"@,
        "--session"@,
        "--dest"@,
        "org.gnome.Shell.Screenshot"@,
        "--object-path"@,
        "/org/gnome/Shell/Screenshot"@,
        "--method"@,
        method,
    ] + extra
}

/// The decimal text of an integer, with a `-` when it is negative.
pub open spec fn int_text(i: int) -> Seq<char> {
    if i < 0 {
        seq!['-'] + decimal((-i) as nat)
    } else {
        decimal(i as nat)
    }
}

// ----- the answer of `char::is_numeric` -----

/// Whether `char::is_numeric` holds of `c` (Unicode categories Nd, Nl and No).
pub uninterp spec fn numeric_char(c: char) -> bool;

/// `char::is_numeric`. The contract claims that the answer is the named property of the
/// character, that the ASCII digits have it and that no other ASCII character does; beyond
/// ASCII, which characters have it is left to the Unicode tables of std.
#[verifier::external_body]
fn char_is_numeric(c: char) -> (b: bool)
    ensures
        b == numeric_char(c),
        ('0' <= c && c <= '9') ==> b,
        ((c as u32) < 128 && !('0' <= c && c <= '9')) ==> !b,
{
    c.is_numeric()
}

/// Separates the numbers in the output of the GNOME area selection.
pub open spec fn is_number_separator(c: char) -> bool {
    !numeric_char(c) && c != '-'
}

/// The fields of `s` between separators (`str::split` with a character predicate):
/// there is always one more field than separators, and fields may be empty.
pub open spec fn number_fields(s: Seq<char>) -> Seq<Seq<char>>
    decreases s.len(),
{
    if s.len() == 0 {
        seq![seq![]]
    } else {
        let f = number_fields(s.drop_last());
        if is_number_separator(s.last()) {
            f.push(seq![])
        } else {
            f.update(f.len() - 1, f.last().push(s.last()))
        }
    }
}

proof fn lemma_number_fields_nonempty(s: Seq<char>)
    ensures
        number_fields(s).len() > 0,
    decreases s.len(),
{
    if s.len() > 0 {
        lemma_number_fields_nonempty(s.drop_last());
    }
}

/// The fields that parse as `i32`, parsed, in order.
pub open spec fn parsed_numbers(fields: Seq<Seq<char>>) -> Seq<int>
    decreases fields.len(),
{
    if fields.len() == 0 {
        seq![]
    } else {
        let p = parsed_numbers(fields.drop_last());
        match parse_i32(fields.last()) {
            Some(v) => p.push(v),
            None => p,
        }
    }
}

/// The area the GNOME selection answered with: its first four numbers `x, y, w, h`, when
/// there are at least four and the width and height are positive.
pub open spec fn selected_area(stdout: Seq<char>) -> Option<(int, int, int, int)> {
    let n = parsed_numbers(number_fields(stdout));
    if n.len() >= 4 && n[2] > 0 && n[3] > 0 {
        Some((n[0], n[1], n[2], n[3]))
    } else {
        None
    }
}

proof fn lemma_parsed_numbers_push(f: Seq<Seq<char>>, x: Seq<char>)
    ensures
        parsed_numbers(f.push(x)) == match parse_i32(x) {
            Some(v) => parsed_numbers(f).push(v),
            None => parsed_numbers(f),
        },
{
    assert(f.push(x).drop_last() == f);
}

/// Reads the selected area out of the output of the GNOME area selection.
pub fn selection_area(stdout: &str) -> (r: Option<(i32, i32, i32, i32)>)
    ensures
        match r {
            Some((x, y, w, h)) => selected_area(stdout@) == Some(
                (x as int, y as int, w as int, h as int),
            ),
            None => selected_area(stdout@) is None,
        },
{
    let s = str_to_chars(stdout);
    let mut nums: Vec<i32> = Vec::new();
    let mut cur: Vec<char> = Vec::new();
    let mut i: usize = 0;
    while i < s.len()
        invariant
            i <= s.len(),
            number_fields(s@.take(i as int)).len() > 0,
            cur@ == number_fields(s@.take(i as int)).last(),
            nums@.map_values(|v: i32| v as int) == parsed_numbers(
                number_fields(s@.take(i as int)).drop_last(),
            ),
        decreases s.len() - i,
    {
        let ghost before = number_fields(s@.take(i as int));
        assert(s@.take(i + 1).drop_last() == s@.take(i as int));
        assert(s@.take(i + 1).last() == s@[i as int]);
        let c = s[i];
        if !char_is_numeric(c) && c != '-' {
            let ghost done = before.drop_last();
            proof {
                lemma_parsed_numbers_push(done, cur@);
                assert(before.push(seq![]).drop_last() == done.push(cur@));
            }
            match parse_i32_chars(&cur) {
                Some(v) => {
                    nums.push(v);
                    assert(nums@.map_values(|v: i32| v as int) == parsed_numbers(done).push(
                        v as int,
                    ));
                },
                None => {},
            }
            cur = Vec::new();
        } else {
            proof {
                assert(before.update(before.len() - 1, before.last().push(c)).drop_last()
                    == before.drop_last());
            }
            cur.push(c);
        }
        i = i + 1;
    }
    assert(s@.take(s.len() as int) == s@);
    let ghost fields = number_fields(s@);
    proof {
        lemma_parsed_numbers_push(fields.drop_last(), cur@);
        assert(fields.drop_last().push(cur@) == fields);
    }
    match parse_i32_chars(&cur) {
        Some(v) => {
            nums.push(v);
            assert(nums@.map_values(|v: i32| v as int) == parsed_numbers(fields));
        },
        None => {},
    }
    let ghost n = parsed_numbers(fields);
    assert(nums@.len() == n.len());
    if nums.len() >= 4 && nums[2] > 0 && nums[3] > 0 {
        assert(n[0] == nums@[0] as int && n[1] == nums@[1] as int && n[2] == nums@[2] as int
            && n[3] == nums@[3] as int);
        Some((nums[0], nums[1], nums[2], nums[3]))
    } else {
        proof {
            if nums.len() >= 4 {
                assert(n[2] == nums@[2] as int && n[3] == nums@[3] as int);
            }
        }
        None
    }
}

// ----- the focused output, from the compositor's JSON -----

/// What the logic reads of one monitor in the compositor's JSON: its `focused` flag when that
/// is a boolean, and its `name` when that is a string.
pub struct MonitorEntry {
    pub focused: Option<bool>,
    pub name: Option<String>,
}

pub open spec fn monitor_view(m: MonitorEntry) -> (Option<bool>, Option<Seq<char>>) {
    (
        m.focused,
        match m.name {
            Some(n) => Some(n@),
            None => None,
        },
    )
}

pub open spec fn monitors_view(v: Seq<MonitorEntry>) -> Seq<(Option<bool>, Option<Seq<char>>)> {
    v.map_values(|m: MonitorEntry| monitor_view(m))
}

/// The monitors that `serde_json` reads out of `json`: `None` when the text is not JSON or
/// not a JSON array; otherwise, for each element, its `focused` boolean and `name` string.
pub uninterp spec fn json_monitors(json: Seq<char>) -> Option<Seq<(Option<bool>, Option<Seq<char>>)>>;

/// `serde_json::from_str::<serde_json::Value>`, then `as_array` and, for each element,
/// `get("focused").and_then(as_bool)` and `get("name").and_then(as_str)`. The contract claims
/// only that the outcome is the named reading of the text.
#[verifier::external_body]
fn read_monitors(json: &str) -> (r: Option<Vec<MonitorEntry>>)
    ensures
        json_monitors(json@) == match r {
            Some(v) => Some(monitors_view(v@)),
            None => None,
        },
{
    let value = serde_json::from_str::<serde_json::Value>(json).ok()?;
    let array = value.as_array()?;
    Some(array.iter().map(|m| MonitorEntry {
        focused: m.get("focused").and_then(|v| v.as_bool()),
        name: m.get("name").and_then(|v| v.as_str()).map(|s| s.to_string()),
    }).collect())
}

/// The name of the first monitor that is focused and has a name.
pub open spec fn first_focused(ms: Seq<(Option<bool>, Option<Seq<char>>)>) -> Option<Seq<char>>
    decreases ms.len(),
{
    if ms.len() == 0 {
        None
    } else if ms[0].0 == Some(true) && ms[0].1 is Some {
        ms[0].1
    } else {
        first_focused(ms.drop_first())
    }
}

/// The focused output named in the monitor list a compositor printed as JSON
/// (`hyprctl monitors -j`, `swaymsg -t get_outputs -r`).
pub open spec fn focused_output_of(json: Seq<char>) -> Option<Seq<char>> {
    match json_monitors(json) {
        Some(ms) => first_focused(ms),
        None => None,
    }
}

/// The name of the first monitor of `ms` that is focused and has a name.
pub fn first_focused_name(ms: &Vec<MonitorEntry>) -> (r: Option<String>)
    ensures
        match r {
            Some(n) => first_focused(monitors_view(ms@)) == Some(n@),
            None => first_focused(monitors_view(ms@)) is None,
        },
{
    let ghost all = monitors_view(ms@);
    let mut i: usize = 0;
    assert(all.skip(0) == all);
    while i < ms.len()
        invariant
            i <= ms@.len(),
            all == monitors_view(ms@),
            first_focused(all) == first_focused(all.skip(i as int)),
        decreases ms.len() - i,
    {
        let m = &ms[i];
        assert(all.skip(i as int)[0] == monitor_view(ms@[i as int]));
        assert(all.skip(i as int).drop_first() == all.skip(i + 1));
        match (&m.focused, &m.name) {
            (Some(true), Some(n)) => {
                let out = n.clone();
                assert(first_focused(all.skip(i as int)) == Some(n@));
                return Some(out);
            },
            _ => {},
        }
        i = i + 1;
    }
    None
}

/// The focused output in a compositor's JSON monitor list, if any.
pub fn focused_output(json: &str) -> (r: Option<String>)
    ensures
        match r {
            Some(n) => focused_output_of(json@) == Some(n@),
            None => focused_output_of(json@) is None,
        },
{
    match read_monitors(json) {
        Some(ms) => first_focused_name(&ms),
        None => None,
    }
}

// ----- the order in which the tools are tried -----

/// The text of an `i32`, as `to_string` writes it.
fn int_string(i: i32) -> (s: String)
    ensures
        s@ == int_text(i as int),
{
    let mut out: Vec<char> = Vec::new();
    if i < 0 {
        out.push('-');
        push_decimal(&mut out, (0 - (i as i64)) as u128);
    } else {
        push_decimal(&mut out, i as u128);
    }
    chars_to_string(&out)
}

fn command(program: &str, args: Vec<String>) -> (c: Command)
    ensures
        c.program@ == program@,
        c.args@ == args@,
{
    Command { program: program.to_string(), args }
}

fn gdbus_command(method: &str, mut extra: Vec<String>) -> (c: Command)
    ensures
        command_line(c) == gdbus_call(method@, string_views(extra@)),
{
    let mut args = vec![
        "call".to_string(),
        "--session".to_string(),
        "--dest".to_string(),
        "org.gnome.Shell.Screenshot".to_string(),
        "--object-path".to_string(),
        "/org/gnome/Shell/Screenshot".to_string(),
        "--method".to_string(),
        method.to_string(),
    ];
    let ghost head = args@;
    let ghost tail = extra@;
    args.append(&mut extra);
    let c = command("gdbus", args);
    assert(string_views(c.args@) =~= string_views(head) + string_views(tail));
    assert(command_line(c) =~= gdbus_call(method@, string_views(tail)));
    c
}

fn run<S>(stage: S, command: Command) -> (s: CaptureStep<S>)
    ensures
        step_view(s) == StepView::Run(stage, command_line(command)),
{
    CaptureStep::Run { stage, command }
}

/// The next step of an area capture into `path`, after the command of `stage` reported `o`:
/// select with `slurp` and grab the region with `grim`; else GNOME's `gnome-screenshot -a`;
/// else GNOME Shell's own area selection and area screenshot over D-Bus; else `maim -s`;
/// else `scrot -s`.
pub open spec fn area_next(stage: AreaStage, o: CommandOutcome, path: Seq<char>) -> StepView<AreaStage> {
    let gnome = StepView::Run(AreaStage::GnomeScreenshot, seq!["gnome-screenshot"@, "-a"@, "-f"@, path]);
    let maim = StepView::Run(AreaStage::Maim, seq!["maim"@, "-s"@, path]);
    match stage {
        AreaStage::SelectWithSlurp => {
            let geometry = trim(o.stdout@, TrimSet::Space);
            if o.ran && o.success && geometry.len() > 0 {
                StepView::Run(AreaStage::GrimRegion, seq!["grim"@, "-g"@, geometry, path])
            } else {
                gnome
            }
        },
        AreaStage::GrimRegion => if wrote_image(o) {
            StepView::Done(true)
        } else {
            gnome
        },
        AreaStage::GnomeScreenshot => if wrote_image(o) {
            StepView::Done(true)
        } else {
            StepView::Run(
                AreaStage::GnomeSelectArea,
                gdbus_call("org.gnome.Shell.Screenshot.SelectArea"@, seq![]),
            )
        },
        AreaStage::GnomeSelectArea => match selected_area(o.stdout@) {
            Some((x, y, w, h)) if o.ran && o.success => StepView::Run(
                AreaStage::GnomeScreenshotArea,
                gdbus_call(
                    "org.gnome.Shell.Screenshot.ScreenshotArea"@,
                    seq![int_text(x), int_text(y), int_text(w), int_text(h), "false"@, path],
                ),
            ),
            _ => maim,
        },
        AreaStage::GnomeScreenshotArea => if wrote_image(o) {
            StepView::Done(true)
        } else {
            maim
        },
        AreaStage::Maim => if wrote_image(o) {
            StepView::Done(true)
        } else {
            StepView::Run(AreaStage::Scrot, seq!["scrot"@, "-s"@, path])
        },
        AreaStage::Scrot => StepView::Done(wrote_image(o)),
    }
}

/// The first step of an area capture: let the user select with `slurp`.
pub fn area_capture_start() -> (s: CaptureStep<AreaStage>)
    ensures
        step_view(s) == StepView::Run(AreaStage::SelectWithSlurp, seq!["slurp"@]),
{
    let c = command("slurp", Vec::new());
    assert(command_line(c) =~= seq!["slurp"@]);
    run(AreaStage::SelectWithSlurp, c)
}

/// The next step of an area capture into `path` (what `capture_area_image` tries, in order).
pub fn area_capture_next(stage: AreaStage, o: CommandOutcome, path: &str) -> (s: CaptureStep<AreaStage>)
    ensures
        step_view(s) == area_next(stage, o, path@),
{
    let wrote = o.ran && o.success && o.target_exists;
    match stage {
        AreaStage::SelectWithSlurp => {
            let geometry = trim_chars(&str_to_chars(o.stdout.as_str()), TrimSet::Space);
            if o.ran && o.success && geometry.len() > 0 {
                let c = command("grim", vec!["-g".to_string(), chars_to_string(&geometry), path.to_string()]);
                assert(command_line(c) =~= seq!["grim"@, "-g"@, geometry@, path@]);
                run(AreaStage::GrimRegion, c)
            } else {
                area_gnome(path)
            }
        },
        AreaStage::GrimRegion => if wrote {
            CaptureStep::Done(true)
        } else {
            area_gnome(path)
        },
        AreaStage::GnomeScreenshot => if wrote {
            CaptureStep::Done(true)
        } else {
            let c = gdbus_command("org.gnome.Shell.Screenshot.SelectArea", Vec::new());
            assert(string_views(Seq::<String>::empty()) =~= seq![]);
            run(AreaStage::GnomeSelectArea, c)
        },
        AreaStage::GnomeSelectArea => {
            let area = selection_area(o.stdout.as_str());
            match area {
                Some((x, y, w, h)) => {
                    if o.ran && o.success {
                        let extra = vec![
                            int_string(x),
                            int_string(y),
                            int_string(w),
                            int_string(h),
                            "false".to_string(),
                            path.to_string(),
                        ];
                        let ghost ev = extra@;
                        let c = gdbus_command("org.gnome.Shell.Screenshot.ScreenshotArea", extra);
                        assert(string_views(ev) =~= seq![
                            int_text(x as int),
                            int_text(y as int),
                            int_text(w as int),
                            int_text(h as int),
                            "false"@,
                            path@,
                        ]);
                        run(AreaStage::GnomeScreenshotArea, c)
                    } else {
                        area_maim(path)
                    }
                },
                None => area_maim(path),
            }
        },
        AreaStage::GnomeScreenshotArea => if wrote {
            CaptureStep::Done(true)
        } else {
            area_maim(path)
        },
        AreaStage::Maim => if wrote {
            CaptureStep::Done(true)
        } else {
            let c = command("scrot", vec!["-s".to_string(), path.to_string()]);
            assert(command_line(c) =~= seq!["scrot"@, "-s"@, path@]);
            run(AreaStage::Scrot, c)
        },
        AreaStage::Scrot => CaptureStep::Done(wrote),
    }
}

fn area_gnome(path: &str) -> (s: CaptureStep<AreaStage>)
    ensures
        step_view(s) == StepView::Run(
            AreaStage::GnomeScreenshot,
            seq!["gnome-screenshot"@, "-a"@, "-f"@, path@],
        ),
{
    let c = command("gnome-screenshot", vec!["-a".to_string(), "-f".to_string(), path.to_string()]);
    assert(command_line(c) =~= seq!["gnome-screenshot"@, "-a"@, "-f"@, path@]);
    run(AreaStage::GnomeScreenshot, c)
}

fn area_maim(path: &str) -> (s: CaptureStep<AreaStage>)
    ensures
        step_view(s) == StepView::Run(AreaStage::Maim, seq!["maim"@, "-s"@, path@]),
{
    let c = command("maim", vec!["-s".to_string(), path.to_string()]);
    assert(command_line(c) =~= seq!["maim"@, "-s"@, path@]);
    run(AreaStage::Maim, c)
}

/// The next step of a capture of the focused screen into `path`, after the command of
/// `stage` reported `o`: find the focused output through Hyprland, else through Sway, and
/// grab it with `grim -o`; else `grim` on the whole desktop; else GNOME Shell's screenshot
/// over D-Bus; else `gnome-screenshot`; else `maim`; else `scrot`.
pub open spec fn full_next(stage: FullStage, o: CommandOutcome, path: Seq<char>) -> StepView<FullStage> {
    let grim = StepView::Run(FullStage::Grim, seq!["grim"@, path]);
    let focused = if o.ran && o.success {
        focused_output_of(o.stdout@)
    } else {
        None
    };
    match stage {
        FullStage::HyprlandMonitors => match focused {
            Some(name) => StepView::Run(FullStage::GrimOutput, seq!["grim"@, "-o"@, name, path]),
            None => StepView::Run(
                FullStage::SwayOutputs,
                seq!["swaymsg"@, "-t"@, "get_outputs"@, "-r"@],
            ),
        },
        FullStage::SwayOutputs => match focused {
            Some(name) => StepView::Run(FullStage::GrimOutput, seq!["grim"@, "-o"@, name, path]),
            None => grim,
        },
        FullStage::GrimOutput => if wrote_image(o) {
            StepView::Done(true)
        } else {
            grim
        },
        FullStage::Grim => if wrote_image(o) {
            StepView::Done(true)
        } else {
            StepView::Run(
                FullStage::GnomeShell,
                gdbus_call(
                    "org.gnome.Shell.Screenshot.Screenshot"@,
                    seq!["true"@, "false"@, path],
                ),
            )
        },
        FullStage::GnomeShell => if wrote_image(o) {
            StepView::Done(true)
        } else {
            StepView::Run(FullStage::GnomeScreenshot, seq!["gnome-screenshot"@, "-f"@, path])
        },
        FullStage::GnomeScreenshot => if wrote_image(o) {
            StepView::Done(true)
        } else {
            StepView::Run(FullStage::Maim, seq!["maim"@, path])
        },
        FullStage::Maim => if wrote_image(o) {
            StepView::Done(true)
        } else {
            StepView::Run(FullStage::Scrot, seq!["scrot"@, path])
        },
        FullStage::Scrot => StepView::Done(wrote_image(o)),
    }
}

/// The first step of a capture of the focused screen: ask Hyprland for its monitors.
pub fn full_capture_start() -> (s: CaptureStep<FullStage>)
    ensures
        step_view(s) == StepView::Run(
            FullStage::HyprlandMonitors,
            seq!["hyprctl"@, "monitors"@, "-j"@],
        ),
{
    let c = command("hyprctl", vec!["monitors".to_string(), "-j".to_string()]);
    assert(command_line(c) =~= seq!["hyprctl"@, "monitors"@, "-j"@]);
    run(FullStage::HyprlandMonitors, c)
}

fn full_simple(stage: FullStage, program: &str, path: &str) -> (s: CaptureStep<FullStage>)
    ensures
        step_view(s) == StepView::Run(stage, seq![program@, path@]),
{
    let c = command(program, vec![path.to_string()]);
    assert(command_line(c) =~= seq![program@, path@]);
    run(stage, c)
}

fn full_grim_output(name: String, path: &str) -> (s: CaptureStep<FullStage>)
    ensures
        step_view(s) == StepView::Run(FullStage::GrimOutput, seq!["grim"@, "-o"@, name@, path@]),
{
    let ghost n = name@;
    let c = command("grim", vec!["-o".to_string(), name, path.to_string()]);
    assert(command_line(c) =~= seq!["grim"@, "-o"@, n, path@]);
    run(FullStage::GrimOutput, c)
}

/// The next step of a capture of the focused screen into `path` (what `capture_full_image`
/// tries, in order).
pub fn full_capture_next(stage: FullStage, o: CommandOutcome, path: &str) -> (s: CaptureStep<FullStage>)
    ensures
        step_view(s) == full_next(stage, o, path@),
{
    let wrote = o.ran && o.success && o.target_exists;
    let focused = if o.ran && o.success {
        focused_output(o.stdout.as_str())
    } else {
        None
    };
    match stage {
        FullStage::HyprlandMonitors => match focused {
            Some(name) => full_grim_output(name, path),
            None => {
                let c = command(
                    "swaymsg",
                    vec!["-t".to_string(), "get_outputs".to_string(), "-r".to_string()],
                );
                assert(command_line(c) =~= seq!["swaymsg"@, "-t"@, "get_outputs"@, "-r"@]);
                run(FullStage::SwayOutputs, c)
            },
        },
        FullStage::SwayOutputs => match focused {
            Some(name) => full_grim_output(name, path),
            None => full_simple(FullStage::Grim, "grim", path),
        },
        FullStage::GrimOutput => if wrote {
            CaptureStep::Done(true)
        } else {
            full_simple(FullStage::Grim, "grim", path)
        },
        FullStage::Grim => if wrote {
            CaptureStep::Done(true)
        } else {
            let extra = vec!["true".to_string(), "false".to_string(), path.to_string()];
            let ghost ev = extra@;
            let c = gdbus_command("org.gnome.Shell.Screenshot.Screenshot", extra);
            assert(string_views(ev) =~= seq!["true"@, "false"@, path@]);
            run(FullStage::GnomeShell, c)
        },
        FullStage::GnomeShell => if wrote {
            CaptureStep::Done(true)
        } else {
            let c = command("gnome-screenshot", vec!["-f".to_string(), path.to_string()]);
            assert(command_line(c) =~= seq!["gnome-screenshot"@, "-f"@, path@]);
            run(FullStage::GnomeScreenshot, c)
        },
        FullStage::GnomeScreenshot => if wrote {
            CaptureStep::Done(true)
        } else {
            full_simple(FullStage::Maim, "maim", path)
        },
        FullStage::Maim => if wrote {
            CaptureStep::Done(true)
        } else {
            full_simple(FullStage::Scrot, "scrot", path)
        },
        FullStage::Scrot => CaptureStep::Done(wrote),
    }
}

// ----- copying to the clipboard -----

/// The tools a copy to the clipboard tries: Wayland's `wl-copy`, then X11's `xclip`.
#[derive(Clone, Copy, PartialEq, Eq, Debug)]
pub enum CopyStage {
    WlCopy,
    Xclip,
}

/// What a copy to the clipboard does next. The data to copy goes to the command's input.
pub enum CopyStep {
    /// Run `command`; it is stage `stage`.
    Run { stage: CopyStage, command: Command },
    /// The copy is over.
    Done(Result<(), String>),
}

/// A copy step, with its command taken as its command line and its error as text.
pub enum CopyView {
    Run(CopyStage, Seq<Seq<char>>),
    Done(Result<(), Seq<char>>),
}

pub open spec fn copy_view(s: CopyStep) -> CopyView {
    match s {
        CopyStep::Run { stage, command } => CopyView::Run(stage, command_line(command)),
        CopyStep::Done(r) => CopyView::Done(
            match r {
                Ok(()) => Ok(()),
                Err(e) => Err(e@),
            },
        ),
    }
}

/// The command line of a copy stage; an image is announced as `image/png`.
pub open spec fn copy_command_line(stage: CopyStage, image: bool) -> Seq<Seq<char>> {
    match stage {
        CopyStage::WlCopy => if image {
            seq!["wl-copy"@, "--type"@, "image/png"@]
        } else {
            seq!["wl-copy"@]
        },
        CopyStage::Xclip => if image {
            seq!["xclip"@, "-selection"@, "clipboard"@, "-t"@, "image/png"@]
        } else {
            seq!["xclip"@, "-selection"@, "clipboard"@]
        },
    }
}

/// The error when no tool could copy.
pub open spec fn copy_failure(image: bool) -> Seq<char> {
    if image {
        "No se pudo copiar la imagen al portapapeles"@
    } else {
        "No se pudo copiar el texto al portapapeles"@
    }
}

/// The next step of a copy after the command of `stage` reported `success` (it was started,
/// took the data and exited successfully): done on success, else the next tool, else the error.
pub open spec fn copy_next_view(stage: CopyStage, image: bool, success: bool) -> CopyView {
    if success {
        CopyView::Done(Ok(()))
    } else {
        match stage {
            CopyStage::WlCopy => CopyView::Run(CopyStage::Xclip, copy_command_line(CopyStage::Xclip, image)),
            CopyStage::Xclip => CopyView::Done(Err(copy_failure(image))),
        }
    }
}

fn copy_run(stage: CopyStage, image: bool) -> (s: CopyStep)
    ensures
        copy_view(s) == CopyView::Run(stage, copy_command_line(stage, image)),
{
    let c = match stage {
        CopyStage::WlCopy => if image {
            command("wl-copy", vec!["--type".to_string(), "image/png".to_string()])
        } else {
            command("wl-copy", Vec::new())
        },
        CopyStage::Xclip => if image {
            command(
                "xclip",
                vec![
                    "-selection".to_string(),
                    "clipboard".to_string(),
                    "-t".to_string(),
                    "image/png".to_string(),
                ],
            )
        } else {
            command("xclip", vec!["-selection".to_string(), "clipboard".to_string()])
        },
    };
    assert(command_line(c) =~= copy_command_line(stage, image));
    CopyStep::Run { stage, command: c }
}

/// The first step of copying an image (`image`) or a text to the clipboard.
pub fn copy_start(image: bool) -> (s: CopyStep)
    ensures
        copy_view(s) == CopyView::Run(CopyStage::WlCopy, copy_command_line(CopyStage::WlCopy, image)),
{
    copy_run(CopyStage::WlCopy, image)
}

/// The next step of a copy to the clipboard.
pub fn copy_next(stage: CopyStage, image: bool, success: bool) -> (s: CopyStep)
    ensures
        copy_view(s) == copy_next_view(stage, image, success),
{
    if success {
        return CopyStep::Done(Ok(()));
    }
    match stage {
        CopyStage::WlCopy => copy_run(CopyStage::Xclip, image),
        CopyStage::Xclip => {
            let m = if image {
                "No se pudo copiar la imagen al portapapeles".to_string()
            } else {
                "No se pudo copiar el texto al portapapeles".to_string()
            };
            CopyStep::Done(Err(m))
        },
    }
}

// ----- notifications and the desktop's opener -----

/// The notification after a capture: it shows the image and offers to edit it.
pub open spec fn capture_notification_line(path: Seq<char>, title: Seq<char>, body: Seq<char>) -> Seq<
    Seq<char>,
> {
    seq![
        "notify-send"@,
        "-a"@,
        "Glint"@,
        "-i"@,
        path,
        "-A"@,
        "edit=Editar"@,
        "-t"@,
        "5000"@,
        title,
        body,
    ]
}

/// The `notify-send` command announcing the capture in `path`.
pub fn capture_notification(path: &str, title: &str, body: &str) -> (c: Command)
    ensures
        command_line(c) == capture_notification_line(path@, title@, body@),
{
    let c = command(
        "notify-send",
        vec![
            "-a".to_string(),
            "Glint".to_string(),
            "-i".to_string(),
            path.to_string(),
            "-A".to_string(),
            "edit=Editar".to_string(),
            "-t".to_string(),
            "5000".to_string(),
            title.to_string(),
            body.to_string(),
        ],
    );
    assert(command_line(c) =~= capture_notification_line(path@, title@, body@));
    c
}

/// The notification after the editor saved a capture: it offers to open the folder.
pub open spec fn saved_notification_line(target: Seq<char>, filename: Seq<char>) -> Seq<Seq<char>> {
    seq![
        "notify-send"@,
        "-a"@,
        "nil-shot"@,
        "-i"@,
        target,
        "-A"@,
        "open=Abrir"@,
        "Captura guardada"@,
        filename,
    ]
}

/// The `notify-send` command announcing the saved file `target`, named `filename`.
pub fn saved_notification(target: &str, filename: &str) -> (c: Command)
    ensures
        command_line(c) == saved_notification_line(target@, filename@),
{
    let c = command(
        "notify-send",
        vec![
            "-a".to_string(),
            "nil-shot".to_string(),
            "-i".to_string(),
            target.to_string(),
            "-A".to_string(),
            "open=Abrir".to_string(),
            "Captura guardada".to_string(),
            filename.to_string(),
        ],
    );
    assert(command_line(c) =~= saved_notification_line(target@, filename@));
    c
}

/// The desktop's opener (`xdg-open`) on a folder or an address.
pub fn open_with_desktop(target: &str) -> (c: Command)
    ensures
        command_line(c) == seq!["xdg-open"@, target@],
{
    let c = command("xdg-open", vec![target.to_string()]);
    assert(command_line(c) =~= seq!["xdg-open"@, target@]);
    c
}

// ----- every capture ends -----

/// The position of a stage in the order an area capture tries them.
pub open spec fn area_rank(s: AreaStage) -> nat {
    match s {
        AreaStage::SelectWithSlurp => 0,
        AreaStage::GrimRegion => 1,
        AreaStage::GnomeScreenshot => 2,
        AreaStage::GnomeSelectArea => 3,
        AreaStage::GnomeScreenshotArea => 4,
        AreaStage::Maim => 5,
        AreaStage::Scrot => 6,
    }
}

/// The position of a stage in the order a capture of the focused screen tries them.
pub open spec fn full_rank(s: FullStage) -> nat {
    match s {
        FullStage::HyprlandMonitors => 0,
        FullStage::SwayOutputs => 1,
        FullStage::GrimOutput => 2,
        FullStage::Grim => 3,
        FullStage::GnomeShell => 4,
        FullStage::GnomeScreenshot => 5,
        FullStage::Maim => 6,
        FullStage::Scrot => 7,
    }
}

/// A capture only moves forward through its tools, whatever each one reports, and the last
/// tool always ends it: an area capture runs at most seven commands, a capture of the focused
/// screen at most eight, a copy to the clipboard at most two.
pub proof fn law_captures_move_forward(
    a: AreaStage,
    f: FullStage,
    c: CopyStage,
    image: bool,
    success: bool,
    o: CommandOutcome,
    path: Seq<char>,
)
    ensures
        area_next(a, o, path) matches StepView::Run(n, _) ==> area_rank(n) > area_rank(a),
        area_next(AreaStage::Scrot, o, path) is Done,
        full_next(f, o, path) matches StepView::Run(n, _) ==> full_rank(n) > full_rank(f),
        full_next(FullStage::Scrot, o, path) is Done,
        copy_next_view(c, image, success) matches CopyView::Run(n, _) ==> c == CopyStage::WlCopy
            && n == CopyStage::Xclip,
        copy_next_view(CopyStage::Xclip, image, success) is Done,
{
}

/// A capture ends in success exactly when a capture tool wrote the image: at every stage that
/// runs a capture tool (not a selection or a query of the outputs), a tool that ran, succeeded
/// and left the file ends the capture with success; and a capture ends only after a capture
/// tool, with success exactly when that tool ran, succeeded and left the file.
pub proof fn law_capture_done_when_written(
    a: AreaStage,
    f: FullStage,
    o: CommandOutcome,
    path: Seq<char>,
)
    ensures
        a != AreaStage::SelectWithSlurp && a != AreaStage::GnomeSelectArea && o.ran && o.success
            && o.target_exists ==> area_next(a, o, path) == StepView::<AreaStage>::Done(true),
        area_next(a, o, path) matches StepView::Done(b) ==> a != AreaStage::SelectWithSlurp
            && a != AreaStage::GnomeSelectArea && (b <==> (o.ran && o.success && o.target_exists)),
        f != FullStage::HyprlandMonitors && f != FullStage::SwayOutputs && o.ran && o.success
            && o.target_exists ==> full_next(f, o, path) == StepView::<FullStage>::Done(true),
        full_next(f, o, path) matches StepView::Done(b) ==> f != FullStage::HyprlandMonitors
            && f != FullStage::SwayOutputs && (b <==> (o.ran && o.success && o.target_exists)),
{
}

// ----- watching the clipboard -----

/// The two `wl-paste` watchers of the clipboard daemon: one hands every new text to
/// `exe --add-stdin`, the other every new PNG image to `exe --add-stdin-img`.
pub open spec fn watcher_lines(exe: Seq<char>) -> (Seq<Seq<char>>, Seq<Seq<char>>) {
    (
        seq!["wl-paste"@, "--watch"@, exe, "--add-stdin"@],
        seq!["wl-paste"@, "--type"@, "image/png"@, "--watch"@, exe, "--add-stdin-img"@],
    )
}

/// The watcher commands of the clipboard daemon running as `exe`.
pub fn clipboard_watchers(exe: &str) -> (r: (Command, Command))
    ensures
        (command_line(r.0), command_line(r.1)) == watcher_lines(exe@),
{
    let t = command("wl-paste", vec!["--watch".to_string(), exe.to_string(), "--add-stdin".to_string()]);
    let i = command(
        "wl-paste",
        vec![
            "--type".to_string(),
            "image/png".to_string(),
            "--watch".to_string(),
            exe.to_string(),
            "--add-stdin-img".to_string(),
        ],
    );
    assert(command_line(t) =~= watcher_lines(exe@).0);
    assert(command_line(i) =~= watcher_lines(exe@).1);
    (t, i)
}

/// When the watchers cannot start, the daemon polls the clipboard: `wl-paste -n`, or
/// `xclip -selection clipboard -o` when `wl-paste` cannot run.
pub fn clipboard_readers() -> (r: (Command, Command))
    ensures
        command_line(r.0) == seq!["wl-paste"@, "-n"@],
        command_line(r.1) == seq!["xclip"@, "-selection"@, "clipboard"@, "-o"@],
{
    let w = command("wl-paste", vec!["-n".to_string()]);
    let x = command("xclip", vec!["-selection".to_string(), "clipboard".to_string(), "-o".to_string()]);
    assert(command_line(w) =~= seq!["wl-paste"@, "-n"@]);
    assert(command_line(x) =~= seq!["xclip"@, "-selection"@, "clipboard"@, "-o"@]);
    (w, x)
}

} // verus!
