//! The screenshot flow: temporary files, the hold-to-select key protocol, the notification
//! answer and the steps of a capture.
//!
//! The key is bound twice: a press writes a token (`pid:millis`) to a lock file and, after
//! `HOLD_DELAY_MILLIS`, still finding its own token there, starts an area selection; a release
//! that finds a token written less than `TAP_WINDOW_MILLIS` ago takes it and captures the
//! focused screen instead.
use vstd::prelude::*;
use crate::text::{
    after_first, append_chars, chars_count, chars_equal_str, chars_to_string, count_char,
    decimal, digit_char, digits_value, all_digits, is_digit, parse_unsigned, parse_unsigned_chars,
    push_decimal, split_first, str_to_chars, trim, trim_chars, unsigned_digits, TrimSet,
};

verus! {

/// How long a press waits before it counts as a hold.
pub const HOLD_DELAY_MILLIS: u64 = 400;

/// A release this soon after the press counts as a tap.
pub const TAP_WINDOW_MILLIS: u128 = 600;

pub open spec fn temp_path_text(now_millis: nat) -> Seq<char> {
    "/tmp/screenshot_"@ + decimal(now_millis) + ".png"@
}

/// The temporary file a capture is written to, named after the current time in milliseconds.
pub fn generate_temp_path(now_millis: u128) -> (p: String)
    ensures
        p@ == temp_path_text(now_millis as nat),
{
    let mut out = str_to_chars("/tmp/screenshot_");
    push_decimal(&mut out, now_millis);
    let ext = str_to_chars(".png");
    append_chars(&mut out, &ext);
    chars_to_string(&out)
}

/// The lock file of the hold-to-select protocol.
pub fn get_hold_lock_path() -> (p: String)
    ensures
        p@ == "/tmp/glint_hold.lock"@,
{
    "/tmp/glint_hold.lock".to_string()
}

pub open spec fn hold_token_text(pid: nat, now_millis: nat) -> Seq<char> {
    decimal(pid) + seq![':'] + decimal(now_millis)
}

/// The token a key press writes to the lock file: `pid:millis`.
pub fn hold_token(pid: u32, now_millis: u128) -> (t: String)
    ensures
        t@ == hold_token_text(pid as nat, now_millis as nat),
{
    let mut out: Vec<char> = Vec::new();
    push_decimal(&mut out, pid as u128);
    out.push(':');
    push_decimal(&mut out, now_millis);
    assert(out@ == decimal(pid as nat) + seq![':'] + decimal(now_millis as nat));
    chars_to_string(&out)
}

/// Whether a press that wrote `token` still owns the lock after the hold delay, so that it
/// takes the lock and starts an area selection.
pub fn hold_confirmed(token: &str, lock_content: Option<String>) -> (b: bool)
    ensures
        b == match lock_content {
            Some(c) => c@ == token@,
            None => false,
        },
{
    match lock_content {
        Some(c) => {
            let cc = str_to_chars(c.as_str());
            chars_equal_str(&cc, token)
        },
        None => false,
    }
}

/// The press time a lock token records: the token must have exactly one `:`, and what follows
/// it must parse as an unsigned 128-bit number.
pub open spec fn token_press_time(token: Seq<char>) -> Option<nat> {
    if count_char(token, ':') == 1 {
        match after_first(token, ':') {
            Some(t) => parse_unsigned(t, u128::MAX as nat),
            None => None,
        }
    } else {
        None
    }
}

/// A release at `now` that finds `token` is a tap: the token records a press time no later
/// than now and less than `TAP_WINDOW_MILLIS` before it.
pub open spec fn is_tap(token: Seq<char>, now: nat) -> bool {
    match token_press_time(token) {
        Some(t) => t <= now && now - t < TAP_WINDOW_MILLIS,
        None => false,
    }
}

/// Whether a key release that finds `token` in the lock file at `now_millis` is a tap.
pub fn release_is_tap(token: &str, now_millis: u128) -> (b: bool)
    ensures
        b == is_tap(token@, now_millis as nat),
{
    let chars = str_to_chars(token);
    if chars_count(&chars, ':') != 1 {
        return false;
    }
    let (_, after) = split_first(&chars, ':');
    match after {
        None => false,
        Some(t) => match parse_unsigned_chars(&t, u128::MAX) {
            None => false,
            Some(press) => press <= now_millis && now_millis - press < TAP_WINDOW_MILLIS,
        },
    }
}

proof fn lemma_decimal_digits(n: nat)
    ensures
        all_digits(decimal(n)),
        decimal(n).len() > 0,
        digits_value(decimal(n)) == n,
    decreases n,
{
    if n >= 10 {
        lemma_decimal_digits(n / 10);
        let d = decimal(n);
        assert(d.drop_last() == decimal(n / 10));
        assert(d.last() == digit_char(n % 10));
        assert((digit_char(n % 10) as int) - ('0' as int) == n % 10);
        assert(n == (n / 10) * 10 + n % 10);
        assert(digits_value(d) == digits_value(d.drop_last()) * 10 + (n % 10));
        assert forall|k: int| 0 <= k < d.len() implies is_digit(#[trigger] d[k]) by {
            if k < d.len() - 1 {
                assert(d[k] == decimal(n / 10)[k]);
            }
        }
    } else {
        let d = decimal(n);
        assert(d.drop_last().len() == 0);
        assert((digit_char(n) as int) - ('0' as int) == n);
        assert(digits_value(d.drop_last()) == 0);
        assert(digits_value(d) == n);
    }
}

proof fn lemma_count_concat(a: Seq<char>, b: Seq<char>, c: char)
    ensures
        count_char(a + b, c) == count_char(a, c) + count_char(b, c),
    decreases b.len(),
{
    if b.len() == 0 {
        assert(a + b == a);
    } else {
        lemma_count_concat(a, b.drop_last(), c);
        assert((a + b).drop_last() == a + b.drop_last());
    }
}

proof fn lemma_no_colon_in_digits(s: Seq<char>)
    requires
        all_digits(s),
    ensures
        count_char(s, ':') == 0,
        after_first(s, ':') is None,
    decreases s.len(),
{
    if s.len() > 0 {
        assert(is_digit(s[s.len() - 1]));
        assert(is_digit(s[0]));
        assert forall|k: int| 0 <= k < s.drop_last().len() implies is_digit(
            #[trigger] s.drop_last()[k],
        ) by {
            assert(s.drop_last()[k] == s[k]);
        }
        assert forall|k: int| 0 <= k < s.drop_first().len() implies is_digit(
            #[trigger] s.drop_first()[k],
        ) by {
            assert(s.drop_first()[k] == s[k + 1]);
        }
        lemma_no_colon_in_digits(s.drop_last());
        lemma_no_colon_in_digits(s.drop_first());
    }
}

proof fn lemma_after_first_concat(a: Seq<char>, b: Seq<char>, c: char)
    requires
        after_first(a, c) is None,
    ensures
        after_first(a + b, c) == after_first(b, c),
    decreases a.len(),
{
    if a.len() > 0 {
        assert((a + b).drop_first() == a.drop_first() + b);
        lemma_after_first_concat(a.drop_first(), b, c);
    } else {
        assert(a + b == b);
    }
}

/// The press time a release reads back from a token that `hold_token` wrote at `t` is `t`
/// itself (whatever the process id), so `release_is_tap` compares the release with the
/// actual press time.
pub proof fn law_token_round_trip(pid: nat, t: nat)
    requires
        t <= u128::MAX,
    ensures
        token_press_time(hold_token_text(pid, t)) == Some(t),
{
    lemma_decimal_digits(pid);
    lemma_decimal_digits(t);
    lemma_no_colon_in_digits(decimal(pid));
    lemma_no_colon_in_digits(decimal(t));
    let s = hold_token_text(pid, t);
    lemma_count_concat(decimal(pid), seq![':'], ':');
    lemma_count_concat(decimal(pid) + seq![':'], decimal(t), ':');
    assert(seq![':'].drop_last().len() == 0);
    assert(count_char(seq![':'].drop_last(), ':') == 0);
    assert(seq![':'].last() == ':');
    assert(count_char(seq![':'], ':') == 1);
    lemma_after_first_concat(decimal(pid), seq![':'] + decimal(t), ':');
    assert(decimal(pid) + seq![':'] + decimal(t) == decimal(pid) + (seq![':'] + decimal(t)));
    assert((seq![':'] + decimal(t)).drop_first() == decimal(t));
    assert(decimal(t)[0] != '+') by {
        assert(is_digit(decimal(t)[0]));
    }
    assert(unsigned_digits(decimal(t)) == decimal(t));
}

/// The edit answer of the capture notification: `notify-send` prints the chosen action
/// (`edit`), its index, or `default` when the notification body is clicked.
pub open spec fn is_edit_answer(stdout: Seq<char>) -> bool {
    let t = trim(stdout, TrimSet::Space);
    t == "edit"@ || t == "0"@ || t == "default"@
}

/// The open answer of the saved-capture notification.
pub open spec fn is_open_answer(stdout: Seq<char>) -> bool {
    let t = trim(stdout, TrimSet::Space);
    t == "open"@ || t == "0"@ || t == "default"@
}

/// Whether the user asked the capture notification to open the editor.
pub fn notification_chose_edit(stdout: &str) -> (b: bool)
    ensures
        b == is_edit_answer(stdout@),
{
    let t = trim_chars(&str_to_chars(stdout), TrimSet::Space);
    chars_equal_str(&t, "edit") || chars_equal_str(&t, "0") || chars_equal_str(&t, "default")
}

/// Whether the user asked the saved-capture notification to open the folder.
pub fn notification_chose_open(stdout: &str) -> (b: bool)
    ensures
        b == is_open_answer(stdout@),
{
    let t = trim_chars(&str_to_chars(stdout), TrimSet::Space);
    chars_equal_str(&t, "open") || chars_equal_str(&t, "0") || chars_equal_str(&t, "default")
}

/// What kind of capture to take.
#[derive(Clone, Copy, PartialEq, Eq, Debug)]
pub enum CaptureMode {
    /// The focused screen.
    Full,
    /// An area the user selects.
    Area,
}

/// What the outside world reports to a capture in progress.
pub enum CaptureEvent {
    /// The capture starts now.
    Start { now_millis: u128 },
    /// The capture to `path` finished; `ok` when the image was written.
    Captured { path: String, ok: bool },
    /// The notification about `path` was answered with `stdout`.
    Notified { path: String, stdout: String },
}

/// What a capture in progress asks the outside world to do next.
pub enum CaptureAction {
    /// Take a capture of this kind into `path`.
    Capture { mode: CaptureMode, path: String },
    /// Copy `path` to the clipboard and show a notification offering to edit it.
    Notify { path: String, title: String, body: String },
    /// Open the editor on `path`.
    OpenEditor { path: String },
    /// Nothing more to do.
    Finish,
}

pub open spec fn notification_body(mode: CaptureMode) -> Seq<char> {
    match mode {
        CaptureMode::Full => "Pantalla completa en el portapapeles"@,
        CaptureMode::Area => "\u{00c1}rea guardada en el portapapeles"@,
    }
}

/// The step a capture of kind `mode` takes on `event`.
pub open spec fn capture_step_is(mode: CaptureMode, event: CaptureEvent, a: CaptureAction) -> bool {
    match event {
        CaptureEvent::Start { now_millis } => a matches CaptureAction::Capture { mode: m, path }
            && m == mode && path@ == temp_path_text(now_millis as nat),
        CaptureEvent::Captured { path, ok } => if ok {
            a matches CaptureAction::Notify { path: p, title, body } && p@ == path@ && title@
                == "Captura copiada"@ && body@ == notification_body(mode)
        } else {
            a is Finish
        },
        CaptureEvent::Notified { path, stdout } => if is_edit_answer(stdout@) {
            a matches CaptureAction::OpenEditor { path: p } && p@ == path@
        } else {
            a is Finish
        },
    }
}

/// One step of a capture: capture into a fresh temporary file; when that worked, copy it and
/// notify; when the user answers the notification with edit, open the editor.
pub fn capture_step(mode: CaptureMode, event: CaptureEvent) -> (a: CaptureAction)
    ensures
        capture_step_is(mode, event, a),
{
    match event {
        CaptureEvent::Start { now_millis } => CaptureAction::Capture {
            mode,
            path: generate_temp_path(now_millis),
        },
        CaptureEvent::Captured { path, ok } => {
            if ok {
                let body = match mode {
                    CaptureMode::Full => "Pantalla completa en el portapapeles".to_string(),
                    CaptureMode::Area => "\u{00c1}rea guardada en el portapapeles".to_string(),
                };
                CaptureAction::Notify { path, title: "Captura copiada".to_string(), body }
            } else {
                CaptureAction::Finish
            }
        },
        CaptureEvent::Notified { path, stdout } => {
            if notification_chose_edit(stdout.as_str()) {
                CaptureAction::OpenEditor { path }
            } else {
                CaptureAction::Finish
            }
        },
    }
}

/// One step of a capture of the focused screen.
pub fn run_full_capture(event: CaptureEvent) -> (a: CaptureAction)
    ensures
        capture_step_is(CaptureMode::Full, event, a),
{
    capture_step(CaptureMode::Full, event)
}

/// One step of a capture of a selected area.
pub fn run_area_capture(event: CaptureEvent) -> (a: CaptureAction)
    ensures
        capture_step_is(CaptureMode::Area, event, a),
{
    capture_step(CaptureMode::Area, event)
}

/// A release less than the hold delay after a press reads the token that press wrote as a
/// tap, since the hold delay is shorter than the tap window.
pub proof fn law_quick_release_is_tap(pid: nat, press: nat, release: nat)
    requires
        press <= release < press + HOLD_DELAY_MILLIS,
        press <= u128::MAX,
    ensures
        is_tap(hold_token_text(pid, press), release),
{
    law_token_round_trip(pid, press);
}

} // verus!
