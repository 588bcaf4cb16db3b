//! The screenshot editor's backend: command line, settings, image files and links.
use vstd::prelude::*;
use crate::detect::{http_prefix, https_prefix};
use crate::encoding::{decode_image_data, image_data_result};
use crate::paths::{join_path, joined, save_dir, save_dir_text};
use crate::text::{
    append_chars, chars_contain, chars_start_with, chars_to_string, contains_seq, decimal,
    lemma_trim_clean, lemma_trim_ends, lowercase, push_decimal, starts_with, str_is, str_to_chars,
    to_lowercase, trim, trim_chars, TrimSet,
};

verus! {

/// The editor's settings.
pub struct Config {
    /// Open the editor after a capture when the notification is answered.
    pub open_editor: bool,
}

impl Default for Config {
    fn default() -> (c: Self)
        ensures
            c.open_editor,
    {
        Config { open_editor: true }
    }
}

/// The settings the editor asks to save: opening the editor is on unless it says otherwise.
pub fn config_from_request(open_editor: Option<bool>) -> (c: Config)
    ensures
        c.open_editor == match open_editor {
            Some(b) => b,
            None => true,
        },
{
    Config {
        open_editor: match open_editor {
            Some(b) => b,
            None => true,
        },
    }
}

/// What the screenshot program was asked to do on its command line.
pub enum ShotMode {
    /// Open the editor on an existing image file.
    OpenImage(String),
    /// The capture key went down.
    Press,
    /// The capture key went up.
    Release,
    /// Capture the focused screen.
    Full,
    /// Capture a selected area.
    Area,
    /// Open the editor, on the given image if any.
    Edit(Option<String>),
}

pub open spec fn arg_is(args: Seq<String>, i: int, lit: Seq<char>) -> bool {
    i < args.len() && args[i]@ == lit
}

/// The mode for the arguments `args` (the program name first); `first_is_file` tells whether
/// the first argument names an existing file.
pub open spec fn mode_is(args: Seq<String>, first_is_file: bool, m: ShotMode) -> bool {
    if args.len() > 1 && first_is_file {
        m matches ShotMode::OpenImage(p) && p@ == args[1]@
    } else if arg_is(args, 1, "--press"@) {
        m is Press
    } else if arg_is(args, 1, "--release"@) {
        m is Release
    } else if arg_is(args, 1, "--full"@) || arg_is(args, 1, "-f"@) {
        m is Full
    } else if arg_is(args, 1, "--edit"@) || arg_is(args, 1, "-e"@) {
        m matches ShotMode::Edit(p) && if args.len() > 2 {
            p matches Some(q) && q@ == args[2]@
        } else {
            p is None
        }
    } else {
        m is Area
    }
}

/// Reads the command line of the screenshot program. Without arguments, and with any
/// argument it does not know, it captures an area.
pub fn select_mode(args: &Vec<String>, first_is_file: bool) -> (m: ShotMode)
    ensures
        mode_is(args@, first_is_file, m),
{
    if args.len() > 1 && first_is_file {
        return ShotMode::OpenImage(args[1].clone());
    }
    if args.len() <= 1 {
        return ShotMode::Area;
    }
    let a = args[1].as_str();
    if str_is(a, "--press") {
        ShotMode::Press
    } else if str_is(a, "--release") {
        ShotMode::Release
    } else if str_is(a, "--full") || str_is(a, "-f") {
        ShotMode::Full
    } else if str_is(a, "--edit") || str_is(a, "-e") {
        if args.len() > 2 {
            ShotMode::Edit(Some(args[2].clone()))
        } else {
            ShotMode::Edit(None)
        }
    } else {
        ShotMode::Area
    }
}

/// The PNG file signature.
pub open spec fn png_signature() -> Seq<u8> {
    seq![0x89u8, 0x50u8, 0x4eu8, 0x47u8, 0x0du8, 0x0au8, 0x1au8, 0x0au8]
}

/// The big-endian `u32` at position `i`.
pub open spec fn be_u32(b: Seq<u8>, i: int) -> nat {
    (b[i] as nat) * 0x100_0000 + (b[i + 1] as nat) * 0x1_0000 + (b[i + 2] as nat) * 0x100 + (
    b[i + 3] as nat)
}

/// The size an image opens with: the width and height of a PNG header, or 960 by 600 when
/// the file could not be read or is no PNG.
pub open spec fn png_size(bytes: Option<Seq<u8>>) -> (nat, nat) {
    match bytes {
        Some(b) => if b.len() >= 24 && b.take(8) == png_signature() {
            (be_u32(b, 16), be_u32(b, 20))
        } else {
            (960, 600)
        },
        None => (960, 600),
    }
}

fn be_u32_at(b: &Vec<u8>, i: usize) -> (v: u32)
    requires
        i + 4 <= b.len(),
    ensures
        v as nat == be_u32(b@, i as int),
{
    let v = (b[i] as u32) * 0x100_0000 + (b[i + 1] as u32) * 0x1_0000 + (b[i + 2] as u32) * 0x100
        + (b[i + 3] as u32);
    v
}

/// The width and height of a PNG image, read from its header, given the file's bytes if it
/// could be read.
pub fn png_dimensions(bytes: Option<Vec<u8>>) -> (r: (u32, u32))
    ensures
        (r.0 as nat, r.1 as nat) == png_size(
            match bytes {
                Some(b) => Some(b@),
                None => None,
            },
        ),
{
    match bytes {
        Some(b) => {
            if b.len() >= 24 && b[0] == 0x89 && b[1] == 0x50 && b[2] == 0x4e && b[3] == 0x47 && b[4]
                == 0x0d && b[5] == 0x0a && b[6] == 0x1a && b[7] == 0x0a {
                assert(b@.take(8) =~= png_signature());
                (be_u32_at(&b, 16), be_u32_at(&b, 20))
            } else {
                proof {
                    if b@.len() >= 24 && b@.take(8) == png_signature() {
                        assert(b@.take(8)[0] == b@[0]);
                        assert(b@.take(8)[1] == b@[1]);
                        assert(b@.take(8)[2] == b@[2]);
                        assert(b@.take(8)[3] == b@[3]);
                        assert(b@.take(8)[4] == b@[4]);
                        assert(b@.take(8)[5] == b@[5]);
                        assert(b@.take(8)[6] == b@[6]);
                        assert(b@.take(8)[7] == b@[7]);
                    }
                }
                (960, 600)
            }
        },
        None => (960, 600),
    }
}

pub open spec fn screenshot_file_name(ts_secs: nat) -> Seq<char> {
    "screenshot_"@ + decimal(ts_secs) + ".png"@
}

/// The file name a saved capture gets, from the time it was saved in seconds.
pub fn screenshot_filename(ts_secs: u64) -> (f: String)
    ensures
        f@ == screenshot_file_name(ts_secs as nat),
{
    let mut out = str_to_chars("screenshot_");
    push_decimal(&mut out, ts_secs as u128);
    append_chars(&mut out, &str_to_chars(".png"));
    chars_to_string(&out)
}

/// The address a link from the text recognition opens: the trimmed link, with `https://` in
/// front unless it names `http://` or `https://` itself.
pub open spec fn external_target(url: Seq<char>) -> Seq<char> {
    let clean = trim(url, TrimSet::Space);
    if starts_with(clean, http_prefix()) || starts_with(clean, https_prefix()) {
        clean
    } else {
        https_prefix() + clean
    }
}

/// Opening an address that was already completed opens it unchanged.
pub proof fn law_external_target_idempotent(url: Seq<char>)
    ensures
        external_target(external_target(url)) == external_target(url),
{
    let c = trim(url, TrimSet::Space);
    lemma_trim_ends(url, TrimSet::Space);
    let r = external_target(url);
    if !(starts_with(c, http_prefix()) || starts_with(c, https_prefix())) {
        assert(r.take(8) =~= https_prefix());
        assert(r[0] == 'h');
        if c.len() > 0 {
            assert(r.last() == c.last());
        } else {
            assert(r.last() == '/');
        }
    }
    lemma_trim_clean(r, TrimSet::Space);
}

/// The address `open_external_url` hands to the desktop.
pub fn external_url(url: &str) -> (t: String)
    ensures
        t@ == external_target(url@),
{
    let clean = trim_chars(&str_to_chars(url), TrimSet::Space);
    let http = str_to_chars("http://");
    let https = str_to_chars("https://");
    assert(http@ == http_prefix()) by {
        reveal_strlit("http://");
    }
    assert(https@ == https_prefix()) by {
        reveal_strlit("https://");
    }
    if chars_start_with(&clean, &http) || chars_start_with(&clean, &https) {
        chars_to_string(&clean)
    } else {
        let mut out = https;
        append_chars(&mut out, &clean);
        chars_to_string(&out)
    }
}

/// Whether the desktop tiles its windows: Hyprland announces itself with its instance
/// signature; otherwise the lowercased `XDG_CURRENT_DESKTOP` names Hyprland or Sway.
pub open spec fn is_tiling(hyprland_signature: bool, desktop: Seq<char>) -> bool {
    let d = lowercase(desktop);
    hyprland_signature || contains_seq(d, "hyprland"@) || contains_seq(d, "sway"@)
}

/// Whether the desktop tiles its windows, from whether `HYPRLAND_INSTANCE_SIGNATURE` is set
/// and the value of `XDG_CURRENT_DESKTOP`.
pub fn tiling_desktop(hyprland_signature: bool, desktop: &str) -> (b: bool)
    ensures
        b == is_tiling(hyprland_signature, desktop@),
{
    let d = to_lowercase(desktop);
    let dc = str_to_chars(d.as_str());
    hyprland_signature || chars_contain(&dc, &str_to_chars("hyprland")) || chars_contain(
        &dc,
        &str_to_chars("sway"),
    )
}

/// What the editor's backend holds while its window is open.
pub struct AppState {
    /// The image being edited, if any.
    pub image_path: Option<String>,
    /// The settings file.
    pub config_path: String,
    /// Whether the window is kept above the others.
    pub is_pinned: bool,
}

impl AppState {
    /// The state of a window that opens on `image_path`, not pinned.
    pub fn new(image_path: Option<String>, config_path: String) -> (s: Self)
        ensures
            s.image_path == image_path,
            s.config_path == config_path,
            !s.is_pinned,
    {
        AppState { image_path, config_path, is_pinned: false }
    }

    /// Pins or unpins the window; returns whether it is pinned now.
    pub fn toggle_pin(&mut self) -> (pinned: bool)
        ensures
            pinned == !old(self).is_pinned,
            final(self).is_pinned == pinned,
            final(self).image_path == old(self).image_path,
            final(self).config_path == old(self).config_path,
    {
        self.is_pinned = !self.is_pinned;
        self.is_pinned
    }

    /// Makes `path` the image being edited, as when a capture is opened from the gallery.
    pub fn set_image(&mut self, path: String)
        ensures
            final(self).image_path == Some(path),
            final(self).config_path == old(self).config_path,
            final(self).is_pinned == old(self).is_pinned,
    {
        self.image_path = Some(path);
    }

    /// The image being edited, or the error the editor reports when there is none.
    pub fn current_image(&self) -> (r: Result<String, String>)
        ensures
            match self.image_path {
                Some(p) => (r matches Ok(q) && q@ == p@),
                None => (r matches Err(e) && e@ == "No image path provided"@),
            },
    {
        match &self.image_path {
            Some(p) => Ok(p.clone()),
            None => Err("No image path provided".to_string()),
        }
    }
}

/// The image text recognition reads.
pub enum OcrSource {
    /// The image file being edited.
    Stored(String),
    /// An image the editor sent, to be written to a temporary file and removed afterwards.
    Decoded(Vec<u8>),
}

/// What `extract_text` reads, given the image being edited and the data the editor sent:
/// non-empty data is decoded (its error is reported as is); otherwise the image being edited
/// is read, and without one the request fails.
pub open spec fn ocr_source_is(
    image_path: Option<String>,
    data: Option<String>,
    r: Result<OcrSource, String>,
) -> bool {
    match data {
        Some(d) if d@.len() > 0 => match image_data_result(Some(d@)) {
            Ok(b) => (r matches Ok(OcrSource::Decoded(v)) && v@ == b),
            Err(m) => (r matches Err(e) && e@ == m),
        },
        _ => match image_path {
            Some(p) => (r matches Ok(OcrSource::Stored(q)) && q@ == p@),
            None => (r matches Err(e) && e@ == "No image path provided"@),
        },
    }
}

/// Chooses the image that text recognition reads.
pub fn ocr_source(state: &AppState, data: Option<String>) -> (r: Result<OcrSource, String>)
    ensures
        ocr_source_is(state.image_path, data, r),
{
    let use_data = match &data {
        Some(d) => !d.as_str().is_empty(),
        None => false,
    };
    if use_data {
        match decode_image_data(data) {
            Ok(v) => Ok(OcrSource::Decoded(v)),
            Err(e) => Err(e),
        }
    } else {
        match state.current_image() {
            Ok(p) => Ok(OcrSource::Stored(p)),
            Err(e) => Err(e),
        }
    }
}

/// Where `save_image` writes a capture saved at `ts_secs`: the file `screenshot_<ts>.png` in
/// the save folder.
pub fn saved_capture_path(home: &str, imagenes_exists: bool, ts_secs: u64) -> (p: String)
    ensures
        p@ == joined(save_dir_text(home@, imagenes_exists), screenshot_file_name(ts_secs as nat)),
{
    let dir = save_dir(home, imagenes_exists);
    let name = screenshot_filename(ts_secs);
    join_path(dir.as_str(), name.as_str())
}

} // verus!
