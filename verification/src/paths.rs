//! Where the programs keep their files: the settings file, the folders that hold screenshots
//! and the folder a saved capture goes to. Paths are built from the home directory, which the
//! caller reads from the environment.
use vstd::prelude::*;
use crate::text::{append_chars, chars_to_string, str_is, str_to_chars};

verus! {

/// `base` extended by `part`, as `Path::join` extends a path: an absolute `part` replaces
/// `base`; otherwise a `/` separates them unless `base` is empty or already ends with one.
pub open spec fn joined(base: Seq<char>, part: Seq<char>) -> Seq<char> {
    if part.len() > 0 && part[0] == '/' {
        part
    } else if base.len() == 0 || base.last() == '/' {
        base + part
    } else {
        base + seq!['/'] + part
    }
}

/// `Path::join` on paths held as text.
pub fn join_path(base: &str, part: &str) -> (p: String)
    ensures
        p@ == joined(base@, part@),
{
    let b = str_to_chars(base);
    let q = str_to_chars(part);
    if q.len() > 0 && q[0] == '/' {
        return chars_to_string(&q);
    }
    let mut out = b;
    if out.len() > 0 && out[out.len() - 1] != '/' {
        out.push('/');
    }
    append_chars(&mut out, &q);
    chars_to_string(&out)
}

/// The home directory: `$HOME`, or the current directory when it is not set.
pub open spec fn home_or_here(home: Option<Seq<char>>) -> Seq<char> {
    match home {
        Some(h) => h,
        None => "."@,
    }
}

/// The home directory from the value of `$HOME`, if it could be read.
pub fn home_dir(home: Option<String>) -> (h: String)
    ensures
        h@ == home_or_here(
            match home {
                Some(s) => Some(s@),
                None => None,
            },
        ),
{
    match home {
        Some(s) => s,
        None => ".".to_string(),
    }
}

/// `~/.config/screenshot-tool`, where the screenshot program keeps its settings.
pub open spec fn config_dir_text(home: Seq<char>) -> Seq<char> {
    joined(joined(home, ".config"@), "screenshot-tool"@)
}

/// The settings folder under `home`.
pub fn config_dir_path(home: &str) -> (p: String)
    ensures
        p@ == config_dir_text(home@),
{
    let c = join_path(home, ".config");
    join_path(c.as_str(), "screenshot-tool")
}

/// The settings file, `config.json` in the settings folder.
pub fn config_file_path(home: &str) -> (p: String)
    ensures
        p@ == joined(config_dir_text(home@), "config.json"@),
{
    let d = config_dir_path(home);
    join_path(d.as_str(), "config.json")
}

/// The four folders where screenshots may be, in the order they are searched: the Spanish
/// and English screenshot folders, then the English and Spanish picture folders.
pub open spec fn dir_candidates(home: Seq<char>) -> Seq<Seq<char>> {
    seq![
        joined(joined(home, "Im\u{e1}genes"@), "Capturas de pantalla"@),
        joined(joined(home, "Pictures"@), "Screenshots"@),
        joined(home, "Pictures"@),
        joined(home, "Im\u{e1}genes"@),
    ]
}

/// The folder list after looking at one more candidate: the screenshot folders are kept when
/// they exist, the picture folders when they exist and are not listed yet.
pub open spec fn keep_dir(dirs: Seq<Seq<char>>, i: int, cand: Seq<char>, exists: bool) -> Seq<
    Seq<char>,
> {
    if exists && (i < 2 || !dirs.contains(cand)) {
        dirs.push(cand)
    } else {
        dirs
    }
}

/// The existing screenshot folders, given for each candidate of `dir_candidates` whether it
/// exists.
pub open spec fn screenshot_dir_list(home: Seq<char>, exists: Seq<bool>) -> Seq<Seq<char>> {
    let c = dir_candidates(home);
    let d0 = keep_dir(seq![], 0, c[0], exists[0]);
    let d1 = keep_dir(d0, 1, c[1], exists[1]);
    let d2 = keep_dir(d1, 2, c[2], exists[2]);
    keep_dir(d2, 3, c[3], exists[3])
}

pub open spec fn path_views(v: Seq<String>) -> Seq<Seq<char>> {
    v.map_values(|s: String| s@)
}

/// The candidate folders under `home`, in search order.
pub fn screenshot_dir_candidates(home: &str) -> (v: Vec<String>)
    ensures
        path_views(v@) == dir_candidates(home@),
{
    let im = join_path(home, "Im\u{e1}genes");
    let pi = join_path(home, "Pictures");
    let a = join_path(im.as_str(), "Capturas de pantalla");
    let b = join_path(pi.as_str(), "Screenshots");
    let mut v: Vec<String> = Vec::new();
    v.push(a);
    v.push(b);
    v.push(pi);
    v.push(im);
    assert(path_views(v@) =~= dir_candidates(home@));
    v
}

fn contains_path(v: &Vec<String>, p: &str) -> (b: bool)
    ensures
        b == path_views(v@).contains(p@),
{
    let mut i: usize = 0;
    while i < v.len()
        invariant
            i <= v.len(),
            forall|k: int| 0 <= k < i ==> v@[k]@ != p@,
        decreases v.len() - i,
    {
        if str_is(v[i].as_str(), p) {
            assert(path_views(v@)[i as int] == p@);
            return true;
        }
        i = i + 1;
    }
    proof {
        if path_views(v@).contains(p@) {
            let k = choose|k: int| 0 <= k < path_views(v@).len() && path_views(v@)[k] == p@;
            assert(v@[k]@ == p@);
        }
    }
    false
}

/// The folders the gallery lists:
/// `exists` tells, for each candidate of `dir_candidates` in order, whether it exists.
pub fn screenshot_dirs(home: &str, exists: [bool; 4]) -> (v: Vec<String>)
    ensures
        path_views(v@) == screenshot_dir_list(home@, exists@),
{
    let c = screenshot_dir_candidates(home);
    let ghost cv = dir_candidates(home@);
    assert(path_views(c@).len() == c@.len());
    let mut v: Vec<String> = Vec::new();
    let mut i: usize = 0;
    while i < 4
        invariant
            0 <= i <= 4,
            c@.len() == 4,
            path_views(c@) == cv,
            cv == dir_candidates(home@),
            exists@.len() == 4,
            i == 0 ==> path_views(v@) == Seq::<Seq<char>>::empty(),
            i == 1 ==> path_views(v@) == keep_dir(seq![], 0, cv[0], exists@[0]),
            i == 2 ==> path_views(v@) == keep_dir(
                keep_dir(seq![], 0, cv[0], exists@[0]),
                1,
                cv[1],
                exists@[1],
            ),
            i == 3 ==> path_views(v@) == keep_dir(
                keep_dir(keep_dir(seq![], 0, cv[0], exists@[0]), 1, cv[1], exists@[1]),
                2,
                cv[2],
                exists@[2],
            ),
            i == 4 ==> path_views(v@) == screenshot_dir_list(home@, exists@),
        decreases 4 - i,
    {
        let ghost before = path_views(v@);
        assert(path_views(c@)[i as int] == c@[i as int]@);
        if exists[i] && (i < 2 || !contains_path(&v, c[i].as_str())) {
            v.push(c[i].clone());
            assert(path_views(v@) =~= before.push(cv[i as int]));
        }
        assert(path_views(v@) == keep_dir(before, i as int, cv[i as int], exists@[i as int]));
        i = i + 1;
    }
    v
}

/// The folder a saved capture goes to: `~/Imágenes/Capturas de pantalla` when `~/Imágenes`
/// exists, `~/Pictures/Screenshots` otherwise.
pub open spec fn save_dir_text(home: Seq<char>, imagenes_exists: bool) -> Seq<char> {
    if imagenes_exists {
        joined(joined(home, "Im\u{e1}genes"@), "Capturas de pantalla"@)
    } else {
        joined(joined(home, "Pictures"@), "Screenshots"@)
    }
}

/// The folder a saved capture goes to, given whether `~/Imágenes` exists.
pub fn save_dir(home: &str, imagenes_exists: bool) -> (p: String)
    ensures
        p@ == save_dir_text(home@, imagenes_exists),
{
    if imagenes_exists {
        let im = join_path(home, "Im\u{e1}genes");
        join_path(im.as_str(), "Capturas de pantalla")
    } else {
        let pi = join_path(home, "Pictures");
        join_path(pi.as_str(), "Screenshots")
    }
}

} // verus!
