//! The gallery of saved captures: which files it shows and in what order, a page at a time.
use vstd::prelude::*;
use crate::encoding::{base64_text, png_data_url};
use crate::shot::{png_dimensions, png_size};
use crate::text::{lowercase, str_to_chars, chars_equal_str, to_lowercase};

verus! {

/// A file found in a screenshots folder, with its modification time in nanoseconds from the
/// Unix epoch (negative before it).
pub struct GalleryFile {
    pub path: String,
    pub modified_nanos: i128,
}

/// A capture as the gallery shows it.
pub struct GalleryItem {
    pub path: String,
    pub filename: String,
    /// Modification time in whole seconds since the epoch (0 before it).
    pub timestamp: u64,
    pub width: u32,
    pub height: u32,
    /// The image as a data URL, empty when it could not be read.
    pub preview_base64: String,
}

/// A page of the gallery.
pub struct GalleryResponse {
    pub items: Vec<GalleryItem>,
    /// How many captures there are in all.
    pub total: usize,
    /// Whether there are captures after this page.
    pub has_more: bool,
}

/// The file extensions the gallery shows, compared in lowercase.
pub open spec fn is_image_extension(ext: Seq<char>) -> bool {
    let e = lowercase(ext);
    e == "png"@ || e == "jpg"@ || e == "jpeg"@ || e == "webp"@
}

/// Whether the gallery shows a file with this extension (none: not shown).
pub fn is_gallery_image(ext: Option<&str>) -> (b: bool)
    ensures
        b == match ext {
            Some(e) => is_image_extension(e@),
            None => false,
        },
{
    match ext {
        None => false,
        Some(e) => {
            let l = to_lowercase(e);
            let lc = str_to_chars(l.as_str());
            chars_equal_str(&lc, "png") || chars_equal_str(&lc, "jpg") || chars_equal_str(
                &lc,
                "jpeg",
            ) || chars_equal_str(&lc, "webp")
        },
    }
}

/// Inserts `x` after every leading file at least as recent as it.
pub open spec fn insert_newest_first(s: Seq<GalleryFile>, x: GalleryFile) -> Seq<GalleryFile>
    decreases s.len(),
{
    if s.len() == 0 {
        seq![x]
    } else if s[0].modified_nanos >= x.modified_nanos {
        seq![s[0]] + insert_newest_first(s.drop_first(), x)
    } else {
        seq![x] + s
    }
}

/// The files, newest first; files modified at the same time keep their order (a stable sort).
pub open spec fn newest_first(s: Seq<GalleryFile>) -> Seq<GalleryFile>
    decreases s.len(),
{
    if s.len() == 0 {
        seq![]
    } else {
        insert_newest_first(newest_first(s.drop_last()), s.last())
    }
}

/// The files without the ones whose path repeats the path of the file just before them.
pub open spec fn without_repeats(s: Seq<GalleryFile>) -> Seq<GalleryFile>
    decreases s.len(),
{
    if s.len() <= 1 {
        s
    } else {
        let d = without_repeats(s.drop_last());
        if s.last().path@ == s[s.len() - 2].path@ {
            d
        } else {
            d.push(s.last())
        }
    }
}

/// How many captures a page shows: `limit`, or 5 when it is 0.
pub open spec fn page_size(limit: usize) -> nat {
    if limit == 0 {
        5
    } else {
        limit as nat
    }
}

/// The captures of the page starting at `offset`.
pub open spec fn page_of(s: Seq<GalleryFile>, offset: usize, limit: usize) -> Seq<GalleryFile> {
    if offset >= s.len() {
        seq![]
    } else {
        let rest = s.skip(offset as int);
        if rest.len() <= page_size(limit) {
            rest
        } else {
            rest.take(page_size(limit) as int)
        }
    }
}

proof fn lemma_insert_split(s: Seq<GalleryFile>, x: GalleryFile, p: int)
    requires
        0 <= p <= s.len(),
        forall|j: int| 0 <= j < p ==> s[j].modified_nanos >= x.modified_nanos,
        p < s.len() ==> s[p].modified_nanos < x.modified_nanos,
    ensures
        insert_newest_first(s, x) == s.take(p) + seq![x] + s.skip(p),
    decreases p,
{
    if p == 0 {
        assert(s.skip(0) == s);
        assert(s.take(0) + seq![x] == seq![x]);
    } else {
        let t = s.drop_first();
        assert forall|j: int| 0 <= j < p - 1 implies t[j].modified_nanos >= x.modified_nanos by {
            assert(t[j] == s[j + 1]);
        }
        if p - 1 < t.len() {
            assert(t[p - 1] == s[p]);
        }
        lemma_insert_split(t, x, p - 1);
        assert(seq![s[0]] + (t.take(p - 1) + seq![x] + t.skip(p - 1)) == s.take(p) + seq![x]
            + s.skip(p));
    }
}

/// Sorts the files newest first, keeping the order of files modified at the same time.
pub fn sort_newest_first(files: Vec<GalleryFile>) -> (r: Vec<GalleryFile>)
    ensures
        r@ == newest_first(files@),
{
    let ghost all = files@;
    let mut r: Vec<GalleryFile> = Vec::new();
    for f in it: files.into_iter()
        invariant
            it.seq() == all,
            r@ == newest_first(all.take(it.index() as int)),
    {
        let ghost i = it.index();
        let mut p: usize = 0;
        while p < r.len() && r[p].modified_nanos >= f.modified_nanos
            invariant
                p <= r.len(),
                forall|j: int| 0 <= j < p ==> r@[j].modified_nanos >= f.modified_nanos,
            decreases r.len() - p,
        {
            p = p + 1;
        }
        proof {
            lemma_insert_split(r@, f, p as int);
            assert(all.take(i + 1).drop_last() == all.take(i as int));
            assert(all.take(i + 1).last() == f);
        }
        let ghost before = r@;
        r.insert(p, f);
        assert(r@ == before.take(p as int) + seq![f] + before.skip(p as int));
    }
    assert(all.take(all.len() as int) == all);
    r
}

/// Drops each file whose path repeats the path of the file just before it
/// (`Vec::dedup_by` on the path).
pub fn drop_repeated_paths(files: Vec<GalleryFile>) -> (r: Vec<GalleryFile>)
    ensures
        r@ == without_repeats(files@),
{
    let ghost all = files@;
    let mut r: Vec<GalleryFile> = Vec::new();
    let mut prev: Option<String> = None;
    for f in it: files.into_iter()
        invariant
            it.seq() == all,
            r@ == without_repeats(all.take(it.index() as int)),
            it.index() == 0 ==> prev is None,
            it.index() > 0 ==> (prev matches Some(p) && p@ == all[it.index() - 1].path@),
    {
        let ghost i = it.index();
        proof {
            let t = all.take(i + 1);
            assert(t.drop_last() == all.take(i as int));
            assert(t.last() == f);
            if i > 0 {
                assert(t[t.len() - 2] == all[i - 1]);
            }
        }
        let repeat = match &prev {
            Some(p) => crate::text::str_is(p.as_str(), f.path.as_str()),
            None => false,
        };
        let path = f.path.clone();
        if !repeat {
            r.push(f);
        }
        prev = Some(path);
    }
    assert(all.take(all.len() as int) == all);
    r
}

/// The page starting at `offset` of `files` (`skip(offset).take(...)`).
pub fn take_page(files: Vec<GalleryFile>, offset: usize, limit: usize) -> (r: Vec<GalleryFile>)
    ensures
        r@ == page_of(files@, offset, limit),
{
    let size: usize = if limit == 0 {
        5
    } else {
        limit
    };
    let n = files.len();
    let ghost all = files@;
    let mut r: Vec<GalleryFile> = Vec::new();
    let mut idx: usize = 0;
    for f in it: files.into_iter()
        invariant
            it.seq() == all,
            n == all.len(),
            idx == it.index(),
            idx <= n,
            size == page_size(limit),
            r@ == if it.index() <= offset {
                seq![]
            } else if it.index() - offset <= size {
                all.subrange(offset as int, it.index() as int)
            } else {
                all.subrange(offset as int, offset + size)
            },
    {
        if idx >= offset && idx - offset < size {
            r.push(f);
        }
        idx = idx + 1;
    }
    proof {
        if offset < all.len() {
            let rest = all.skip(offset as int);
            if rest.len() <= size {
                assert(r@ == rest);
            } else {
                assert(r@ == rest.take(size as int));
            }
        }
    }
    r
}

/// The gallery page at `offset`: the files newest first, without repeated paths, then the
/// page; also how many files there are in all after removing repeats.
pub fn select_gallery_page(files: Vec<GalleryFile>, offset: usize, limit: usize) -> (r: (Vec<GalleryFile>, usize))
    ensures
        r.0@ == page_of(without_repeats(newest_first(files@)), offset, limit),
        r.1 == without_repeats(newest_first(files@)).len(),
{
    let sorted = sort_newest_first(files);
    let unique = drop_repeated_paths(sorted);
    let total = unique.len();
    (take_page(unique, offset, limit), total)
}

/// Whole seconds since the epoch of a time in nanoseconds from it; 0 before the epoch.
pub open spec fn seconds_of(nanos: i128) -> nat {
    if nanos >= 0 {
        (nanos / 1_000_000_000) as nat
    } else {
        0
    }
}

pub open spec fn preview_of(bytes: Option<Seq<u8>>) -> Seq<char> {
    match bytes {
        Some(b) => "data:image/png;base64,"@ + base64_text(b),
        None => seq![],
    }
}

/// The gallery entry of a file: its size from its PNG header (960 by 600 when it has none),
/// its modification time in seconds, and its contents as a data URL.
pub fn gallery_item(
    path: String,
    filename: String,
    modified_nanos: i128,
    bytes: Option<Vec<u8>>,
) -> (item: GalleryItem)
    requires
        bytes matches Some(b) ==> b@.len() <= usize::MAX / 2,
        modified_nanos / 1_000_000_000 <= u64::MAX,
    ensures
        item.path == path,
        item.filename == filename,
        item.timestamp == seconds_of(modified_nanos),
        (item.width as nat, item.height as nat) == png_size(
            match bytes {
                Some(b) => Some(b@),
                None => None,
            },
        ),
        item.preview_base64@ == preview_of(
            match bytes {
                Some(b) => Some(b@),
                None => None,
            },
        ),
{
    let timestamp: u64 = if modified_nanos >= 0 {
        (modified_nanos / 1_000_000_000) as u64
    } else {
        0
    };
    let preview = match &bytes {
        Some(b) => png_data_url(b.as_slice()),
        None => String::new(),
    };
    let (width, height) = png_dimensions(bytes);
    GalleryItem { path, filename, timestamp, width, height, preview_base64: preview }
}

/// The response for a page of `items` starting at `offset` out of `total` captures.
pub fn gallery_response(items: Vec<GalleryItem>, total: usize, offset: usize) -> (r: GalleryResponse)
    ensures
        r.items@ == items@,
        r.total == total,
        r.has_more == (offset + items@.len() < total),
{
    let has_more = if offset >= total {
        false
    } else {
        items.len() < total - offset
    };
    GalleryResponse { items, total, has_more }
}

// ----- what the gallery order keeps -----

/// Each file is at least as recent as every file after it.
pub open spec fn newest_to_oldest(s: Seq<GalleryFile>) -> bool {
    forall|i: int, j: int|
        0 <= i < j < s.len() ==> #[trigger] s[i].modified_nanos >= #[trigger] s[j].modified_nanos
}

/// No file has the path of the file just before it.
pub open spec fn no_adjacent_repeats(s: Seq<GalleryFile>) -> bool {
    forall|i: int| 0 <= i && i + 1 < s.len() ==> (#[trigger] s[i]).path@ != s[i + 1].path@
}

proof fn lemma_insert_position(s: Seq<GalleryFile>, x: GalleryFile) -> (p: int)
    ensures
        0 <= p <= s.len(),
        insert_newest_first(s, x) == s.insert(p, x),
        forall|j: int| 0 <= j < p ==> s[j].modified_nanos >= x.modified_nanos,
        p < s.len() ==> s[p].modified_nanos < x.modified_nanos,
    decreases s.len(),
{
    if s.len() == 0 {
        assert(seq![x] == s.insert(0, x));
        0
    } else if s[0].modified_nanos >= x.modified_nanos {
        let t = s.drop_first();
        let q = lemma_insert_position(t, x);
        assert(seq![s[0]] + t.insert(q, x) == s.insert(q + 1, x));
        assert forall|j: int| 0 <= j < q + 1 implies s[j].modified_nanos >= x.modified_nanos by {
            if j > 0 {
                assert(s[j] == t[j - 1]);
            }
        }
        if q + 1 < s.len() {
            assert(s[q + 1] == t[q]);
        }
        q + 1
    } else {
        assert(seq![x] + s == s.insert(0, x));
        0
    }
}

proof fn lemma_insert_keeps_order(s: Seq<GalleryFile>, x: GalleryFile)
    requires
        newest_to_oldest(s),
    ensures
        newest_to_oldest(insert_newest_first(s, x)),
        insert_newest_first(s, x).to_multiset() == s.to_multiset().insert(x),
{
    broadcast use vstd::seq_lib::to_multiset_insert;

    let p = lemma_insert_position(s, x);
    let r = s.insert(p, x);
    assert forall|i: int, j: int| 0 <= i < j < r.len() implies #[trigger] r[i].modified_nanos
        >= #[trigger] r[j].modified_nanos by {
        if j < p {
            assert(r[i] == s[i] && r[j] == s[j]);
        } else if j == p {
            assert(r[i] == s[i]);
        } else if i < p {
            assert(r[i] == s[i] && r[j] == s[j - 1]);
            assert(s[i].modified_nanos >= s[j - 1].modified_nanos);
        } else if i == p {
            assert(r[j] == s[j - 1]);
            assert(s[p].modified_nanos >= s[j - 1].modified_nanos);
        } else {
            assert(r[i] == s[i - 1] && r[j] == s[j - 1]);
            assert(s[i - 1].modified_nanos >= s[j - 1].modified_nanos);
        }
    }
}

/// The gallery order lists every file once, as often as it was found, from the most
/// recently modified to the least.
pub proof fn law_newest_first_sorts(s: Seq<GalleryFile>)
    ensures
        newest_to_oldest(newest_first(s)),
        newest_first(s).to_multiset() == s.to_multiset(),
    decreases s.len(),
{
    broadcast use vstd::seq_lib::to_multiset_build;

    if s.len() == 0 {
        assert(newest_first(s) == s);
    } else {
        law_newest_first_sorts(s.drop_last());
        lemma_insert_keeps_order(newest_first(s.drop_last()), s.last());
        assert(s.drop_last().push(s.last()) == s);
    }
}

/// Removing repeats leaves no file with the path of the file before it; the last file's
/// path stays the last path.
pub proof fn law_without_repeats_has_none(s: Seq<GalleryFile>)
    ensures
        no_adjacent_repeats(without_repeats(s)),
        without_repeats(s).len() <= s.len(),
        s.len() > 0 ==> without_repeats(s).len() > 0 && without_repeats(s).last().path@
            == s.last().path@,
    decreases s.len(),
{
    if s.len() > 1 {
        let t = s.drop_last();
        law_without_repeats_has_none(t);
        assert(t.last() == s[s.len() - 2]);
        let d = without_repeats(t);
        if s.last().path@ != s[s.len() - 2].path@ {
            let r = d.push(s.last());
            assert forall|i: int| 0 <= i && i + 1 < r.len() implies (#[trigger] r[i]).path@ != r[i
                + 1].path@ by {
                if i + 1 < d.len() {
                    assert(r[i] == d[i] && r[i + 1] == d[i + 1]);
                } else {
                    assert(r[i] == d.last());
                }
            }
        }
    }
}

} // verus!
