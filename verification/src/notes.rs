//! The notes store: the list of notes and what the notes window does to it.
//!
//! Notes are archived before they are deleted: `list_notes` shows the notes that are not
//! archived, `list_archived_notes` the trash; `restore_note` brings a note back and
//! `delete_permanently`/`empty_trash` remove notes for good.
use vstd::prelude::*;

verus! {

/// A note.
pub struct Note {
    pub id: String,
    pub title: String,
    pub content: String,
    /// When it was last changed, in seconds since the epoch.
    pub updated_at: u64,
    /// When it was archived, if it is in the trash.
    pub archived_at: Option<u64>,
}

impl Note {
    /// A copy of the note.
    pub fn duplicate(&self) -> (n: Note)
        ensures
            n == *self,
    {
        Note {
            id: self.id.clone(),
            title: self.title.clone(),
            content: self.content.clone(),
            updated_at: self.updated_at,
            archived_at: self.archived_at,
        }
    }
}

pub open spec fn is_active(n: Note) -> bool {
    n.archived_at is None
}

pub open spec fn active(s: Seq<Note>) -> Seq<Note> {
    s.filter(|n: Note| n.archived_at is None)
}

pub open spec fn archived(s: Seq<Note>) -> Seq<Note> {
    s.filter(|n: Note| n.archived_at is Some)
}

/// `k` is the first note of `s` with the id `id`.
pub open spec fn first_with_id(s: Seq<Note>, id: Seq<char>, k: int) -> bool {
    0 <= k < s.len() && s[k].id@ == id && forall|j: int| 0 <= j < k ==> s[j].id@ != id
}

pub open spec fn has_id(s: Seq<Note>, id: Seq<char>) -> bool {
    exists|k: int| 0 <= k < s.len() && s[k].id@ == id
}

proof fn lemma_filter_push(s: Seq<Note>, n: Note, active_side: bool)
    ensures
        active_side ==> active(s.push(n)) == if n.archived_at is None {
            active(s).push(n)
        } else {
            active(s)
        },
        !active_side ==> archived(s.push(n)) == if n.archived_at is Some {
            archived(s).push(n)
        } else {
            archived(s)
        },
{
    reveal_with_fuel(Seq::<_>::filter, 1);
    assert(s.push(n).drop_last() == s);
}

/// The notes that are not archived, in order: the notes list.
pub fn list_notes(notes: Vec<Note>) -> (r: Vec<Note>)
    ensures
        r@ == active(notes@),
{
    let ghost all = notes@;
    let mut r: Vec<Note> = Vec::new();
    for n in it: notes.into_iter()
        invariant
            it.seq() == all,
            r@ == active(all.take(it.index() as int)),
    {
        let ghost i = it.index();
        proof {
            assert(all.take(i + 1) == all.take(i as int).push(n));
            lemma_filter_push(all.take(i as int), n, true);
        }
        if n.archived_at.is_none() {
            r.push(n);
        }
    }
    assert(all.take(all.len() as int) == all);
    r
}

/// The archived notes, in order: the trash.
pub fn list_archived_notes(notes: Vec<Note>) -> (r: Vec<Note>)
    ensures
        r@ == archived(notes@),
{
    let ghost all = notes@;
    let mut r: Vec<Note> = Vec::new();
    for n in it: notes.into_iter()
        invariant
            it.seq() == all,
            r@ == archived(all.take(it.index() as int)),
    {
        let ghost i = it.index();
        proof {
            assert(all.take(i + 1) == all.take(i as int).push(n));
            lemma_filter_push(all.take(i as int), n, false);
        }
        if n.archived_at.is_some() {
            r.push(n);
        }
    }
    assert(all.take(all.len() as int) == all);
    r
}

fn find_note(notes: &Vec<Note>, id: &str) -> (r: Option<usize>)
    ensures
        match r {
            Some(k) => first_with_id(notes@, id@, k as int),
            None => !has_id(notes@, id@),
        },
{
    let mut i: usize = 0;
    while i < notes.len()
        invariant
            i <= notes.len(),
            forall|j: int| 0 <= j < i ==> notes@[j].id@ != id@,
        decreases notes.len() - i,
    {
        if crate::text::str_is(notes[i].id.as_str(), id) {
            return Some(i);
        }
        i = i + 1;
    }
    None
}

/// The note with `id` after an edit: its new title and content, changed at `now`.
pub open spec fn edited(n: Note, title: String, content: String, now: u64) -> Note {
    Note { id: n.id, title, content, updated_at: now, archived_at: n.archived_at }
}

/// Saves an edit of the first note with `id`.
/// Nothing changes when no note has that id.
pub fn update_note(notes: &mut Vec<Note>, id: &str, title: String, content: String, now: u64)
    ensures
        forall|k: int| first_with_id(old(notes)@, id@, k) ==> final(notes)@ == old(notes)@.update(
            k,
            edited(old(notes)@[k], title, content, now),
        ),
        !has_id(old(notes)@, id@) ==> final(notes)@ == old(notes)@,
{
    match find_note(notes, id) {
        Some(k) => {
            let n = Note {
                id: notes[k].id.clone(),
                title,
                content,
                updated_at: now,
                archived_at: notes[k].archived_at,
            };
            notes.set(k, n);
        },
        None => {},
    }
}

pub open spec fn archived_copy(n: Note, now: u64) -> Note {
    Note { archived_at: Some(now), ..n }
}

pub open spec fn restored_copy(n: Note, now: u64) -> Note {
    Note { archived_at: None, updated_at: now, ..n }
}

/// Moves the first note with `id` to the trash at `now`.
pub fn archive_note(notes: &mut Vec<Note>, id: &str, now: u64)
    ensures
        forall|k: int| first_with_id(old(notes)@, id@, k) ==> final(notes)@ == old(notes)@.update(
            k,
            archived_copy(old(notes)@[k], now),
        ),
        !has_id(old(notes)@, id@) ==> final(notes)@ == old(notes)@,
{
    match find_note(notes, id) {
        Some(k) => {
            let mut n = notes[k].duplicate();
            n.archived_at = Some(now);
            notes.set(k, n);
        },
        None => {},
    }
}

/// Brings the first note with `id` back from the trash, as changed at `now`.
pub fn restore_note(notes: &mut Vec<Note>, id: &str, now: u64)
    ensures
        forall|k: int| first_with_id(old(notes)@, id@, k) ==> final(notes)@ == old(notes)@.update(
            k,
            restored_copy(old(notes)@[k], now),
        ),
        !has_id(old(notes)@, id@) ==> final(notes)@ == old(notes)@,
{
    match find_note(notes, id) {
        Some(k) => {
            let mut n = notes[k].duplicate();
            n.archived_at = None;
            n.updated_at = now;
            notes.set(k, n);
        },
        None => {},
    }
}

pub open spec fn without_id(s: Seq<Note>, id: Seq<char>) -> Seq<Note> {
    s.filter(|n: Note| n.id@ != id)
}

/// Removes every note with `id` for good.
pub fn delete_permanently(notes: Vec<Note>, id: &str) -> (r: Vec<Note>)
    ensures
        r@ == without_id(notes@, id@),
{
    let ghost all = notes@;
    let mut r: Vec<Note> = Vec::new();
    for n in it: notes.into_iter()
        invariant
            it.seq() == all,
            r@ == without_id(all.take(it.index() as int), id@),
    {
        let ghost i = it.index();
        proof {
            let s = all.take(i as int);
            assert(all.take(i + 1) == s.push(n));
            reveal_with_fuel(Seq::<_>::filter, 1);
            assert(s.push(n).drop_last() == s);
        }
        if !crate::text::str_is(n.id.as_str(), id) {
            r.push(n);
        }
    }
    assert(all.take(all.len() as int) == all);
    r
}

/// Removes every archived note for good.
pub fn empty_trash(notes: Vec<Note>) -> (r: Vec<Note>)
    ensures
        r@ == active(notes@),
{
    list_notes(notes)
}

/// A new empty note with the given id, created at `now`.
pub open spec fn fresh_note(n: Note, now: u64) -> bool {
    n.title@.len() == 0 && n.content@.len() == 0 && n.updated_at == now && n.archived_at is None
}

/// A lowercase hexadecimal digit.
pub open spec fn is_lower_hex(c: char) -> bool {
    ('0' <= c && c <= '9') || ('a' <= c && c <= 'f')
}

/// The text form of a random (version 4) UUID: 36 characters, lowercase hexadecimal digits
/// in groups of 8, 4, 4, 4 and 12 separated by hyphens, with version digit `4` and variant
/// digit `8`, `9`, `a` or `b`.
pub open spec fn is_uuid_v4_text(s: Seq<char>) -> bool {
    &&& s.len() == 36
    &&& forall|k: int|
        0 <= k < 36 ==> if k == 8 || k == 13 || k == 18 || k == 23 {
            s[k] == '-'
        } else {
            is_lower_hex(#[trigger] s[k])
        }
    &&& s[14] == '4'
    &&& (s[19] == '8' || s[19] == '9' || s[19] == 'a' || s[19] == 'b')
}

/// `uuid::Uuid::new_v4()` in its `Display` form. The contract claims the layout that the
/// crate's hyphenated lowercase formatting and its version and variant bits give; the random
/// digits themselves are not claimed.
#[verifier::external_body]
fn new_note_id() -> (id: String)
    ensures
        is_uuid_v4_text(id@),
{
    uuid::Uuid::new_v4().to_string()
}

/// Adds a new empty note, with a fresh random id, created at `now`, and returns it.
pub fn create_note(notes: &mut Vec<Note>, now: u64) -> (n: Note)
    ensures
        fresh_note(n, now),
        is_uuid_v4_text(n.id@),
        final(notes)@ == old(notes)@.push(n),
{
    let n = Note {
        id: new_note_id(),
        title: String::new(),
        content: String::new(),
        updated_at: now,
        archived_at: None,
    };
    notes.push(n.duplicate());
    n
}

// ----- what the operations keep -----

/// Every note is either in the notes list or in the trash, never in both.
pub proof fn law_notes_and_trash_partition(s: Seq<Note>)
    ensures
        active(s).len() + archived(s).len() == s.len(),
    decreases s.len(),
{
    if s.len() > 0 {
        law_notes_and_trash_partition(s.drop_last());
        lemma_filter_push(s.drop_last(), s.last(), true);
        lemma_filter_push(s.drop_last(), s.last(), false);
        assert(s.drop_last().push(s.last()) == s);
    }
}

proof fn lemma_counts_after_update(s: Seq<Note>, k: int, x: Note)
    requires
        0 <= k < s.len(),
    ensures
        active(s.update(k, x)).len() + (if is_active(s[k]) {
            1int
        } else {
            0
        }) == active(s).len() + (if is_active(x) {
            1int
        } else {
            0
        }),
        archived(s.update(k, x)).len() + (if is_active(s[k]) {
            0int
        } else {
            1
        }) == archived(s).len() + (if is_active(x) {
            0int
        } else {
            1
        }),
    decreases s.len(),
{
    let u = s.update(k, x);
    let t = s.drop_last();
    lemma_filter_push(t, s.last(), true);
    lemma_filter_push(t, s.last(), false);
    lemma_filter_push(u.drop_last(), u.last(), true);
    lemma_filter_push(u.drop_last(), u.last(), false);
    assert(t.push(s.last()) == s);
    assert(u.drop_last().push(u.last()) == u);
    if k < s.len() - 1 {
        assert(u.drop_last() == t.update(k, x));
        lemma_counts_after_update(t, k, x);
        assert(u.last() == s.last());
    } else {
        assert(u.drop_last() == t);
        assert(u.last() == x);
    }
}

/// Archiving a note of the notes list moves it to the trash: the list has one note fewer and
/// the trash one more.
pub proof fn law_archive_moves_to_trash(s: Seq<Note>, id: Seq<char>, k: int, now: u64)
    requires
        first_with_id(s, id, k),
        is_active(s[k]),
    ensures
        active(s.update(k, archived_copy(s[k], now))).len() + 1 == active(s).len(),
        archived(s.update(k, archived_copy(s[k], now))).len() == archived(s).len() + 1,
{
    lemma_counts_after_update(s, k, archived_copy(s[k], now));
}

/// Restoring a note of the trash moves it back to the notes list.
pub proof fn law_restore_moves_back(s: Seq<Note>, id: Seq<char>, k: int, now: u64)
    requires
        first_with_id(s, id, k),
        !is_active(s[k]),
    ensures
        active(s.update(k, restored_copy(s[k], now))).len() == active(s).len() + 1,
        archived(s.update(k, restored_copy(s[k], now))).len() + 1 == archived(s).len(),
{
    lemma_counts_after_update(s, k, restored_copy(s[k], now));
}

/// Restoring a note just archived gives it back as it was, changed at the time of the restore.
pub proof fn law_restore_undoes_archive(s: Seq<Note>, id: Seq<char>, k: int, t1: u64, t2: u64)
    requires
        first_with_id(s, id, k),
        is_active(s[k]),
    ensures
        first_with_id(s.update(k, archived_copy(s[k], t1)), id, k),
        ({
            let s2 = s.update(k, archived_copy(s[k], t1));
            s2.update(k, restored_copy(s2[k], t2)) == s.update(k, Note { updated_at: t2, ..s[k] })
        }),
{
    let s2 = s.update(k, archived_copy(s[k], t1));
    assert forall|j: int| 0 <= j < k implies s2[j].id@ != id by {
        assert(s2[j] == s[j]);
    }
    assert(s2.update(k, restored_copy(s2[k], t2)) =~= s.update(k, Note { updated_at: t2, ..s[k] }));
}

/// After `delete_permanently`, no note has the id; when none had it, nothing changed.
pub proof fn law_delete_removes_id(s: Seq<Note>, id: Seq<char>)
    ensures
        !has_id(without_id(s, id), id),
        !has_id(s, id) ==> without_id(s, id) == s,
    decreases s.len(),
{
    reveal_with_fuel(Seq::<_>::filter, 1);
    if s.len() > 0 {
        let t = s.drop_last();
        law_delete_removes_id(t, id);
        assert(t.push(s.last()).drop_last() == t);
        assert(t.push(s.last()) == s);
        let d = without_id(t, id);
        if s.last().id@ != id {
            assert forall|j: int| 0 <= j < d.push(s.last()).len() implies d.push(s.last())[j].id@
                != id by {
                if j < d.len() {
                    assert(d.push(s.last())[j] == d[j]);
                }
            }
        }
        if !has_id(s, id) {
            assert forall|j: int| 0 <= j < t.len() implies t[j].id@ != id by {
                assert(t[j] == s[j]);
            }
            assert(s.last() == s[s.len() - 1]);
        }
    }
}

/// Emptying the trash leaves the notes list as it was and nothing in the trash.
pub proof fn law_empty_trash_keeps_notes(s: Seq<Note>)
    ensures
        active(active(s)) == active(s),
        archived(active(s)).len() == 0,
    decreases s.len(),
{
    reveal_with_fuel(Seq::<_>::filter, 1);
    if s.len() > 0 {
        let t = s.drop_last();
        law_empty_trash_keeps_notes(t);
        lemma_filter_push(t, s.last(), true);
        assert(t.push(s.last()) == s);
        if is_active(s.last()) {
            lemma_filter_push(active(t), s.last(), true);
            lemma_filter_push(active(t), s.last(), false);
        }
    }
}

} // verus!
