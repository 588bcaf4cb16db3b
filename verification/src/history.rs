//! The editor's undo history: the annotations on the image, what was done to them, and what
//! was undone.
//!
//! Adding an annotation, clearing them and cropping the image are recorded; undo takes the
//! last recorded change back, redo replays the last undone one, and recording anything new
//! forgets what was undone. Annotations are of any type `T`; the history copies them with
//! `Clone` when they are recorded.
use vstd::prelude::*;

verus! {

/// A crop of the image, with what it replaced.
pub struct CropChange<T> {
    pub prev_image_data: String,
    pub prev_items: Vec<T>,
    pub prev_width: u32,
    pub prev_height: u32,
    pub new_image_data: String,
    pub new_items: Vec<T>,
    pub new_width: u32,
    pub new_height: u32,
}

/// A recorded change.
pub enum HistoryAction<T> {
    /// An annotation was added.
    Add(T),
    /// All annotations were removed; these were they.
    Clear(Vec<T>),
    /// The image was cropped.
    Crop(CropChange<T>),
}

/// The image to show after an undo or redo of a crop: its data URL and size.
pub struct ImageSwitch {
    pub image_data: String,
    pub width: u32,
    pub height: u32,
}

/// A crop, with its annotation lists and image data as sequences.
pub struct CropView<T> {
    pub prev_image: Seq<char>,
    pub prev_items: Seq<T>,
    pub prev_width: u32,
    pub prev_height: u32,
    pub new_image: Seq<char>,
    pub new_items: Seq<T>,
    pub new_width: u32,
    pub new_height: u32,
}

pub enum ActionView<T> {
    Add(T),
    Clear(Seq<T>),
    Crop(CropView<T>),
}

/// The abstract state of a history: the annotations shown, the changes done (last on top)
/// and the changes undone (last undone on top).
pub struct HistoryView<T> {
    pub items: Seq<T>,
    pub done: Seq<ActionView<T>>,
    pub undone: Seq<ActionView<T>>,
}

pub open spec fn crop_view<T>(c: CropChange<T>) -> CropView<T> {
    CropView {
        prev_image: c.prev_image_data@,
        prev_items: c.prev_items@,
        prev_width: c.prev_width,
        prev_height: c.prev_height,
        new_image: c.new_image_data@,
        new_items: c.new_items@,
        new_width: c.new_width,
        new_height: c.new_height,
    }
}

pub open spec fn action_view<T>(a: HistoryAction<T>) -> ActionView<T> {
    match a {
        HistoryAction::Add(x) => ActionView::Add(x),
        HistoryAction::Clear(v) => ActionView::Clear(v@),
        HistoryAction::Crop(c) => ActionView::Crop(crop_view(c)),
    }
}

pub open spec fn actions_view<T>(v: Seq<HistoryAction<T>>) -> Seq<ActionView<T>> {
    v.map_values(|a: HistoryAction<T>| action_view(a))
}

// ----- the changes, on the abstract state -----

/// Adding `x`: it is shown on top of the others; what was undone is forgotten.
pub open spec fn spec_add<T>(h: HistoryView<T>, x: T) -> HistoryView<T> {
    HistoryView { items: h.items.push(x), done: h.done.push(ActionView::Add(x)), undone: seq![] }
}

/// Clearing: when annotations are shown, they are removed and recorded; otherwise nothing
/// happens.
pub open spec fn spec_clear<T>(h: HistoryView<T>) -> HistoryView<T> {
    if h.items.len() > 0 {
        HistoryView {
            items: seq![],
            done: h.done.push(ActionView::Clear(h.items)),
            undone: seq![],
        }
    } else {
        h
    }
}

/// The crop recorded when the image `prev_*` becomes `new_*`: the annotations go away with it.
pub open spec fn crop_record<T>(
    items: Seq<T>,
    prev_image: Seq<char>,
    prev_width: u32,
    prev_height: u32,
    new_image: Seq<char>,
    new_width: u32,
    new_height: u32,
) -> CropView<T> {
    CropView {
        prev_image,
        prev_items: items,
        prev_width,
        prev_height,
        new_image,
        new_items: seq![],
        new_width,
        new_height,
    }
}

pub open spec fn spec_crop<T>(h: HistoryView<T>, c: CropView<T>) -> HistoryView<T> {
    HistoryView { items: seq![], done: h.done.push(ActionView::Crop(c)), undone: seq![] }
}

/// Undo: the last change done is taken back and becomes the last change undone. An added
/// annotation is removed; cleared annotations come back; a crop shows the annotations and
/// image from before it.
pub open spec fn spec_undo<T>(h: HistoryView<T>) -> HistoryView<T> {
    if h.done.len() == 0 {
        h
    } else {
        let a = h.done.last();
        let items = match a {
            ActionView::Add(_) => if h.items.len() > 0 {
                h.items.drop_last()
            } else {
                h.items
            },
            ActionView::Clear(c) => c,
            ActionView::Crop(c) => c.prev_items,
        };
        HistoryView { items, done: h.done.drop_last(), undone: h.undone.push(a) }
    }
}

/// Redo: the last change undone is made again and becomes the last change done.
pub open spec fn spec_redo<T>(h: HistoryView<T>) -> HistoryView<T> {
    if h.undone.len() == 0 {
        h
    } else {
        let a = h.undone.last();
        let items = match a {
            ActionView::Add(x) => h.items.push(x),
            ActionView::Clear(_) => seq![],
            ActionView::Crop(c) => c.new_items,
        };
        HistoryView { items, done: h.done.push(a), undone: h.undone.drop_last() }
    }
}

/// The image an undo switches to: the one before the crop it takes back.
pub open spec fn undo_image<T>(h: HistoryView<T>) -> Option<(Seq<char>, u32, u32)> {
    if h.done.len() > 0 && h.done.last() is Crop {
        let c = h.done.last()->Crop_0;
        Some((c.prev_image, c.prev_width, c.prev_height))
    } else {
        None
    }
}

/// The image a redo switches to: the one after the crop it makes again.
pub open spec fn redo_image<T>(h: HistoryView<T>) -> Option<(Seq<char>, u32, u32)> {
    if h.undone.len() > 0 && h.undone.last() is Crop {
        let c = h.undone.last()->Crop_0;
        Some((c.new_image, c.new_width, c.new_height))
    } else {
        None
    }
}

pub open spec fn switch_view(s: Option<ImageSwitch>) -> Option<(Seq<char>, u32, u32)> {
    match s {
        Some(i) => Some((i.image_data@, i.width, i.height)),
        None => None,
    }
}

/// `b` is `a` with every annotation possibly replaced by a clone of it.
pub open spec fn clones_of<T: Clone>(a: Seq<T>, b: Seq<T>) -> bool {
    a.len() == b.len() && forall|i: int| 0 <= i < a.len() ==> cloned(a[i], #[trigger] b[i])
}

/// `actual` is `expected` with the annotations shown possibly replaced by clones.
pub open spec fn same_up_to_clones<T: Clone>(actual: HistoryView<T>, expected: HistoryView<T>) -> bool {
    clones_of(expected.items, actual.items) && actual.done == expected.done && actual.undone
        == expected.undone
}

/// The editor's history.
pub struct EditHistory<T> {
    items: Vec<T>,
    done: Vec<HistoryAction<T>>,
    undone: Vec<HistoryAction<T>>,
}

impl<T: Clone> EditHistory<T> {
    pub closed spec fn view(&self) -> HistoryView<T> {
        HistoryView {
            items: self.items@,
            done: actions_view(self.done@),
            undone: actions_view(self.undone@),
        }
    }

    /// An empty history with no annotations.
    pub fn new() -> (h: Self)
        ensures
            h.view().items.len() == 0,
            h.view().done.len() == 0,
            h.view().undone.len() == 0,
    {
        let h = EditHistory { items: Vec::new(), done: Vec::new(), undone: Vec::new() };
        assert(actions_view(h.done@) =~= seq![]);
        assert(actions_view(h.undone@) =~= seq![]);
        h
    }

    /// The annotations shown.
    pub fn items(&self) -> (r: &Vec<T>)
        ensures
            r@ == self.view().items,
    {
        &self.items
    }

    pub fn can_undo(&self) -> (b: bool)
        ensures
            b == (self.view().done.len() > 0),
    {
        self.done.len() > 0
    }

    pub fn can_redo(&self) -> (b: bool)
        ensures
            b == (self.view().undone.len() > 0),
    {
        self.undone.len() > 0
    }

    pub fn can_clear(&self) -> (b: bool)
        ensures
            b == (self.view().items.len() > 0),
    {
        self.items.len() > 0
    }

    /// Records a new annotation and shows it.
    pub fn add(&mut self, item: T)
        ensures
            same_up_to_clones(final(self).view(), spec_add(old(self).view(), item)),
    {
        let copy = item.clone();
        self.items.push(copy);
        self.done.push(HistoryAction::Add(item));
        self.undone.clear();
        proof {
            let e = spec_add(old(self).view(), item);
            assert(actions_view(self.done@) =~= e.done);
            assert(actions_view(self.undone@) =~= seq![]);
            assert(clones_of(e.items, self.items@));
        }
    }

    /// Removes all annotations, recording them; does nothing when there are none.
    pub fn clear(&mut self)
        ensures
            same_up_to_clones(final(self).view(), spec_clear(old(self).view())),
    {
        if self.items.len() > 0 {
            let ghost e = spec_clear(old(self).view());
            let mut taken: Vec<T> = Vec::new();
            std::mem::swap(&mut taken, &mut self.items);
            self.done.push(HistoryAction::Clear(taken));
            self.undone.clear();
            proof {
                assert(actions_view(self.done@) =~= e.done);
                assert(actions_view(self.undone@) =~= seq![]);
                assert(self.items@ =~= e.items);
            }
        }
    }

    /// Records a crop of the image `prev_*` to `new_*`; the annotations go away with the old image.
    pub fn crop(
        &mut self,
        prev_image_data: String,
        prev_width: u32,
        prev_height: u32,
        new_image_data: String,
        new_width: u32,
        new_height: u32,
    )
        ensures
            same_up_to_clones(
                final(self).view(),
                spec_crop(
                    old(self).view(),
                    crop_record(
                        old(self).view().items,
                        prev_image_data@,
                        prev_width,
                        prev_height,
                        new_image_data@,
                        new_width,
                        new_height,
                    ),
                ),
            ),
    {
        let ghost e = spec_crop(
            old(self).view(),
            crop_record(
                old(self).view().items,
                prev_image_data@,
                prev_width,
                prev_height,
                new_image_data@,
                new_width,
                new_height,
            ),
        );
        let mut taken: Vec<T> = Vec::new();
        std::mem::swap(&mut taken, &mut self.items);
        let change = CropChange {
            prev_image_data,
            prev_items: taken,
            prev_width,
            prev_height,
            new_image_data,
            new_items: Vec::new(),
            new_width,
            new_height,
        };
        self.done.push(HistoryAction::Crop(change));
        self.undone.clear();
        proof {
            assert(crop_view(change) =~= crop_record(
                old(self).view().items,
                prev_image_data@,
                prev_width,
                prev_height,
                new_image_data@,
                new_width,
                new_height,
            ));
            assert(actions_view(self.done@) =~= e.done);
            assert(actions_view(self.undone@) =~= seq![]);
            assert(self.items@ =~= e.items);
        }
    }

    /// Takes back the last change done; returns the image to show when it was a crop.
    pub fn undo(&mut self) -> (s: Option<ImageSwitch>)
        ensures
            same_up_to_clones(final(self).view(), spec_undo(old(self).view())),
            switch_view(s) == undo_image(old(self).view()),
    {
        let ghost e = spec_undo(old(self).view());
        match self.done.pop() {
            None => None,
            Some(action) => {
                let ghost av = action_view(action);
                assert(av == old(self).view().done.last());
                match action {
                    HistoryAction::Add(x) => {
                        self.items.pop();
                        self.undone.push(HistoryAction::Add(x));
                        proof {
                            assert(actions_view(self.done@) =~= e.done);
                            assert(actions_view(self.undone@) =~= e.undone);
                            assert(self.items@ =~= e.items);
                        }
                        None
                    },
                    HistoryAction::Clear(c) => {
                        self.items = c.clone();
                        self.undone.push(HistoryAction::Clear(c));
                        proof {
                            assert(actions_view(self.done@) =~= e.done);
                            assert(actions_view(self.undone@) =~= e.undone);
                        }
                        None
                    },
                    HistoryAction::Crop(ch) => {
                        self.items = ch.prev_items.clone();
                        let sw = ImageSwitch {
                            image_data: ch.prev_image_data.clone(),
                            width: ch.prev_width,
                            height: ch.prev_height,
                        };
                        self.undone.push(HistoryAction::Crop(ch));
                        proof {
                            assert(actions_view(self.done@) =~= e.done);
                            assert(actions_view(self.undone@) =~= e.undone);
                        }
                        Some(sw)
                    },
                }
            },
        }
    }

    /// Makes the last undone change again; returns the image to show when it was a crop.
    pub fn redo(&mut self) -> (s: Option<ImageSwitch>)
        ensures
            same_up_to_clones(final(self).view(), spec_redo(old(self).view())),
            switch_view(s) == redo_image(old(self).view()),
    {
        let ghost e = spec_redo(old(self).view());
        match self.undone.pop() {
            None => None,
            Some(action) => {
                let ghost av = action_view(action);
                assert(av == old(self).view().undone.last());
                match action {
                    HistoryAction::Add(x) => {
                        self.items.push(x.clone());
                        self.done.push(HistoryAction::Add(x));
                        proof {
                            assert(actions_view(self.done@) =~= e.done);
                            assert(actions_view(self.undone@) =~= e.undone);
                            assert(clones_of(e.items, self.items@));
                        }
                        None
                    },
                    HistoryAction::Clear(c) => {
                        self.items.clear();
                        self.done.push(HistoryAction::Clear(c));
                        proof {
                            assert(actions_view(self.done@) =~= e.done);
                            assert(actions_view(self.undone@) =~= e.undone);
                            assert(self.items@ =~= e.items);
                        }
                        None
                    },
                    HistoryAction::Crop(ch) => {
                        self.items = ch.new_items.clone();
                        let sw = ImageSwitch {
                            image_data: ch.new_image_data.clone(),
                            width: ch.new_width,
                            height: ch.new_height,
                        };
                        self.done.push(HistoryAction::Crop(ch));
                        proof {
                            assert(actions_view(self.done@) =~= e.done);
                            assert(actions_view(self.undone@) =~= e.undone);
                        }
                        Some(sw)
                    },
                }
            },
        }
    }
}

// ----- laws -----

/// The annotations shown are what the changes done produced: an added annotation is the last
/// one shown, nothing is shown right after a clear, and right after a crop the crop's own
/// annotations are shown; below each change, the annotations it replaced.
pub open spec fn done_consistent<T>(items: Seq<T>, done: Seq<ActionView<T>>) -> bool
    decreases done.len(),
{
    if done.len() == 0 {
        true
    } else {
        match done.last() {
            ActionView::Add(x) => items.len() > 0 && items.last() == x && done_consistent(
                items.drop_last(),
                done.drop_last(),
            ),
            ActionView::Clear(c) => items.len() == 0 && done_consistent(c, done.drop_last()),
            ActionView::Crop(c) => items == c.new_items && done_consistent(
                c.prev_items,
                done.drop_last(),
            ),
        }
    }
}

/// The changes undone start from the annotations shown: redoing them one after the other
/// replays them.
pub open spec fn undone_consistent<T>(items: Seq<T>, undone: Seq<ActionView<T>>) -> bool
    decreases undone.len(),
{
    if undone.len() == 0 {
        true
    } else {
        match undone.last() {
            ActionView::Add(x) => undone_consistent(items.push(x), undone.drop_last()),
            ActionView::Clear(c) => c == items && undone_consistent(seq![], undone.drop_last()),
            ActionView::Crop(c) => c.prev_items == items && undone_consistent(
                c.new_items,
                undone.drop_last(),
            ),
        }
    }
}

/// The state every history reached by the editor's changes is in.
pub open spec fn consistent<T>(h: HistoryView<T>) -> bool {
    done_consistent(h.items, h.done) && undone_consistent(h.items, h.undone)
}

/// A history with no changes done or undone is consistent, whatever it shows.
pub proof fn law_empty_consistent<T>(items: Seq<T>)
    ensures
        consistent((HistoryView { items, done: seq![], undone: seq![] })),
{
}

/// Adding, clearing and cropping keep a history consistent.
pub proof fn law_changes_keep_consistent<T>(h: HistoryView<T>, x: T, c: CropView<T>)
    requires
        consistent(h),
        c.prev_items == h.items,
        c.new_items.len() == 0,
    ensures
        consistent(spec_add(h, x)),
        consistent(spec_clear(h)),
        consistent(spec_crop(h, c)),
{
    assert(h.items.push(x).drop_last() == h.items);
    assert(h.done.push(ActionView::Add(x)).drop_last() == h.done);
    assert(h.done.push(ActionView::Clear(h.items)).drop_last() == h.done);
    assert(h.done.push(ActionView::Crop(c)).drop_last() == h.done);
    assert(c.new_items == Seq::<T>::empty());
}

/// Undo and redo keep a history consistent.
pub proof fn law_undo_redo_keep_consistent<T>(h: HistoryView<T>)
    requires
        consistent(h),
    ensures
        consistent(spec_undo(h)),
        consistent(spec_redo(h)),
{
    if h.done.len() > 0 {
        let u = spec_undo(h);
        assert(u.undone.drop_last() == h.undone);
        assert(u.undone.last() == h.done.last());
        match h.done.last() {
            ActionView::Add(x) => {
                assert(u.items.push(x) == h.items);
            },
            ActionView::Clear(c) => {
                assert(h.items =~= seq![]);
            },
            ActionView::Crop(c) => {},
        }
    }
    if h.undone.len() > 0 {
        let r = spec_redo(h);
        assert(r.done.drop_last() == h.done);
        match h.undone.last() {
            ActionView::Add(x) => {
                assert(r.items.drop_last() == h.items);
            },
            _ => {},
        }
    }
}

/// Undo takes back an addition exactly: the annotations and changes done are as before, and
/// the addition is the only change that can be redone.
pub proof fn law_undo_after_add<T>(h: HistoryView<T>, x: T)
    ensures
        spec_undo(spec_add(h, x)) == (HistoryView {
            items: h.items,
            done: h.done,
            undone: seq![ActionView::Add(x)],
        }),
{
    assert(h.items.push(x).drop_last() == h.items);
    assert(h.done.push(ActionView::Add(x)).drop_last() == h.done);
    assert(Seq::<ActionView<T>>::empty().push(ActionView::Add(x)) == seq![ActionView::Add(x)]);
}

/// Redo after undo gives back the history there was before the undo.
pub proof fn law_redo_after_undo<T>(h: HistoryView<T>)
    requires
        consistent(h),
        h.done.len() > 0,
    ensures
        spec_redo(spec_undo(h)) == h,
        redo_image(spec_undo(h)) == if h.done.last() is Crop {
            let c = h.done.last()->Crop_0;
            Some((c.new_image, c.new_width, c.new_height))
        } else {
            None
        },
{
    let u = spec_undo(h);
    assert(u.undone.last() == h.done.last());
    assert(u.undone.drop_last() == h.undone);
    assert(u.done.push(h.done.last()) == h.done);
    match h.done.last() {
        ActionView::Add(x) => {
            assert(u.items.push(x) == h.items);
        },
        ActionView::Clear(c) => {
            assert(h.items =~= seq![]);
        },
        ActionView::Crop(c) => {},
    }
}

/// Undo after redo gives back the history there was before the redo.
pub proof fn law_undo_after_redo<T>(h: HistoryView<T>)
    requires
        consistent(h),
        h.undone.len() > 0,
    ensures
        spec_undo(spec_redo(h)) == h,
{
    let r = spec_redo(h);
    assert(r.done.last() == h.undone.last());
    assert(r.done.drop_last() == h.done);
    assert(r.undone.push(h.undone.last()) == h.undone);
    match h.undone.last() {
        ActionView::Add(x) => {
            assert(r.items.drop_last() == h.items);
        },
        _ => {},
    }
}

/// Recording a change forgets what was undone.
pub proof fn law_changes_forget_redo<T>(h: HistoryView<T>, x: T, c: CropView<T>)
    ensures
        spec_add(h, x).undone.len() == 0,
        spec_crop(h, c).undone.len() == 0,
        h.items.len() > 0 ==> spec_clear(h).undone.len() == 0,
{
}

} // verus!
