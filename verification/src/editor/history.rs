//! Undo/redo history of pixel changes.
use vstd::prelude::*;
use std::collections::VecDeque;

verus! {

/// One recorded pixel change.
#[derive(Clone, Debug)]
pub struct PixelChange {
    pub sprite_id: usize,
    pub x: u32,
    pub y: u32,
    /// Colour before the change.
    pub old_color: Vec<u8>,
    /// Colour after the change.
    pub new_color: Vec<u8>,
}

/// A pixel change as plain values: `(sprite_id, x, y, old_color, new_color)`.
pub type ChangeView = (usize, u32, u32, Seq<u8>, Seq<u8>);

impl View for PixelChange {
    type V = ChangeView;

    open spec fn view(&self) -> ChangeView {
        (self.sprite_id, self.x, self.y, self.old_color@, self.new_color@)
    }
}

impl PixelChange {
    /// A copy with the same values.
    pub fn duplicate(&self) -> (c: PixelChange)
        ensures
            c@ == self@,
    {
        let old_color = self.old_color.clone();
        let new_color = self.new_color.clone();
        assert(old_color@ =~= self.old_color@);
        assert(new_color@ =~= self.new_color@);
        PixelChange { sprite_id: self.sprite_id, x: self.x, y: self.y, old_color, new_color }
    }
}

/// Most changes the history keeps.
pub open spec fn max_history() -> nat {
    1000
}

/// The history as plain values: the undo stack and the redo stack, each
/// oldest first (the next change to undo / redo is the last one).
pub type HistoryView = (Seq<ChangeView>, Seq<ChangeView>);

/// The history after recording `c`: it goes on top of the undo stack, the
/// oldest change is dropped past the limit, and the redo stack is cleared.
pub open spec fn spec_record<T>(h: (Seq<T>, Seq<T>), c: T) -> (Seq<T>, Seq<T>) {
    let pushed = h.0.push(c);
    (if pushed.len() > max_history() { pushed.drop_first() } else { pushed }, Seq::empty())
}

/// The history after an undo, and the change undone (if any): the top of
/// the undo stack moves to the redo stack.
pub open spec fn spec_undo<T>(h: (Seq<T>, Seq<T>)) -> ((Seq<T>, Seq<T>), Option<T>) {
    if h.0.len() == 0 {
        (h, None)
    } else {
        ((h.0.drop_last(), h.1.push(h.0.last())), Some(h.0.last()))
    }
}

/// The history after a redo, and the change redone (if any): the top of
/// the redo stack moves back to the undo stack.
pub open spec fn spec_redo<T>(h: (Seq<T>, Seq<T>)) -> ((Seq<T>, Seq<T>), Option<T>) {
    if h.1.len() == 0 {
        (h, None)
    } else {
        ((h.0.push(h.1.last()), h.1.drop_last()), Some(h.1.last()))
    }
}

/// Undo/redo stacks of pixel changes, keeping at most 1000 changes.
pub struct UndoRedoStack {
    undo_stack: VecDeque<PixelChange>,
    redo_stack: VecDeque<PixelChange>,
    max_history: usize,
}

impl View for UndoRedoStack {
    type V = HistoryView;

    closed spec fn view(&self) -> HistoryView {
        (self.undo_stack@.map_values(|c: PixelChange| c@), self.redo_stack@.map_values(|c: PixelChange| c@))
    }
}

impl UndoRedoStack {
    #[verifier::type_invariant]
    spec fn bounded(&self) -> bool {
        &&& self.max_history == max_history()
        &&& self.undo_stack@.len() + self.redo_stack@.len() <= max_history()
    }

    /// An empty history.
    pub fn new() -> (s: UndoRedoStack)
        ensures
            s@.0 == Seq::<ChangeView>::empty(),
            s@.1 == Seq::<ChangeView>::empty(),
    {
        let s = UndoRedoStack { undo_stack: VecDeque::new(), redo_stack: VecDeque::new(), max_history: 1000 };
        assert(s@.0 =~= Seq::<ChangeView>::empty());
        assert(s@.1 =~= Seq::<ChangeView>::empty());
        s
    }

    /// Record a change: it becomes the next one to undo, the redo stack is
    /// cleared, and past 1000 changes the oldest is forgotten.
    pub fn record(&mut self, change: PixelChange)
        ensures
            final(self)@ == spec_record(old(self)@, change@),
            final(self)@.0.len() + final(self)@.1.len() <= max_history(),
    {
        proof { use_type_invariant(&*self); }
        let mut undo_stack: VecDeque<PixelChange> = VecDeque::new();
        std::mem::swap(&mut undo_stack, &mut self.undo_stack);
        let ghost u0 = undo_stack@;
        undo_stack.push_back(change);
        if undo_stack.len() > self.max_history {
            let _ = undo_stack.pop_front();
        }
        *self = UndoRedoStack { undo_stack, redo_stack: VecDeque::new(), max_history: self.max_history };
        proof {
            let pushed = u0.push(change);
            assert(pushed.map_values(|c: PixelChange| c@) =~= old(self)@.0.push(change@));
            if pushed.len() > max_history() {
                assert(pushed.drop_first().map_values(|c: PixelChange| c@)
                    =~= old(self)@.0.push(change@).drop_first());
            }
            assert(self@.1 =~= Seq::<ChangeView>::empty());
        }
    }

    /// Undo one step: the most recent change moves to the redo stack and is
    /// returned (restore its `old_color`); `None` with nothing to undo.
    pub fn undo(&mut self) -> (r: Option<PixelChange>)
        ensures
            final(self)@ == spec_undo(old(self)@).0,
            final(self)@.0.len() + final(self)@.1.len() <= max_history(),
            match r {
                None => spec_undo(old(self)@).1 is None,
                Some(c) => spec_undo(old(self)@).1 == Some(c@),
            },
    {
        proof { use_type_invariant(&*self); }
        let mut undo_stack: VecDeque<PixelChange> = VecDeque::new();
        let mut redo_stack: VecDeque<PixelChange> = VecDeque::new();
        std::mem::swap(&mut undo_stack, &mut self.undo_stack);
        std::mem::swap(&mut redo_stack, &mut self.redo_stack);
        let ghost u0 = undo_stack@;
        let ghost r0 = redo_stack@;
        let res = undo_stack.pop_back();
        match res {
            Some(change) => {
                redo_stack.push_back(change.duplicate());
                *self = UndoRedoStack { undo_stack, redo_stack, max_history: self.max_history };
                proof {
                    assert(self@.0 =~= old(self)@.0.drop_last());
                    assert(self@.1 =~= old(self)@.1.push(old(self)@.0.last()));
                }
                Some(change)
            },
            None => {
                *self = UndoRedoStack { undo_stack, redo_stack, max_history: self.max_history };
                proof {
                    assert(self@.0 =~= old(self)@.0);
                    assert(self@.1 =~= old(self)@.1);
                }
                None
            },
        }
    }

    /// Redo one step: the most recently undone change moves back to the undo
    /// stack and is returned (apply its `new_color`); `None` with nothing to
    /// redo.
    pub fn redo(&mut self) -> (r: Option<PixelChange>)
        ensures
            final(self)@ == spec_redo(old(self)@).0,
            final(self)@.0.len() + final(self)@.1.len() <= max_history(),
            match r {
                None => spec_redo(old(self)@).1 is None,
                Some(c) => spec_redo(old(self)@).1 == Some(c@),
            },
    {
        proof { use_type_invariant(&*self); }
        let mut undo_stack: VecDeque<PixelChange> = VecDeque::new();
        let mut redo_stack: VecDeque<PixelChange> = VecDeque::new();
        std::mem::swap(&mut undo_stack, &mut self.undo_stack);
        std::mem::swap(&mut redo_stack, &mut self.redo_stack);
        let res = redo_stack.pop_back();
        match res {
            Some(change) => {
                undo_stack.push_back(change.duplicate());
                *self = UndoRedoStack { undo_stack, redo_stack, max_history: self.max_history };
                proof {
                    assert(self@.0 =~= old(self)@.0.push(old(self)@.1.last()));
                    assert(self@.1 =~= old(self)@.1.drop_last());
                }
                Some(change)
            },
            None => {
                *self = UndoRedoStack { undo_stack, redo_stack, max_history: self.max_history };
                proof {
                    assert(self@.0 =~= old(self)@.0);
                    assert(self@.1 =~= old(self)@.1);
                }
                None
            },
        }
    }

    /// There is a change to undo.
    pub fn can_undo(&self) -> (b: bool)
        ensures
            b == (self@.0.len() > 0),
    {
        self.undo_stack.len() > 0
    }

    /// There is a change to redo.
    pub fn can_redo(&self) -> (b: bool)
        ensures
            b == (self@.1.len() > 0),
    {
        self.redo_stack.len() > 0
    }

    /// Forget every change.
    pub fn clear(&mut self)
        ensures
            final(self)@.0 == Seq::<ChangeView>::empty(),
            final(self)@.1 == Seq::<ChangeView>::empty(),
    {
        *self = UndoRedoStack { undo_stack: VecDeque::new(), redo_stack: VecDeque::new(), max_history: 1000 };
        assert(self@.0 =~= Seq::<ChangeView>::empty());
        assert(self@.1 =~= Seq::<ChangeView>::empty());
    }

    /// Number of changes that can be undone.
    pub fn undo_count(&self) -> (n: usize)
        ensures
            n == self@.0.len(),
    {
        self.undo_stack.len()
    }

    /// Number of changes that can be redone.
    pub fn redo_count(&self) -> (n: usize)
        ensures
            n == self@.1.len(),
    {
        self.redo_stack.len()
    }
}

impl Default for UndoRedoStack {
    fn default() -> (s: UndoRedoStack)
        ensures
            s@.0 == Seq::<ChangeView>::empty(),
            s@.1 == Seq::<ChangeView>::empty(),
    {
        UndoRedoStack::new()
    }
}

/// Undoing a change just recorded hands that change back, and leaves it as
/// the one change to redo.
pub proof fn law_undo_after_record<T>(h: (Seq<T>, Seq<T>), c: T)
    ensures
        spec_undo(spec_record(h, c)).1 == Some(c),
        spec_undo(spec_record(h, c)).0.1 == seq![c],
{
    let r = spec_record(h, c);
    assert(r.0.last() == c);
    assert(Seq::<T>::empty().push(c) =~= seq![c]);
}

/// Redo reverses undo: undoing then redoing restores the history and hands
/// back the same change.
pub proof fn law_redo_undoes_undo<T>(h: (Seq<T>, Seq<T>))
    requires
        h.0.len() > 0,
    ensures
        spec_redo(spec_undo(h).0).0 == h,
        spec_redo(spec_undo(h).0).1 == spec_undo(h).1,
{
    assert(h.0.drop_last().push(h.0.last()) =~= h.0);
    assert(h.1.push(h.0.last()).drop_last() =~= h.1);
}

/// Undo reverses redo: redoing then undoing restores the history and hands
/// back the same change.
pub proof fn law_undo_undoes_redo<T>(h: (Seq<T>, Seq<T>))
    requires
        h.1.len() > 0,
    ensures
        spec_undo(spec_redo(h).0).0 == h,
        spec_undo(spec_redo(h).0).1 == spec_redo(h).1,
{
    assert(h.1.drop_last().push(h.1.last()) =~= h.1);
    assert(h.0.push(h.1.last()).drop_last() =~= h.0);
}

/// Recording a change makes redo impossible.
pub proof fn law_record_clears_redo<T>(h: (Seq<T>, Seq<T>), c: T)
    ensures
        spec_redo(spec_record(h, c)).1 is None,
        spec_record(h, c).0.last() == c,
{
}

/// With nothing to undo (or redo), undo (or redo) changes nothing.
pub proof fn law_empty_undo_redo_noop<T>(h: (Seq<T>, Seq<T>))
    ensures
        h.0.len() == 0 ==> spec_undo(h) == (h, None::<T>),
        h.1.len() == 0 ==> spec_redo(h) == (h, None::<T>),
{
}

/// Undo and redo move changes between the stacks without losing any: the
/// total count is unchanged.
pub proof fn law_undo_redo_preserve_count<T>(h: (Seq<T>, Seq<T>))
    ensures
        spec_undo(h).0.0.len() + spec_undo(h).0.1.len() == h.0.len() + h.1.len(),
        spec_redo(h).0.0.len() + spec_redo(h).0.1.len() == h.0.len() + h.1.len(),
{
}

} // verus!
