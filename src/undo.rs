//! Generic undo functionality on an arbitrary state object.

use vstd::prelude::*;

verus! {

/// A wrapper for a state, allowing rolling back changes using an undo-redo system.
///
/// This operates by keeping around copies of the state, with a pointer to the current state.
pub struct UndoWrapper<T: Clone> {
    states: Vec<T>,
    current_index: usize,
    clean_index: Option<usize>,
}

impl<T: Clone> UndoWrapper<T> {
    /// The recorded history, oldest first.
    pub closed spec fn history(&self) -> Seq<T> {
        self.states@
    }

    /// Position of the current state in the history.
    pub closed spec fn cursor(&self) -> nat {
        self.current_index as nat
    }

    /// Position of the state marked as clean, if it is still part of the history.
    pub closed spec fn clean_mark(&self) -> Option<nat> {
        match self.clean_index {
            Some(c) => Some(c as nat),
            None => None,
        }
    }

    /// The history is non-empty, the cursor points into it, and so does the clean mark.
    pub open spec fn wf(&self) -> bool {
        &&& 0 < self.history().len() <= usize::MAX
        &&& self.cursor() < self.history().len()
        &&& self.clean_mark() matches Some(c) ==> c < self.history().len()
    }

    /// How many times the state can be reverted.
    pub open spec fn undo_steps(&self) -> nat {
        self.cursor()
    }

    /// How many times the state can be forwarded.
    pub open spec fn redo_steps(&self) -> nat {
        (self.history().len() - 1 - self.cursor()) as nat
    }

    /// Whether the current state differs from the one marked clean.
    pub open spec fn dirty(&self) -> bool {
        self.clean_mark() != Some(self.cursor())
    }

    /// `self` is what [`Self::modify`] leaves behind when called on `prev`, whatever the edit did
    /// to the new current state.
    pub open spec fn modified_from(&self, prev: Self) -> bool {
        &&& self.wf()
        &&& self.history().len() == prev.cursor() + 2
        &&& forall|j: int| 0 <= j <= prev.cursor() ==> #[trigger] self.history()[j] == prev.history()[j]
        &&& self.cursor() == prev.cursor() + 1
        &&& self.clean_mark() == Self::surviving_mark(prev.clean_mark(), prev.cursor())
    }

    /// `self` is what [`Self::undo`] leaves behind when called on `prev`.
    pub open spec fn undone_from(&self, prev: Self) -> bool {
        &&& self.wf()
        &&& self.history() == prev.history()
        &&& self.clean_mark() == prev.clean_mark()
        &&& self.cursor() == if prev.cursor() > 0 { (prev.cursor() - 1) as nat } else { prev.cursor() }
    }

    /// `self` is what [`Self::redo`] leaves behind when called on `prev`.
    pub open spec fn redone_from(&self, prev: Self) -> bool {
        &&& self.wf()
        &&& self.history() == prev.history()
        &&& self.clean_mark() == prev.clean_mark()
        &&& self.cursor() == if prev.cursor() + 1 < prev.history().len() {
            prev.cursor() + 1
        } else {
            prev.cursor()
        }
    }

    /// `self` is what [`Self::mark_clean`] leaves behind when called on `prev`.
    pub open spec fn marked_from(&self, prev: Self) -> bool {
        &&& self.wf()
        &&& self.history() == prev.history()
        &&& self.cursor() == prev.cursor()
        &&& self.clean_mark() == Some(prev.cursor())
    }

    /// The state the cursor points at.
    pub open spec fn current_state(&self) -> T {
        self.history()[self.cursor() as int]
    }

    /// Create a new instance with the given state as the current (and only) state.
    pub fn new(initial_state: T) -> (r: Self)
        ensures
            r.wf(),
            r.history() == seq![initial_state],
            r.cursor() == 0,
            r.clean_mark() is None,
    {
        Self { states: vec![initial_state], current_index: 0, clean_index: None }
    }

    /// Gets a reference to the current state.
    pub fn state(&self) -> (r: &T)
        requires
            self.wf(),
        ensures
            *r == self.current_state(),
    {
        &self.states[self.current_index]
    }

    /// Discards every state after the cursor, and the clean mark if it pointed there.
    fn clear_redo_states(&mut self)
        requires
            old(self).wf(),
        ensures
            final(self).wf(),
            final(self).history() == old(self).history().take(old(self).cursor() + 1 as int),
            final(self).cursor() == old(self).cursor(),
            final(self).clean_mark() == Self::surviving_mark(old(self).clean_mark(), old(self).cursor()),
    {
        self.states.truncate(self.current_index + 1);
        if let Some(clean_index) = self.clean_index {
            if clean_index > self.current_index {
                self.clean_index = None;
            }
        }
    }

    /// The clean mark that remains once the states after `cursor` are discarded.
    pub open spec fn surviving_mark(mark: Option<nat>, cursor: nat) -> Option<nat> {
        match mark {
            Some(c) => if c > cursor { None } else { Some(c) },
            None => None,
        }
    }

    /// Records a copy of the current state, makes it current and lets `func` mutate it. The
    /// previous state stays reachable through [`Self::undo`]; states that had been undone are
    /// discarded.
    pub fn modify<F: FnOnce(&mut T)>(&mut self, func: F)
        requires
            old(self).wf(),
            old(self).cursor() + 2 <= usize::MAX,
            forall|t: &mut T| cloned(old(self).current_state(), *t) ==> func.requires((t,)),
        ensures
            final(self).modified_from(*old(self)),
            exists|copy: T, slot: &mut T|
                cloned(old(self).current_state(), copy) && *slot == copy
                    && *final(slot) == final(self).current_state() && func.ensures((slot,), ()),
    {
        self.clear_redo_states();
        let copy = self.state().clone();
        self.states.push(copy);
        self.current_index += 1;
        let i = self.current_index;
        let slot = &mut self.states[i];
        let ghost before = *slot;
        assert(cloned(old(self).current_state(), *slot));
        func(slot);
        assert(cloned(old(self).current_state(), before));
        assert(self.history().take(i as int) =~= old(self).history().take(i as int));
    }

    /// Sets the current state pointer back one state, if possible. Returns `true` if the current
    /// state has changed.
    pub fn undo(&mut self) -> (moved: bool)
        requires
            old(self).wf(),
        ensures
            final(self).undone_from(*old(self)),
            moved == (old(self).undo_steps() > 0),
            moved ==> final(self).undo_steps() == old(self).undo_steps() - 1
                && final(self).redo_steps() == old(self).redo_steps() + 1,
            !moved ==> *final(self) == *old(self),
    {
        if self.current_index > 0 {
            self.current_index -= 1;
            true
        } else {
            false
        }
    }

    /// Returns how many times the state can be reverted.
    pub fn undo_count(&self) -> (r: usize)
        requires
            self.wf(),
        ensures
            r == self.undo_steps(),
    {
        self.current_index
    }

    /// Forwards the state one stage after calling [`Self::undo`]. This only works right after an
    /// undo: modifying the current state using [`Self::modify`] clears the redo queue.
    pub fn redo(&mut self) -> (moved: bool)
        requires
            old(self).wf(),
        ensures
            final(self).redone_from(*old(self)),
            moved == (old(self).redo_steps() > 0),
            moved ==> final(self).undo_steps() == old(self).undo_steps() + 1
                && final(self).redo_steps() == old(self).redo_steps() - 1,
            !moved ==> *final(self) == *old(self),
    {
        if self.current_index < self.states.len() - 1 {
            self.current_index += 1;
            true
        } else {
            false
        }
    }

    /// Returns how many times the state can be forwarded.
    pub fn redo_count(&self) -> (r: usize)
        requires
            self.wf(),
        ensures
            r == self.redo_steps(),
    {
        self.states.len() - 1 - self.current_index
    }

    /// Marks the current state as the "clean" state. This keeps track of which state is
    /// consistent with an externally saved one, such as the version on disk.
    pub fn mark_clean(&mut self)
        requires
            old(self).wf(),
        ensures
            final(self).marked_from(*old(self)),
    {
        self.clean_index = Some(self.current_index);
    }

    /// Returns whether the current state differs from the one marked clean. See
    /// [`Self::mark_clean`].
    pub fn is_dirty(&self) -> (dirty: bool)
        requires
            self.wf(),
        ensures
            dirty == self.dirty(),
    {
        match self.clean_index {
            Some(c) => c != self.current_index,
            None => true,
        }
    }
}

/// After `n` edits of a fresh history there are `n` steps to undo and none to redo; after `k`
/// further undos (`k <= n`) there are `n - k` steps to undo and `k` to redo.
pub proof fn lemma_edits_then_undos<T: Clone>(h: Seq<UndoWrapper<T>>, n: nat, k: nat)
    requires
        k <= n,
        h.len() == n + k + 1,
        h[0].wf(),
        h[0].history().len() == 1,
        forall|i: int| 0 <= i < n ==> #[trigger] h[i + 1].modified_from(h[i]),
        forall|i: int| n <= i < n + k ==> #[trigger] h[i + 1].undone_from(h[i]),
    ensures
        h[n as int].undo_steps() == n,
        h[n as int].redo_steps() == 0,
        h[n + k as int].undo_steps() == n - k,
        h[n + k as int].redo_steps() == k,
{
    lemma_edit_run(h, n as int);
    lemma_undo_run(h, n as int, n + k as int);
}

proof fn lemma_edit_run<T: Clone>(h: Seq<UndoWrapper<T>>, i: int)
    requires
        0 <= i < h.len(),
        h[0].wf(),
        h[0].history().len() == 1,
        forall|j: int| 0 <= j < i ==> #[trigger] h[j + 1].modified_from(h[j]),
    ensures
        h[i].wf(),
        h[i].cursor() == i,
        h[i].history().len() == i + 1,
    decreases i,
{
    if i > 0 {
        lemma_edit_run(h, i - 1);
        assert(h[(i - 1) + 1].modified_from(h[i - 1]));
    }
}

proof fn lemma_undo_run<T: Clone>(h: Seq<UndoWrapper<T>>, n: int, i: int)
    requires
        0 <= n <= i < h.len(),
        i - n <= n,
        h[n].wf(),
        h[n].cursor() == n,
        h[n].history().len() == n + 1,
        forall|j: int| n <= j < i ==> #[trigger] h[j + 1].undone_from(h[j]),
    ensures
        h[i].wf(),
        h[i].cursor() == n - (i - n),
        h[i].history().len() == n + 1,
    decreases i - n,
{
    if i > n {
        lemma_undo_run(h, n, i - 1);
        assert(h[(i - 1) + 1].undone_from(h[i - 1]));
    }
}

/// An edit leaves nothing to redo, whatever could be redone before, and one more step to undo.
pub proof fn lemma_edit_clears_redo<T: Clone>(prev: UndoWrapper<T>, next: UndoWrapper<T>)
    requires
        prev.wf(),
        next.modified_from(prev),
    ensures
        next.redo_steps() == 0,
        next.undo_steps() == prev.undo_steps() + 1,
{
}

/// Right after the current state is marked clean, it is not dirty.
pub proof fn lemma_clean_after_mark<T: Clone>(prev: UndoWrapper<T>, next: UndoWrapper<T>)
    requires
        next.marked_from(prev),
    ensures
        !next.dirty(),
{
}

/// After an edit the current state is always dirty.
pub proof fn lemma_dirty_after_edit<T: Clone>(prev: UndoWrapper<T>, next: UndoWrapper<T>)
    requires
        prev.wf(),
        next.modified_from(prev),
    ensures
        next.dirty(),
{
}

/// Undo and redo keep the clean mark: whenever a run of them brings the cursor back to the
/// position marked clean, the state is clean again.
pub proof fn lemma_navigation_returns_to_clean<T: Clone>(h: Seq<UndoWrapper<T>>, mark: nat)
    requires
        h.len() > 0,
        h[0].clean_mark() == Some(mark),
        forall|i: int|
            0 <= i < h.len() - 1 ==> #[trigger] h[i + 1].undone_from(h[i]) || h[i + 1].redone_from(h[i]),
    ensures
        forall|j: int| 0 <= j < h.len() ==> #[trigger] h[j].clean_mark() == Some(mark),
        forall|j: int| 0 <= j < h.len() && h[j].cursor() == mark ==> !(#[trigger] h[j].dirty()),
{
    assert forall|j: int| 0 <= j < h.len() implies #[trigger] h[j].clean_mark() == Some(mark) by {
        lemma_navigation_keeps_mark(h, mark, j);
    }
}

proof fn lemma_navigation_keeps_mark<T: Clone>(h: Seq<UndoWrapper<T>>, mark: nat, j: int)
    requires
        0 <= j < h.len(),
        h[0].clean_mark() == Some(mark),
        forall|i: int|
            0 <= i < h.len() - 1 ==> #[trigger] h[i + 1].undone_from(h[i]) || h[i + 1].redone_from(h[i]),
    ensures
        h[j].clean_mark() == Some(mark),
    decreases j,
{
    if j > 0 {
        lemma_navigation_keeps_mark(h, mark, j - 1);
        assert(h[(j - 1) + 1].undone_from(h[j - 1]) || h[(j - 1) + 1].redone_from(h[j - 1]));
    }
}

impl<T: Clone + Default> Default for UndoWrapper<T> {
    fn default() -> (r: Self)
        ensures
            r.wf(),
            r.history().len() == 1,
            r.cursor() == 0,
            r.clean_mark() is None,
    {
        Self::new(T::default())
    }
}

} // verus!
