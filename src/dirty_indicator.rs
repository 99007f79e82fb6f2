//! The mark that tells whether the state has changes that were not saved.

use vstd::prelude::*;

use crate::undo::UndoWrapper;

verus! {

/// Shows `*` while the current state differs from the one last marked clean.
pub struct DirtyIndicator;

impl DirtyIndicator {
    /// The mark for `history`: `*` when it is dirty, a blank otherwise.
    pub fn text<T: Clone>(history: &UndoWrapper<T>) -> (r: &'static str)
        requires
            history.wf(),
        ensures
            r@ == if history.dirty() {
                seq!['*']
            } else {
                seq![' ']
            },
    {
        proof {
            reveal_strlit("*");
            reveal_strlit(" ");
        }
        if history.is_dirty() {
            "*"
        } else {
            " "
        }
    }
}

} // verus!
