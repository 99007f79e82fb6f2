//! State of a yes/no confirmation dialog.

use vstd::prelude::*;

verus! {

/// A yes/no question, closed until opened with a preselected answer.
pub struct ConfirmationModal {
    title: Option<String>,
    text: String,
    selected_value: Option<bool>,
}

impl ConfirmationModal {
    /// The question asked.
    pub closed spec fn question(&self) -> Seq<char> {
        self.text@
    }

    /// The dialog's title, if it has one.
    pub closed spec fn heading(&self) -> Option<Seq<char>> {
        match self.title {
            Some(t) => Some(t@),
            None => None,
        }
    }

    /// The answer currently selected; `None` while the dialog is closed.
    pub closed spec fn selection(&self) -> Option<bool> {
        self.selected_value
    }

    /// A closed dialog asking `text`, without a title.
    pub fn new(text: String) -> (r: Self)
        ensures
            r.question() == text@,
            r.heading() is None,
            r.selection() is None,
    {
        ConfirmationModal { text, title: None, selected_value: None }
    }

    /// The same dialog with a title.
    pub fn with_title(self, title: String) -> (r: Self)
        ensures
            r.question() == self.question(),
            r.heading() == Some(title@),
            r.selection() == self.selection(),
    {
        ConfirmationModal { title: Some(title), ..self }
    }

    /// Whether the dialog is shown.
    pub fn is_open(&self) -> (r: bool)
        ensures
            r == self.selection() is Some,
    {
        self.selected_value.is_some()
    }

    /// Shows the dialog with `default_value` selected.
    pub fn open(&mut self, default_value: bool)
        ensures
            final(self).selection() == Some(default_value),
            final(self).question() == old(self).question(),
            final(self).heading() == old(self).heading(),
    {
        self.selected_value = Some(default_value);
    }

    /// Hides the dialog and returns the answer that was selected (`false` if it was not open).
    pub fn close(&mut self) -> (r: bool)
        ensures
            r == (old(self).selection() == Some(true)),
            final(self).selection() is None,
            final(self).question() == old(self).question(),
            final(self).heading() == old(self).heading(),
    {
        let r = match self.selected_value {
            Some(v) => v,
            None => false,
        };
        self.selected_value = None;
        r
    }
}

} // verus!
