//! The selection in a list pane: which row is selected and how far the
//! list is scrolled. Drawing clamps the row to the list.
use vstd::prelude::*;

verus! {

/// The selected row of a list, if any, and the first row shown.
#[derive(Debug, Clone, Copy, Default)]
pub struct ListSelection {
    pub selected: Option<usize>,
    pub offset: usize,
}

impl ListSelection {
    /// The selection after moving down.
    pub open spec fn moved_next(self) -> ListSelection {
        ListSelection {
            selected: Some(
                match self.selected {
                    None => 0,
                    Some(i) => if i < usize::MAX {
                        (i + 1) as usize
                    } else {
                        i
                    },
                },
            ),
            offset: self.offset,
        }
    }

    /// The selection after moving up.
    pub open spec fn moved_previous(self) -> ListSelection {
        ListSelection {
            selected: Some(
                match self.selected {
                    None => usize::MAX,
                    Some(i) => if i > 0 {
                        (i - 1) as usize
                    } else {
                        0
                    },
                },
            ),
            offset: self.offset,
        }
    }

    /// Nothing selected, scrolled to the top.
    pub fn new() -> (r: Self)
        ensures
            r.selected is None,
            r.offset == 0,
    {
        ListSelection { selected: None, offset: 0 }
    }

    /// The selected row, if any.
    pub fn selected(&self) -> (r: Option<usize>)
        ensures
            r == self.selected,
    {
        self.selected
    }

    /// Selects `index`; selecting nothing scrolls back to the top.
    pub fn select(&mut self, index: Option<usize>)
        ensures
            final(self).selected == index,
            final(self).offset == (if index is None {
                0
            } else {
                old(self).offset
            }),
    {
        self.selected = index;
        if index.is_none() {
            self.offset = 0;
        }
    }

    /// Selects the next row, or the first when nothing is selected.
    pub fn select_next(&mut self)
        ensures
            *final(self) == old(self).moved_next(),
    {
        let next = match self.selected {
            None => 0,
            Some(i) => i.saturating_add(1),
        };
        self.select(Some(next));
    }

    /// Selects the previous row, or the last there can be when nothing is
    /// selected.
    pub fn select_previous(&mut self)
        ensures
            *final(self) == old(self).moved_previous(),
    {
        let previous = match self.selected {
            None => usize::MAX,
            Some(i) => i.saturating_sub(1),
        };
        self.select(Some(previous));
    }
}

/// Moving down then up comes back to the selected row, and so does
/// moving up then down from any row but the first.
pub proof fn lemma_next_previous(s: ListSelection)
    ensures
        s.selected matches Some(i) && i < usize::MAX ==> s.moved_next().moved_previous() == s,
        s.selected matches Some(i) && i > 0 ==> s.moved_previous().moved_next() == s,
{
}

} // verus!
