//! The selection in a list, moved up and down with wrap-around.

use vstd::prelude::*;

verus! {

/// The index of the selected entry of a list.
#[derive(Debug, Clone, Copy, PartialEq, Eq, Structural)]
pub struct SelectedBeatmap {
    pub index: usize,
}

impl SelectedBeatmap {
    /// The index one up in a list of `count` entries; from the first
    /// entry the selection goes to the last.
    pub open spec fn spec_previous(self, count: int) -> int {
        if self.index > 0 {
            self.index - 1
        } else {
            count - 1
        }
    }

    /// The index one down in a list of `count` entries; from the last
    /// entry, or from beyond it, the selection goes to the first.
    pub open spec fn spec_next(self, count: int) -> int {
        if self.index < count - 1 {
            self.index + 1
        } else {
            0
        }
    }

    /// Moves the selection one up in a list of `count` entries. An empty
    /// list leaves it where it is.
    pub fn select_previous(&mut self, count: usize)
        ensures
            count > 0 ==> final(self).index == old(self).spec_previous(count as int),
            count == 0 ==> final(self).index == old(self).index,
            count > 0 && old(self).index < count ==> final(self).index < count,
    {
        if count > 0 {
            if self.index > 0 {
                self.index = self.index - 1;
            } else {
                self.index = count - 1;
            }
        }
    }

    /// Moves the selection one down in a list of `count` entries. An
    /// empty list leaves it where it is.
    pub fn select_next(&mut self, count: usize)
        ensures
            count > 0 ==> final(self).index == old(self).spec_next(count as int),
            count == 0 ==> final(self).index == old(self).index,
            count > 0 ==> final(self).index < count,
    {
        if count > 0 {
            if self.index < count - 1 {
                self.index = self.index + 1;
            } else {
                self.index = 0;
            }
        }
    }
}

impl Default for SelectedBeatmap {
    fn default() -> (selected: Self)
        ensures
            selected.index == 0,
    {
        SelectedBeatmap { index: 0 }
    }
}

/// In a list that holds the selection, one step down and one step up lead
/// back to where the selection was.
pub proof fn lemma_next_previous(selected: SelectedBeatmap, count: int)
    requires
        0 <= selected.index < count,
        count <= usize::MAX,
    ensures
        (SelectedBeatmap { index: selected.spec_next(count) as usize }).spec_previous(count)
            == selected.index,
        (SelectedBeatmap { index: selected.spec_previous(count) as usize }).spec_next(count)
            == selected.index,
{
}

} // verus!
