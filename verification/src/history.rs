//! Navigation between tree rows: the selected row with back and forward
//! stacks, as a browser keeps them.
use vstd::prelude::*;

verus! {

/// The selected row and the rows to go back and forward to.
#[derive(Clone, Debug)]
pub struct NavigationHistory {
    pub selected_row: usize,
    pub back_stack: Vec<usize>,
    pub forward_stack: Vec<usize>,
}

/// The value of a navigation history.
pub struct HistoryView {
    pub selected: usize,
    pub back: Seq<usize>,
    pub forward: Seq<usize>,
}

impl View for NavigationHistory {
    type V = HistoryView;

    open spec fn view(&self) -> HistoryView {
        HistoryView {
            selected: self.selected_row,
            back: self.back_stack@,
            forward: self.forward_stack@,
        }
    }
}

/// Selecting a row in the tree: a different row becomes the selection and
/// the forward stack is dropped; the back stack stays.
pub open spec fn select_view(h: HistoryView, row: usize) -> HistoryView {
    if h.selected == row {
        h
    } else {
        HistoryView { selected: row, back: h.back, forward: seq![] }
    }
}

/// Following a reference to another existing row: the current row goes on
/// the back stack, the forward stack is dropped.
pub open spec fn follow_view(h: HistoryView, row: usize, row_count: usize) -> HistoryView {
    if h.selected == row || row >= row_count {
        h
    } else {
        HistoryView { selected: row, back: h.back.push(h.selected), forward: seq![] }
    }
}

/// Going back: the last row of the back stack becomes the selection and the
/// current row goes on the forward stack.
pub open spec fn back_view(h: HistoryView) -> HistoryView {
    if h.back.len() == 0 {
        h
    } else {
        HistoryView {
            selected: h.back.last(),
            back: h.back.drop_last(),
            forward: h.forward.push(h.selected),
        }
    }
}

/// Going forward: the last row of the forward stack becomes the selection
/// and the current row goes on the back stack.
pub open spec fn forward_view(h: HistoryView) -> HistoryView {
    if h.forward.len() == 0 {
        h
    } else {
        HistoryView {
            selected: h.forward.last(),
            back: h.back.push(h.selected),
            forward: h.forward.drop_last(),
        }
    }
}

impl NavigationHistory {
    /// A history with `selected_row` selected and nothing to go back or
    /// forward to.
    pub fn new(selected_row: usize) -> (h: NavigationHistory)
        ensures
            h@ == (HistoryView { selected: selected_row, back: seq![], forward: seq![] }),
    {
        NavigationHistory { selected_row, back_stack: Vec::new(), forward_stack: Vec::new() }
    }

    /// Selects `row` from the tree; returns whether the selection changed.
    pub fn select_row(&mut self, row: usize) -> (changed: bool)
        ensures
            final(self)@ == select_view(old(self)@, row),
            changed == (old(self).selected_row != row),
    {
        if self.selected_row == row {
            return false;
        }
        self.selected_row = row;
        self.forward_stack = Vec::new();
        assert(self.forward_stack@ =~= seq![]);
        true
    }

    /// Follows a reference to `row` of a tree of `row_count` rows; returns
    /// whether the selection moved.
    pub fn follow_reference(&mut self, row: usize, row_count: usize) -> (moved: bool)
        ensures
            final(self)@ == follow_view(old(self)@, row, row_count),
            moved == (old(self).selected_row != row && row < row_count),
    {
        if self.selected_row == row || row >= row_count {
            return false;
        }
        self.back_stack.push(self.selected_row);
        self.forward_stack = Vec::new();
        self.selected_row = row;
        assert(self.forward_stack@ =~= seq![]);
        true
    }

    /// Goes back one step; returns whether there was a step to go back.
    pub fn go_back(&mut self) -> (moved: bool)
        ensures
            final(self)@ == back_view(old(self)@),
            moved == (old(self).back_stack@.len() > 0),
    {
        match self.back_stack.pop() {
            Some(row) => {
                self.forward_stack.push(self.selected_row);
                self.selected_row = row;
                true
            },
            None => false,
        }
    }

    /// Goes forward one step; returns whether there was a step to go
    /// forward.
    pub fn go_forward(&mut self) -> (moved: bool)
        ensures
            final(self)@ == forward_view(old(self)@),
            moved == (old(self).forward_stack@.len() > 0),
    {
        match self.forward_stack.pop() {
            Some(row) => {
                self.back_stack.push(self.selected_row);
                self.selected_row = row;
                true
            },
            None => false,
        }
    }
}

/// Going back after following a reference returns to the row the reference
/// was followed from, with the back stack as it was, and the followed row
/// waiting on the forward stack.
pub proof fn lemma_back_undoes_follow(h: HistoryView, row: usize, row_count: usize)
    requires
        h.selected != row,
        row < row_count,
    ensures
        back_view(follow_view(h, row, row_count)) == (HistoryView {
            selected: h.selected,
            back: h.back,
            forward: seq![row],
        }),
{
    assert(h.back.push(h.selected).drop_last() =~= h.back);
    assert(Seq::<usize>::empty().push(row) =~= seq![row]);
}

/// Going forward right after going back restores the history exactly.
pub proof fn lemma_forward_undoes_back(h: HistoryView)
    requires
        h.back.len() > 0,
    ensures
        forward_view(back_view(h)) == h,
{
    assert(h.back.drop_last().push(h.back.last()) =~= h.back);
    assert(h.forward.push(h.selected).drop_last() =~= h.forward);
}

/// Going back right after going forward restores the history exactly.
pub proof fn lemma_back_undoes_forward(h: HistoryView)
    requires
        h.forward.len() > 0,
    ensures
        back_view(forward_view(h)) == h,
{
    assert(h.forward.drop_last().push(h.forward.last()) =~= h.forward);
    assert(h.back.push(h.selected).drop_last() =~= h.back);
}

/// Going back or forward moves rows between the stacks without losing any:
/// the two stacks together hold as many rows as before.
pub proof fn lemma_steps_keep_row_count(h: HistoryView)
    ensures
        back_view(h).back.len() + back_view(h).forward.len() == h.back.len() + h.forward.len(),
        forward_view(h).back.len() + forward_view(h).forward.len() == h.back.len()
            + h.forward.len(),
{
}

} // verus!
