//! The plain-value parts of the data table: column alignment, sort / selection state and the
//! clicks a frame reports.

use vstd::prelude::*;

verus! {

/// Horizontal alignment of a column.
#[derive(Clone, Copy, Debug, PartialEq, Eq, Structural)]
pub enum Align {
    Left,
    Right,
}

/// Sort column and direction, selected row.
#[derive(Clone, Copy, Debug, Default, PartialEq, Eq, Structural)]
pub struct TableState {
    pub sort_col: usize,
    pub sort_desc: bool,
    pub selected: Option<usize>,
    /// Set to scroll the selected row into view on the next frame.
    pub scroll_to_selected: bool,
}

/// What happened in the table this frame.
#[derive(Clone, Copy, Debug, Default, PartialEq, Eq, Structural)]
pub struct TableResponse {
    pub clicked: Option<usize>,
    pub double_clicked: Option<usize>,
    pub secondary_clicked: Option<usize>,
    pub sort_changed: bool,
}

/// The state after a click on the header of column `col`: the same column flips direction,
/// another one becomes the sort column, ascending.
pub open spec fn after_header_click(s: TableState, col: usize) -> TableState {
    if s.sort_col == col {
        TableState { sort_desc: !s.sort_desc, ..s }
    } else {
        TableState { sort_col: col, sort_desc: false, ..s }
    }
}

impl TableState {
    /// The header of column `col` was clicked (see [`after_header_click`]); the frame's
    /// response reports that the sort changed.
    pub fn header_clicked(&mut self, out: &mut TableResponse, col: usize)
        ensures
            *final(self) == after_header_click(*old(self), col),
            *final(out) == (TableResponse { sort_changed: true, ..*old(out) }),
    {
        out.sort_changed = true;
        if self.sort_col == col {
            self.sort_desc = !self.sort_desc;
        } else {
            self.sort_col = col;
            self.sort_desc = false;
        }
    }

    /// The row to scroll into view this frame (the selected one, once, when asked for).
    pub fn take_scroll_target(&mut self) -> (r: Option<usize>)
        ensures
            r == if old(self).scroll_to_selected { old(self).selected } else { None },
            *final(self) == (TableState { scroll_to_selected: false, ..*old(self) }),
    {
        let r = if self.scroll_to_selected { self.selected } else { None };
        self.scroll_to_selected = false;
        r
    }

    /// Record the clicks on `row`: a double click is reported as such; a single click or a
    /// secondary click also selects the row.
    pub fn row_input(&mut self, out: &mut TableResponse, row: usize, clicked: bool, double_clicked: bool, secondary_clicked: bool)
        ensures
            final(out).double_clicked == if double_clicked { Some(row) } else { old(out).double_clicked },
            final(out).clicked == if !double_clicked && clicked { Some(row) } else { old(out).clicked },
            final(out).secondary_clicked == if secondary_clicked { Some(row) } else { old(out).secondary_clicked },
            final(out).sort_changed == old(out).sort_changed,
            final(self).selected == if (!double_clicked && clicked) || secondary_clicked { Some(row) } else { old(self).selected },
            final(self).sort_col == old(self).sort_col,
            final(self).sort_desc == old(self).sort_desc,
            final(self).scroll_to_selected == old(self).scroll_to_selected,
    {
        if double_clicked {
            out.double_clicked = Some(row);
        } else if clicked {
            out.clicked = Some(row);
            self.selected = Some(row);
        }
        if secondary_clicked {
            out.secondary_clicked = Some(row);
            self.selected = Some(row);
        }
    }
}

/// A header click always sorts by that column; clicking the sort column's header twice
/// restores the state it started from.
pub proof fn law_header_click_toggles(s: TableState, col: usize)
    ensures
        after_header_click(s, col).sort_col == col,
        s.sort_col == col ==> after_header_click(after_header_click(s, col), col) == s,
        after_header_click(after_header_click(s, col), col).sort_desc == !after_header_click(s, col).sort_desc,
{
}

} // verus!
