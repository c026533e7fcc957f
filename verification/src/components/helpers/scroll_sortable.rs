//! Where a table is scrolled to, which of its columns has the focus, and by
//! which column it is sorted in which direction.

use crate::components::helpers::violations_display::VIOLATION_COLUMNS;
use vstd::prelude::*;

verus! {

#[derive(Debug, Clone, Copy, PartialEq, Eq)]
pub struct ScrollSortable {
    pub vertical_scroll: usize,
    pub horizontal_scroll: usize,
    pub sort_column: usize,
    /// The focus can be on a column by which the table is not sorted.
    pub focused_column: usize,
    pub sort_direction: SortDirection,
}

#[derive(Copy, Clone, Debug, PartialEq, Eq)]
pub enum SortDirection {
    Ascending,
    Descending,
}

impl Default for SortDirection {
    /// A table is sorted in descending order until told otherwise.
    fn default() -> (r: Self)
        ensures
            r == SortDirection::Descending,
    {
        Self::Descending
    }
}

impl Default for ScrollSortable {
    /// A table starts at its top left, sorted by its first column in
    /// descending order, with the focus on the first column.
    fn default() -> (r: Self)
        ensures
            r == (ScrollSortable {
                vertical_scroll: 0,
                horizontal_scroll: 0,
                sort_column: 0,
                focused_column: 0,
                sort_direction: SortDirection::Descending,
            }),
    {
        ScrollSortable {
            vertical_scroll: 0,
            horizontal_scroll: 0,
            sort_column: 0,
            focused_column: 0,
            sort_direction: SortDirection::Descending,
        }
    }
}

impl ScrollSortable {
    /// Moves the focus to the next column, and from the last column to the
    /// first.
    pub fn next_focus_column(&mut self)
        ensures
            *final(self) == (ScrollSortable {
                focused_column: if old(self).focused_column + 1 >= VIOLATION_COLUMNS {
                    0
                } else {
                    (old(self).focused_column + 1) as usize
                },
                ..*old(self)
            }),
    {
        if self.focused_column >= VIOLATION_COLUMNS - 1 {
            self.focused_column = 0
        } else {
            self.focused_column = self.focused_column + 1;
        }
    }

    pub fn focused_column(&self) -> (r: usize)
        ensures
            r == self.focused_column,
    {
        self.focused_column
    }

    pub fn is_sort_ascending(&self) -> (r: bool)
        ensures
            r == (self.sort_direction == SortDirection::Ascending),
    {
        match self.sort_direction {
            SortDirection::Ascending => true,
            SortDirection::Descending => false,
        }
    }

    pub fn sort_column(&self) -> (r: usize)
        ensures
            r == self.sort_column,
    {
        self.sort_column
    }

    /// Sorts by the column that has the focus.
    pub fn set_sort_column_to_active_column(&mut self)
        ensures
            *final(self) == (ScrollSortable { sort_column: old(self).focused_column, ..*old(self) }),
    {
        self.sort_column = self.focused_column;
    }

    pub fn set_vertical_scroll(&mut self, scroll: usize)
        ensures
            *final(self) == (ScrollSortable { vertical_scroll: scroll, ..*old(self) }),
    {
        self.vertical_scroll = scroll;
    }

    pub fn vertical_scroll(&self) -> (r: usize)
        ensures
            r == self.vertical_scroll,
    {
        self.vertical_scroll
    }

    pub fn reset_vertical_scroll(&mut self)
        ensures
            *final(self) == (ScrollSortable { vertical_scroll: 0, ..*old(self) }),
    {
        self.set_vertical_scroll(0);
    }

    /// Scrolls one row down.
    pub fn next_vertical_scroll(&mut self)
        requires
            old(self).vertical_scroll < usize::MAX,
        ensures
            *final(self) == (ScrollSortable {
                vertical_scroll: (old(self).vertical_scroll + 1) as usize,
                ..*old(self)
            }),
    {
        self.vertical_scroll = self.vertical_scroll + 1;
    }

    /// Scrolls one row up, unless the table is at its top.
    pub fn previous_vertical_scroll(&mut self)
        ensures
            *final(self) == (ScrollSortable {
                vertical_scroll: if old(self).vertical_scroll > 0 {
                    (old(self).vertical_scroll - 1) as usize
                } else {
                    0
                },
                ..*old(self)
            }),
    {
        if self.vertical_scroll > 0 {
            self.vertical_scroll = self.vertical_scroll - 1;
        }
    }

    pub fn set_horizontal_scroll(&mut self, scroll: usize)
        ensures
            *final(self) == (ScrollSortable { horizontal_scroll: scroll, ..*old(self) }),
    {
        self.horizontal_scroll = scroll;
    }

    pub fn horizontal_scroll(&self) -> (r: usize)
        ensures
            r == self.horizontal_scroll,
    {
        self.horizontal_scroll
    }

    pub fn reset_horizontal_scroll(&mut self)
        ensures
            *final(self) == (ScrollSortable { horizontal_scroll: 0, ..*old(self) }),
    {
        self.set_horizontal_scroll(0);
    }

    /// Scrolls one column to the right.
    pub fn next_horizontal_scroll(&mut self)
        requires
            old(self).horizontal_scroll < usize::MAX,
        ensures
            *final(self) == (ScrollSortable {
                horizontal_scroll: (old(self).horizontal_scroll + 1) as usize,
                ..*old(self)
            }),
    {
        self.horizontal_scroll = self.horizontal_scroll + 1;
    }

    /// Scrolls one column to the left, unless the table is at its left edge.
    pub fn previous_horizontal_scroll(&mut self)
        ensures
            *final(self) == (ScrollSortable {
                horizontal_scroll: if old(self).horizontal_scroll > 0 {
                    (old(self).horizontal_scroll - 1) as usize
                } else {
                    0
                },
                ..*old(self)
            }),
    {
        if self.horizontal_scroll > 0 {
            self.horizontal_scroll = self.horizontal_scroll - 1;
        }
    }

    pub fn sort_ascending(&mut self)
        ensures
            *final(self) == (ScrollSortable {
                sort_direction: SortDirection::Ascending,
                ..*old(self)
            }),
    {
        self.sort_direction = SortDirection::Ascending;
    }

    pub fn sort_descending(&mut self)
        ensures
            *final(self) == (ScrollSortable {
                sort_direction: SortDirection::Descending,
                ..*old(self)
            }),
    {
        self.sort_direction = SortDirection::Descending;
    }
}

} // verus!
