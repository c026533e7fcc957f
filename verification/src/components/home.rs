//! The home screen: the tree of packs on the left, and on the right the
//! violations of the path that is selected in the tree.
//!
//! The tree is drawn and moved in by a widget outside this crate. The home
//! screen decides what an action does, and tells the widget where to move.

use crate::action::Action;
use crate::components::helpers::active_violations::ActiveViolations;
use crate::components::helpers::scroll_sortable::{ScrollSortable, SortDirection};
use crate::components::helpers::violations_display::VIOLATION_COLUMNS;
use crate::pks::{Bucket, PathViolations, Pks};
use std::sync::Arc;
use vstd::prelude::*;

verus! {

/// The part of the screen that the keys go to.
#[derive(Copy, Clone, Debug, PartialEq, Eq)]
pub enum ActivePanel {
    Tree,
    Violations,
}

impl Default for ActivePanel {
    /// The keys go to the tree first.
    fn default() -> (r: Self)
        ensures
            r == ActivePanel::Tree,
    {
        Self::Tree
    }
}

/// Where the selection of the tree is to move.
#[derive(Copy, Clone, Debug, PartialEq, Eq)]
pub enum TreeMove {
    Stay,
    Down,
    Up,
    Left,
    Right,
}

/// One of the four counts that stand above the table of violations.
#[derive(Copy, Clone, Debug, PartialEq, Eq)]
pub struct InOutCount {
    /// Whether the table shows the list that is counted.
    pub active: bool,
    pub count: usize,
    /// The digit of the key that shows the list.
    pub menu_key: usize,
}

/// The four counts that stand above the table of violations.
#[derive(Copy, Clone, Debug, PartialEq, Eq)]
pub struct InOutCounts {
    pub uncontained_out: InOutCount,
    pub uncontained_in: InOutCount,
    pub contained_out: InOutCount,
    pub contained_in: InOutCount,
}

/// The home screen.
pub struct Home {
    pub pks: Pks,
    pub active_violations: ActiveViolations,
    pub active_panel: ActivePanel,
    pub scroll_sortable: ScrollSortable,
}

/// Where the tree is to move on `action` while the keys go to `panel`.
pub open spec fn tree_move_of(panel: ActivePanel, action: Action) -> TreeMove {
    if panel == ActivePanel::Tree {
        match action {
            Action::Down => TreeMove::Down,
            Action::Up => TreeMove::Up,
            Action::Left => TreeMove::Left,
            Action::Right => TreeMove::Right,
            _ => TreeMove::Stay,
        }
    } else {
        TreeMove::Stay
    }
}

/// The panel that the keys go to after `action`.
pub open spec fn panel_after(panel: ActivePanel, action: Action) -> ActivePanel {
    match action {
        Action::NextTab => ActivePanel::Violations,
        Action::Escape => ActivePanel::Tree,
        _ => panel,
    }
}

/// The list that the table shows after `action`.
pub open spec fn violations_after(active: ActiveViolations, action: Action) -> ActiveViolations {
    match action {
        Action::UncontainedOutViolations => ActiveViolations::Out,
        Action::UncontainedInViolations => ActiveViolations::In,
        Action::ContainedOutViolations => ActiveViolations::ContainedOut,
        Action::ContainedInViolations => ActiveViolations::ContainedIn,
        _ => active,
    }
}

/// The state of the table after `action`, while the keys go to `panel`.
pub open spec fn table_after(
    table: ScrollSortable,
    panel: ActivePanel,
    action: Action,
) -> ScrollSortable {
    match action {
        Action::Down => if panel == ActivePanel::Tree {
            table
        } else {
            ScrollSortable { vertical_scroll: (table.vertical_scroll + 1) as usize, ..table }
        },
        Action::Up => if panel == ActivePanel::Tree || table.vertical_scroll == 0 {
            table
        } else {
            ScrollSortable { vertical_scroll: (table.vertical_scroll - 1) as usize, ..table }
        },
        Action::NextTab => if panel == ActivePanel::Tree {
            table
        } else {
            ScrollSortable {
                focused_column: if table.focused_column + 1 >= VIOLATION_COLUMNS {
                    0
                } else {
                    (table.focused_column + 1) as usize
                },
                ..table
            }
        },
        Action::SortAscending => ScrollSortable {
            sort_column: table.focused_column,
            sort_direction: SortDirection::Ascending,
            ..table
        },
        Action::SortDescending => ScrollSortable {
            sort_column: table.focused_column,
            sort_direction: SortDirection::Descending,
            ..table
        },
        _ => table,
    }
}

/// The count of the list `b` of the selected path; 0 where no path is
/// selected or the selected path has no violations.
pub open spec fn shown_count(selected: Option<Arc<PathViolations>>, b: Bucket) -> usize {
    match selected {
        Some(violations) => violations.count(b),
        None => 0,
    }
}

impl Home {
    /// The home screen on the report `pks`: the keys go to the tree, and the
    /// table shows the uncontained outgoing violations. The tree of packs is
    /// computed, so that it can be drawn.
    pub fn new(pks: Pks) -> (r: Self)
        requires
            pks.wf(),
        ensures
            r.pks.pks_tree_data_slot() is Some,
            Pks::got_pks_tree_data(pks, r.pks, r.pks.pks_tree_data_slot()->0),
            r.active_violations == ActiveViolations::Out,
            r.active_panel == ActivePanel::Tree,
            r.scroll_sortable == (ScrollSortable {
                vertical_scroll: 0,
                horizontal_scroll: 0,
                sort_column: 0,
                focused_column: 0,
                sort_direction: SortDirection::Descending,
            }),
    {
        let mut pks = pks;
        let _ = pks.get_pks_tree_data();
        Self {
            pks,
            active_violations: ActiveViolations::default(),
            active_panel: ActivePanel::default(),
            scroll_sortable: ScrollSortable::default(),
        }
    }

    /// Carries out `action`, and answers where the tree is to move.
    ///
    /// The arrows move in the tree while the keys go to it, and else scroll
    /// the table up and down. The tab sends the keys from the tree to the
    /// table, and moves the focus in the table to the next column. Sorting
    /// sorts the table by the column that has the focus.
    pub fn update(&mut self, action: &Action) -> (r: TreeMove)
        requires
            *action == Action::Down && old(self).active_panel == ActivePanel::Violations ==> old(
                self,
            ).scroll_sortable.vertical_scroll < usize::MAX,
        ensures
            r == tree_move_of(old(self).active_panel, *action),
            final(self).pks == old(self).pks,
            final(self).active_panel == panel_after(old(self).active_panel, *action),
            final(self).active_violations == violations_after(
                old(self).active_violations,
                *action,
            ),
            final(self).scroll_sortable == table_after(
                old(self).scroll_sortable,
                old(self).active_panel,
                *action,
            ),
    {
        let at_tree = match self.active_panel {
            ActivePanel::Tree => true,
            ActivePanel::Violations => false,
        };
        match action {
            Action::Down => {
                if at_tree {
                    return TreeMove::Down;
                } else {
                    self.scroll_sortable.next_vertical_scroll();
                }
            },
            Action::Up => {
                if at_tree {
                    return TreeMove::Up;
                } else {
                    self.scroll_sortable.previous_vertical_scroll();
                }
            },
            Action::Left => {
                if at_tree {
                    return TreeMove::Left;
                }
            },
            Action::Right => {
                if at_tree {
                    return TreeMove::Right;
                }
            },
            Action::UncontainedOutViolations => {
                self.active_violations = ActiveViolations::Out;
            },
            Action::UncontainedInViolations => {
                self.active_violations = ActiveViolations::In;
            },
            Action::ContainedOutViolations => {
                self.active_violations = ActiveViolations::ContainedOut;
            },
            Action::ContainedInViolations => {
                self.active_violations = ActiveViolations::ContainedIn;
            },
            Action::NextTab => {
                if at_tree {
                    self.active_panel = ActivePanel::Violations;
                } else {
                    self.scroll_sortable.next_focus_column();
                }
            },
            Action::Escape => {
                self.active_panel = ActivePanel::Tree;
            },
            Action::SortAscending => {
                self.scroll_sortable.set_sort_column_to_active_column();
                self.scroll_sortable.sort_ascending();
            },
            Action::SortDescending => {
                self.scroll_sortable.set_sort_column_to_active_column();
                self.scroll_sortable.sort_descending();
            },
            _ => {},
        }
        TreeMove::Stay
    }

    /// The violations of the path that is selected in the tree: those of the
    /// last of `selected_paths`, the path from the root of the tree to the
    /// selected node. Nothing where no node is selected or no violation
    /// concerns the path.
    pub fn selected_path_violations(&mut self, selected_paths: &Vec<String>) -> (r: Option<
        Arc<PathViolations>,
    >)
        requires
            old(self).pks.wf(),
        ensures
            final(self).active_violations == old(self).active_violations,
            final(self).active_panel == old(self).active_panel,
            final(self).scroll_sortable == old(self).scroll_sortable,
            final(self).pks.wf(),
            selected_paths.len() == 0 ==> r is None && final(self).pks == old(self).pks,
            selected_paths.len() > 0 ==> Pks::got_path_violations_for_path(
                old(self).pks,
                final(self).pks,
                selected_paths@.last()@,
                r,
            ),
    {
        if selected_paths.len() == 0 {
            return None;
        }
        let show_path = &selected_paths[selected_paths.len() - 1];
        self.pks.get_path_violations_for_path(show_path.as_str())
    }

    /// The four counts that stand above the table of violations, for the
    /// violations of the selected path: the count of each list, whether the
    /// table shows the list, and the key that shows it.
    pub fn in_out_counts(&self, selected: &Option<Arc<PathViolations>>) -> (r: InOutCounts)
        ensures
            r.uncontained_out == (InOutCount {
                active: self.active_violations == ActiveViolations::Out,
                count: shown_count(*selected, Bucket::UncontainedOut),
                menu_key: 0,
            }),
            r.uncontained_in == (InOutCount {
                active: self.active_violations == ActiveViolations::In,
                count: shown_count(*selected, Bucket::UncontainedIn),
                menu_key: 1,
            }),
            r.contained_out == (InOutCount {
                active: self.active_violations == ActiveViolations::ContainedOut,
                count: shown_count(*selected, Bucket::ContainedOut),
                menu_key: 2,
            }),
            r.contained_in == (InOutCount {
                active: self.active_violations == ActiveViolations::ContainedIn,
                count: shown_count(*selected, Bucket::ContainedIn),
                menu_key: 3,
            }),
    {
        let (
            uncontained_out_violations_count,
            uncontained_in_violations_count,
            contained_out_violations_count,
            contained_in_violations_count,
        ) = match selected {
            Some(violations) => (
                violations.uncontained_out_violations_count,
                violations.uncontained_in_violations_count,
                violations.contained_out_violations_count,
                violations.contained_in_violations_count,
            ),
            None => (0, 0, 0, 0),
        };
        let mut uncontained_out_count = InOutCount {
            active: false,
            count: uncontained_out_violations_count,
            menu_key: 0,
        };
        let mut uncontained_in_count = InOutCount {
            active: false,
            count: uncontained_in_violations_count,
            menu_key: 1,
        };
        let mut contained_out_count = InOutCount {
            active: false,
            count: contained_out_violations_count,
            menu_key: 2,
        };
        let mut contained_in_count = InOutCount {
            active: false,
            count: contained_in_violations_count,
            menu_key: 3,
        };
        match self.active_violations {
            ActiveViolations::Out => {
                uncontained_out_count.active = true;
            },
            ActiveViolations::In => {
                uncontained_in_count.active = true;
            },
            ActiveViolations::ContainedOut => {
                contained_out_count.active = true;
            },
            ActiveViolations::ContainedIn => {
                contained_in_count.active = true;
            },
        }
        InOutCounts {
            uncontained_out: uncontained_out_count,
            uncontained_in: uncontained_in_count,
            contained_out: contained_out_count,
            contained_in: contained_in_count,
        }
    }
}

} // verus!
