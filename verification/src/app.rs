//! The state of the menus: which menu is open, which of its views is shown,
//! where that view is scrolled to and how it is sorted.

use crate::packs::{
    ConstantSummary, PackList, Packs, DEPENDENT_PACK_VIOLATION_COUNT_HEADERS,
};
use crate::pks::PackDependentViolation;
use crate::sorting::{is_sorted_by_keys, keys_view, sort_rows, SortKey};
use std::sync::Arc;
use vstd::prelude::*;
use vstd::std_specs::convert::FromSpecImpl;
use vstd::string::StringExecFns;

verus! {

/// The entries of the top menu.
#[derive(Copy, Clone, Debug, PartialEq, Eq)]
pub enum MenuItem {
    Packs,
    Actions,
    Summary,
}

impl MenuItem {
    /// The place of the entry in the menu, from the left.
    pub open spec fn index(self) -> usize {
        match self {
            MenuItem::Packs => 0,
            MenuItem::Actions => 1,
            MenuItem::Summary => 2,
        }
    }
}

impl From<MenuItem> for usize {
    fn from(input: MenuItem) -> (r: usize) {
        match input {
            MenuItem::Packs => 0,
            MenuItem::Actions => 1,
            MenuItem::Summary => 2,
        }
    }
}

impl FromSpecImpl<MenuItem> for usize {
    open spec fn obeys_from_spec() -> bool {
        true
    }

    open spec fn from_spec(input: MenuItem) -> usize {
        input.index()
    }
}

#[derive(Copy, Clone, Debug, PartialEq, Eq)]
pub enum SortDirection {
    Ascending,
    Descending,
}

/// The view that shows what a pack says of itself.
#[derive(Copy, Clone, Debug, PartialEq, Eq)]
pub struct ContextMenuInfo {
    pub scroll: usize,
}

/// The view that lists the dependents of a pack.
#[derive(Copy, Clone, Debug, PartialEq, Eq)]
pub struct ContextMenuNoViolationDependents {
    pub scroll: usize,
}

/// The view that lists the packs that violate a boundary of a pack.
#[derive(Copy, Clone, Debug, PartialEq, Eq)]
pub struct ContextMenuViolationDependents {
    pub scroll: usize,
    pub sort_column: usize,
    pub sort_direction: SortDirection,
}

/// The view that lists the constants that violations concern.
#[derive(Copy, Clone, Debug, PartialEq, Eq)]
pub struct ContextMenuConstantViolations {
    pub scroll: usize,
    pub sort_column: usize,
    pub sort_direction: SortDirection,
}

/// The view that is shown beside the menu, with its state.
#[derive(Copy, Clone, Debug, PartialEq, Eq)]
pub enum ContextMenuItem {
    Info(ContextMenuInfo),
    NoViolationDependents(ContextMenuNoViolationDependents),
    ViolationDependents(ContextMenuViolationDependents),
    ConstantViolations(ContextMenuConstantViolations),
}

pub const DEPENDENT_PACK_VIOLATION_HEADER_ABBR_TITLES: [&'static str; 7] = [
    "pack",
    "cnst",
    "arch",
    "dep",
    "fvis",
    "priv",
    "vis",
];

pub const DEPENDENT_PACK_VIOLATION_HEADER_FULL_TITLES: [&'static str; 7] = [
    "pack",
    "constant",
    "architecture",
    "dependency",
    "folder visibility",
    "privacy",
    "visibility",
];

pub const CONSTANT_VIOLATION_COLUMNS: [&'static str; 8] = [
    "constant",
    "count",
    "architecture",
    "dependency",
    "folder visibility",
    "privacy",
    "visibility",
    "ref packs",
];

/// The mark in the header of the column by which a table is sorted.
pub open spec fn sort_mark(direction: SortDirection) -> Seq<char> {
    match direction {
        SortDirection::Descending => "▲"@,
        SortDirection::Ascending => "▼"@,
    }
}

/// The header of the column by which a table is sorted: the mark, a blank and
/// the title.
pub open spec fn marked_title(direction: SortDirection, title: Seq<char>) -> Seq<char> {
    sort_mark(direction) + " "@ + title
}

/// The header of the sorted column with the given title.
pub fn mark_title(direction: SortDirection, title: &str) -> (r: String)
    ensures
        r@ == marked_title(direction, title@),
{
    let mark = match direction {
        SortDirection::Descending => "▲",
        SortDirection::Ascending => "▼",
    };
    mark.to_owned().concat(" ").concat(title)
}

impl Default for ContextMenuInfo {
    fn default() -> (r: Self)
        ensures
            r == (ContextMenuInfo { scroll: 0 }),
    {
        ContextMenuInfo { scroll: 0 }
    }
}

impl Default for ContextMenuNoViolationDependents {
    fn default() -> (r: Self)
        ensures
            r == (ContextMenuNoViolationDependents { scroll: 0 }),
    {
        ContextMenuNoViolationDependents { scroll: 0 }
    }
}

impl Default for ContextMenuViolationDependents {
    fn default() -> (r: Self)
        ensures
            r == (ContextMenuViolationDependents {
                scroll: 0,
                sort_column: 0,
                sort_direction: SortDirection::Ascending,
            }),
    {
        Self { scroll: 0, sort_column: 0, sort_direction: SortDirection::Ascending }
    }
}

impl Default for ContextMenuConstantViolations {
    fn default() -> (r: Self)
        ensures
            r == (ContextMenuConstantViolations {
                scroll: 0,
                sort_column: 0,
                sort_direction: SortDirection::Ascending,
            }),
    {
        Self { scroll: 0, sort_column: 0, sort_direction: SortDirection::Ascending }
    }
}

impl ContextMenuConstantViolations {
    /// Sorts by the next column, and after the last column by the first.
    pub fn next_sort_column(&mut self)
        ensures
            *final(self) == (ContextMenuConstantViolations {
                sort_column: if old(self).sort_column + 1 > 7 {
                    0
                } else {
                    (old(self).sort_column + 1) as usize
                },
                ..*old(self)
            }),
    {
        if self.sort_column >= CONSTANT_VIOLATION_COLUMNS.len() - 1 {
            self.sort_column = 0;
        } else {
            self.sort_column = self.sort_column + 1;
        }
    }

    /// The headers of the columns; that of the sorted column carries the mark
    /// of the sort direction.
    pub fn header_titles(&mut self) -> (r: Vec<String>)
        ensures
            *final(self) == *old(self),
            r.len() == 8,
            forall|i: int|
                0 <= i < 8 ==> (#[trigger] r[i])@ == if i == old(self).sort_column {
                    marked_title(old(self).sort_direction, CONSTANT_VIOLATION_COLUMNS[i]@)
                } else {
                    CONSTANT_VIOLATION_COLUMNS[i]@
                },
    {
        let mut titles: Vec<String> = Vec::new();
        let mut i: usize = 0;
        while i < 8
            invariant
                i <= 8,
                *self == *old(self),
                titles.len() == i,
                forall|k: int|
                    0 <= k < i ==> (#[trigger] titles[k])@ == if k == self.sort_column {
                        marked_title(self.sort_direction, CONSTANT_VIOLATION_COLUMNS[k]@)
                    } else {
                        CONSTANT_VIOLATION_COLUMNS[k]@
                    },
            decreases 8 - i,
        {
            let title = CONSTANT_VIOLATION_COLUMNS[i];
            if i == self.sort_column {
                titles.push(mark_title(self.sort_direction, title));
            } else {
                titles.push(title.to_owned());
            }
            i = i + 1;
        }
        titles
    }
}

impl ContextMenuViolationDependents {
    /// Sorts by the next column, and after the last column by the first.
    pub fn next_sort_column(&mut self)
        ensures
            *final(self) == (ContextMenuViolationDependents {
                sort_column: if old(self).sort_column + 1 > 6 {
                    0
                } else {
                    (old(self).sort_column + 1) as usize
                },
                ..*old(self)
            }),
    {
        if self.sort_column >= DEPENDENT_PACK_VIOLATION_HEADER_ABBR_TITLES.len() - 1 {
            self.sort_column = 0;
        } else {
            self.sort_column = self.sort_column + 1;
        }
    }

    /// The headers of the columns, abbreviated; that of the sorted column is
    /// written out and carries the mark of the sort direction.
    pub fn header_titles(&mut self) -> (r: Vec<String>)
        ensures
            *final(self) == *old(self),
            r.len() == 7,
            forall|i: int|
                0 <= i < 7 ==> (#[trigger] r[i])@ == if i == old(self).sort_column {
                    marked_title(
                        old(self).sort_direction,
                        DEPENDENT_PACK_VIOLATION_HEADER_FULL_TITLES[i]@,
                    )
                } else {
                    DEPENDENT_PACK_VIOLATION_HEADER_ABBR_TITLES[i]@
                },
    {
        let mut titles: Vec<String> = Vec::new();
        let mut i: usize = 0;
        while i < 7
            invariant
                i <= 7,
                *self == *old(self),
                titles.len() == i,
                forall|k: int|
                    0 <= k < i ==> (#[trigger] titles[k])@ == if k == self.sort_column {
                        marked_title(
                            self.sort_direction,
                            DEPENDENT_PACK_VIOLATION_HEADER_FULL_TITLES[k]@,
                        )
                    } else {
                        DEPENDENT_PACK_VIOLATION_HEADER_ABBR_TITLES[k]@
                    },
            decreases 7 - i,
        {
            if i == self.sort_column {
                titles.push(
                    mark_title(self.sort_direction, DEPENDENT_PACK_VIOLATION_HEADER_FULL_TITLES[i]),
                );
            } else {
                titles.push(DEPENDENT_PACK_VIOLATION_HEADER_ABBR_TITLES[i].to_owned());
            }
            i = i + 1;
        }
        titles
    }
}

impl ContextMenuItem {
    /// The row that the view is scrolled to.
    pub open spec fn scroll_of(self) -> usize {
        match self {
            ContextMenuItem::Info(info) => info.scroll,
            ContextMenuItem::NoViolationDependents(no_violation) => no_violation.scroll,
            ContextMenuItem::ViolationDependents(violation) => violation.scroll,
            ContextMenuItem::ConstantViolations(violation) => violation.scroll,
        }
    }

    /// The same view, scrolled to the row `s`.
    pub open spec fn scrolled_to(self, s: usize) -> ContextMenuItem {
        match self {
            ContextMenuItem::Info(info) => ContextMenuItem::Info(ContextMenuInfo { scroll: s }),
            ContextMenuItem::NoViolationDependents(no_violation) => {
                ContextMenuItem::NoViolationDependents(
                    ContextMenuNoViolationDependents { scroll: s },
                )
            },
            ContextMenuItem::ViolationDependents(violation) => ContextMenuItem::ViolationDependents(
                ContextMenuViolationDependents { scroll: s, ..violation },
            ),
            ContextMenuItem::ConstantViolations(violation) => ContextMenuItem::ConstantViolations(
                ContextMenuConstantViolations { scroll: s, ..violation },
            ),
        }
    }

    /// The same view, sorted in the given direction where it can be sorted.
    pub open spec fn sorted(self, direction: SortDirection) -> ContextMenuItem {
        match self {
            ContextMenuItem::Info(_) => self,
            ContextMenuItem::NoViolationDependents(_) => self,
            ContextMenuItem::ViolationDependents(violation) => ContextMenuItem::ViolationDependents(
                ContextMenuViolationDependents { sort_direction: direction, ..violation },
            ),
            ContextMenuItem::ConstantViolations(violation) => ContextMenuItem::ConstantViolations(
                ContextMenuConstantViolations { sort_direction: direction, ..violation },
            ),
        }
    }

    /// The same view, one row up, unless it is at its top.
    pub open spec fn scrolled_up(self) -> ContextMenuItem {
        if self.scroll_of() > 0 {
            self.scrolled_to((self.scroll_of() - 1) as usize)
        } else {
            self
        }
    }

    /// The same view, sorted by its next column where it can be sorted, and
    /// by the first column after the last.
    pub open spec fn with_next_sort_column(self) -> ContextMenuItem {
        match self {
            ContextMenuItem::ViolationDependents(violation) => ContextMenuItem::ViolationDependents(
                ContextMenuViolationDependents {
                    sort_column: if violation.sort_column + 1 > 6 {
                        0
                    } else {
                        (violation.sort_column + 1) as usize
                    },
                    ..violation
                },
            ),
            ContextMenuItem::ConstantViolations(violation) => ContextMenuItem::ConstantViolations(
                ContextMenuConstantViolations {
                    sort_column: if violation.sort_column + 1 > 7 {
                        0
                    } else {
                        (violation.sort_column + 1) as usize
                    },
                    ..violation
                },
            ),
            _ => self,
        }
    }

    /// The place of the view among the views of its menu.
    pub open spec fn index(self) -> usize {
        match self {
            ContextMenuItem::Info(_) => 0,
            ContextMenuItem::NoViolationDependents(_) => 1,
            ContextMenuItem::ViolationDependents(_) => 2,
            ContextMenuItem::ConstantViolations(_) => 3,
        }
    }

    pub fn set_scroll(&mut self, s: usize)
        ensures
            *final(self) == old(self).scrolled_to(s),
    {
        match self {
            ContextMenuItem::Info(info) => info.scroll = s,
            ContextMenuItem::NoViolationDependents(no_violation) => no_violation.scroll = s,
            ContextMenuItem::ViolationDependents(violation) => violation.scroll = s,
            ContextMenuItem::ConstantViolations(constant_violations) => {
                constant_violations.scroll = s
            },
        }
    }

    pub fn scroll(&self) -> (r: usize)
        ensures
            r == self.scroll_of(),
    {
        match self {
            ContextMenuItem::Info(info) => info.scroll,
            ContextMenuItem::NoViolationDependents(no_violation) => no_violation.scroll,
            ContextMenuItem::ViolationDependents(violation) => violation.scroll,
            ContextMenuItem::ConstantViolations(violation) => violation.scroll,
        }
    }

    pub fn reset_scroll(&mut self)
        ensures
            *final(self) == old(self).scrolled_to(0),
    {
        self.set_scroll(0);
    }

    /// Scrolls one row down.
    pub fn next_scroll(&mut self)
        requires
            old(self).scroll_of() < usize::MAX,
        ensures
            *final(self) == old(self).scrolled_to((old(self).scroll_of() + 1) as usize),
    {
        let s = self.scroll();
        self.set_scroll(s + 1);
    }

    /// Scrolls one row up, unless the view is at its top.
    pub fn previous_scroll(&mut self)
        ensures
            *final(self) == if old(self).scroll_of() > 0 {
                old(self).scrolled_to((old(self).scroll_of() - 1) as usize)
            } else {
                *old(self)
            },
    {
        let s = self.scroll();
        if s > 0 {
            self.set_scroll(s - 1);
        }
    }

    /// Brings the scroll position back into a list of `rows` rows where it
    /// lies behind the last row: the last row is shown then. An empty list
    /// leaves the position as it is.
    pub fn clamp_scroll(&mut self, rows: usize)
        ensures
            *final(self) == if old(self).scroll_of() >= rows && rows > 0 {
                old(self).scrolled_to((rows - 1) as usize)
            } else {
                *old(self)
            },
    {
        let scroll = self.scroll();
        if scroll >= rows && rows > 0 {
            self.set_scroll(rows - 1);
        }
    }

    pub fn sort_ascending(&mut self)
        ensures
            *final(self) == old(self).sorted(SortDirection::Ascending),
    {
        match self {
            ContextMenuItem::Info(_) => {},
            ContextMenuItem::NoViolationDependents(_) => {},
            ContextMenuItem::ViolationDependents(violation) => {
                violation.sort_direction = SortDirection::Ascending;
            },
            ContextMenuItem::ConstantViolations(violation) => {
                violation.sort_direction = SortDirection::Ascending;
            },
        }
    }

    pub fn sort_descending(&mut self)
        ensures
            *final(self) == old(self).sorted(SortDirection::Descending),
    {
        match self {
            ContextMenuItem::Info(_) => {},
            ContextMenuItem::NoViolationDependents(_) => {},
            ContextMenuItem::ViolationDependents(violation) => {
                violation.sort_direction = SortDirection::Descending;
            },
            ContextMenuItem::ConstantViolations(violation) => {
                violation.sort_direction = SortDirection::Descending;
            },
        }
    }
}

/// The key by which the summaries by constant are sorted in the given
/// column: what the column shows, and the constant. Beyond the last column
/// all summaries have the same key, and sorting leaves them in place.
pub open spec fn constant_sort_key(column: usize, s: ConstantSummary) -> (usize, Seq<char>) {
    if column == 0 {
        (0, s.constant@)
    } else if column == 1 {
        (s.count, s.constant@)
    } else if column <= 6 {
        (
            s.violation_type_counts@.count(CONSTANT_VIOLATION_COLUMNS[column as int]@) as usize,
            s.constant@,
        )
    } else if column == 7 {
        (s.referencing_pack_counts@.dom().len() as usize, s.constant@)
    } else {
        (0, Seq::empty())
    }
}

/// The keys of a list of summaries by constant.
pub open spec fn constant_sort_keys(column: usize, rows: Seq<Arc<ConstantSummary>>) -> Seq<
    (usize, Seq<char>),
> {
    rows.map_values(|s: Arc<ConstantSummary>| constant_sort_key(column, *s))
}

/// The key by which the pairwise summaries of one defining pack are sorted in
/// the given column: the defining pack in the first column, the number that
/// the column shows in the others. Beyond the last column all summaries have
/// the same key, and sorting leaves them in place.
pub open spec fn dependent_sort_key(column: usize, v: PackDependentViolation) -> (
    usize,
    Seq<char>,
) {
    if column == 0 {
        (0, v.defining_pack_name@)
    } else if column == 1 {
        (v.constant_counts@.dom().len() as usize, Seq::empty())
    } else if column <= 6 {
        (
            v.violation_type_counts@.count(
                DEPENDENT_PACK_VIOLATION_COUNT_HEADERS[column - 2]@,
            ) as usize,
            Seq::empty(),
        )
    } else {
        (0, Seq::empty())
    }
}

/// The keys of a list of pairwise summaries.
pub open spec fn dependent_sort_keys(column: usize, rows: Seq<Arc<PackDependentViolation>>) -> Seq<
    (usize, Seq<char>),
> {
    rows.map_values(|v: Arc<PackDependentViolation>| dependent_sort_key(column, *v))
}

impl ContextMenuConstantViolations {
    /// The key of one summary in the sorted column.
    fn sort_key(&self, s: &ConstantSummary) -> (key: SortKey)
        requires
            s.wf(),
        ensures
            key@ == constant_sort_key(self.sort_column, *s),
    {
        let column = self.sort_column;
        if column == 0 {
            SortKey { number: 0, text: s.constant.clone() }
        } else if column == 1 {
            SortKey { number: s.count, text: s.constant.clone() }
        } else if column <= 6 {
            SortKey {
                number: s.count_for_violation_type(CONSTANT_VIOLATION_COLUMNS[column]),
                text: s.constant.clone(),
            }
        } else if column == 7 {
            SortKey { number: s.referencing_pack_count_length(), text: s.constant.clone() }
        } else {
            SortKey { number: 0, text: String::new() }
        }
    }

    /// Sorts the summaries by the sorted column, and by constant where the
    /// column shows the same, in the sort direction. Summaries with the same
    /// key keep their order, and come in the reverse of it in descending
    /// direction.
    pub fn sort_violations(&mut self, violations: &mut Vec<Arc<ConstantSummary>>)
        requires
            forall|i: int| 0 <= i < old(violations).len() ==> (#[trigger] old(violations)[i]).wf(),
        ensures
            *final(self) == *old(self),
            is_sorted_by_keys(
                constant_sort_keys(old(self).sort_column, old(violations)@),
                old(violations)@,
                final(violations)@,
                old(self).sort_direction == SortDirection::Descending,
            ),
    {
        let ghost rows = violations@;
        let ghost expected = constant_sort_keys(self.sort_column, rows);
        let mut keys: Vec<SortKey> = Vec::new();
        let mut i: usize = 0;
        while i < violations.len()
            invariant
                i <= violations.len(),
                *self == *old(self),
                violations@ == rows,
                expected == constant_sort_keys(self.sort_column, rows),
                forall|i: int| 0 <= i < rows.len() ==> (#[trigger] rows[i]).wf(),
                keys_view(keys@) == expected.take(i as int),
            decreases violations.len() - i,
        {
            let key = self.sort_key(&violations[i]);
            proof {
                assert(keys_view(keys@.push(key)) =~= keys_view(keys@).push(key@));
                assert(expected.take(i + 1) =~= expected.take(i as int).push(expected[i as int]));
            }
            keys.push(key);
            i = i + 1;
        }
        proof {
            assert(expected.take(rows.len() as int) =~= expected);
        }
        let descending = match self.sort_direction {
            SortDirection::Descending => true,
            SortDirection::Ascending => false,
        };
        let sorted = sort_rows(violations, &keys, descending);
        *violations = sorted;
    }
}

impl ContextMenuViolationDependents {
    /// The key of one summary in the sorted column.
    fn sort_key(&self, v: &PackDependentViolation) -> (key: SortKey)
        requires
            v.wf(),
        ensures
            key@ == dependent_sort_key(self.sort_column, *v),
    {
        let column = self.sort_column;
        if column == 0 {
            SortKey { number: 0, text: v.defining_pack_name.clone() }
        } else if column == 1 {
            SortKey { number: v.num_constants(), text: String::new() }
        } else if column <= 6 {
            SortKey {
                number: v.count_for_violation_type(
                    DEPENDENT_PACK_VIOLATION_COUNT_HEADERS[column - 2],
                ),
                text: String::new(),
            }
        } else {
            SortKey { number: 0, text: String::new() }
        }
    }

    /// Sorts the summaries by the sorted column, in the sort direction.
    /// Summaries with the same key keep their order, and come in the reverse
    /// of it in descending direction.
    pub fn sort_violations(&mut self, violations: &mut Vec<Arc<PackDependentViolation>>)
        requires
            forall|i: int| 0 <= i < old(violations).len() ==> (#[trigger] old(violations)[i]).wf(),
        ensures
            *final(self) == *old(self),
            is_sorted_by_keys(
                dependent_sort_keys(old(self).sort_column, old(violations)@),
                old(violations)@,
                final(violations)@,
                old(self).sort_direction == SortDirection::Descending,
            ),
    {
        let ghost rows = violations@;
        let ghost expected = dependent_sort_keys(self.sort_column, rows);
        let mut keys: Vec<SortKey> = Vec::new();
        let mut i: usize = 0;
        while i < violations.len()
            invariant
                i <= violations.len(),
                *self == *old(self),
                violations@ == rows,
                expected == dependent_sort_keys(self.sort_column, rows),
                forall|i: int| 0 <= i < rows.len() ==> (#[trigger] rows[i]).wf(),
                keys_view(keys@) == expected.take(i as int),
            decreases violations.len() - i,
        {
            let key = self.sort_key(&violations[i]);
            proof {
                assert(keys_view(keys@.push(key)) =~= keys_view(keys@).push(key@));
                assert(expected.take(i + 1) =~= expected.take(i as int).push(expected[i as int]));
            }
            keys.push(key);
            i = i + 1;
        }
        proof {
            assert(expected.take(rows.len() as int) =~= expected);
        }
        let descending = match self.sort_direction {
            SortDirection::Descending => true,
            SortDirection::Ascending => false,
        };
        let sorted = sort_rows(violations, &keys, descending);
        *violations = sorted;
    }
}

/// Where the keys go: to the menu on the left, to the view on the right, or
/// into the filter, whose text is then being edited.
#[derive(Debug, PartialEq, Eq)]
pub enum ActiveFocus {
    Filter(String),
    Left,
    Right,
}

impl ActiveFocus {
    /// The keys go into the filter, and `text` is the text that is edited.
    pub open spec fn is_editing(self, text: Seq<char>) -> bool {
        self matches ActiveFocus::Filter(edited) && edited@ == text
    }
}

/// Which menu is open, which view is shown beside it, and where the keys go.
pub struct MenuContext {
    pub active_menu_item: MenuItem,
    pub active_context_menu_item: ContextMenuItem,
    pub active_focus: ActiveFocus,
}

impl Default for MenuContext {
    /// The menu of packs, with the view of what the pack says of itself, and
    /// the keys going to the menu.
    fn default() -> (r: Self)
        ensures
            r.active_menu_item == MenuItem::Packs,
            r.active_context_menu_item == ContextMenuItem::Info(ContextMenuInfo { scroll: 0 }),
            r.active_focus == ActiveFocus::Left,
    {
        Self {
            active_menu_item: MenuItem::Packs,
            active_context_menu_item: ContextMenuItem::Info(ContextMenuInfo::default()),
            active_focus: ActiveFocus::Left,
        }
    }
}

/// All lines of `lines`, one behind the other.
pub open spec fn joined(lines: Seq<String>) -> Seq<char>
    decreases lines.len(),
{
    if lines.len() == 0 {
        Seq::empty()
    } else {
        joined(lines.drop_last()) + lines.last()@
    }
}

/// The lines of `lines` as one text.
pub fn join_lines(lines: &Vec<String>) -> (r: String)
    ensures
        r@ == joined(lines@),
{
    let mut text = String::new();
    let mut i: usize = 0;
    proof {
        assert(lines@.take(0) =~= Seq::<String>::empty());
    }
    while i < lines.len()
        invariant
            i <= lines.len(),
            text@ == joined(lines@.take(i as int)),
        decreases lines.len() - i,
    {
        proof {
            assert(lines@.take(i + 1).drop_last() =~= lines@.take(i as int));
        }
        text.append(lines[i].as_str());
        i = i + 1;
    }
    proof {
        assert(lines@.take(lines.len() as int) =~= lines@);
    }
    text
}

/// The explorer with its menus.
pub struct App {
    /// Whether the explorer is still running.
    pub running: bool,
    pub packs: Packs,
    pub menu_context: MenuContext,
}

impl App {
    /// The data behind the menus is well formed.
    pub open spec fn wf(&self) -> bool {
        self.packs.wf()
    }

    /// `next` has a row to go to: the selection of the list of packs can
    /// move down where `next` moves it, and the view can scroll down where
    /// `next` scrolls it.
    pub open spec fn can_go_next(&self) -> bool {
        match self.menu_context.active_focus {
            ActiveFocus::Left => match self.menu_context.active_menu_item {
                MenuItem::Packs => self.packs.can_select_next(),
                MenuItem::Actions => true,
                MenuItem::Summary => self.menu_context.active_context_menu_item
                    is ConstantViolations
                    ==> self.menu_context.active_context_menu_item.scroll_of() < usize::MAX,
            },
            ActiveFocus::Right => self.menu_context.active_context_menu_item.scroll_of()
                < usize::MAX,
            ActiveFocus::Filter(_) => true,
        }
    }

    /// `previous` has a row to go to: the selection of the list of packs can
    /// move up where `previous` moves it.
    pub open spec fn can_go_previous(&self) -> bool {
        self.menu_context.active_focus is Left && self.menu_context.active_menu_item is Packs
            ==> self.packs.can_select_previous()
    }

    /// The keys go to the menu of packs.
    pub open spec fn at_pack_menu(&self) -> bool {
        self.menu_context.active_focus is Left && self.menu_context.active_menu_item is Packs
    }

    /// The keys scroll the view: they go to the view, or to the summary
    /// while it shows the constants.
    pub open spec fn at_scrolled_view(&self) -> bool {
        ||| self.menu_context.active_focus is Right
        ||| (self.menu_context.active_focus is Left && self.menu_context.active_menu_item is Summary
            && self.menu_context.active_context_menu_item is ConstantViolations)
    }

    /// What `next` does. With the keys at the menu of packs, the next pack is
    /// selected and the view starts at its top again; with the keys scrolling
    /// the view, the view scrolls one row down; from the filter the keys go
    /// back to the menu. Nothing else changes.
    pub open spec fn went_next(before: App, after: App) -> bool {
        let view = before.menu_context.active_context_menu_item;
        &&& after.running == before.running
        &&& after.menu_context.active_menu_item == before.menu_context.active_menu_item
        &&& after.menu_context.active_focus == match before.menu_context.active_focus {
            ActiveFocus::Filter(_) => ActiveFocus::Left,
            other => other,
        }
        &&& after.menu_context.active_context_menu_item == if before.at_pack_menu() {
            view.scrolled_to(0)
        } else if before.at_scrolled_view() {
            view.scrolled_to((view.scroll_of() + 1) as usize)
        } else {
            view
        }
        &&& if before.at_pack_menu() {
            Packs::selection_moved(
                before.packs,
                after.packs,
                match before.packs.pack_list {
                    Some(list) => Some(list.next_position()),
                    None => None,
                },
            )
        } else {
            after.packs == before.packs
        }
    }

    /// What `previous` does. With the keys at the menu of packs, the pack
    /// before is selected and the view starts at its top again; with the keys
    /// scrolling the view, the view scrolls one row up unless it is at its
    /// top. Nothing else changes.
    pub open spec fn went_previous(before: App, after: App) -> bool {
        let view = before.menu_context.active_context_menu_item;
        &&& after.running == before.running
        &&& after.menu_context.active_menu_item == before.menu_context.active_menu_item
        &&& after.menu_context.active_focus == before.menu_context.active_focus
        &&& after.menu_context.active_context_menu_item == if before.at_pack_menu() {
            view.scrolled_to(0)
        } else if before.at_scrolled_view() {
            view.scrolled_up()
        } else {
            view
        }
        &&& if before.at_pack_menu() {
            Packs::selection_moved(
                before.packs,
                after.packs,
                match before.packs.pack_list {
                    Some(list) => Some(list.previous_position()),
                    None => None,
                },
            )
        } else {
            after.packs == before.packs
        }
    }

    /// The explorer on the given data, running, with the menus in their first
    /// state.
    pub fn new(packs: Packs) -> (r: Self)
        ensures
            r.running,
            r.packs == packs,
            r.menu_context.active_menu_item == MenuItem::Packs,
            r.menu_context.active_context_menu_item == ContextMenuItem::Info(
                ContextMenuInfo { scroll: 0 },
            ),
            r.menu_context.active_focus == ActiveFocus::Left,
    {
        Self { running: true, packs, menu_context: MenuContext::default() }
    }

    /// The tick of the terminal changes nothing.
    pub fn tick(&self) {
    }

    /// Stops the explorer.
    pub fn quit(&mut self)
        ensures
            !final(self).running,
            final(self).packs == old(self).packs,
            final(self).menu_context == old(self).menu_context,
    {
        self.running = false;
    }

    /// Selects nothing in the list of packs.
    pub fn unselect(&mut self)
        requires
            old(self).wf(),
        ensures
            final(self).wf(),
            final(self).running == old(self).running,
            final(self).menu_context == old(self).menu_context,
            final(self).packs.report == old(self).packs.report,
            final(self).packs.pack_list == match old(self).packs.pack_list {
                Some(list) => Some(PackList { selected: None, ..list }),
                None => None,
            },
    {
        self.packs.unselect_pack_list();
    }

    /// Sorts the view in descending order, where it can be sorted.
    pub fn sort_descending(&mut self)
        ensures
            final(self).running == old(self).running,
            final(self).packs == old(self).packs,
            final(self).menu_context.active_menu_item == old(self).menu_context.active_menu_item,
            final(self).menu_context.active_focus == old(self).menu_context.active_focus,
            final(self).menu_context.active_context_menu_item == old(
                self,
            ).menu_context.active_context_menu_item.sorted(SortDirection::Descending),
    {
        self.menu_context.active_context_menu_item.sort_descending();
    }

    /// Sorts the view in ascending order, where it can be sorted.
    pub fn sort_ascending(&mut self)
        ensures
            final(self).running == old(self).running,
            final(self).packs == old(self).packs,
            final(self).menu_context.active_menu_item == old(self).menu_context.active_menu_item,
            final(self).menu_context.active_focus == old(self).menu_context.active_focus,
            final(self).menu_context.active_context_menu_item == old(
                self,
            ).menu_context.active_context_menu_item.sorted(SortDirection::Ascending),
    {
        self.menu_context.active_context_menu_item.sort_ascending();
    }

    /// Goes one row down. With the keys at the menu of packs, the next pack
    /// is selected and the view starts at its top again; with the keys at the
    /// summary, the list of constants scrolls down where it is shown; with
    /// the keys at the view, the view scrolls down. From the filter the keys
    /// go back to the menu.
    pub fn next(&mut self)
        requires
            old(self).wf(),
            old(self).can_go_next(),
        ensures
            final(self).wf(),
            App::went_next(*old(self), *final(self)),
    {
        match &self.menu_context.active_focus {
            ActiveFocus::Left => match self.menu_context.active_menu_item {
                MenuItem::Packs => {
                    self.menu_context.active_context_menu_item.reset_scroll();
                    self.packs.next_pack_list();
                },
                MenuItem::Actions => {},
                MenuItem::Summary => {
                    match self.menu_context.active_context_menu_item {
                        ContextMenuItem::ConstantViolations(_) => {
                            self.menu_context.active_context_menu_item.next_scroll();
                        },
                        _ => {},
                    }
                },
            },
            ActiveFocus::Right => {
                self.menu_context.active_context_menu_item.next_scroll();
            },
            ActiveFocus::Filter(_) => {
                self.menu_context.active_focus = ActiveFocus::Left;
            },
        }
    }

    /// Goes one row up. With the keys at the menu of packs, the pack before
    /// is selected and the view starts at its top again; with the keys at the
    /// summary, the list of constants scrolls up where it is shown; with the
    /// keys at the view, the view scrolls up.
    pub fn previous(&mut self)
        requires
            old(self).wf(),
            old(self).can_go_previous(),
        ensures
            final(self).wf(),
            App::went_previous(*old(self), *final(self)),
    {
        match &self.menu_context.active_focus {
            ActiveFocus::Left => match self.menu_context.active_menu_item {
                MenuItem::Packs => {
                    self.menu_context.active_context_menu_item.reset_scroll();
                    self.packs.previous_pack_list();
                },
                MenuItem::Actions => {},
                MenuItem::Summary => {
                    match self.menu_context.active_context_menu_item {
                        ContextMenuItem::ConstantViolations(_) => {
                            self.menu_context.active_context_menu_item.previous_scroll();
                        },
                        _ => {},
                    }
                },
            },
            ActiveFocus::Right => {
                self.menu_context.active_context_menu_item.previous_scroll();
            },
            ActiveFocus::Filter(_) => {},
        }
    }

    /// From the filter the keys go back to the menu; else a view that can
    /// be sorted is sorted by its next column.
    pub fn handle_tab(&mut self)
        ensures
            final(self).running == old(self).running,
            final(self).packs == old(self).packs,
            final(self).menu_context.active_menu_item == old(self).menu_context.active_menu_item,
            final(self).menu_context.active_focus == match old(self).menu_context.active_focus {
                ActiveFocus::Filter(_) => ActiveFocus::Left,
                other => other,
            },
            final(self).menu_context.active_context_menu_item == if old(
                self,
            ).menu_context.active_focus is Filter {
                old(self).menu_context.active_context_menu_item
            } else {
                old(self).menu_context.active_context_menu_item.with_next_sort_column()
            },
    {
        match &self.menu_context.active_focus {
            ActiveFocus::Filter(_) => {
                self.menu_context.active_focus = ActiveFocus::Left;
            },
            _ => {
                match &mut self.menu_context.active_context_menu_item {
                    ContextMenuItem::ViolationDependents(violation) => {
                        violation.next_sort_column();
                    },
                    ContextMenuItem::ConstantViolations(violation) => {
                        violation.next_sort_column();
                    },
                    _ => {},
                }
            },
        }
    }

    /// Opens the summary, with its first view.
    pub fn handle_top_menu_s(&mut self)
        ensures
            final(self).running == old(self).running,
            final(self).packs == old(self).packs,
            final(self).menu_context.active_focus == old(self).menu_context.active_focus,
            final(self).menu_context.active_menu_item == MenuItem::Summary,
            final(self).menu_context.active_context_menu_item == ContextMenuItem::Info(
                ContextMenuInfo { scroll: 0 },
            ),
    {
        self.menu_context.active_menu_item = MenuItem::Summary;
        self.menu_context.active_context_menu_item = ContextMenuItem::Info(
            ContextMenuInfo::default(),
        );
    }

    /// Opens the menu of packs, with its first view.
    pub fn handle_top_menu_p(&mut self)
        ensures
            final(self).running == old(self).running,
            final(self).packs == old(self).packs,
            final(self).menu_context.active_focus == old(self).menu_context.active_focus,
            final(self).menu_context.active_menu_item == MenuItem::Packs,
            final(self).menu_context.active_context_menu_item == ContextMenuItem::Info(
                ContextMenuInfo { scroll: 0 },
            ),
    {
        self.menu_context.active_menu_item = MenuItem::Packs;
        self.menu_context.active_context_menu_item = ContextMenuItem::Info(
            ContextMenuInfo::default(),
        );
    }

    /// Opens the menu of actions; the view stays.
    pub fn handle_top_menu_a(&mut self)
        ensures
            final(self).running == old(self).running,
            final(self).packs == old(self).packs,
            final(self).menu_context.active_focus == old(self).menu_context.active_focus,
            final(self).menu_context.active_menu_item == MenuItem::Actions,
            final(self).menu_context.active_context_menu_item == old(
                self,
            ).menu_context.active_context_menu_item,
    {
        self.menu_context.active_menu_item = MenuItem::Actions;
    }

    /// Shows the dependents of the pack.
    pub fn handle_context_menu_d(&mut self)
        ensures
            final(self).running == old(self).running,
            final(self).packs == old(self).packs,
            final(self).menu_context.active_focus == old(self).menu_context.active_focus,
            final(self).menu_context.active_menu_item == old(self).menu_context.active_menu_item,
            final(self).menu_context.active_context_menu_item
                == ContextMenuItem::NoViolationDependents(
                ContextMenuNoViolationDependents { scroll: 0 },
            ),
    {
        self.menu_context.active_context_menu_item = ContextMenuItem::NoViolationDependents(
            ContextMenuNoViolationDependents::default(),
        );
    }

    /// Shows the constants that violations concern.
    pub fn handle_context_menu_c(&mut self)
        ensures
            final(self).running == old(self).running,
            final(self).packs == old(self).packs,
            final(self).menu_context.active_focus == old(self).menu_context.active_focus,
            final(self).menu_context.active_menu_item == old(self).menu_context.active_menu_item,
            final(self).menu_context.active_context_menu_item
                == ContextMenuItem::ConstantViolations(
                ContextMenuConstantViolations {
                    scroll: 0,
                    sort_column: 0,
                    sort_direction: SortDirection::Ascending,
                },
            ),
    {
        self.menu_context.active_context_menu_item = ContextMenuItem::ConstantViolations(
            ContextMenuConstantViolations::default(),
        );
    }

    /// Shows the packs that violate a boundary of the pack.
    pub fn handle_context_menu_v(&mut self)
        ensures
            final(self).running == old(self).running,
            final(self).packs == old(self).packs,
            final(self).menu_context.active_focus == old(self).menu_context.active_focus,
            final(self).menu_context.active_menu_item == old(self).menu_context.active_menu_item,
            final(self).menu_context.active_context_menu_item
                == ContextMenuItem::ViolationDependents(
                ContextMenuViolationDependents {
                    scroll: 0,
                    sort_column: 0,
                    sort_direction: SortDirection::Ascending,
                },
            ),
    {
        self.menu_context.active_context_menu_item = ContextMenuItem::ViolationDependents(
            ContextMenuViolationDependents::default(),
        );
    }

    /// Shows what the pack says of itself.
    pub fn handle_context_menu_i(&mut self)
        ensures
            final(self).running == old(self).running,
            final(self).packs == old(self).packs,
            final(self).menu_context.active_focus == old(self).menu_context.active_focus,
            final(self).menu_context.active_menu_item == old(self).menu_context.active_menu_item,
            final(self).menu_context.active_context_menu_item == ContextMenuItem::Info(
                ContextMenuInfo { scroll: 0 },
            ),
    {
        self.menu_context.active_context_menu_item = ContextMenuItem::Info(
            ContextMenuInfo::default(),
        );
    }

    /// Sends the keys to the menu.
    pub fn focus_left(&mut self)
        ensures
            final(self).running == old(self).running,
            final(self).packs == old(self).packs,
            final(self).menu_context.active_menu_item == old(self).menu_context.active_menu_item,
            final(self).menu_context.active_context_menu_item == old(
                self,
            ).menu_context.active_context_menu_item,
            final(self).menu_context.active_focus == ActiveFocus::Left,
    {
        self.menu_context.active_focus = ActiveFocus::Left;
    }

    /// Sends the keys to the view.
    pub fn focus_right(&mut self)
        ensures
            final(self).running == old(self).running,
            final(self).packs == old(self).packs,
            final(self).menu_context.active_menu_item == old(self).menu_context.active_menu_item,
            final(self).menu_context.active_context_menu_item == old(
                self,
            ).menu_context.active_context_menu_item,
            final(self).menu_context.active_focus == ActiveFocus::Right,
    {
        self.menu_context.active_focus = ActiveFocus::Right;
    }

    /// The text of the filter of the open menu; empty where the menu has no
    /// filter or its list was not asked for yet.
    pub open spec fn filter_text(&self) -> Seq<char> {
        match self.menu_context.active_menu_item {
            MenuItem::Summary => match self.packs.constant_violation_summaries {
                Some(summaries) => summaries.filter@,
                None => Seq::empty(),
            },
            MenuItem::Packs => match self.packs.pack_list {
                Some(pack_list) => pack_list.filter@,
                None => Seq::empty(),
            },
            MenuItem::Actions => Seq::empty(),
        }
    }

    /// Sends the keys into the filter of the open menu, whose text is edited
    /// from then on.
    pub fn focus_filter(&mut self)
        ensures
            final(self).running == old(self).running,
            final(self).packs == old(self).packs,
            final(self).menu_context.active_menu_item == old(self).menu_context.active_menu_item,
            final(self).menu_context.active_context_menu_item == old(
                self,
            ).menu_context.active_context_menu_item,
            final(self).menu_context.active_focus.is_editing(old(self).filter_text()),
    {
        let text = match self.menu_context.active_menu_item {
            MenuItem::Summary => {
                match &self.packs.constant_violation_summaries {
                    Some(summaries) => summaries.filter.clone(),
                    None => String::new(),
                }
            },
            MenuItem::Packs => {
                match &self.packs.pack_list {
                    Some(pack_list) => pack_list.filter.clone(),
                    None => String::new(),
                }
            },
            _ => String::new(),
        };
        self.menu_context.active_focus = ActiveFocus::Filter(text);
    }

    /// Takes over what the text area of the filter holds after it was given
    /// a key: the lines, one behind the other, become the text that is edited
    /// and the filter of the open list. Answers whether the keys go into the
    /// filter at all; where they do not, nothing changes.
    pub fn handle_as_textarea(&mut self, lines: &Vec<String>) -> (r: bool)
        requires
            old(self).wf(),
        ensures
            final(self).wf(),
            r == old(self).menu_context.active_focus is Filter,
            !r ==> *final(self) == *old(self),
            r ==> final(self).menu_context.active_focus.is_editing(joined(lines@)),
            r ==> App::filter_updated(*old(self), *final(self), joined(lines@)),
    {
        match &self.menu_context.active_focus {
            ActiveFocus::Filter(_) => {
                let filter = join_lines(lines);
                self.menu_context.active_focus = ActiveFocus::Filter(filter.clone());
                self.update_filter(filter);
                true
            },
            _ => false,
        }
    }

    /// What `update_filter` does: with the menu of packs open the filter of
    /// the list of packs becomes `filter`, with the constants of the summary
    /// shown the filter of the summaries by constant does. Nothing else
    /// changes, and a list that was not asked for yet stays away.
    pub open spec fn filter_updated(before: App, after: App, filter: Seq<char>) -> bool {
        &&& after.running == before.running
        &&& after.menu_context.active_menu_item == before.menu_context.active_menu_item
        &&& after.menu_context.active_context_menu_item
            == before.menu_context.active_context_menu_item
        &&& after.packs.report == before.packs.report
        &&& match before.packs.pack_list {
            Some(list) => after.packs.pack_list matches Some(now) && now.selected == list.selected
                && now.items == list.items && now.filtered_items == list.filtered_items
                && now.filter@ == if before.menu_context.active_menu_item is Packs {
                filter
            } else {
                list.filter@
            },
            None => after.packs.pack_list is None,
        }
        &&& match before.packs.constant_violation_summaries {
            Some(summaries) => after.packs.constant_violation_summaries matches Some(now)
                && now.constant_summaries == summaries.constant_summaries && now.filter@ == if (
            before.menu_context.active_menu_item is Summary
                && before.menu_context.active_context_menu_item is ConstantViolations) {
                filter
            } else {
                summaries.filter@
            },
            None => after.packs.constant_violation_summaries is None,
        }
    }

    /// Sets the filter of the list that is open.
    pub fn update_filter(&mut self, filter: String)
        requires
            old(self).wf(),
        ensures
            final(self).wf(),
            final(self).menu_context.active_focus == old(self).menu_context.active_focus,
            App::filter_updated(*old(self), *final(self), filter@),
    {
        match self.menu_context.active_menu_item {
            MenuItem::Packs => {
                match &mut self.packs.pack_list {
                    Some(pack_list) => {
                        pack_list.filter = filter;
                    },
                    None => {},
                }
            },
            MenuItem::Summary => {
                match self.menu_context.active_context_menu_item {
                    ContextMenuItem::ConstantViolations(_) => {
                        match &mut self.packs.constant_violation_summaries {
                            Some(constant) => {
                                constant.filter = filter;
                            },
                            None => {},
                        }
                    },
                    _ => {},
                }
            },
            _ => {},
        }
    }
}

impl From<ContextMenuItem> for usize {
    fn from(input: ContextMenuItem) -> (r: usize) {
        match input {
            ContextMenuItem::Info(_) => 0,
            ContextMenuItem::NoViolationDependents(_) => 1,
            ContextMenuItem::ViolationDependents(_) => 2,
            ContextMenuItem::ConstantViolations(_) => 3,
        }
    }
}

impl FromSpecImpl<ContextMenuItem> for usize {
    open spec fn obeys_from_spec() -> bool {
        true
    }

    open spec fn from_spec(input: ContextMenuItem) -> usize {
        input.index()
    }
}

} // verus!
