//! The table of the violations of the selected path: its columns, and what
//! stands in it in which order.

use crate::components::helpers::active_violations::ActiveViolations;
use crate::components::helpers::scroll_sortable::{ScrollSortable, SortDirection};
use crate::pks::{Bucket, PackDependentViolation, PathViolations};
use crate::sorting::{
    arranged, is_sorted_by_keys, is_stable_order, keys_view, sort_rows, stable_order, SortKey,
};
use crate::tally::Tally;
use std::sync::Arc;
use vstd::prelude::*;
use vstd::string::StringExecFns;

verus! {

/// The number of columns of the table.
pub const VIOLATION_COLUMNS: usize = 7;

pub const VIOLATION_HEADER_ABBR_TITLES: [&'static str; 7] = [
    "def pack",
    "ref pack",
    "priv",
    "arch",
    "dep",
    "fvis",
    "vis",
];

pub const VIOLATION_HEADER_FULL_TITLES: [&'static str; 7] = [
    "def pack",
    "ref pack",
    "privacy",
    "architecture",
    "dependency",
    "folder visibility",
    "visibility",
];

/// Below this height the table is shown without the counts of constants.
pub const MIN_HEIGHT_FOR_CONSTANTS: u16 = 20;

/// What the table shows: the violations in the order of the table, and the
/// title of the table.
pub struct ViolationSpecifics {
    pub violations: Vec<Arc<PackDependentViolation>>,
    pub table_title: &'static str,
}

/// The list of a path that is shown for `active`.
pub open spec fn shown_bucket(active: ActiveViolations) -> Bucket {
    match active {
        ActiveViolations::Out => Bucket::UncontainedOut,
        ActiveViolations::In => Bucket::UncontainedIn,
        ActiveViolations::ContainedOut => Bucket::ContainedOut,
        ActiveViolations::ContainedIn => Bucket::ContainedIn,
    }
}

/// The title of the table for `active`.
pub open spec fn shown_title(active: ActiveViolations) -> Seq<char> {
    match active {
        ActiveViolations::Out => "uncontained outgoing violations"@,
        ActiveViolations::In => "uncontained incoming violations"@,
        ActiveViolations::ContainedOut => "internal outgoing violations"@,
        ActiveViolations::ContainedIn => "internal incoming violations"@,
    }
}

/// The key by which the violations are sorted in the given column: the pack
/// in the first two columns, and in the others the number that the column
/// shows and then the defining pack. Beyond the last column all violations
/// have the same key, and sorting leaves them in place.
pub open spec fn violation_sort_key(column: usize, v: PackDependentViolation) -> (
    usize,
    Seq<char>,
) {
    if column == 0 {
        (0, v.defining_pack_name@)
    } else if column == 1 {
        (0, v.referencing_pack_name@)
    } else if column <= 6 {
        (
            v.violation_type_counts@.count(VIOLATION_HEADER_FULL_TITLES[column as int]@) as usize,
            v.defining_pack_name@,
        )
    } else {
        (0, Seq::empty())
    }
}

/// The keys of a list of violations.
pub open spec fn violation_sort_keys(column: usize, rows: Seq<Arc<PackDependentViolation>>) -> Seq<
    (usize, Seq<char>),
> {
    rows.map_values(|v: Arc<PackDependentViolation>| violation_sort_key(column, *v))
}

/// The key of one violation in the given column.
fn sort_key(column: usize, v: &PackDependentViolation) -> (key: SortKey)
    requires
        v.wf(),
    ensures
        key@ == violation_sort_key(column, *v),
{
    if column == 0 {
        SortKey { number: 0, text: v.defining_pack_name.clone() }
    } else if column == 1 {
        SortKey { number: 0, text: v.referencing_pack_name.clone() }
    } else if column <= 6 {
        SortKey {
            number: v.count_for_violation_type(VIOLATION_HEADER_FULL_TITLES[column]),
            text: v.defining_pack_name.clone(),
        }
    } else {
        SortKey { number: 0, text: String::new() }
    }
}

/// What the table shows for the list `active` of the selected path: the
/// violations of that list, sorted by the sorted column of `scroll_sortable`
/// in its direction. Violations with the same key keep the order of the
/// list, and come in the reverse of it in descending direction.
pub fn get_violation_specifics(
    active_violations: ActiveViolations,
    selected_path_violations: &PathViolations,
    scroll_sortable: &ScrollSortable,
) -> (r: ViolationSpecifics)
    requires
        forall|i: int|
            0 <= i < selected_path_violations.bucket(shown_bucket(active_violations)).len() ==> (
            #[trigger] selected_path_violations.bucket(shown_bucket(active_violations))[i]).wf(),
    ensures
        r.table_title@ == shown_title(active_violations),
        is_sorted_by_keys(
            violation_sort_keys(
                scroll_sortable.sort_column,
                selected_path_violations.bucket(shown_bucket(active_violations)),
            ),
            selected_path_violations.bucket(shown_bucket(active_violations)),
            r.violations@,
            scroll_sortable.sort_direction != SortDirection::Ascending,
        ),
{
    let (list, table_title) = match active_violations {
        ActiveViolations::Out => (
            &selected_path_violations.uncontained_out_violations,
            "uncontained outgoing violations",
        ),
        ActiveViolations::In => (
            &selected_path_violations.uncontained_in_violations,
            "uncontained incoming violations",
        ),
        ActiveViolations::ContainedOut => (
            &selected_path_violations.contained_out_violations,
            "internal outgoing violations",
        ),
        ActiveViolations::ContainedIn => (
            &selected_path_violations.contained_in_violations,
            "internal incoming violations",
        ),
    };
    let ghost rows = list@;
    assert(rows == selected_path_violations.bucket(shown_bucket(active_violations)));
    let column = scroll_sortable.sort_column();
    let ghost expected = violation_sort_keys(column, rows);
    let mut keys: Vec<SortKey> = Vec::new();
    let mut i: usize = 0;
    while i < list.len()
        invariant
            i <= list.len(),
            list@ == rows,
            expected == violation_sort_keys(column, rows),
            forall|i: int| 0 <= i < rows.len() ==> (#[trigger] rows[i]).wf(),
            keys_view(keys@) == expected.take(i as int),
        decreases list.len() - i,
    {
        let key = sort_key(column, &list[i]);
        proof {
            assert(keys_view(keys@.push(key)) =~= keys_view(keys@).push(key@));
            assert(expected.take(i + 1) =~= expected.take(i as int).push(expected[i as int]));
        }
        keys.push(key);
        i = i + 1;
    }
    proof {
        assert(expected.take(rows.len() as int) =~= expected);
    }
    let violations = sort_rows(list, &keys, !scroll_sortable.is_sort_ascending());
    ViolationSpecifics { violations, table_title }
}

/// The constants of a tally with their counts, in the order in which the
/// tally holds them.
pub open spec fn counted_names(tally: Tally) -> Seq<(Seq<char>, usize)> {
    Seq::new(tally.names().len(), |i: int| (tally.names()[i], tally@.count(tally.names()[i]) as usize))
}

/// The keys that order counted names by falling count, and by name where the
/// count is the same.
pub open spec fn by_falling_count(entries: Seq<(Seq<char>, usize)>) -> Seq<(usize, Seq<char>)> {
    entries.map_values(|e: (Seq<char>, usize)| ((usize::MAX - e.1) as usize, e.0))
}

/// The views of a list of counted names.
pub open spec fn counted_view(list: Seq<(String, usize)>) -> Seq<(Seq<char>, usize)> {
    list.map_values(|e: (String, usize)| (e.0@, e.1))
}

impl ViolationSpecifics {
    /// The violations are well formed.
    pub open spec fn wf(&self) -> bool {
        forall|i: int| 0 <= i < self.violations.len() ==> (#[trigger] self.violations[i]).wf()
    }

    /// The constants that the violation in row `index` concerns, each with
    /// the number of times it is concerned, by falling count and then by
    /// name; nothing where the table has no such row.
    pub fn constant_counts_for_index(&self, index: usize) -> (r: Option<Vec<(String, usize)>>)
        requires
            self.wf(),
        ensures
            r is Some <==> index < self.violations.len(),
            r matches Some(list) ==> is_sorted_by_keys(
                by_falling_count(counted_names(self.violations[index as int].constant_counts)),
                counted_names(self.violations[index as int].constant_counts),
                counted_view(list@),
                false,
            ),
    {
        if index >= self.violations.len() {
            return None;
        }
        Some(names_by_falling_count(&self.violations[index].constant_counts))
    }
}

/// The names of a tally with their counts, by falling count, and by name
/// where the count is the same.
pub fn names_by_falling_count(tally: &Tally) -> (r: Vec<(String, usize)>)
    requires
        tally.wf(),
    ensures
        is_sorted_by_keys(
            by_falling_count(counted_names(*tally)),
            counted_names(*tally),
            counted_view(r@),
            false,
        ),
{
    let ghost entries = counted_names(*tally);
    let ghost expected = by_falling_count(entries);
    let n = tally.len();
    let mut keys: Vec<SortKey> = Vec::new();
    let mut i: usize = 0;
    while i < n
        invariant
            i <= n,
            n == tally.names().len(),
            tally.wf(),
            entries == counted_names(*tally),
            expected == by_falling_count(entries),
            keys_view(keys@) == expected.take(i as int),
        decreases n - i,
    {
        let (name, count) = tally.entry(i);
        let key = SortKey { number: usize::MAX - count, text: name.clone() };
        proof {
            assert(entries[i as int] == (name@, count));
            assert(keys_view(keys@.push(key)) =~= keys_view(keys@).push(key@));
            assert(expected.take(i + 1) =~= expected.take(i as int).push(expected[i as int]));
        }
        keys.push(key);
        i = i + 1;
    }
    proof {
        assert(expected.take(n as int) =~= expected);
    }
    let order = stable_order(&keys);
    let mut constant_counts: Vec<(String, usize)> = Vec::new();
    let mut p: usize = 0;
    while p < order.len()
        invariant
            p <= order.len(),
            n == tally.names().len(),
            tally.wf(),
            entries == counted_names(*tally),
            is_stable_order(expected, order@),
            expected.len() == n,
            constant_counts.len() == p,
            forall|k: int|
                0 <= k < p ==> (#[trigger] constant_counts[k]).0@ == entries[order[k] as int].0
                    && constant_counts[k].1 == entries[order[k] as int].1,
        decreases order.len() - p,
    {
        let (name, count) = tally.entry(order[p]);
        constant_counts.push((name.clone(), count));
        p = p + 1;
    }
    proof {
        assert(counted_view(constant_counts@) =~= arranged(entries, order@));
    }
    constant_counts
}

/// The mark in the header of the sorted column.
pub open spec fn sort_mark(direction: SortDirection) -> Seq<char> {
    match direction {
        SortDirection::Ascending => "▼"@,
        SortDirection::Descending => "▲"@,
    }
}

/// The headers of the columns; that of the sorted column carries the mark of
/// the sort direction before its title.
pub fn header_titles(scroll_sortable: &ScrollSortable) -> (r: Vec<String>)
    ensures
        r.len() == 7,
        forall|i: int|
            0 <= i < 7 ==> (#[trigger] r[i])@ == if i == scroll_sortable.sort_column {
                sort_mark(scroll_sortable.sort_direction) + " "@ + VIOLATION_HEADER_ABBR_TITLES[i]@
            } else {
                VIOLATION_HEADER_ABBR_TITLES[i]@
            },
{
    let mut titles: Vec<String> = Vec::new();
    let mut i: usize = 0;
    while i < 7
        invariant
            i <= 7,
            titles.len() == i,
            forall|k: int|
                0 <= k < i ==> (#[trigger] titles[k])@ == if k == scroll_sortable.sort_column {
                    sort_mark(scroll_sortable.sort_direction) + " "@
                        + VIOLATION_HEADER_ABBR_TITLES[k]@
                } else {
                    VIOLATION_HEADER_ABBR_TITLES[k]@
                },
        decreases 7 - i,
    {
        let title = VIOLATION_HEADER_ABBR_TITLES[i];
        if i == scroll_sortable.sort_column() {
            let mark = if scroll_sortable.is_sort_ascending() {
                "▼"
            } else {
                "▲"
            };
            titles.push(mark.to_owned().concat(" ").concat(title));
        } else {
            titles.push(title.to_owned());
        }
        i = i + 1;
    }
    titles
}

/// Brings the selected row back into the table where it lies behind the
/// last row: the last row is selected then. An empty table leaves the
/// selection as it is.
pub fn clamp_vertical_scroll(scroll_sortable: &mut ScrollSortable, rows_len: usize)
    ensures
        *final(scroll_sortable) == (ScrollSortable {
            vertical_scroll: if old(scroll_sortable).vertical_scroll >= rows_len && rows_len > 0 {
                (rows_len - 1) as usize
            } else {
                old(scroll_sortable).vertical_scroll
            },
            ..*old(scroll_sortable)
        }),
{
    let vertical_scroll = scroll_sortable.vertical_scroll();
    if vertical_scroll >= rows_len && rows_len > 0 {
        scroll_sortable.set_vertical_scroll(rows_len - 1);
    }
}

/// The widths of the columns of the table, in bytes: those of the two
/// columns of pack names, those of the columns of counts, and the width of
/// the whole table, which has a cushion of five.
pub struct ColumnWidths {
    pub defining_pack: usize,
    pub referencing_pack: usize,
    pub counts: Vec<usize>,
    pub table: usize,
}

/// The length of a text in bytes.
pub open spec fn byte_len(text: Seq<char>) -> nat {
    vstd::utf8::encode_utf8(text).len()
}

/// The length in bytes of the longest defining pack name among the first `k`
/// of `rows`.
pub open spec fn longest_defining(rows: Seq<Arc<PackDependentViolation>>, k: int) -> nat
    decreases k,
{
    if k <= 0 {
        0
    } else {
        let rest = longest_defining(rows, k - 1);
        let this = byte_len(rows[k - 1].defining_pack_name@);
        if this > rest {
            this
        } else {
            rest
        }
    }
}

/// The length in bytes of the longest referencing pack name among the first
/// `k` of `rows`.
pub open spec fn longest_referencing(rows: Seq<Arc<PackDependentViolation>>, k: int) -> nat
    decreases k,
{
    if k <= 0 {
        0
    } else {
        let rest = longest_referencing(rows, k - 1);
        let this = byte_len(rows[k - 1].referencing_pack_name@);
        if this > rest {
            this
        } else {
            rest
        }
    }
}

/// The lengths in bytes of the headers of the columns of counts, added up
/// over the first `k` of these columns.
pub open spec fn count_headers_width(k: int) -> nat
    decreases k,
{
    if k <= 0 {
        0
    } else {
        count_headers_width(k - 1) + byte_len(VIOLATION_HEADER_ABBR_TITLES[k + 1]@)
    }
}

/// The widths of the columns for the violations that the table shows.
pub fn get_constraint_widths(violation_specifics: &ViolationSpecifics) -> (r: ColumnWidths)
    requires
        longest_defining(violation_specifics.violations@, violation_specifics.violations.len() as int)
            + longest_referencing(
            violation_specifics.violations@,
            violation_specifics.violations.len() as int,
        ) + count_headers_width(5) + 5 <= usize::MAX,
    ensures
        r.defining_pack == longest_defining(
            violation_specifics.violations@,
            violation_specifics.violations.len() as int,
        ),
        r.referencing_pack == longest_referencing(
            violation_specifics.violations@,
            violation_specifics.violations.len() as int,
        ),
        r.counts.len() == 5,
        forall|k: int|
            0 <= k < 5 ==> (#[trigger] r.counts[k]) == byte_len(VIOLATION_HEADER_ABBR_TITLES[k + 2]@),
        r.table == r.defining_pack + r.referencing_pack + count_headers_width(5) + 5,
{
    let rows = &violation_specifics.violations;
    let mut max_def_pack_name_len: usize = 0;
    let mut max_ref_pack_name_len: usize = 0;
    let mut i: usize = 0;
    while i < rows.len()
        invariant
            i <= rows.len(),
            longest_defining(rows@, rows.len() as int) <= usize::MAX,
            longest_referencing(rows@, rows.len() as int) <= usize::MAX,
            max_def_pack_name_len == longest_defining(rows@, i as int),
            max_ref_pack_name_len == longest_referencing(rows@, i as int),
        decreases rows.len() - i,
    {
        proof {
            lemma_longest_bounds(rows@, rows.len() as int, i as int);
        }
        let def_len = rows[i].defining_pack_name.as_str().len();
        let ref_len = rows[i].referencing_pack_name.as_str().len();
        if def_len > max_def_pack_name_len {
            max_def_pack_name_len = def_len;
        }
        if ref_len > max_ref_pack_name_len {
            max_ref_pack_name_len = ref_len;
        }
        i = i + 1;
    }
    let mut counts: Vec<usize> = Vec::new();
    let mut count_widths_sum: usize = 0;
    let mut k: usize = 0;
    while k < 5
        invariant
            k <= 5,
            counts.len() == k,
            count_widths_sum == count_headers_width(k as int),
            count_headers_width(5) <= usize::MAX,
            forall|j: int|
                0 <= j < k ==> (#[trigger] counts[j]) == byte_len(VIOLATION_HEADER_ABBR_TITLES[j + 2]@),
        decreases 5 - k,
    {
        let width = VIOLATION_HEADER_ABBR_TITLES[k + 2].len();
        proof {
            lemma_count_headers_width_grows(k + 1, 5);
        }
        counts.push(width);
        count_widths_sum = count_widths_sum + width;
        k = k + 1;
    }
    let table = max_def_pack_name_len + max_ref_pack_name_len + count_widths_sum + 5;
    ColumnWidths {
        defining_pack: max_def_pack_name_len,
        referencing_pack: max_ref_pack_name_len,
        counts,
        table,
    }
}

/// No name among the first `k` rows is longer than the longest.
pub proof fn lemma_longest_bounds(rows: Seq<Arc<PackDependentViolation>>, k: int, i: int)
    requires
        0 <= i < k,
    ensures
        byte_len(rows[i].defining_pack_name@) <= longest_defining(rows, k),
        byte_len(rows[i].referencing_pack_name@) <= longest_referencing(rows, k),
    decreases k,
{
    if i < k - 1 {
        lemma_longest_bounds(rows, k - 1, i);
    }
}

/// More headers are no narrower than fewer.
pub proof fn lemma_count_headers_width_grows(a: int, b: int)
    requires
        a <= b,
    ensures
        count_headers_width(a) <= count_headers_width(b),
    decreases b - a,
{
    if a < b {
        lemma_count_headers_width_grows(a, b - 1);
    }
}

} // verus!
