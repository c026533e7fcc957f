//! Grouping of violation records. The records are grouped by a pair of names,
//! the groups are kept in the order of those pairs, and each group tallies two
//! tags of its records.
//!
//! Two groupings are in use: by the pair of referencing and defining pack, and
//! by the pair of constant and defining pack.

use crate::configuration::{records_view, RecordView, ViolationRecord};
use crate::tally::Tally;
use crate::text::{
    compare, lemma_precedes_asymmetric, lemma_precedes_transitive, precedes, Rank,
};
use vstd::multiset::*;
use vstd::prelude::*;
use vstd::seq_lib::*;

verus! {

/// By which pair of names records are grouped.
#[derive(Clone, Copy, Debug, PartialEq, Eq)]
pub enum Grouping {
    /// Major name: the referencing pack. Tags: violation type and constant.
    ByPackPair,
    /// Major name: the constant. Tags: violation type and referencing pack.
    ByConstant,
}

/// The name by which groups are ordered first.
pub open spec fn major_of(g: Grouping, x: RecordView) -> Seq<char> {
    match g {
        Grouping::ByPackPair => x.referencing_pack_name,
        Grouping::ByConstant => x.constant_name,
    }
}

/// The name by which groups with the same major name are ordered: the
/// defining pack.
pub open spec fn minor_of(g: Grouping, x: RecordView) -> Seq<char> {
    x.defining_pack_name
}

/// The first tag that a group tallies: the violation type.
pub open spec fn first_tag(g: Grouping, x: RecordView) -> Seq<char> {
    x.violation_type
}

/// The second tag that a group tallies.
pub open spec fn second_tag(g: Grouping, x: RecordView) -> Seq<char> {
    match g {
        Grouping::ByPackPair => x.constant_name,
        Grouping::ByConstant => x.referencing_pack_name,
    }
}

/// The records that belong to the group `(major, minor)`.
pub open spec fn in_group(g: Grouping, major: Seq<char>, minor: Seq<char>) -> spec_fn(
    RecordView,
) -> bool {
    |x: RecordView| major_of(g, x) == major && minor_of(g, x) == minor
}

pub open spec fn first_tag_fn(g: Grouping) -> spec_fn(RecordView) -> Seq<char> {
    |x: RecordView| first_tag(g, x)
}

pub open spec fn second_tag_fn(g: Grouping) -> spec_fn(RecordView) -> Seq<char> {
    |x: RecordView| second_tag(g, x)
}

/// The records of the group `(major, minor)`, in the order of `records`.
pub open spec fn members(
    g: Grouping,
    records: Seq<RecordView>,
    major: Seq<char>,
    minor: Seq<char>,
) -> Seq<RecordView> {
    records.filter(in_group(g, major, minor))
}

/// The first tags of the records of a group, as a multiset.
pub open spec fn first_bag(
    g: Grouping,
    records: Seq<RecordView>,
    major: Seq<char>,
    minor: Seq<char>,
) -> Multiset<Seq<char>> {
    members(g, records, major, minor).map_values(first_tag_fn(g)).to_multiset()
}

/// The second tags of the records of a group, as a multiset.
pub open spec fn second_bag(
    g: Grouping,
    records: Seq<RecordView>,
    major: Seq<char>,
    minor: Seq<char>,
) -> Multiset<Seq<char>> {
    members(g, records, major, minor).map_values(second_tag_fn(g)).to_multiset()
}

/// The order of groups: by major name, then by minor name.
pub open spec fn key_precedes(
    a_major: Seq<char>,
    a_minor: Seq<char>,
    b_major: Seq<char>,
    b_minor: Seq<char>,
) -> bool {
    precedes(a_major, b_major) || (a_major == b_major && precedes(a_minor, b_minor))
}

/// One group of records: its pair of names and the tallies of its two tags.
#[derive(Debug, PartialEq, Eq)]
pub struct Group {
    pub major: String,
    pub minor: String,
    pub first: Tally,
    pub second: Tally,
}

impl Group {
    /// This group tallies exactly the records of `records` that carry its pair
    /// of names, and there is at least one such record.
    pub open spec fn summarises(&self, g: Grouping, records: Seq<RecordView>) -> bool {
        &&& self.first.wf()
        &&& self.second.wf()
        &&& members(g, records, self.major@, self.minor@).len() > 0
        &&& self.first@ == first_bag(g, records, self.major@, self.minor@)
        &&& self.second@ == second_bag(g, records, self.major@, self.minor@)
    }
}

/// The groups stand in strictly ascending order of their pairs of names.
pub open spec fn groups_ascending(groups: Seq<Group>) -> bool {
    forall|i: int, j: int|
        0 <= i < j < groups.len() ==> key_precedes(
            groups[i].major@,
            groups[i].minor@,
            groups[j].major@,
            groups[j].minor@,
        )
}

/// Some group carries the pair of names of the record `x`.
pub open spec fn has_group_for(g: Grouping, groups: Seq<Group>, x: RecordView) -> bool {
    exists|i: int|
        0 <= i < groups.len() && groups[i].major@ == major_of(g, x) && groups[i].minor@
            == minor_of(g, x)
}

/// The number of records that the groups tally, all together.
pub open spec fn counted(groups: Seq<Group>) -> nat
    decreases groups.len(),
{
    if groups.len() == 0 {
        0
    } else {
        counted(groups.drop_last()) + groups.last().first@.len()
    }
}

/// `groups` is the grouping of `records`: one group for each pair of names
/// that occurs, in ascending order of the pairs, each tallying its records.
pub open spec fn is_grouping(g: Grouping, records: Seq<RecordView>, groups: Seq<Group>) -> bool {
    &&& groups_ascending(groups)
    &&& forall|i: int| 0 <= i < groups.len() ==> (#[trigger] groups[i]).summarises(g, records)
    &&& forall|n: int| 0 <= n < records.len() ==> has_group_for(g, groups, #[trigger] records[n])
    &&& counted(groups) == records.len()
}

/// The order of pairs is transitive.
pub proof fn lemma_key_precedes_transitive(
    a: (Seq<char>, Seq<char>),
    b: (Seq<char>, Seq<char>),
    c: (Seq<char>, Seq<char>),
)
    requires
        key_precedes(a.0, a.1, b.0, b.1),
        key_precedes(b.0, b.1, c.0, c.1),
    ensures
        key_precedes(a.0, a.1, c.0, c.1),
{
    if precedes(a.0, b.0) && precedes(b.0, c.0) {
        lemma_precedes_transitive(a.0, b.0, c.0);
    } else if a.0 == b.0 && b.0 == c.0 {
        lemma_precedes_transitive(a.1, b.1, c.1);
    }
}

/// A pair that sorts before another differs from it.
pub proof fn lemma_key_precedes_differs(a: (Seq<char>, Seq<char>), b: (Seq<char>, Seq<char>))
    requires
        key_precedes(a.0, a.1, b.0, b.1),
    ensures
        a != b,
        !key_precedes(b.0, b.1, a.0, a.1),
{
    if precedes(a.0, b.0) {
        lemma_precedes_asymmetric(a.0, b.0);
    } else {
        lemma_precedes_asymmetric(a.1, b.1);
        if precedes(b.0, a.0) {
            lemma_precedes_asymmetric(b.0, a.0);
        }
    }
}

/// What one more record changes in the bags of a group: a record of the group
/// adds its tags, any other record adds nothing.
pub proof fn lemma_bags_step(
    g: Grouping,
    records: Seq<RecordView>,
    x: RecordView,
    major: Seq<char>,
    minor: Seq<char>,
)
    ensures
        in_group(g, major, minor)(x) ==> {
            &&& members(g, records.push(x), major, minor) == members(g, records, major, minor).push(
                x,
            )
            &&& first_bag(g, records.push(x), major, minor) == first_bag(
                g,
                records,
                major,
                minor,
            ).insert(first_tag(g, x))
            &&& second_bag(g, records.push(x), major, minor) == second_bag(
                g,
                records,
                major,
                minor,
            ).insert(second_tag(g, x))
        },
        !in_group(g, major, minor)(x) ==> {
            &&& members(g, records.push(x), major, minor) == members(g, records, major, minor)
            &&& first_bag(g, records.push(x), major, minor) == first_bag(g, records, major, minor)
            &&& second_bag(g, records.push(x), major, minor) == second_bag(
                g,
                records,
                major,
                minor,
            )
        },
        first_bag(g, records, major, minor).len() == members(g, records, major, minor).len(),
        second_bag(g, records, major, minor).len() == members(g, records, major, minor).len(),
        members(g, records, major, minor).len() <= records.len(),
{
    let pred = in_group(g, major, minor);
    let m = members(g, records, major, minor);
    records.lemma_filter_push(x, pred);
    records.lemma_filter_len(pred);
    if pred(x) {
        m.lemma_push_map_commute(first_tag_fn(g), x);
        m.lemma_push_map_commute(second_tag_fn(g), x);
        to_multiset_build(m.map_values(first_tag_fn(g)), first_tag(g, x));
        to_multiset_build(m.map_values(second_tag_fn(g)), second_tag(g, x));
    }
    to_multiset_len(m.map_values(first_tag_fn(g)));
    to_multiset_len(m.map_values(second_tag_fn(g)));
}

/// A pair of names that no record carries has no members.
pub proof fn lemma_no_members(
    g: Grouping,
    records: Seq<RecordView>,
    major: Seq<char>,
    minor: Seq<char>,
)
    requires
        forall|n: int| 0 <= n < records.len() ==> !in_group(g, major, minor)(#[trigger] records[n]),
    ensures
        members(g, records, major, minor) == Seq::<RecordView>::empty(),
        first_bag(g, records, major, minor) == Multiset::<Seq<char>>::empty(),
        second_bag(g, records, major, minor) == Multiset::<Seq<char>>::empty(),
    decreases records.len(),
{
    broadcast use group_multiset_axioms;

    let pred = in_group(g, major, minor);
    if records.len() == 0 {
        reveal(Seq::filter);
        assert(records.filter(pred) =~= Seq::empty());
    } else {
        let rest = records.drop_last();
        assert forall|n: int| 0 <= n < rest.len() implies !in_group(g, major, minor)(
            #[trigger] rest[n],
        ) by {
            assert(rest[n] == records[n]);
        }
        lemma_no_members(g, rest, major, minor);
        assert(records =~= rest.push(records.last()));
        rest.lemma_filter_push(records.last(), pred);
        assert(!pred(records[records.len() - 1]));
    }
    let m = members(g, records, major, minor);
    assert(m.map_values(first_tag_fn(g)) =~= Seq::<Seq<char>>::empty());
    assert(m.map_values(second_tag_fn(g)) =~= Seq::<Seq<char>>::empty());
    to_multiset_len(Seq::<Seq<char>>::empty());
    assert(Seq::<Seq<char>>::empty().to_multiset() =~= Multiset::empty());
}

/// Replacing one group changes the number of tallied records by the
/// difference of the two groups.
pub proof fn lemma_counted_update(groups: Seq<Group>, p: int, e: Group)
    requires
        0 <= p < groups.len(),
    ensures
        counted(groups.update(p, e)) == counted(groups) - groups[p].first@.len() + e.first@.len(),
    decreases groups.len(),
{
    let updated = groups.update(p, e);
    if p == groups.len() - 1 {
        assert(updated.drop_last() =~= groups.drop_last());
    } else {
        lemma_counted_update(groups.drop_last(), p, e);
        assert(updated.drop_last() =~= groups.drop_last().update(p, e));
    }
}

/// Inserting a group adds what it tallies.
pub proof fn lemma_counted_insert(groups: Seq<Group>, p: int, e: Group)
    requires
        0 <= p <= groups.len(),
    ensures
        counted(groups.insert(p, e)) == counted(groups) + e.first@.len(),
    decreases groups.len(),
{
    let grown = groups.insert(p, e);
    if p == groups.len() {
        assert(grown.drop_last() =~= groups);
    } else {
        lemma_counted_insert(groups.drop_last(), p, e);
        assert(grown.drop_last() =~= groups.drop_last().insert(p, e));
        assert(grown.last() == groups.last());
    }
}

/// The number of records of `records` that `which` accepts.
pub open spec fn count_where(records: Seq<RecordView>, which: spec_fn(RecordView) -> bool) -> nat
    decreases records.len(),
{
    if records.len() == 0 {
        0
    } else {
        count_where(records.drop_last(), which) + if which(records.last()) {
            1nat
        } else {
            0nat
        }
    }
}

/// The records of the group `(major, minor)` whose first tag is `tag`.
pub open spec fn with_first_tag(
    g: Grouping,
    major: Seq<char>,
    minor: Seq<char>,
    tag: Seq<char>,
) -> spec_fn(RecordView) -> bool {
    |x: RecordView| in_group(g, major, minor)(x) && first_tag(g, x) == tag
}

/// The records of the group `(major, minor)` whose second tag is `tag`.
pub open spec fn with_second_tag(
    g: Grouping,
    major: Seq<char>,
    minor: Seq<char>,
    tag: Seq<char>,
) -> spec_fn(RecordView) -> bool {
    |x: RecordView| in_group(g, major, minor)(x) && second_tag(g, x) == tag
}

/// Taking one record away takes it from the count, if it was counted.
pub proof fn lemma_count_where_remove(
    records: Seq<RecordView>,
    which: spec_fn(RecordView) -> bool,
    i: int,
)
    requires
        0 <= i < records.len(),
    ensures
        count_where(records, which) == count_where(records.remove(i), which) + if which(
            records[i],
        ) {
            1nat
        } else {
            0nat
        },
    decreases records.len(),
{
    if i == records.len() - 1 {
        assert(records.remove(i) =~= records.drop_last());
    } else {
        lemma_count_where_remove(records.drop_last(), which, i);
        assert(records.remove(i).drop_last() =~= records.drop_last().remove(i));
        assert(records.remove(i).last() == records.last());
    }
}

/// The count does not depend on the order of the records.
pub proof fn lemma_count_where_ignores_order(
    a: Seq<RecordView>,
    b: Seq<RecordView>,
    which: spec_fn(RecordView) -> bool,
)
    requires
        a.to_multiset() == b.to_multiset(),
    ensures
        count_where(a, which) == count_where(b, which),
    decreases a.len(),
{
    broadcast use group_multiset_axioms;

    to_multiset_len(a);
    to_multiset_len(b);
    if a.len() > 0 {
        let x = a.last();
        let i = a.len() - 1;
        assert(a.contains(x)) by {
            assert(a[i] == x);
        }
        to_multiset_contains(a, x);
        to_multiset_contains(b, x);
        let j = choose|j: int| 0 <= j < b.len() && b[j] == x;
        to_multiset_remove(a, i);
        to_multiset_remove(b, j);
        assert(a.remove(i) =~= a.drop_last());
        lemma_count_where_ignores_order(a.drop_last(), b.remove(j), which);
        lemma_count_where_remove(b, which, j);
    }
}

/// A selection holds as many records as are counted for it.
pub proof fn lemma_filter_len_is_count(
    records: Seq<RecordView>,
    which: spec_fn(RecordView) -> bool,
)
    ensures
        records.filter(which).len() == count_where(records, which),
    decreases records.len(),
{
    if records.len() == 0 {
        reveal(Seq::filter);
        assert(records.filter(which) =~= Seq::empty());
    } else {
        let rest = records.drop_last();
        lemma_filter_len_is_count(rest, which);
        assert(records =~= rest.push(records.last()));
        rest.lemma_filter_push(records.last(), which);
    }
}

/// A bag of a group holds a tag as often as records of the group carry it.
pub proof fn lemma_bag_counts_records(
    g: Grouping,
    records: Seq<RecordView>,
    major: Seq<char>,
    minor: Seq<char>,
    tag: Seq<char>,
)
    ensures
        first_bag(g, records, major, minor).count(tag) == count_where(
            records,
            with_first_tag(g, major, minor, tag),
        ),
        second_bag(g, records, major, minor).count(tag) == count_where(
            records,
            with_second_tag(g, major, minor, tag),
        ),
    decreases records.len(),
{
    broadcast use group_multiset_axioms;

    if records.len() == 0 {
        assert forall|n: int| 0 <= n < records.len() implies !in_group(g, major, minor)(
            #[trigger] records[n],
        ) by {}
        lemma_no_members(g, records, major, minor);
    } else {
        let rest = records.drop_last();
        let x = records.last();
        lemma_bag_counts_records(g, rest, major, minor, tag);
        assert(records =~= rest.push(x));
        lemma_bags_step(g, rest, x, major, minor);
    }
}

/// The bags and the size of a group do not depend on the order of the
/// records.
pub proof fn lemma_group_ignores_order(
    g: Grouping,
    a: Seq<RecordView>,
    b: Seq<RecordView>,
    major: Seq<char>,
    minor: Seq<char>,
)
    requires
        a.to_multiset() == b.to_multiset(),
    ensures
        members(g, a, major, minor).len() == members(g, b, major, minor).len(),
        first_bag(g, a, major, minor) == first_bag(g, b, major, minor),
        second_bag(g, a, major, minor) == second_bag(g, b, major, minor),
{
    lemma_filter_len_is_count(a, in_group(g, major, minor));
    lemma_filter_len_is_count(b, in_group(g, major, minor));
    lemma_count_where_ignores_order(a, b, in_group(g, major, minor));
    assert forall|tag: Seq<char>|
        first_bag(g, a, major, minor).count(tag) == first_bag(g, b, major, minor).count(tag)
        && second_bag(g, a, major, minor).count(tag) == second_bag(g, b, major, minor).count(
            tag,
        ) by {
        lemma_bag_counts_records(g, a, major, minor, tag);
        lemma_bag_counts_records(g, b, major, minor, tag);
        lemma_count_where_ignores_order(a, b, with_first_tag(g, major, minor, tag));
        lemma_count_where_ignores_order(a, b, with_second_tag(g, major, minor, tag));
    }
    assert(first_bag(g, a, major, minor) =~= first_bag(g, b, major, minor));
    assert(second_bag(g, a, major, minor) =~= second_bag(g, b, major, minor));
}

/// The grouping of records does not depend on their order.
pub proof fn lemma_grouping_ignores_order(
    g: Grouping,
    a: Seq<RecordView>,
    b: Seq<RecordView>,
    groups: Seq<Group>,
)
    requires
        a.to_multiset() == b.to_multiset(),
        is_grouping(g, a, groups),
    ensures
        is_grouping(g, b, groups),
{
    to_multiset_len(a);
    to_multiset_len(b);
    assert forall|i: int| 0 <= i < groups.len() implies (#[trigger] groups[i]).summarises(g, b) by {
        assert(groups[i].summarises(g, a));
        lemma_group_ignores_order(g, a, b, groups[i].major@, groups[i].minor@);
    }
    assert forall|n: int| 0 <= n < b.len() implies has_group_for(g, groups, #[trigger] b[n]) by {
        assert(b.contains(b[n]));
        to_multiset_contains(b, b[n]);
        to_multiset_contains(a, b[n]);
        let k = choose|k: int| 0 <= k < a.len() && a[k] == b[n];
        assert(has_group_for(g, groups, a[k]));
    }
}

/// Compares two pairs of names in the order of `key_precedes`.
pub fn compare_keys(a_major: &str, a_minor: &str, b_major: &str, b_minor: &str) -> (r: Rank)
    ensures
        r == Rank::Same <==> (a_major@ == b_major@ && a_minor@ == b_minor@),
        r == Rank::Before <==> key_precedes(a_major@, a_minor@, b_major@, b_minor@),
        r == Rank::After <==> key_precedes(b_major@, b_minor@, a_major@, a_minor@),
{
    proof {
        if key_precedes(a_major@, a_minor@, b_major@, b_minor@) {
            lemma_key_precedes_differs((a_major@, a_minor@), (b_major@, b_minor@));
        }
        if key_precedes(b_major@, b_minor@, a_major@, a_minor@) {
            lemma_key_precedes_differs((b_major@, b_minor@), (a_major@, a_minor@));
        }
    }
    match compare(a_major, b_major) {
        Rank::Before => Rank::Before,
        Rank::After => Rank::After,
        Rank::Same => compare(a_minor, b_minor),
    }
}

/// The major name of a record.
pub fn major_name(g: Grouping, x: &ViolationRecord) -> (r: &String)
    ensures
        r@ == major_of(g, x@),
{
    match g {
        Grouping::ByPackPair => &x.referencing_pack_name,
        Grouping::ByConstant => &x.constant_name,
    }
}

/// The second tag of a record.
pub fn second_name(g: Grouping, x: &ViolationRecord) -> (r: &String)
    ensures
        r@ == second_tag(g, x@),
{
    match g {
        Grouping::ByPackPair => &x.constant_name,
        Grouping::ByConstant => &x.referencing_pack_name,
    }
}

/// Where the pair `(major, minor)` stands among ascending groups: the index of
/// its group if it has one, else the index at which its group belongs.
pub fn locate(groups: &Vec<Group>, major: &str, minor: &str) -> (r: (usize, bool))
    requires
        groups_ascending(groups@),
    ensures
        r.0 <= groups.len(),
        r.1 ==> r.0 < groups.len() && groups[r.0 as int].major@ == major@ && groups[r.0 as int].minor@
            == minor@,
        !r.1 ==> {
            &&& forall|i: int|
                0 <= i < r.0 ==> key_precedes(
                    (#[trigger] groups[i]).major@,
                    groups[i].minor@,
                    major@,
                    minor@,
                )
            &&& forall|i: int|
                r.0 <= i < groups.len() ==> key_precedes(
                    major@,
                    minor@,
                    (#[trigger] groups[i]).major@,
                    groups[i].minor@,
                )
        },
{
    let mut p: usize = 0;
    while p < groups.len()
        invariant
            p <= groups.len(),
            groups_ascending(groups@),
            forall|i: int|
                0 <= i < p ==> key_precedes(
                    (#[trigger] groups[i]).major@,
                    groups[i].minor@,
                    major@,
                    minor@,
                ),
        decreases groups.len() - p,
    {
        let rank = compare_keys(
            groups[p].major.as_str(),
            groups[p].minor.as_str(),
            major,
            minor,
        );
        match rank {
            Rank::Before => {
                p = p + 1;
            },
            Rank::Same => {
                return (p, true);
            },
            Rank::After => {
                proof {
                    assert forall|i: int| p <= i < groups.len() implies key_precedes(
                        major@,
                        minor@,
                        (#[trigger] groups[i]).major@,
                        groups[i].minor@,
                    ) by {
                        if i > p {
                            lemma_key_precedes_transitive(
                                (major@, minor@),
                                (groups[p as int].major@, groups[p as int].minor@),
                                (groups[i].major@, groups[i].minor@),
                            );
                        }
                    }
                }
                return (p, false);
            },
        }
    }
    (p, false)
}

/// Groups `records` by the pair of names that `g` names, in ascending order of
/// the pairs, and tallies the two tags of each group.
pub fn group_records(g: Grouping, records: &Vec<ViolationRecord>) -> (groups: Vec<Group>)
    ensures
        is_grouping(g, records_view(records@), groups@),
{
    broadcast use group_multiset_axioms;

    let ghost all = records_view(records@);
    let mut groups: Vec<Group> = Vec::new();
    let mut n: usize = 0;
    proof {
        assert(all.take(0) =~= Seq::<RecordView>::empty());
    }
    while n < records.len()
        invariant
            n <= records.len(),
            all == records_view(records@),
            is_grouping(g, all.take(n as int), groups@),
        decreases records.len() - n,
    {
        let record = &records[n];
        let major = major_name(g, record);
        let minor = &record.defining_pack_name;
        let ghost x = all[n as int];
        let ghost seen = all.take(n as int);
        let ghost before = groups@;
        proof {
            assert(x == record@);
            assert(all.take(n + 1) =~= seen.push(x));
            assert(in_group(g, major@, minor@)(x));
            assert forall|i: int| 0 <= i < before.len() implies before[i].first@.len() <= n
                && before[i].second@.len() <= n by {
                lemma_bags_step(g, seen, x, before[i].major@, before[i].minor@);
            }
        }
        let (p, found) = locate(&groups, major.as_str(), minor.as_str());
        if found {
            let group = &mut groups[p];
            group.first.increment(record.violation_type.as_str());
            group.second.increment(second_name(g, record).as_str());
            proof {
                let after = groups@;
                assert(after == before.update(p as int, after[p as int]));
                lemma_counted_update(before, p as int, after[p as int]);
                lemma_bags_step(g, seen, x, major@, minor@);
                assert(after[p as int].summarises(g, seen.push(x)));
            }
        } else {
            let mut first = Tally::new();
            first.increment(record.violation_type.as_str());
            let mut second = Tally::new();
            second.increment(second_name(g, record).as_str());
            let group = Group { major: major.clone(), minor: minor.clone(), first, second };
            proof {
                assert forall|k: int| 0 <= k < seen.len() implies !in_group(g, major@, minor@)(
                    #[trigger] seen[k],
                ) by {
                    if in_group(g, major@, minor@)(seen[k]) {
                        assert(has_group_for(g, before, seen[k]));
                        let i = choose|i: int|
                            0 <= i < before.len() && before[i].major@ == major_of(g, seen[k])
                                && before[i].minor@ == minor_of(g, seen[k]);
                        if i < p {
                            lemma_key_precedes_differs(
                                (before[i].major@, before[i].minor@),
                                (major@, minor@),
                            );
                        } else {
                            lemma_key_precedes_differs(
                                (major@, minor@),
                                (before[i].major@, before[i].minor@),
                            );
                        }
                    }
                }
                lemma_no_members(g, seen, major@, minor@);
                lemma_bags_step(g, seen, x, major@, minor@);
                assert(group.summarises(g, seen.push(x)));
                lemma_counted_insert(before, p as int, group);
            }
            groups.insert(p, group);
        }
        proof {
            let after = groups@;
            let now = seen.push(x);
            assert forall|i: int| 0 <= i < after.len() implies (#[trigger] after[i]).summarises(
                g,
                now,
            ) by {
                if i != p {
                    let j = if found || i < p {
                        i
                    } else {
                        i - 1
                    };
                    assert(after[i] == before[j]);
                    assert(before[j].summarises(g, seen));
                    lemma_bags_step(g, seen, x, before[j].major@, before[j].minor@);
                    if in_group(g, before[j].major@, before[j].minor@)(x) {
                        if j < p {
                            lemma_key_precedes_differs(
                                (before[j].major@, before[j].minor@),
                                (major@, minor@),
                            );
                        } else {
                            lemma_key_precedes_differs(
                                (major@, minor@),
                                (before[j].major@, before[j].minor@),
                            );
                        }
                    }
                }
            }
            assert forall|k: int| 0 <= k < now.len() implies has_group_for(
                g,
                after,
                #[trigger] now[k],
            ) by {
                if k < seen.len() {
                    assert(now[k] == seen[k]);
                    assert(has_group_for(g, before, seen[k]));
                    let i = choose|i: int|
                        0 <= i < before.len() && before[i].major@ == major_of(g, seen[k])
                            && before[i].minor@ == minor_of(g, seen[k]);
                    let j = if found || i < p {
                        i
                    } else {
                        i + 1
                    };
                    assert(after[j].major@ == before[i].major@ && after[j].minor@
                        == before[i].minor@);
                } else {
                    assert(after[p as int].major@ == major@ && after[p as int].minor@ == minor@);
                }
            }
            assert(groups_ascending(after)) by {
                assert forall|i: int, j: int| 0 <= i < j < after.len() implies key_precedes(
                    after[i].major@,
                    after[i].minor@,
                    after[j].major@,
                    after[j].minor@,
                ) by {
                    if found {
                        assert(after[i].major@ == before[i].major@ && after[i].minor@
                            == before[i].minor@);
                        assert(after[j].major@ == before[j].major@ && after[j].minor@
                            == before[j].minor@);
                    } else {
                        let a = if i < p {
                            i
                        } else {
                            i - 1
                        };
                        let b = if j < p {
                            j
                        } else {
                            j - 1
                        };
                        if i != p {
                            assert(after[i] == before[a]);
                        }
                        if j != p {
                            assert(after[j] == before[b]);
                        }
                    }
                }
            }
        }
        n = n + 1;
    }
    proof {
        assert(all.take(records.len() as int) =~= all);
    }
    groups
}

} // verus!
