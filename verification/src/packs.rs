//! The data behind the menus: the report on the snapshot, the list of packs
//! with its filter and selection, and the summaries by constant with their
//! filter.

use crate::aggregate::{
    first_bag, group_records, has_group_for, is_grouping, key_precedes, lemma_bags_step, members,
    second_bag, Grouping,
};
use crate::configuration::{records_view, Configuration, Pack, RecordView, ViolationRecord};
use crate::filter::{filter_is_valid, filter_matches, Filter};
use crate::name_set::NameSet;
pub use crate::pks::PackDependentViolation;
use crate::pks::{defined_by, sum_counts, Pks};
use crate::shared::arc_clone;
use crate::str_map::StrMap;
use crate::tally::Tally;
use crate::text::{contains_text, occurs};
use std::sync::Arc;
use vstd::pervasive::unreached;
use vstd::prelude::*;

verus! {

/// The violation types, in the order of the columns that count them.
pub const DEPENDENT_PACK_VIOLATION_COUNT_HEADERS: [&'static str; 5] = [
    "architecture",
    "dependency",
    "folder_visibility",
    "privacy",
    "visibility",
];

/// All violations that concern one constant of a defining pack: how many
/// there are, how many of each violation type, and how many from each
/// referencing pack.
#[derive(Debug, PartialEq)]
pub struct ConstantSummary {
    pub defining_pack_name: String,
    pub constant: String,
    pub count: usize,
    pub violation_type_counts: Tally,
    pub referencing_pack_counts: Tally,
}

impl ConstantSummary {
    /// Both tallies are well formed.
    pub open spec fn wf(&self) -> bool {
        self.violation_type_counts.wf() && self.referencing_pack_counts.wf()
    }

    /// This summary tallies exactly the records of `records` that concern its
    /// constant in its defining pack, and there is at least one such record.
    pub open spec fn summarises(&self, records: Seq<RecordView>) -> bool {
        &&& self.wf()
        &&& self.count == members(
            Grouping::ByConstant,
            records,
            self.constant@,
            self.defining_pack_name@,
        ).len()
        &&& self.count > 0
        &&& self.violation_type_counts@ == first_bag(
            Grouping::ByConstant,
            records,
            self.constant@,
            self.defining_pack_name@,
        )
        &&& self.referencing_pack_counts@ == second_bag(
            Grouping::ByConstant,
            records,
            self.constant@,
            self.defining_pack_name@,
        )
    }

    /// The number of violations of the given type; 0 where there is none.
    pub fn count_for_violation_type(&self, violation_type: &str) -> (r: usize)
        requires
            self.wf(),
        ensures
            r == self.violation_type_counts@.count(violation_type@),
    {
        match self.violation_type_counts.get(violation_type) {
            Some(count) => *count,
            None => 0,
        }
    }

    /// The number of packs that reference the constant.
    pub fn referencing_pack_count_length(&self) -> (r: usize)
        requires
            self.wf(),
        ensures
            r == self.referencing_pack_counts@.dom().len(),
    {
        self.referencing_pack_counts.len()
    }
}

/// The summaries by constant, and the filter that selects from them.
pub struct ConstantViolationSummaries {
    pub constant_summaries: Vec<Arc<ConstantSummary>>,
    pub filter: String,
}

/// Some summary of `list` is about the constant and defining pack of `x`.
pub open spec fn has_summary_for(list: Seq<Arc<ConstantSummary>>, x: RecordView) -> bool {
    exists|i: int|
        0 <= i < list.len() && list[i].constant@ == x.constant_name && list[i].defining_pack_name@
            == x.defining_pack_name
}

/// `list` holds one summary for each constant of a defining pack that a
/// record of `records` concerns, each tallying the records of its constant,
/// in ascending order of constant and then defining pack.
pub open spec fn is_constant_summaries(
    records: Seq<RecordView>,
    list: Seq<Arc<ConstantSummary>>,
) -> bool {
    &&& forall|i: int, j: int|
        0 <= i < j < list.len() ==> key_precedes(
            list[i].constant@,
            list[i].defining_pack_name@,
            list[j].constant@,
            list[j].defining_pack_name@,
        )
    &&& forall|i: int| 0 <= i < list.len() ==> (#[trigger] list[i]).summarises(records)
    &&& forall|n: int| 0 <= n < records.len() ==> has_summary_for(list, #[trigger] records[n])
}

/// The summaries whose constant the filter `pattern` matches.
pub open spec fn matching(pattern: Seq<char>) -> spec_fn(Arc<ConstantSummary>) -> bool {
    |s: Arc<ConstantSummary>| filter_matches(pattern, s.constant@)
}

impl ConstantViolationSummaries {
    /// The summaries by constant of `violations`, with an empty filter.
    pub fn new(violations: &Vec<ViolationRecord>) -> (r: Self)
        ensures
            is_constant_summaries(records_view(violations@), r.constant_summaries@),
            r.filter@ == Seq::<char>::empty(),
    {
        let ghost all = records_view(violations@);
        let groups = group_records(Grouping::ByConstant, violations);
        let ghost gs = groups@;
        let mut list: Vec<Arc<ConstantSummary>> = Vec::new();
        for group in it: groups
            invariant
                it.seq() == gs,
                is_grouping(Grouping::ByConstant, all, gs),
                list.len() == it.index(),
                forall|i: int|
                    0 <= i < list.len() ==> {
                        &&& (#[trigger] list[i]).constant == gs[i].major
                        &&& list[i].defining_pack_name == gs[i].minor
                        &&& list[i].violation_type_counts == gs[i].first
                        &&& list[i].referencing_pack_counts == gs[i].second
                        &&& list[i].count == gs[i].first@.len()
                    },
        {
            let ghost k = list.len() as int;
            proof {
                assert(gs[k].summarises(Grouping::ByConstant, all));
            }
            let count = group.first.total();
            let summary = Arc::new(
                ConstantSummary {
                    defining_pack_name: group.minor,
                    constant: group.major,
                    count,
                    violation_type_counts: group.first,
                    referencing_pack_counts: group.second,
                },
            );
            list.push(summary);
        }
        proof {
            assert forall|n: int| 0 <= n < all.len() implies has_summary_for(
                list@,
                #[trigger] all[n],
            ) by {
                assert(has_group_for(Grouping::ByConstant, gs, all[n]));
                let i = choose|i: int|
                    0 <= i < gs.len() && gs[i].major@ == all[n].constant_name && gs[i].minor@
                        == all[n].defining_pack_name;
                assert(list[i].constant == gs[i].major);
            }
            assert forall|i: int| 0 <= i < list.len() implies (#[trigger] list[i]).summarises(
                all,
            ) by {
                assert(gs[i].summarises(Grouping::ByConstant, all));
                lemma_bags_step(Grouping::ByConstant, all, all[0], gs[i].major@, gs[i].minor@);
            }
        }
        Self { constant_summaries: list, filter: String::new() }
    }

    /// The summaries whose constant the filter matches, in the order of the
    /// summaries. The filter has to be a valid regular expression.
    pub fn filtered_summaries(&mut self) -> (r: Vec<Arc<ConstantSummary>>)
        requires
            filter_is_valid(old(self).filter@),
        ensures
            *final(self) == *old(self),
            r@ == old(self).constant_summaries@.filter(matching(old(self).filter@)),
    {
        let regex = match Filter::compile(self.filter.as_str()) {
            Some(regex) => regex,
            None => unreached(),
        };
        let ghost pred = matching(self.filter@);
        let ghost all = self.constant_summaries@;
        let mut found: Vec<Arc<ConstantSummary>> = Vec::new();
        let mut i: usize = 0;
        proof {
            reveal(Seq::filter);
            assert(all.take(0).filter(pred) =~= Seq::empty());
        }
        while i < self.constant_summaries.len()
            invariant
                i <= self.constant_summaries.len(),
                *self == *old(self),
                all == self.constant_summaries@,
                pred == matching(self.filter@),
                regex.pattern() == self.filter@,
                found@ == all.take(i as int).filter(pred),
            decreases self.constant_summaries.len() - i,
        {
            proof {
                assert(all.take(i + 1) =~= all.take(i as int).push(all[i as int]));
                all.take(i as int).lemma_filter_push(all[i as int], pred);
            }
            if regex.matches(self.constant_summaries[i].constant.as_str()) {
                found.push(arc_clone(&self.constant_summaries[i]));
            }
            i = i + 1;
        }
        proof {
            assert(all.take(all.len() as int) =~= all);
        }
        found
    }

    /// The summaries whose constant the filter matches, or nothing where the
    /// filter is no valid regular expression.
    pub fn try_filtered_summaries(&mut self) -> (r: Option<Vec<Arc<ConstantSummary>>>)
        ensures
            *final(self) == *old(self),
            r is Some <==> filter_is_valid(old(self).filter@),
            r matches Some(found) ==> found@ == old(self).constant_summaries@.filter(
                matching(old(self).filter@),
            ),
    {
        match Filter::compile(self.filter.as_str()) {
            Some(_) => Some(self.filtered_summaries()),
            None => None,
        }
    }
}

/// The packs whose name holds the text `filter`.
pub open spec fn name_holds(filter: Seq<char>) -> spec_fn(Arc<Pack>) -> bool {
    |p: Arc<Pack>| occurs(p.name@, filter)
}

/// The list of packs: the packs, the filter that selects from them, and the
/// position that is selected among the packs that pass the filter.
pub struct PackList {
    /// The selected position, if there is one.
    pub selected: Option<usize>,
    pub items: Vec<Arc<Pack>>,
    pub filter: String,
    /// The packs that pass a filter, for each filter that was asked for.
    pub filtered_items: StrMap<Vec<Arc<Pack>>>,
}

impl PackList {
    /// The packs that pass the filter.
    pub open spec fn filtered(&self) -> Seq<Arc<Pack>> {
        self.items@.filter(name_holds(self.filter@))
    }

    /// The pack at the selected position among the packs that pass the
    /// filter; the first of them where the position lies behind the last;
    /// nothing where nothing is selected or no pack passes.
    pub open spec fn selected_in_filtered(&self) -> Option<Arc<Pack>> {
        match self.selected {
            Some(i) => if self.filtered().len() == 0 {
                None
            } else if i >= self.filtered().len() {
                Some(self.filtered()[0])
            } else {
                Some(self.filtered()[i as int])
            },
            None => None,
        }
    }

    /// What is kept for a filter is what passes the filter.
    pub open spec fn wf(&self) -> bool {
        &&& self.filtered_items.wf()
        &&& forall|i: int|
            0 <= i < self.filtered_items.keys().len() ==> (
            #[trigger] self.filtered_items.values()[i])@ == self.items@.filter(
                name_holds(self.filtered_items.keys()[i]),
            )
    }

    /// The list of the given packs, with an empty filter. The first pack is
    /// selected, if there is one.
    pub fn with_items(items: Vec<Arc<Pack>>) -> (r: PackList)
        ensures
            r.wf(),
            r.items == items,
            r.filter@ == Seq::<char>::empty(),
            r.selected == if items.len() > 0 {
                Some(0usize)
            } else {
                None
            },
    {
        let selected = if items.len() > 0 {
            Some(0)
        } else {
            None
        };
        PackList { selected, items, filter: String::new(), filtered_items: StrMap::new() }
    }

    /// The packs that pass the filter, in the order of the packs.
    pub fn filtered_items(&mut self) -> (r: Vec<Arc<Pack>>)
        requires
            old(self).wf(),
        ensures
            final(self).wf(),
            final(self).selected == old(self).selected,
            final(self).items == old(self).items,
            final(self).filter == old(self).filter,
            r@ == old(self).filtered(),
    {
        let kept = self.filtered_items.find(self.filter.as_str());
        match kept {
            Some(at) => copy_handles(self.filtered_items.value_at(at)),
            None => {
                let ghost pred = name_holds(self.filter@);
                let ghost all = self.items@;
                let mut found: Vec<Arc<Pack>> = Vec::new();
                let mut i: usize = 0;
                proof {
                    reveal(Seq::filter);
                    assert(all.take(0).filter(pred) =~= Seq::empty());
                }
                while i < self.items.len()
                    invariant
                        i <= self.items.len(),
                        *self == *old(self),
                        all == self.items@,
                        pred == name_holds(self.filter@),
                        found@ == all.take(i as int).filter(pred),
                    decreases self.items.len() - i,
                {
                    proof {
                        assert(all.take(i + 1) =~= all.take(i as int).push(all[i as int]));
                        all.take(i as int).lemma_filter_push(all[i as int], pred);
                    }
                    if contains_text(self.items[i].name.as_str(), self.filter.as_str()) {
                        found.push(arc_clone(&self.items[i]));
                    }
                    i = i + 1;
                }
                proof {
                    assert(all.take(all.len() as int) =~= all);
                }
                let copy = copy_handles(&found);
                let ghost keys0 = self.filtered_items.keys();
                let ghost values0 = self.filtered_items.values();
                self.filtered_items.insert_new(self.filter.clone(), found);
                proof {
                    assert forall|k: int|
                        0 <= k < self.filtered_items.keys().len() implies (
                    #[trigger] self.filtered_items.values()[k])@ == self.items@.filter(
                        name_holds(self.filtered_items.keys()[k]),
                    ) by {
                        if k < keys0.len() {
                            assert(self.filtered_items.values()[k] == values0[k]);
                            assert(self.filtered_items.keys()[k] == keys0[k]);
                        }
                    }
                }
                copy
            },
        }
    }

    /// The pack at the selected position among the packs that pass the
    /// filter; the first of them where the position lies behind the last;
    /// nothing where nothing is selected or no pack passes.
    pub fn selected_pack(&mut self) -> (r: Option<Arc<Pack>>)
        requires
            old(self).wf(),
        ensures
            final(self).wf(),
            final(self).selected == old(self).selected,
            final(self).items == old(self).items,
            final(self).filter == old(self).filter,
            r == match old(self).selected {
                Some(i) => if old(self).filtered().len() == 0 {
                    None
                } else if i >= old(self).filtered().len() {
                    Some(old(self).filtered()[0])
                } else {
                    Some(old(self).filtered()[i as int])
                },
                None => None,
            },
    {
        match self.selected {
            Some(i) => {
                let filtered = self.filtered_items();
                if filtered.len() == 0 {
                    None
                } else if i >= filtered.len() {
                    Some(arc_clone(&filtered[0]))
                } else {
                    Some(arc_clone(&filtered[i]))
                }
            },
            None => None,
        }
    }

    /// The position that `next` selects: the one behind the selected
    /// position, and the first behind the last or where nothing is selected.
    pub open spec fn next_position(&self) -> usize {
        match self.selected {
            Some(i) => if i >= self.filtered().len() - 1 {
                0
            } else {
                (i + 1) as usize
            },
            None => 0usize,
        }
    }

    /// The position that `previous` selects: the one before the selected
    /// position, the last from the first, and the first where nothing is
    /// selected.
    pub open spec fn previous_position(&self) -> usize {
        match self.selected {
            Some(i) => if i == 0 {
                (self.filtered().len() - 1) as usize
            } else {
                (i - 1) as usize
            },
            None => 0usize,
        }
    }

    /// From `before` to `after` the selection went to `selected`, and the
    /// packs and the filter stayed.
    pub open spec fn moved(before: PackList, after: PackList, selected: Option<usize>) -> bool {
        &&& after.wf()
        &&& after.items == before.items
        &&& after.filter == before.filter
        &&& after.selected == selected
    }

    /// Selects the next of the packs that pass the filter, and the first
    /// after the last or where nothing is selected.
    pub fn next(&mut self)
        requires
            old(self).wf(),
            old(self).selected is Some ==> old(self).filtered().len() > 0,
        ensures
            PackList::moved(*old(self), *final(self), Some(old(self).next_position())),
    {
        let i = match self.selected {
            Some(i) => {
                if i >= self.filtered_items().len() - 1 {
                    0
                } else {
                    i + 1
                }
            },
            None => 0,
        };
        self.selected = Some(i);
    }

    /// Selects the pack before the selected one, the last from the first,
    /// and the first where nothing is selected.
    pub fn previous(&mut self)
        requires
            old(self).wf(),
            old(self).selected == Some(0usize) ==> old(self).filtered().len() > 0,
        ensures
            PackList::moved(*old(self), *final(self), Some(old(self).previous_position())),
    {
        let i = match self.selected {
            Some(i) => {
                if i == 0 {
                    self.filtered_items().len() - 1
                } else {
                    i - 1
                }
            },
            None => 0,
        };
        self.selected = Some(i);
    }

    /// Selects nothing.
    pub fn unselect(&mut self)
        ensures
            *final(self) == (PackList { selected: None, ..*old(self) }),
    {
        self.selected = None;
    }
}

/// The number of violations of the type `violation_type` in all summaries of
/// `list` together.
pub open spec fn type_sum(list: Seq<Arc<PackDependentViolation>>, violation_type: Seq<char>) -> nat
    decreases list.len(),
{
    if list.len() == 0 {
        0
    } else {
        type_sum(list.drop_last(), violation_type) + list.last().violation_type_counts@.count(
            violation_type,
        )
    }
}

/// There are no more violations of one type than violations.
pub proof fn lemma_type_sum_bound(list: Seq<Arc<PackDependentViolation>>, violation_type: Seq<char>)
    ensures
        type_sum(list, violation_type) <= sum_counts(list),
    decreases list.len(),
{
    broadcast use vstd::multiset::group_multiset_axioms;

    if list.len() > 0 {
        lemma_type_sum_bound(list.drop_last(), violation_type);
    }
}

/// The label of the line of the summary that counts the violations of a type.
pub open spec fn violations_label(violation_type: Seq<char>) -> Seq<char> {
    violation_type + " violations"@
}

/// The data behind the menus.
pub struct Packs {
    /// The report on the snapshot.
    pub report: Pks,
    /// The list of packs, once it was asked for.
    pub pack_list: Option<PackList>,
    /// The summaries by constant, once they were asked for.
    pub constant_violation_summaries: Option<ConstantViolationSummaries>,
}

impl Packs {
    /// The report is well formed; the list of packs, where there is one,
    /// holds the sorted packs of the report; the summaries by constant, where
    /// there are any, are those of the records of the snapshot.
    pub open spec fn wf(&self) -> bool {
        &&& self.report.wf()
        &&& self.pack_list matches Some(list) ==> list.wf() && self.report.packs_slot() is Some
            && list.items@ == self.report.packs_slot()->0@
        &&& self.constant_violation_summaries matches Some(summaries) ==> is_constant_summaries(
            self.report.record_views(),
            summaries.constant_summaries@,
        )
    }

    /// From `before` to `after` nothing changed but the selection of the list
    /// of packs, where there is a list: it went to `selected`.
    pub open spec fn selection_moved(before: Packs, after: Packs, selected: Option<usize>) -> bool {
        &&& after.report == before.report
        &&& after.constant_violation_summaries == before.constant_violation_summaries
        &&& match before.pack_list {
            Some(list) => after.pack_list is Some && PackList::moved(
                list,
                after.pack_list->0,
                selected,
            ),
            None => after.pack_list is None,
        }
    }

    /// The selection of the list of packs can be moved down.
    pub open spec fn can_select_next(&self) -> bool {
        self.pack_list matches Some(list) ==> (list.selected is Some ==> list.filtered().len() > 0)
    }

    /// The selection of the list of packs can be moved up.
    pub open spec fn can_select_previous(&self) -> bool {
        self.pack_list matches Some(list) ==> (list.selected == Some(0usize)
            ==> list.filtered().len() > 0)
    }

    /// The data behind the menus for the snapshot `configuration`, with
    /// nothing computed yet.
    pub fn new(configuration: Configuration) -> (r: Packs)
        ensures
            r.wf(),
            r.report.snapshot() == configuration,
            r.pack_list is None,
            r.constant_violation_summaries is None,
    {
        Packs { report: Pks::new(configuration), pack_list: None, constant_violation_summaries: None }
    }

    /// Makes the list of packs where there is none yet.
    pub fn ensure_pack_list(&mut self)
        requires
            old(self).wf(),
        ensures
            final(self).wf(),
            final(self).pack_list is Some,
            old(self).pack_list is Some ==> *final(self) == *old(self),
            final(self).report.extends(old(self).report),
            final(self).constant_violation_summaries == old(self).constant_violation_summaries,
    {
        self.check_stale();
        if self.pack_list.is_none() {
            let packs = self.get_packs();
            self.pack_list = Some(PackList::with_items(copy_handles(&packs)));
        }
    }

    /// The list of packs, to be read and changed in place.
    pub fn get_pack_list(&mut self) -> (r: &mut PackList)
        requires
            old(self).wf(),
        ensures
            r.wf(),
            old(self).pack_list matches Some(list) ==> *r == list && final(self).report == old(
                self,
            ).report,
            final(self).report.wf(),
            final(self).report.extends(old(self).report),
            final(self).report.packs_slot() is Some,
            r.items@ == final(self).report.packs_slot()->0@,
            final(self).pack_list == Some(*final(r)),
            final(self).constant_violation_summaries == old(self).constant_violation_summaries,
    {
        self.ensure_pack_list();
        match &mut self.pack_list {
            Some(list) => list,
            None => unreached(),
        }
    }

    /// The summaries by constant, to be read and changed in place.
    pub fn get_constant_violation_summaries(&mut self) -> (r: &mut ConstantViolationSummaries)
        requires
            old(self).wf(),
        ensures
            old(self).constant_violation_summaries matches Some(summaries) ==> *r == summaries,
            is_constant_summaries(old(self).report.record_views(), r.constant_summaries@),
            final(self).report == old(self).report,
            final(self).pack_list == old(self).pack_list,
            final(self).constant_violation_summaries == Some(*final(r)),
    {
        self.check_stale();
        if self.constant_violation_summaries.is_none() {
            let summaries = ConstantViolationSummaries::new(
                &self.report.configuration().pack_set.all_violations,
            );
            self.constant_violation_summaries = Some(summaries);
        }
        match &mut self.constant_violation_summaries {
            Some(summaries) => summaries,
            None => unreached(),
        }
    }

    /// The packs of the snapshot, in the order of their names.
    pub fn get_packs(&mut self) -> (r: Arc<Vec<Arc<Pack>>>)
        requires
            old(self).wf(),
        ensures
            final(self).wf(),
            Pks::got_packs(old(self).report, final(self).report, r),
            final(self).pack_list == old(self).pack_list,
            final(self).constant_violation_summaries == old(self).constant_violation_summaries,
    {
        self.check_stale();
        self.report.get_packs()
    }

    /// For every pack, and for every name that a pack depends on, the names
    /// of the packs that depend on it.
    pub fn get_pack_dependents(&mut self) -> (r: Arc<StrMap<NameSet>>)
        requires
            old(self).wf(),
        ensures
            final(self).wf(),
            Pks::got_pack_dependents(old(self).report, final(self).report, r),
            final(self).pack_list == old(self).pack_list,
            final(self).constant_violation_summaries == old(self).constant_violation_summaries,
    {
        self.check_stale();
        self.report.get_pack_dependents()
    }

    /// The pairwise summaries whose defining pack is the selected pack, in
    /// the order of their referencing packs; none where no pack is selected.
    pub fn get_pack_dependent_violations_by_selected_defining_pack_name(&mut self) -> (r: Vec<
        Arc<PackDependentViolation>,
    >)
        requires
            old(self).wf(),
        ensures
            final(self).wf(),
            final(self).pack_list is Some,
            final(self).report.pack_dependent_violations_slot() is Some || r@.len() == 0,
            r@ == match final(self).pack_list->0.selected_in_filtered() {
                Some(pack) => final(self).report.pack_dependent_violations_slot()->0@.filter(
                    defined_by(pack.name@),
                ),
                None => Seq::empty(),
            },
    {
        self.ensure_pack_list();
        let selected = match &mut self.pack_list {
            Some(list) => list.selected_pack(),
            None => unreached(),
        };
        match selected {
            Some(pack) => self.report.get_pack_dependent_violations_by_defining_pack_name(
                pack.name.as_str(),
            ),
            None => Vec::new(),
        }
    }

    /// The violation records of the snapshot, summed up for each pair of
    /// referencing and defining pack.
    pub fn get_pack_dependent_violations(&mut self) -> (r: Arc<Vec<Arc<PackDependentViolation>>>)
        requires
            old(self).wf(),
        ensures
            final(self).wf(),
            Pks::got_pack_dependent_violations(old(self).report, final(self).report, r),
            final(self).pack_list == old(self).pack_list,
            final(self).constant_violation_summaries == old(self).constant_violation_summaries,
    {
        self.check_stale();
        self.report.get_pack_dependent_violations()
    }

    /// The lines of the summary: the number of packs, and for each violation
    /// type the number of violations of that type.
    pub fn get_summary(&mut self) -> (r: Vec<(String, usize)>)
        requires
            old(self).wf(),
        ensures
            final(self).wf(),
            final(self).report.pack_dependent_violations_slot() is Some,
            r.len() == 6,
            r[0].0@ == "packs"@,
            r[0].1 == final(self).report.pack_views().len(),
            forall|k: int|
                0 <= k < 5 ==> (#[trigger] r[k + 1]).0@ == violations_label(
                    DEPENDENT_PACK_VIOLATION_COUNT_HEADERS[k]@,
                ) && r[k + 1].1 == type_sum(
                    final(self).report.pack_dependent_violations_slot()->0@,
                    DEPENDENT_PACK_VIOLATION_COUNT_HEADERS[k]@,
                ),
    {
        let mut summary: Vec<(String, usize)> = Vec::new();
        let packs = self.get_packs();
        summary.push(("packs".to_owned(), packs.len()));
        let all = self.get_pack_dependent_violations();
        proof {
            assert(crate::pks::is_pairwise_aggregation(self.report.record_views(), all@));
            self.report.lemma_snapshot_fits();
            assert(sum_counts(all@) <= usize::MAX);
            assert forall|i: int| 0 <= i < all.len() implies (#[trigger] all[i]).wf() by {
                assert(all@[i].summarises(self.report.record_views()));
            }
        }
        let mut k: usize = 0;
        while k < 5
            invariant
                k <= 5,
                summary.len() == k + 1,
                self.wf(),
                self.report.pack_dependent_violations_slot() == Some(all),
                forall|i: int| 0 <= i < all.len() ==> (#[trigger] all[i]).wf(),
                sum_counts(all@) <= usize::MAX,
                summary[0].0@ == "packs"@,
                summary[0].1 == self.report.pack_views().len(),
                forall|j: int|
                    0 <= j < k ==> (#[trigger] summary[j + 1]).0@ == violations_label(
                        DEPENDENT_PACK_VIOLATION_COUNT_HEADERS[j]@,
                    ) && summary[j + 1].1 == type_sum(
                        all@,
                        DEPENDENT_PACK_VIOLATION_COUNT_HEADERS[j]@,
                    ),
            decreases 5 - k,
        {
            let header = DEPENDENT_PACK_VIOLATION_COUNT_HEADERS[k];
            let mut count: usize = 0;
            let mut i: usize = 0;
            proof {
                assert(all@.take(0) =~= Seq::empty());
            }
            while i < all.len()
                invariant
                    i <= all.len(),
                    forall|i: int| 0 <= i < all.len() ==> (#[trigger] all[i]).wf(),
                    sum_counts(all@) <= usize::MAX,
                    count == type_sum(all@.take(i as int), header@),
                decreases all.len() - i,
            {
                proof {
                    assert(all@.take(i + 1).drop_last() =~= all@.take(i as int));
                    lemma_type_sum_bound(all@.take(i + 1), header@);
                    crate::pks::lemma_sum_counts_take(all@, i + 1);
                }
                count = count + all[i].count_for_violation_type(header);
                i = i + 1;
            }
            proof {
                assert(all@.take(all.len() as int) =~= all@);
            }
            let ghost before = summary@;
            summary.push((header.to_owned().concat(" violations"), count));
            proof {
                assert forall|j: int| 0 <= j < k + 1 implies (#[trigger] summary[j + 1]).0@
                    == violations_label(DEPENDENT_PACK_VIOLATION_COUNT_HEADERS[j]@) && summary[j
                    + 1].1 == type_sum(all@, DEPENDENT_PACK_VIOLATION_COUNT_HEADERS[j]@) by {
                    if j < k {
                        assert(summary[j + 1] == before[j + 1]);
                    }
                }
            }
            k = k + 1;
        }
        summary
    }

    /// The snapshot never changes while the explorer runs, so nothing is ever
    /// stale.
    pub fn check_stale(&mut self)
        ensures
            *final(self) == *old(self),
    {
    }

    /// The names of the packs that depend on `pack`; none where the index of
    /// dependents does not know the pack.
    pub fn pack_dependents(&mut self, pack: &Pack) -> (r: NameSet)
        requires
            old(self).wf(),
        ensures
            final(self).wf(),
            final(self).report.pack_dependents_slot() is Some,
            r.wf(),
            r@ == if final(self).report.pack_dependents_slot()->0@.dom().contains(pack.name@) {
                final(self).report.pack_dependents_slot()->0@[pack.name@]@
            } else {
                Set::empty()
            },
    {
        let index = self.get_pack_dependents();
        proof {
            assert(crate::dependents::is_dependents_index(self.report.pack_views(), *index));
        }
        match index.get(pack.name.as_str()) {
            Some(dependents) => dependents.duplicate(),
            None => NameSet::new(),
        }
    }

    /// Moves the selection of the list of packs down, where there is a list.
    pub fn next_pack_list(&mut self)
        requires
            old(self).wf(),
            old(self).can_select_next(),
        ensures
            final(self).wf(),
            Packs::selection_moved(
                *old(self),
                *final(self),
                match old(self).pack_list {
                    Some(list) => Some(list.next_position()),
                    None => None,
                },
            ),
    {
        match &mut self.pack_list {
            Some(pack_list) => pack_list.next(),
            None => {},
        }
    }

    /// Moves the selection of the list of packs up, where there is a list.
    pub fn previous_pack_list(&mut self)
        requires
            old(self).wf(),
            old(self).can_select_previous(),
        ensures
            final(self).wf(),
            Packs::selection_moved(
                *old(self),
                *final(self),
                match old(self).pack_list {
                    Some(list) => Some(list.previous_position()),
                    None => None,
                },
            ),
    {
        match &mut self.pack_list {
            Some(pack_list) => pack_list.previous(),
            None => {},
        }
    }

    /// Selects nothing in the list of packs, where there is a list.
    pub fn unselect_pack_list(&mut self)
        requires
            old(self).wf(),
        ensures
            final(self).wf(),
            final(self).report == old(self).report,
            final(self).constant_violation_summaries == old(self).constant_violation_summaries,
            final(self).pack_list == match old(self).pack_list {
                Some(list) => Some(PackList { selected: None, ..list }),
                None => None,
            },
    {
        match &mut self.pack_list {
            Some(pack_list) => pack_list.unselect(),
            None => {},
        }
    }
}

/// New handles to the values of `list`.
pub fn copy_handles<T>(list: &Vec<Arc<T>>) -> (r: Vec<Arc<T>>)
    ensures
        r@ == list@,
{
    let mut r: Vec<Arc<T>> = Vec::new();
    let mut i: usize = 0;
    while i < list.len()
        invariant
            i <= list.len(),
            r@ == list@.take(i as int),
        decreases list.len() - i,
    {
        proof {
            assert(list@.take(i + 1) =~= list@.take(i as int).push(list@[i as int]));
        }
        r.push(arc_clone(&list[i]));
        i = i + 1;
    }
    proof {
        assert(list@.take(list.len() as int) =~= list@);
    }
    r
}

} // verus!
