//! The report: what is derived from a snapshot of packs and violation records,
//! each part computed on first demand and shared from then on.

use crate::aggregate::{
    counted, first_bag, first_tag_fn, group_records, has_group_for, is_grouping, key_precedes,
    lemma_group_ignores_order,
    members, second_bag, second_tag_fn, Grouping,
};
use crate::classify::{classify, is_classification, touched};
use crate::configuration::{
    packs_view, records_view, Configuration, Pack, PackView, RecordView, ViolationRecord,
};
use crate::dependents::{build_dependents, is_dependents_index, lemma_index_of_same_packs};
use crate::name_set::NameSet;
use crate::pack_order::{
    is_sorted_by_name, lemma_sorted_has_same_packs, pack_names, shared_packs_view, sort_packs,
};
use crate::path_key::{contained, dotted};
use crate::pks_tree_node::{build_forest, forest_view, PksTreeBuilder, PksTreeNode};
use crate::shared::{arc_clone, rc_clone};
use crate::str_map::StrMap;
use crate::tally::{names_view, Tally};
use crate::text::same;
use std::rc::Rc;
use std::sync::Arc;
use vstd::pervasive::unreached;
use vstd::prelude::*;
use vstd::std_specs::iter::IteratorSpec;

verus! {

/// All violations in which one pack, the referencing one, reaches into
/// another, the defining one: how many there are of each violation type, and
/// how often each constant is concerned.
///
/// A constant is counted once for every record, so a constant that is
/// reported under two violation types counts twice.
#[derive(Debug, PartialEq)]
pub struct PackDependentViolation {
    pub defining_pack_name: String,
    pub referencing_pack_name: String,
    pub violation_type_counts: Tally,
    pub constant_counts: Tally,
}

/// All violations that concern one constant of a defining pack: how many
/// there are, how many of each violation type, and how many from each
/// referencing pack.
#[derive(Debug, PartialEq)]
pub struct ConstantViolation {
    pub defining_pack_name: String,
    pub constant: String,
    pub count: usize,
    pub violation_type_counts: Tally,
    pub referencing_pack_counts: Tally,
}

impl PackDependentViolation {
    /// Both tallies are well formed.
    pub open spec fn wf(&self) -> bool {
        self.violation_type_counts.wf() && self.constant_counts.wf()
    }

    /// This summary tallies exactly the records of `records` between its two
    /// packs, and there is at least one such record.
    pub open spec fn summarises(&self, records: Seq<RecordView>) -> bool {
        &&& self.wf()
        &&& members(
            Grouping::ByPackPair,
            records,
            self.referencing_pack_name@,
            self.defining_pack_name@,
        ).len() > 0
        &&& self.violation_type_counts@ == first_bag(
            Grouping::ByPackPair,
            records,
            self.referencing_pack_name@,
            self.defining_pack_name@,
        )
        &&& self.constant_counts@ == second_bag(
            Grouping::ByPackPair,
            records,
            self.referencing_pack_name@,
            self.defining_pack_name@,
        )
    }

    /// The number of violations of the given type; 0 where there is none.
    pub fn count_for_violation_type(&self, violation_type: &str) -> (r: usize)
        requires
            self.wf(),
        ensures
            r == self.violation_type_counts@.count(violation_type@),
    {
        match self.violation_type_counts.get(violation_type) {
            Some(count) => *count,
            None => 0,
        }
    }

    /// The number of violations of all types together.
    pub fn all_violation_counts(&self) -> (r: usize)
        requires
            self.wf(),
        ensures
            r == self.violation_type_counts@.len(),
    {
        self.violation_type_counts.total()
    }

    /// The number of distinct constants concerned.
    pub fn num_constants(&self) -> (r: usize)
        requires
            self.wf(),
        ensures
            r == self.constant_counts@.dom().len(),
    {
        self.constant_counts.len()
    }
}

impl ConstantViolation {
    /// Both tallies are well formed.
    pub open spec fn wf(&self) -> bool {
        self.violation_type_counts.wf() && self.referencing_pack_counts.wf()
    }

    /// This summary tallies exactly the records of `records` that concern its
    /// constant in its defining pack, and there is at least one such record.
    pub open spec fn summarises(&self, records: Seq<RecordView>) -> bool {
        &&& self.wf()
        &&& self.count == members(
            Grouping::ByConstant,
            records,
            self.constant@,
            self.defining_pack_name@,
        ).len()
        &&& self.count > 0
        &&& self.violation_type_counts@ == first_bag(
            Grouping::ByConstant,
            records,
            self.constant@,
            self.defining_pack_name@,
        )
        &&& self.referencing_pack_counts@ == second_bag(
            Grouping::ByConstant,
            records,
            self.constant@,
            self.defining_pack_name@,
        )
    }

    /// The number of violations of the given type; 0 where there is none.
    pub fn count_for_violation_type(&self, violation_type: &str) -> (r: usize)
        requires
            self.wf(),
        ensures
            r == self.violation_type_counts@.count(violation_type@),
    {
        self.violation_type_counts.count(violation_type)
    }
}

/// The four ways in which a violation can concern a path of the pack tree.
///
/// *In* is about the defining pack, which the path contains: a violation
/// comes in from the referencing pack. *Out* is about the referencing pack,
/// which the path contains: a violation goes out to the defining pack. A
/// violation is *contained* where the path contains both packs.
#[derive(Clone, Copy, Debug, PartialEq, Eq)]
pub enum Bucket {
    UncontainedIn,
    UncontainedOut,
    ContainedIn,
    ContainedOut,
}

/// The violations that concern one path of the pack tree, in four lists, with
/// the number of violations that each list stands for.
#[derive(Debug, PartialEq)]
pub struct PathViolations {
    pub path: String,
    pub uncontained_in_violations: Vec<Arc<PackDependentViolation>>,
    pub uncontained_out_violations: Vec<Arc<PackDependentViolation>>,
    pub contained_in_violations: Vec<Arc<PackDependentViolation>>,
    pub contained_out_violations: Vec<Arc<PackDependentViolation>>,
    pub uncontained_in_violations_count: usize,
    pub uncontained_out_violations_count: usize,
    pub contained_in_violations_count: usize,
    pub contained_out_violations_count: usize,
}

/// Whether the violation `v` belongs into the list `b` of the path `path`.
///
/// A path contains a pack where it is the dotted name of the pack or one of
/// its ancestors.
pub open spec fn belongs(b: Bucket, path: Seq<char>, v: Arc<PackDependentViolation>) -> bool {
    let defining = dotted(v.defining_pack_name@);
    let referencing = dotted(v.referencing_pack_name@);
    match b {
        Bucket::UncontainedIn => contained(path, defining) && !contained(path, referencing),
        Bucket::ContainedIn => contained(path, defining) && contained(path, referencing),
        Bucket::UncontainedOut => contained(path, referencing) && !contained(path, defining),
        Bucket::ContainedOut => contained(path, referencing) && contained(path, defining),
    }
}

pub open spec fn belongs_fn(b: Bucket, path: Seq<char>) -> spec_fn(
    Arc<PackDependentViolation>,
) -> bool {
    |v: Arc<PackDependentViolation>| belongs(b, path, v)
}

/// The path contains one of the two packs of the violation.
pub open spec fn touches(path: Seq<char>, v: Arc<PackDependentViolation>) -> bool {
    contained(path, dotted(v.defining_pack_name@)) || contained(
        path,
        dotted(v.referencing_pack_name@),
    )
}

/// The list `b` of `path`: the violations of `all` that belong into it, in
/// the order of `all`.
pub open spec fn bucket_of(
    b: Bucket,
    path: Seq<char>,
    all: Seq<Arc<PackDependentViolation>>,
) -> Seq<Arc<PackDependentViolation>> {
    all.filter(belongs_fn(b, path))
}

/// A prefix of a list holds no more violations than the list.
pub proof fn lemma_sum_counts_take(list: Seq<Arc<PackDependentViolation>>, k: int)
    requires
        0 <= k <= list.len(),
    ensures
        sum_counts(list.take(k)) <= sum_counts(list),
    decreases list.len() - k,
{
    if k < list.len() {
        lemma_sum_counts_take(list, k + 1);
        assert(list.take(k + 1).drop_last() =~= list.take(k));
    } else {
        assert(list.take(k) =~= list);
    }
}

/// A selection from a list holds no more violations than the list.
pub proof fn lemma_sum_counts_filter(
    list: Seq<Arc<PackDependentViolation>>,
    pred: spec_fn(Arc<PackDependentViolation>) -> bool,
)
    ensures
        sum_counts(list.filter(pred)) <= sum_counts(list),
    decreases list.len(),
{
    if list.len() == 0 {
        reveal(Seq::filter);
        assert(list.filter(pred) =~= list);
    } else {
        let rest = list.drop_last();
        lemma_sum_counts_filter(rest, pred);
        assert(list =~= rest.push(list.last()));
        rest.lemma_filter_push(list.last(), pred);
        lemma_sum_counts_push(rest.filter(pred), list.last());
    }
}

impl PathViolations {
    /// The list `b`.
    pub open spec fn bucket(&self, b: Bucket) -> Seq<Arc<PackDependentViolation>> {
        match b {
            Bucket::UncontainedIn => self.uncontained_in_violations@,
            Bucket::UncontainedOut => self.uncontained_out_violations@,
            Bucket::ContainedIn => self.contained_in_violations@,
            Bucket::ContainedOut => self.contained_out_violations@,
        }
    }

    /// The count that is kept for the list `b`.
    pub open spec fn count(&self, b: Bucket) -> usize {
        match b {
            Bucket::UncontainedIn => self.uncontained_in_violations_count,
            Bucket::UncontainedOut => self.uncontained_out_violations_count,
            Bucket::ContainedIn => self.contained_in_violations_count,
            Bucket::ContainedOut => self.contained_out_violations_count,
        }
    }

    /// Each count is the number of violations in its list.
    pub open spec fn counts_agree(&self) -> bool {
        &&& self.count(Bucket::UncontainedIn) == sum_counts(self.bucket(Bucket::UncontainedIn))
        &&& self.count(Bucket::UncontainedOut) == sum_counts(self.bucket(Bucket::UncontainedOut))
        &&& self.count(Bucket::ContainedIn) == sum_counts(self.bucket(Bucket::ContainedIn))
        &&& self.count(Bucket::ContainedOut) == sum_counts(self.bucket(Bucket::ContainedOut))
    }

    /// The four lists are those of `path` over the violations `all`.
    pub open spec fn lists_of(&self, path: Seq<char>, all: Seq<Arc<PackDependentViolation>>) -> bool {
        &&& self.path@ == path
        &&& self.bucket(Bucket::UncontainedIn) == bucket_of(Bucket::UncontainedIn, path, all)
        &&& self.bucket(Bucket::UncontainedOut) == bucket_of(Bucket::UncontainedOut, path, all)
        &&& self.bucket(Bucket::ContainedIn) == bucket_of(Bucket::ContainedIn, path, all)
        &&& self.bucket(Bucket::ContainedOut) == bucket_of(Bucket::ContainedOut, path, all)
    }

    /// This is the classification of `all` for `path`: the four lists, and
    /// the counts that go with them.
    pub open spec fn classifies(
        &self,
        path: Seq<char>,
        all: Seq<Arc<PackDependentViolation>>,
    ) -> bool {
        self.lists_of(path, all) && self.counts_agree()
    }

    /// No violations for `path`.
    pub fn new(path: String) -> (r: PathViolations)
        ensures
            r.path == path,
            r.bucket(Bucket::UncontainedIn) == Seq::<Arc<PackDependentViolation>>::empty(),
            r.bucket(Bucket::UncontainedOut) == Seq::<Arc<PackDependentViolation>>::empty(),
            r.bucket(Bucket::ContainedIn) == Seq::<Arc<PackDependentViolation>>::empty(),
            r.bucket(Bucket::ContainedOut) == Seq::<Arc<PackDependentViolation>>::empty(),
            r.counts_agree(),
    {
        PathViolations {
            path,
            uncontained_in_violations: Vec::new(),
            uncontained_out_violations: Vec::new(),
            contained_in_violations: Vec::new(),
            contained_out_violations: Vec::new(),
            uncontained_in_violations_count: 0,
            uncontained_out_violations_count: 0,
            contained_in_violations_count: 0,
            contained_out_violations_count: 0,
        }
    }

    /// Appends `v` to the list `b`. The counts are left as they are.
    pub fn push(&mut self, b: Bucket, v: Arc<PackDependentViolation>)
        ensures
            final(self).path == old(self).path,
            final(self).bucket(b) == old(self).bucket(b).push(v),
            forall|other: Bucket| other != b ==> final(self).bucket(other) == old(self).bucket(other),
            forall|any: Bucket| final(self).count(any) == old(self).count(any),
    {
        match b {
            Bucket::UncontainedIn => self.uncontained_in_violations.push(v),
            Bucket::UncontainedOut => self.uncontained_out_violations.push(v),
            Bucket::ContainedIn => self.contained_in_violations.push(v),
            Bucket::ContainedOut => self.contained_out_violations.push(v),
        }
    }

    /// Brings the four counts in line with the four lists.
    pub fn set_violations_count(&mut self)
        requires
            forall|b: Bucket, i: int|
                0 <= i < old(self).bucket(b).len() ==> (#[trigger] old(self).bucket(b)[i]).wf(),
            forall|b: Bucket| sum_counts(#[trigger] old(self).bucket(b)) <= usize::MAX,
        ensures
            final(self).path == old(self).path,
            forall|b: Bucket| final(self).bucket(b) == old(self).bucket(b),
            final(self).counts_agree(),
    {
        proof {
            assert(sum_counts(self.bucket(Bucket::UncontainedIn)) <= usize::MAX);
            assert(sum_counts(self.bucket(Bucket::UncontainedOut)) <= usize::MAX);
            assert(sum_counts(self.bucket(Bucket::ContainedIn)) <= usize::MAX);
            assert(sum_counts(self.bucket(Bucket::ContainedOut)) <= usize::MAX);
            assert forall|i: int| 0 <= i < self.uncontained_in_violations.len() implies (
            #[trigger] self.uncontained_in_violations[i]).wf() by {
                assert(self.bucket(Bucket::UncontainedIn)[i].wf());
            }
            assert forall|i: int| 0 <= i < self.uncontained_out_violations.len() implies (
            #[trigger] self.uncontained_out_violations[i]).wf() by {
                assert(self.bucket(Bucket::UncontainedOut)[i].wf());
            }
            assert forall|i: int| 0 <= i < self.contained_in_violations.len() implies (
            #[trigger] self.contained_in_violations[i]).wf() by {
                assert(self.bucket(Bucket::ContainedIn)[i].wf());
            }
            assert forall|i: int| 0 <= i < self.contained_out_violations.len() implies (
            #[trigger] self.contained_out_violations[i]).wf() by {
                assert(self.bucket(Bucket::ContainedOut)[i].wf());
            }
        }
        self.uncontained_in_violations_count = PathViolations::sum_counts(
            self.uncontained_in_violations.as_slice(),
        );
        self.uncontained_out_violations_count = PathViolations::sum_counts(
            self.uncontained_out_violations.as_slice(),
        );
        self.contained_in_violations_count = PathViolations::sum_counts(
            self.contained_in_violations.as_slice(),
        );
        self.contained_out_violations_count = PathViolations::sum_counts(
            self.contained_out_violations.as_slice(),
        );
    }

    /// The number of violations that the summaries of a list stand for.
    pub fn sum_counts(violations: &[Arc<PackDependentViolation>]) -> (r: usize)
        requires
            forall|i: int| 0 <= i < violations@.len() ==> (#[trigger] violations@[i]).wf(),
            sum_counts(violations@) <= usize::MAX,
        ensures
            r == sum_counts(violations@),
    {
        let mut sum: usize = 0;
        let mut i: usize = 0;
        proof {
            assert(violations@.take(0) =~= Seq::empty());
        }
        while i < violations.len()
            invariant
                i <= violations@.len(),
                forall|k: int| 0 <= k < violations@.len() ==> (#[trigger] violations@[k]).wf(),
                sum_counts(violations@) <= usize::MAX,
                sum == sum_counts(violations@.take(i as int)),
            decreases violations@.len() - i,
        {
            proof {
                lemma_sum_counts_take(violations@, i + 1);
                assert(violations@.take(i + 1) =~= violations@.take(i as int).push(
                    violations@[i as int],
                ));
                lemma_sum_counts_push(violations@.take(i as int), violations@[i as int]);
            }
            sum = sum + violations[i].all_violation_counts();
            i = i + 1;
        }
        proof {
            assert(violations@.take(violations@.len() as int) =~= violations@);
        }
        sum
    }
}

/// Whether `part` is `path` or one of its ancestors. A path such as
/// `"./foo"` is no ancestor of `"./foobar"`: behind the ancestor the path
/// must go on with a `'/'`.
pub fn part_contained_in_other_path(part: &str, path: &String) -> (r: bool)
    ensures
        r == contained(part@, path@),
{
    broadcast use vstd::string::group_string_axioms;

    let mut left = part.chars();
    let mut right = path.as_str().chars();
    let ghost mut k: int = 0;
    let ghost slashed = part@ + seq!['/'];
    loop
        invariant
            left.obeys_prophetic_iter_laws(),
            right.obeys_prophetic_iter_laws(),
            left.decrease() is Some,
            0 <= k <= part@.len(),
            k <= path@.len(),
            left.remaining() == part@.skip(k),
            right.remaining() == path@.skip(k),
            forall|i: int| 0 <= i < k ==> part@[i] == path@[i],
            slashed == part@ + seq!['/'],
        decreases left.decrease()->0,
    {
        let x = left.next();
        let y = right.next();
        match x {
            None => {
                match y {
                    None => {
                        assert(part@ =~= path@);
                        return true;
                    },
                    Some(c) => {
                        assert(c == path@[k]);
                        proof {
                            if c == '/' {
                                assert(slashed =~= path@.subrange(0, slashed.len() as int));
                            } else {
                                if slashed.is_prefix_of(path@) {
                                    assert(slashed[k] == path@.subrange(0, slashed.len() as int)[k]);
                                }
                            }
                        }
                        return c == '/';
                    },
                }
            },
            Some(p) => {
                assert(p == part@[k]);
                match y {
                    None => {
                        return false;
                    },
                    Some(q) => {
                        assert(q == path@[k]);
                        if p != q {
                            proof {
                                if slashed.is_prefix_of(path@) {
                                    assert(slashed[k] == path@.subrange(0, slashed.len() as int)[k]);
                                }
                            }
                            return false;
                        }
                        proof {
                            assert(part@.skip(k).drop_first() =~= part@.skip(k + 1));
                            assert(path@.skip(k).drop_first() =~= path@.skip(k + 1));
                            k = k + 1;
                        }
                    },
                }
            },
        }
    }
}

/// The summaries stand in ascending order of referencing pack, and of
/// defining pack where the referencing pack is the same; no pair stands twice.
pub open spec fn pairs_ascending(list: Seq<Arc<PackDependentViolation>>) -> bool {
    forall|i: int, j: int|
        0 <= i < j < list.len() ==> key_precedes(
            list[i].referencing_pack_name@,
            list[i].defining_pack_name@,
            list[j].referencing_pack_name@,
            list[j].defining_pack_name@,
        )
}

/// Some summary of `list` is about the two packs of the record `x`.
pub open spec fn has_pair_for(list: Seq<Arc<PackDependentViolation>>, x: RecordView) -> bool {
    exists|i: int|
        0 <= i < list.len() && list[i].referencing_pack_name@ == x.referencing_pack_name
            && list[i].defining_pack_name@ == x.defining_pack_name
}

/// The number of violations in all summaries of `list` together.
pub open spec fn sum_counts(list: Seq<Arc<PackDependentViolation>>) -> nat
    decreases list.len(),
{
    if list.len() == 0 {
        0
    } else {
        sum_counts(list.drop_last()) + list.last().violation_type_counts@.len()
    }
}

/// `list` is the pairwise aggregation of `records`: one summary for each pair
/// of packs between which a violation was recorded, each tallying the records
/// of its pair, in ascending order of referencing and then defining pack.
pub open spec fn is_pairwise_aggregation(
    records: Seq<RecordView>,
    list: Seq<Arc<PackDependentViolation>>,
) -> bool {
    &&& pairs_ascending(list)
    &&& forall|i: int| 0 <= i < list.len() ==> (#[trigger] list[i]).summarises(records)
    &&& forall|n: int| 0 <= n < records.len() ==> has_pair_for(list, #[trigger] records[n])
    &&& sum_counts(list) == records.len()
}

/// The summaries stand in ascending order of constant, and of defining pack
/// where the constant is the same; no pair stands twice.
pub open spec fn constants_ascending(list: Seq<Arc<ConstantViolation>>) -> bool {
    forall|i: int, j: int|
        0 <= i < j < list.len() ==> key_precedes(
            list[i].constant@,
            list[i].defining_pack_name@,
            list[j].constant@,
            list[j].defining_pack_name@,
        )
}

/// Some summary of `list` is about the constant and defining pack of `x`.
pub open spec fn has_constant_for(list: Seq<Arc<ConstantViolation>>, x: RecordView) -> bool {
    exists|i: int|
        0 <= i < list.len() && list[i].constant@ == x.constant_name && list[i].defining_pack_name@
            == x.defining_pack_name
}

/// `list` is the aggregation of `records` by constant: one summary for each
/// constant of a defining pack that a violation concerns, each tallying the
/// records of its constant, in ascending order of constant and then defining
/// pack.
pub open spec fn is_constant_aggregation(
    records: Seq<RecordView>,
    list: Seq<Arc<ConstantViolation>>,
) -> bool {
    &&& constants_ascending(list)
    &&& forall|i: int| 0 <= i < list.len() ==> (#[trigger] list[i]).summarises(records)
    &&& forall|n: int| 0 <= n < records.len() ==> has_constant_for(list, #[trigger] records[n])
}

/// The constants of the records between the referencing pack `referencing`
/// and the defining pack `defining`, one for each record.
pub open spec fn pair_constants(
    records: Seq<RecordView>,
    referencing: Seq<char>,
    defining: Seq<char>,
) -> Seq<Seq<char>> {
    members(Grouping::ByPackPair, records, referencing, defining).map_values(
        |x: RecordView| x.constant_name,
    )
}

/// A pairwise summary counts as many violations as there are records between
/// its two packs, and as many constants as occur in those records.
pub proof fn lemma_pair_totals(records: Seq<RecordView>, v: PackDependentViolation)
    requires
        v.summarises(records),
    ensures
        v.violation_type_counts@.len() == members(
            Grouping::ByPackPair,
            records,
            v.referencing_pack_name@,
            v.defining_pack_name@,
        ).len(),
        v.constant_counts@.len() == v.violation_type_counts@.len(),
        v.constant_counts@.dom() == pair_constants(
            records,
            v.referencing_pack_name@,
            v.defining_pack_name@,
        ).to_set(),
{
    let group = members(
        Grouping::ByPackPair,
        records,
        v.referencing_pack_name@,
        v.defining_pack_name@,
    );
    let constants = pair_constants(records, v.referencing_pack_name@, v.defining_pack_name@);
    vstd::seq_lib::to_multiset_len(group.map_values(first_tag_fn(Grouping::ByPackPair)));
    vstd::seq_lib::to_multiset_len(group.map_values(second_tag_fn(Grouping::ByPackPair)));
    assert(constants =~= group.map_values(second_tag_fn(Grouping::ByPackPair)));
    assert forall|c: Seq<char>| v.constant_counts@.dom().contains(c) <==> constants.to_set().contains(
        c,
    ) by {
        vstd::seq_lib::to_multiset_contains(constants, c);
    }
    assert(v.constant_counts@.dom() =~= constants.to_set());
}

/// The pairwise aggregation of records does not depend on the order in which
/// the records come.
pub proof fn lemma_pairwise_ignores_order(
    a: Seq<RecordView>,
    b: Seq<RecordView>,
    list: Seq<Arc<PackDependentViolation>>,
)
    requires
        a.to_multiset() == b.to_multiset(),
        is_pairwise_aggregation(a, list),
    ensures
        is_pairwise_aggregation(b, list),
{
    vstd::seq_lib::to_multiset_len(a);
    vstd::seq_lib::to_multiset_len(b);
    assert forall|i: int| 0 <= i < list.len() implies (#[trigger] list[i]).summarises(b) by {
        assert(list[i].summarises(a));
        lemma_group_ignores_order(
            Grouping::ByPackPair,
            a,
            b,
            list[i].referencing_pack_name@,
            list[i].defining_pack_name@,
        );
    }
    assert forall|n: int| 0 <= n < b.len() implies has_pair_for(list, #[trigger] b[n]) by {
        assert(b.contains(b[n]));
        vstd::seq_lib::to_multiset_contains(b, b[n]);
        vstd::seq_lib::to_multiset_contains(a, b[n]);
        let k = choose|k: int| 0 <= k < a.len() && a[k] == b[n];
        assert(has_pair_for(list, a[k]));
    }
}

/// The aggregation of records by constant does not depend on the order in
/// which the records come.
pub proof fn lemma_by_constant_ignores_order(
    a: Seq<RecordView>,
    b: Seq<RecordView>,
    list: Seq<Arc<ConstantViolation>>,
)
    requires
        a.to_multiset() == b.to_multiset(),
        is_constant_aggregation(a, list),
    ensures
        is_constant_aggregation(b, list),
{
    assert forall|i: int| 0 <= i < list.len() implies (#[trigger] list[i]).summarises(b) by {
        assert(list[i].summarises(a));
        lemma_group_ignores_order(
            Grouping::ByConstant,
            a,
            b,
            list[i].constant@,
            list[i].defining_pack_name@,
        );
    }
    assert forall|n: int| 0 <= n < b.len() implies has_constant_for(list, #[trigger] b[n]) by {
        assert(b.contains(b[n]));
        vstd::seq_lib::to_multiset_contains(b, b[n]);
        vstd::seq_lib::to_multiset_contains(a, b[n]);
        let k = choose|k: int| 0 <= k < a.len() && a[k] == b[n];
        assert(has_constant_for(list, a[k]));
    }
}

/// Under a path that contains the defining pack of a violation, the violation
/// stands in exactly one of the two in-lists; under a path that contains the
/// referencing pack, in exactly one of the two out-lists. Under a path that
/// contains neither it stands in no list, and it is contained for one side
/// exactly if it is for the other.
pub proof fn lemma_one_list_per_side(path: Seq<char>, v: Arc<PackDependentViolation>)
    ensures
        contained(path, dotted(v.defining_pack_name@)) ==> (belongs(Bucket::UncontainedIn, path, v)
            != belongs(Bucket::ContainedIn, path, v)),
        contained(path, dotted(v.referencing_pack_name@)) ==> (belongs(
            Bucket::UncontainedOut,
            path,
            v,
        ) != belongs(Bucket::ContainedOut, path, v)),
        !contained(path, dotted(v.defining_pack_name@)) ==> !belongs(Bucket::UncontainedIn, path, v)
            && !belongs(Bucket::ContainedIn, path, v),
        !contained(path, dotted(v.referencing_pack_name@)) ==> !belongs(
            Bucket::UncontainedOut,
            path,
            v,
        ) && !belongs(Bucket::ContainedOut, path, v),
        belongs(Bucket::ContainedIn, path, v) == belongs(Bucket::ContainedOut, path, v),
{
}

/// Appending a summary adds its violations to the sum.
pub proof fn lemma_sum_counts_push(
    list: Seq<Arc<PackDependentViolation>>,
    v: Arc<PackDependentViolation>,
)
    ensures
        sum_counts(list.push(v)) == sum_counts(list) + v.violation_type_counts@.len(),
{
    assert(list.push(v).drop_last() =~= list);
}

/// Groups the records by referencing and defining pack.
pub fn aggregate_pairwise(records: &Vec<ViolationRecord>) -> (list: Vec<
    Arc<PackDependentViolation>,
>)
    ensures
        is_pairwise_aggregation(records_view(records@), list@),
{
    let ghost all = records_view(records@);
    let groups = group_records(Grouping::ByPackPair, records);
    let ghost gs = groups@;
    let mut list: Vec<Arc<PackDependentViolation>> = Vec::new();
    for group in it: groups
        invariant
            it.seq() == gs,
            is_grouping(Grouping::ByPackPair, all, gs),
            list.len() == it.index(),
            forall|i: int|
                0 <= i < list.len() ==> {
                    &&& (#[trigger] list[i]).referencing_pack_name == gs[i].major
                    &&& list[i].defining_pack_name == gs[i].minor
                    &&& list[i].violation_type_counts == gs[i].first
                    &&& list[i].constant_counts == gs[i].second
                },
            sum_counts(list@) == counted(gs.take(it.index() as int)),
    {
        let ghost k = list.len() as int;
        let summary = Arc::new(
            PackDependentViolation {
                defining_pack_name: group.minor,
                referencing_pack_name: group.major,
                violation_type_counts: group.first,
                constant_counts: group.second,
            },
        );
        proof {
            lemma_sum_counts_push(list@, summary);
            assert(gs.take(k + 1).drop_last() =~= gs.take(k));
        }
        list.push(summary);
    }
    proof {
        assert(gs.take(gs.len() as int) =~= gs);
        assert forall|n: int| 0 <= n < all.len() implies has_pair_for(list@, #[trigger] all[n]) by {
            assert(has_group_for(Grouping::ByPackPair, gs, all[n]));
            let i = choose|i: int|
                0 <= i < gs.len() && gs[i].major@ == all[n].referencing_pack_name && gs[i].minor@
                    == all[n].defining_pack_name;
            assert(list[i].referencing_pack_name == gs[i].major);
        }
        assert forall|i: int| 0 <= i < list.len() implies (#[trigger] list[i]).summarises(all) by {
            assert(gs[i].summarises(Grouping::ByPackPair, all));
        }
    }
    list
}

/// Groups the records by constant and defining pack.
pub fn aggregate_by_constant(records: &Vec<ViolationRecord>) -> (list: Vec<Arc<ConstantViolation>>)
    ensures
        is_constant_aggregation(records_view(records@), list@),
{
    let ghost all = records_view(records@);
    let groups = group_records(Grouping::ByConstant, records);
    let ghost gs = groups@;
    let mut list: Vec<Arc<ConstantViolation>> = Vec::new();
    for group in it: groups
        invariant
            it.seq() == gs,
            is_grouping(Grouping::ByConstant, all, gs),
            list.len() == it.index(),
            forall|i: int|
                0 <= i < list.len() ==> {
                    &&& (#[trigger] list[i]).constant == gs[i].major
                    &&& list[i].defining_pack_name == gs[i].minor
                    &&& list[i].violation_type_counts == gs[i].first
                    &&& list[i].referencing_pack_counts == gs[i].second
                    &&& list[i].count == gs[i].first@.len()
                },
    {
        let ghost k = list.len() as int;
        proof {
            assert(gs[k].summarises(Grouping::ByConstant, all));
        }
        let count = group.first.total();
        let summary = Arc::new(
            ConstantViolation {
                defining_pack_name: group.minor,
                constant: group.major,
                count,
                violation_type_counts: group.first,
                referencing_pack_counts: group.second,
            },
        );
        list.push(summary);
    }
    proof {
        assert forall|n: int| 0 <= n < all.len() implies has_constant_for(
            list@,
            #[trigger] all[n],
        ) by {
            assert(has_group_for(Grouping::ByConstant, gs, all[n]));
            let i = choose|i: int|
                0 <= i < gs.len() && gs[i].major@ == all[n].constant_name && gs[i].minor@
                    == all[n].defining_pack_name;
            assert(list[i].constant == gs[i].major);
        }
        assert forall|i: int| 0 <= i < list.len() implies (#[trigger] list[i]).summarises(all) by {
            assert(gs[i].summarises(Grouping::ByConstant, all));
            crate::aggregate::lemma_bags_step(
                Grouping::ByConstant,
                all,
                all[0],
                gs[i].major@,
                gs[i].minor@,
            );
        }
    }
    list
}

/// The summaries of `all` whose defining pack is named `name`.
pub open spec fn defined_by(name: Seq<char>) -> spec_fn(Arc<PackDependentViolation>) -> bool {
    |v: Arc<PackDependentViolation>| v.defining_pack_name@ == name
}

/// The report on one snapshot. Each part of it is computed when it is first
/// asked for, kept, and handed out again on every later request.
///
/// The parts build on each other: the sorted packs come first; the index of
/// dependents, the pairwise summaries and the summaries by constant are made
/// from the snapshot; the classification by path from the pairwise summaries;
/// the tree from the sorted packs and the classification.
pub struct Pks {
    configuration: Configuration,
    packs: Option<Arc<Vec<Arc<Pack>>>>,
    num_packs: Option<usize>,
    pack_dependents: Option<Arc<StrMap<NameSet>>>,
    pack_dependent_violations: Option<Arc<Vec<Arc<PackDependentViolation>>>>,
    constant_violations: Option<Arc<Vec<Arc<ConstantViolation>>>>,
    pks_tree_data: Option<Rc<Vec<PksTreeNode>>>,
    path_violations: Option<Arc<StrMap<Arc<PathViolations>>>>,
}

impl Pks {
    /// The snapshot that the report is about.
    pub closed spec fn snapshot(&self) -> Configuration {
        self.configuration
    }

    /// The sorted packs, once they were computed.
    pub closed spec fn packs_slot(&self) -> Option<Arc<Vec<Arc<Pack>>>> {
        self.packs
    }

    /// The number of packs, once it was computed.
    pub closed spec fn num_packs_slot(&self) -> Option<usize> {
        self.num_packs
    }

    /// The index of dependents, once it was computed.
    pub closed spec fn pack_dependents_slot(&self) -> Option<Arc<StrMap<NameSet>>> {
        self.pack_dependents
    }

    /// The pairwise summaries, once they were computed.
    pub closed spec fn pack_dependent_violations_slot(&self) -> Option<
        Arc<Vec<Arc<PackDependentViolation>>>,
    > {
        self.pack_dependent_violations
    }

    /// The summaries by constant, once they were computed.
    pub closed spec fn constant_violations_slot(&self) -> Option<Arc<Vec<Arc<ConstantViolation>>>> {
        self.constant_violations
    }

    /// The tree, once it was computed.
    pub closed spec fn pks_tree_data_slot(&self) -> Option<Rc<Vec<PksTreeNode>>> {
        self.pks_tree_data
    }

    /// The classification by path, once it was computed.
    pub closed spec fn path_violations_slot(&self) -> Option<Arc<StrMap<Arc<PathViolations>>>> {
        self.path_violations
    }

    /// The packs of the snapshot, as plain text.
    pub open spec fn pack_views(&self) -> Seq<PackView> {
        packs_view(self.snapshot().pack_set.packs@)
    }

    /// The violation records of the snapshot, as plain text.
    pub open spec fn record_views(&self) -> Seq<RecordView> {
        records_view(self.snapshot().pack_set.all_violations@)
    }

    /// A snapshot holds no more packs and records than a machine can count.
    pub proof fn lemma_snapshot_fits(&self)
        ensures
            self.pack_views().len() <= usize::MAX,
            self.record_views().len() <= usize::MAX,
    {
        assert(self.pack_views().len() == self.configuration.pack_set.packs.len());
        assert(self.record_views().len() == self.configuration.pack_set.all_violations.len());
    }

    /// Every part that was computed is the part that belongs to the snapshot,
    /// and was made from the parts it builds on as they are kept.
    pub open spec fn wf(&self) -> bool {
        &&& self.packs_slot() matches Some(packs) ==> is_sorted_by_name(
            self.pack_views(),
            shared_packs_view(packs@),
        )
        &&& self.num_packs_slot() matches Some(n) ==> n == self.pack_views().len()
        &&& self.pack_dependents_slot() matches Some(index) ==> is_dependents_index(
            self.pack_views(),
            *index,
        )
        &&& self.pack_dependent_violations_slot() matches Some(list) ==> is_pairwise_aggregation(
            self.record_views(),
            list@,
        )
        &&& self.constant_violations_slot() matches Some(list) ==> is_constant_aggregation(
            self.record_views(),
            list@,
        )
        &&& self.path_violations_slot() matches Some(classification)
            ==> self.pack_dependent_violations_slot() is Some && is_classification(
            self.pack_dependent_violations_slot()->0@,
            *classification,
        )
        &&& self.pks_tree_data_slot() matches Some(tree) ==> self.packs_slot() is Some
            && self.path_violations_slot() is Some && forest_view(tree@) == build_forest(
            pack_names(shared_packs_view(self.packs_slot()->0@)),
            self.packs_slot()->0@.len() as int,
            self.path_violations_slot()->0@,
        )
    }

    /// This report is the report `before` with, possibly, more parts
    /// computed: the snapshot is the same, and every part that `before` holds
    /// is held unchanged.
    pub open spec fn extends(&self, before: Pks) -> bool {
        &&& self.snapshot() == before.snapshot()
        &&& before.packs_slot() is Some ==> self.packs_slot() == before.packs_slot()
        &&& before.num_packs_slot() is Some ==> self.num_packs_slot() == before.num_packs_slot()
        &&& before.pack_dependents_slot() is Some ==> self.pack_dependents_slot()
            == before.pack_dependents_slot()
        &&& before.pack_dependent_violations_slot() is Some
            ==> self.pack_dependent_violations_slot() == before.pack_dependent_violations_slot()
        &&& before.constant_violations_slot() is Some ==> self.constant_violations_slot()
            == before.constant_violations_slot()
        &&& before.pks_tree_data_slot() is Some ==> self.pks_tree_data_slot()
            == before.pks_tree_data_slot()
        &&& before.path_violations_slot() is Some ==> self.path_violations_slot()
            == before.path_violations_slot()
    }

    /// From `before` to `after` the snapshot stayed the same, and of the parts
    /// only those that are named `true` may have been computed; no part that
    /// `before` holds was changed.
    pub open spec fn only_fills(
        before: Pks,
        after: Pks,
        packs: bool,
        num_packs: bool,
        pack_dependents: bool,
        pack_dependent_violations: bool,
        constant_violations: bool,
        pks_tree_data: bool,
        path_violations: bool,
    ) -> bool {
        &&& after.extends(before)
        &&& !packs ==> after.packs_slot() == before.packs_slot()
        &&& !num_packs ==> after.num_packs_slot() == before.num_packs_slot()
        &&& !pack_dependents ==> after.pack_dependents_slot() == before.pack_dependents_slot()
        &&& !pack_dependent_violations ==> after.pack_dependent_violations_slot()
            == before.pack_dependent_violations_slot()
        &&& !constant_violations ==> after.constant_violations_slot()
            == before.constant_violations_slot()
        &&& !pks_tree_data ==> after.pks_tree_data_slot() == before.pks_tree_data_slot()
        &&& !path_violations ==> after.path_violations_slot() == before.path_violations_slot()
    }

    /// What `get_packs` does: it hands out the packs of the snapshot in the
    /// order of their names, and keeps them.
    pub open spec fn got_packs(before: Pks, after: Pks, r: Arc<Vec<Arc<Pack>>>) -> bool {
        &&& after.wf()
        &&& Pks::only_fills(before, after, true, false, false, false, false, false, false)
        &&& after.packs_slot() == Some(r)
        &&& before.packs_slot() is Some ==> after == before
        &&& is_sorted_by_name(after.pack_views(), shared_packs_view(r@))
    }

    /// What `get_num_packs` does: it hands out the number of packs of the
    /// snapshot, and keeps it.
    pub open spec fn got_num_packs(before: Pks, after: Pks, r: usize) -> bool {
        &&& after.wf()
        &&& Pks::only_fills(before, after, true, true, false, false, false, false, false)
        &&& after.num_packs_slot() == Some(r)
        &&& before.num_packs_slot() is Some ==> after == before
        &&& r == after.pack_views().len()
    }

    /// What `get_pack_dependents` does: it hands out the index of dependents
    /// of the packs of the snapshot, and keeps it.
    pub open spec fn got_pack_dependents(before: Pks, after: Pks, r: Arc<StrMap<NameSet>>) -> bool {
        &&& after.wf()
        &&& Pks::only_fills(before, after, true, false, true, false, false, false, false)
        &&& after.pack_dependents_slot() == Some(r)
        &&& before.pack_dependents_slot() is Some ==> after == before
        &&& is_dependents_index(after.pack_views(), *r)
    }

    /// What `get_pack_dependent_violations` does: it hands out the pairwise
    /// aggregation of the records of the snapshot, and keeps it.
    pub open spec fn got_pack_dependent_violations(
        before: Pks,
        after: Pks,
        r: Arc<Vec<Arc<PackDependentViolation>>>,
    ) -> bool {
        &&& after.wf()
        &&& Pks::only_fills(before, after, false, false, false, true, false, false, false)
        &&& after.pack_dependent_violations_slot() == Some(r)
        &&& before.pack_dependent_violations_slot() is Some ==> after == before
        &&& is_pairwise_aggregation(after.record_views(), r@)
    }

    /// What `get_pack_dependent_violations_by_defining_pack_name` does: it
    /// hands out the pairwise summaries whose defining pack has the given
    /// name, in the order of the pairwise aggregation, which it keeps.
    pub open spec fn got_by_defining_pack_name(
        before: Pks,
        after: Pks,
        name: Seq<char>,
        r: Vec<Arc<PackDependentViolation>>,
    ) -> bool {
        &&& after.wf()
        &&& Pks::only_fills(before, after, false, false, false, true, false, false, false)
        &&& after.pack_dependent_violations_slot() is Some
        &&& before.pack_dependent_violations_slot() is Some ==> after == before
        &&& r@ == after.pack_dependent_violations_slot()->0@.filter(defined_by(name))
    }

    /// What `get_constant_violations` does: it hands out the aggregation by
    /// constant of the records of the snapshot, and keeps it.
    pub open spec fn got_constant_violations(
        before: Pks,
        after: Pks,
        r: Arc<Vec<Arc<ConstantViolation>>>,
    ) -> bool {
        &&& after.wf()
        &&& Pks::only_fills(before, after, false, false, false, false, true, false, false)
        &&& after.constant_violations_slot() == Some(r)
        &&& before.constant_violations_slot() is Some ==> after == before
        &&& is_constant_aggregation(after.record_views(), r@)
    }

    /// What `get_path_violations` does: it hands out the classification by
    /// path of the pairwise summaries, and keeps both.
    pub open spec fn got_path_violations(
        before: Pks,
        after: Pks,
        r: Arc<StrMap<Arc<PathViolations>>>,
    ) -> bool {
        &&& after.wf()
        &&& Pks::only_fills(before, after, false, false, false, true, false, false, true)
        &&& after.path_violations_slot() == Some(r)
        &&& after.pack_dependent_violations_slot() is Some
        &&& before.path_violations_slot() is Some ==> after == before
        &&& is_classification(after.pack_dependent_violations_slot()->0@, *r)
    }

    /// What `get_path_violations_for_path` does: it hands out the entry of
    /// the classification for `path`, if there is one; there is one where a
    /// pairwise summary concerns the path.
    pub open spec fn got_path_violations_for_path(
        before: Pks,
        after: Pks,
        path: Seq<char>,
        r: Option<Arc<PathViolations>>,
    ) -> bool {
        &&& after.wf()
        &&& Pks::only_fills(before, after, false, false, false, true, false, false, true)
        &&& after.path_violations_slot() is Some
        &&& after.pack_dependent_violations_slot() is Some
        &&& before.path_violations_slot() is Some ==> after == before
        &&& r == if after.path_violations_slot()->0@.dom().contains(path) {
            Some(after.path_violations_slot()->0@[path])
        } else {
            None
        }
        &&& r is Some <==> touched(path, after.pack_dependent_violations_slot()->0@)
        &&& r matches Some(pv) ==> pv.classifies(path, after.pack_dependent_violations_slot()->0@)
    }

    /// What `get_pks_tree_data` does: it hands out the tree of the sorted
    /// packs, with the counts of the classification by path, and keeps all
    /// three.
    pub open spec fn got_pks_tree_data(before: Pks, after: Pks, r: Rc<Vec<PksTreeNode>>) -> bool {
        &&& after.wf()
        &&& Pks::only_fills(before, after, true, false, false, true, false, true, true)
        &&& after.pks_tree_data_slot() == Some(r)
        &&& after.packs_slot() is Some
        &&& after.path_violations_slot() is Some
        &&& before.pks_tree_data_slot() is Some ==> after == before
        &&& forest_view(r@) == build_forest(
            pack_names(shared_packs_view(after.packs_slot()->0@)),
            after.packs_slot()->0@.len() as int,
            after.path_violations_slot()->0@,
        )
    }

    /// Asking twice for the packs gives the same shared list, and the second
    /// request changes nothing.
    pub proof fn lemma_get_packs_twice(
        before: Pks,
        between: Pks,
        after: Pks,
        first: Arc<Vec<Arc<Pack>>>,
        second: Arc<Vec<Arc<Pack>>>,
    )
        requires
            Pks::got_packs(before, between, first),
            Pks::got_packs(between, after, second),
        ensures
            second == first,
            after == between,
    {
    }

    /// Asking twice for the number of packs gives the same number, and the
    /// second request changes nothing.
    pub proof fn lemma_get_num_packs_twice(
        before: Pks,
        between: Pks,
        after: Pks,
        first: usize,
        second: usize,
    )
        requires
            Pks::got_num_packs(before, between, first),
            Pks::got_num_packs(between, after, second),
        ensures
            second == first,
            after == between,
    {
    }

    /// Asking twice for the index of dependents gives the same shared index,
    /// and the second request changes nothing.
    pub proof fn lemma_get_pack_dependents_twice(
        before: Pks,
        between: Pks,
        after: Pks,
        first: Arc<StrMap<NameSet>>,
        second: Arc<StrMap<NameSet>>,
    )
        requires
            Pks::got_pack_dependents(before, between, first),
            Pks::got_pack_dependents(between, after, second),
        ensures
            second == first,
            after == between,
    {
    }

    /// Asking twice for the pairwise summaries gives the same shared list, and
    /// the second request changes nothing.
    pub proof fn lemma_get_pack_dependent_violations_twice(
        before: Pks,
        between: Pks,
        after: Pks,
        first: Arc<Vec<Arc<PackDependentViolation>>>,
        second: Arc<Vec<Arc<PackDependentViolation>>>,
    )
        requires
            Pks::got_pack_dependent_violations(before, between, first),
            Pks::got_pack_dependent_violations(between, after, second),
        ensures
            second == first,
            after == between,
    {
    }

    /// Asking twice for the summaries of one defining pack gives the same
    /// shared summaries in the same order, and the second request changes
    /// nothing.
    pub proof fn lemma_get_by_defining_pack_name_twice(
        before: Pks,
        between: Pks,
        after: Pks,
        name: Seq<char>,
        first: Vec<Arc<PackDependentViolation>>,
        second: Vec<Arc<PackDependentViolation>>,
    )
        requires
            Pks::got_by_defining_pack_name(before, between, name, first),
            Pks::got_by_defining_pack_name(between, after, name, second),
        ensures
            second@ == first@,
            after == between,
    {
    }

    /// Asking twice for the summaries by constant gives the same shared list,
    /// and the second request changes nothing.
    pub proof fn lemma_get_constant_violations_twice(
        before: Pks,
        between: Pks,
        after: Pks,
        first: Arc<Vec<Arc<ConstantViolation>>>,
        second: Arc<Vec<Arc<ConstantViolation>>>,
    )
        requires
            Pks::got_constant_violations(before, between, first),
            Pks::got_constant_violations(between, after, second),
        ensures
            second == first,
            after == between,
    {
    }

    /// Asking twice for the classification by path gives the same shared
    /// classification, and the second request changes nothing.
    pub proof fn lemma_get_path_violations_twice(
        before: Pks,
        between: Pks,
        after: Pks,
        first: Arc<StrMap<Arc<PathViolations>>>,
        second: Arc<StrMap<Arc<PathViolations>>>,
    )
        requires
            Pks::got_path_violations(before, between, first),
            Pks::got_path_violations(between, after, second),
        ensures
            second == first,
            after == between,
    {
    }

    /// Asking twice for the violations of one path gives the same shared
    /// entry, and the second request changes nothing.
    pub proof fn lemma_get_path_violations_for_path_twice(
        before: Pks,
        between: Pks,
        after: Pks,
        path: Seq<char>,
        first: Option<Arc<PathViolations>>,
        second: Option<Arc<PathViolations>>,
    )
        requires
            Pks::got_path_violations_for_path(before, between, path, first),
            Pks::got_path_violations_for_path(between, after, path, second),
        ensures
            second == first,
            after == between,
    {
    }

    /// Asking twice for the tree gives the same shared tree, and the second
    /// request changes nothing.
    pub proof fn lemma_get_pks_tree_data_twice(
        before: Pks,
        between: Pks,
        after: Pks,
        first: Rc<Vec<PksTreeNode>>,
        second: Rc<Vec<PksTreeNode>>,
    )
        requires
            Pks::got_pks_tree_data(before, between, first),
            Pks::got_pks_tree_data(between, after, second),
        ensures
            second == first,
            after == between,
    {
    }

    /// The report on `configuration`, with no part computed yet.
    pub fn new(configuration: Configuration) -> (r: Pks)
        ensures
            r.wf(),
            r.snapshot() == configuration,
            r.packs_slot() is None,
            r.num_packs_slot() is None,
            r.pack_dependents_slot() is None,
            r.pack_dependent_violations_slot() is None,
            r.constant_violations_slot() is None,
            r.pks_tree_data_slot() is None,
            r.path_violations_slot() is None,
    {
        Pks {
            configuration,
            packs: None,
            pack_dependents: None,
            pack_dependent_violations: None,
            constant_violations: None,
            pks_tree_data: None,
            path_violations: None,
            num_packs: None,
        }
    }

    /// The snapshot that the report is about.
    pub fn configuration(&self) -> (r: &Configuration)
        ensures
            *r == self.snapshot(),
    {
        &self.configuration
    }

    /// The sorted packs, if they were computed already.
    pub fn packs(&self) -> (r: &Option<Arc<Vec<Arc<Pack>>>>)
        ensures
            *r == self.packs_slot(),
    {
        &self.packs
    }

    /// The index of dependents, if it was computed already.
    pub fn pack_dependents(&self) -> (r: &Option<Arc<StrMap<NameSet>>>)
        ensures
            *r == self.pack_dependents_slot(),
    {
        &self.pack_dependents
    }

    /// The pairwise summaries, if they were computed already.
    pub fn pack_dependent_violations(&self) -> (r: &Option<Arc<Vec<Arc<PackDependentViolation>>>>)
        ensures
            *r == self.pack_dependent_violations_slot(),
    {
        &self.pack_dependent_violations
    }

    /// The summaries by constant, if they were computed already.
    pub fn constant_violations(&self) -> (r: &Option<Arc<Vec<Arc<ConstantViolation>>>>)
        ensures
            *r == self.constant_violations_slot(),
    {
        &self.constant_violations
    }

    /// The packs of the snapshot, in the order of their names. Packs of the
    /// same name keep the order of the snapshot.
    pub fn get_packs(&mut self) -> (r: Arc<Vec<Arc<Pack>>>)
        requires
            old(self).wf(),
        ensures
            Pks::got_packs(*old(self), *final(self), r),
    {
        if self.packs.is_none() {
            let packs = sort_packs(&self.configuration.pack_set.packs);
            self.packs = Some(Arc::new(packs));
        }
        match &self.packs {
            Some(packs) => arc_clone(packs),
            None => unreached(),
        }
    }

    /// The number of packs of the snapshot.
    pub fn get_num_packs(&mut self) -> (r: usize)
        requires
            old(self).wf(),
        ensures
            Pks::got_num_packs(*old(self), *final(self), r),
    {
        match self.num_packs {
            Some(n) => n,
            None => {
                let n = self.get_packs().len();
                self.num_packs = Some(n);
                n
            },
        }
    }

    /// For every pack, and for every name that a pack depends on, the names
    /// of the packs that depend on it.
    pub fn get_pack_dependents(&mut self) -> (r: Arc<StrMap<NameSet>>)
        requires
            old(self).wf(),
        ensures
            Pks::got_pack_dependents(*old(self), *final(self), r),
    {
        if self.pack_dependents.is_none() {
            let packs = self.get_packs();
            let index = build_dependents(&packs);
            proof {
                lemma_sorted_has_same_packs(self.pack_views(), shared_packs_view(packs@));
                lemma_index_of_same_packs(shared_packs_view(packs@), self.pack_views(), index);
            }
            self.pack_dependents = Some(Arc::new(index));
        }
        match &self.pack_dependents {
            Some(index) => arc_clone(index),
            None => unreached(),
        }
    }

    /// The violation records of the snapshot, summed up for each pair of
    /// referencing and defining pack, in the order of referencing and then
    /// defining pack.
    pub fn get_pack_dependent_violations(&mut self) -> (r: Arc<Vec<Arc<PackDependentViolation>>>)
        requires
            old(self).wf(),
        ensures
            Pks::got_pack_dependent_violations(*old(self), *final(self), r),
    {
        if self.pack_dependent_violations.is_none() {
            let list = aggregate_pairwise(&self.configuration.pack_set.all_violations);
            self.pack_dependent_violations = Some(Arc::new(list));
        }
        match &self.pack_dependent_violations {
            Some(list) => arc_clone(list),
            None => unreached(),
        }
    }

    /// The pairwise summaries whose defining pack is named
    /// `defining_pack_name`.
    pub fn get_pack_dependent_violations_by_defining_pack_name(
        &mut self,
        defining_pack_name: &str,
    ) -> (r: Vec<Arc<PackDependentViolation>>)
        requires
            old(self).wf(),
        ensures
            Pks::got_by_defining_pack_name(*old(self), *final(self), defining_pack_name@, r),
    {
        let all = self.get_pack_dependent_violations();
        let ghost pred = defined_by(defining_pack_name@);
        let mut found: Vec<Arc<PackDependentViolation>> = Vec::new();
        let mut i: usize = 0;
        proof {
            reveal(Seq::filter);
            assert(all@.take(0).filter(pred) =~= Seq::empty());
        }
        while i < all.len()
            invariant
                i <= all.len(),
                pred == defined_by(defining_pack_name@),
                found@ == all@.take(i as int).filter(pred),
            decreases all.len() - i,
        {
            proof {
                assert(all@.take(i + 1) =~= all@.take(i as int).push(all@[i as int]));
                all@.take(i as int).lemma_filter_push(all@[i as int], pred);
            }
            if same(all[i].defining_pack_name.as_str(), defining_pack_name) {
                found.push(arc_clone(&all[i]));
            }
            i = i + 1;
        }
        proof {
            assert(all@.take(all.len() as int) =~= all@);
        }
        found
    }

    /// The violation records of the snapshot, summed up for each constant of
    /// a defining pack, in the order of constant and then defining pack.
    pub fn get_constant_violations(&mut self) -> (r: Arc<Vec<Arc<ConstantViolation>>>)
        requires
            old(self).wf(),
        ensures
            Pks::got_constant_violations(*old(self), *final(self), r),
    {
        if self.constant_violations.is_none() {
            let list = aggregate_by_constant(&self.configuration.pack_set.all_violations);
            self.constant_violations = Some(Arc::new(list));
        }
        match &self.constant_violations {
            Some(list) => arc_clone(list),
            None => unreached(),
        }
    }

    /// The tree of the packs, each node with the numbers of uncontained
    /// violations that come into and go out of its path.
    pub fn get_pks_tree_data(&mut self) -> (r: Rc<Vec<PksTreeNode>>)
        requires
            old(self).wf(),
        ensures
            Pks::got_pks_tree_data(*old(self), *final(self), r),
    {
        if self.pks_tree_data.is_none() {
            let pack_names = self.get_pack_names();
            let ghost names = names_view(pack_names@);
            let path_violations = self.get_path_violations();
            let pks_tree_data = PksTreeBuilder::new(pack_names, path_violations).children;
            self.pks_tree_data = Some(Rc::new(pks_tree_data));
        }
        match &self.pks_tree_data {
            Some(tree) => rc_clone(tree),
            None => unreached(),
        }
    }

    /// The names of the packs, in the order of the sorted packs.
    fn get_pack_names(&mut self) -> (r: Vec<String>)
        requires
            old(self).wf(),
        ensures
            final(self).wf(),
            Pks::only_fills(*old(self), *final(self), true, false, false, false, false, false, false),
            final(self).packs_slot() is Some,
            names_view(r@) == pack_names(shared_packs_view(final(self).packs_slot()->0@)),
            r.len() == final(self).packs_slot()->0@.len(),
    {
        let packs = self.get_packs();
        let ghost views = shared_packs_view(packs@);
        let mut names: Vec<String> = Vec::new();
        let mut i: usize = 0;
        while i < packs.len()
            invariant
                i <= packs.len(),
                views == shared_packs_view(packs@),
                names_view(names@) == pack_names(views).take(i as int),
            decreases packs.len() - i,
        {
            let name = packs[i].name.clone();
            proof {
                assert(names_view(names@.push(name)) =~= names_view(names@).push(name@));
                assert(pack_names(views).take(i + 1) =~= pack_names(views).take(i as int).push(
                    views[i as int].name,
                ));
            }
            names.push(name);
            i = i + 1;
        }
        proof {
            assert(pack_names(views).take(packs.len() as int) =~= pack_names(views));
        }
        names
    }

    /// The violations that concern `path`, if there are any.
    pub fn get_path_violations_for_path(&mut self, path: &str) -> (r: Option<Arc<PathViolations>>)
        requires
            old(self).wf(),
        ensures
            Pks::got_path_violations_for_path(*old(self), *final(self), path@, r),
    {
        let classification = self.get_path_violations();
        match classification.get(path) {
            Some(pv) => Some(arc_clone(pv)),
            None => None,
        }
    }

    /// The pairwise summaries, filed under every path that contains one of
    /// their two packs.
    pub fn get_path_violations(&mut self) -> (r: Arc<StrMap<Arc<PathViolations>>>)
        requires
            old(self).wf(),
        ensures
            Pks::got_path_violations(*old(self), *final(self), r),
    {
        if self.path_violations.is_none() {
            let all_violations = self.get_pack_dependent_violations();
            proof {
                assert(is_pairwise_aggregation(self.record_views(), all_violations@));
                assert(self.record_views().len() == self.configuration.pack_set.all_violations.len());
                assert forall|i: int| 0 <= i < all_violations.len() implies (
                #[trigger] all_violations[i]).wf() by {
                    assert(all_violations@[i].summarises(self.record_views()));
                }
            }
            let classification = classify(&all_violations);
            self.path_violations = Some(Arc::new(classification));
        }
        match &self.path_violations {
            Some(classification) => arc_clone(classification),
            None => unreached(),
        }
    }
}

} // verus!
