//! The snapshot that the analysis of a project hands over: its packs, and the
//! boundary violations that were recorded between them. The report is
//! derived from it and never changes it.

use crate::tally::names_view;
use vstd::prelude::*;

verus! {

/// A pack: its name, a slash-delimited path with `"."` for the root pack, and
/// the names of the packs it depends on.
#[derive(Debug, PartialEq, Eq)]
pub struct Pack {
    pub name: String,
    pub dependencies: Vec<String>,
}

/// What a pack says, as plain text.
pub ghost struct PackView {
    pub name: Seq<char>,
    pub dependencies: Seq<Seq<char>>,
}

impl View for Pack {
    type V = PackView;

    open spec fn view(&self) -> PackView {
        PackView { name: self.name@, dependencies: names_view(self.dependencies@) }
    }
}

/// One recorded violation: code of the referencing pack reached the constant
/// of the defining pack in a way that a boundary of the given type forbids.
#[derive(Debug, PartialEq, Eq)]
pub struct ViolationRecord {
    pub violation_type: String,
    pub constant_name: String,
    pub referencing_pack_name: String,
    pub defining_pack_name: String,
}

/// What a violation record says, as plain text.
pub ghost struct RecordView {
    pub violation_type: Seq<char>,
    pub constant_name: Seq<char>,
    pub referencing_pack_name: Seq<char>,
    pub defining_pack_name: Seq<char>,
}

impl View for ViolationRecord {
    type V = RecordView;

    open spec fn view(&self) -> RecordView {
        RecordView {
            violation_type: self.violation_type@,
            constant_name: self.constant_name@,
            referencing_pack_name: self.referencing_pack_name@,
            defining_pack_name: self.defining_pack_name@,
        }
    }
}

/// The packs of a project and all violations recorded between them.
#[derive(Debug, PartialEq, Eq)]
pub struct PackSet {
    pub packs: Vec<Pack>,
    pub all_violations: Vec<ViolationRecord>,
}

/// The snapshot a report is built from.
#[derive(Debug, PartialEq, Eq)]
pub struct Configuration {
    pub pack_set: PackSet,
}

/// The views of a sequence of packs.
pub open spec fn packs_view(packs: Seq<Pack>) -> Seq<PackView> {
    packs.map_values(|p: Pack| p@)
}

/// The views of a sequence of violation records.
pub open spec fn records_view(records: Seq<ViolationRecord>) -> Seq<RecordView> {
    records.map_values(|r: ViolationRecord| r@)
}

/// A copy of a vector of names.
pub fn copy_names(names: &Vec<String>) -> (r: Vec<String>)
    ensures
        names_view(r@) == names_view(names@),
{
    let mut r: Vec<String> = Vec::new();
    let mut i: usize = 0;
    while i < names.len()
        invariant
            i <= names.len(),
            names_view(r@) == names_view(names@).take(i as int),
        decreases names.len() - i,
    {
        let name = names[i].clone();
        proof {
            assert(names_view(r@.push(name)) =~= names_view(r@).push(name@));
            assert(names_view(names@).take(i + 1) =~= names_view(names@).take(i as int).push(
                names[i as int]@,
            ));
        }
        r.push(name);
        i = i + 1;
    }
    proof {
        assert(names_view(names@).take(names.len() as int) =~= names_view(names@));
    }
    r
}

impl Pack {
    /// A pack with the given name and dependencies.
    pub fn new(name: String, dependencies: Vec<String>) -> (p: Pack)
        ensures
            p.name == name,
            p.dependencies == dependencies,
    {
        Pack { name, dependencies }
    }

    /// A copy of this pack.
    pub fn duplicate(&self) -> (p: Pack)
        ensures
            p@ == self@,
    {
        Pack { name: self.name.clone(), dependencies: copy_names(&self.dependencies) }
    }
}

impl ViolationRecord {
    /// A record of one violation.
    pub fn new(
        violation_type: String,
        constant_name: String,
        referencing_pack_name: String,
        defining_pack_name: String,
    ) -> (r: ViolationRecord)
        ensures
            r.violation_type == violation_type,
            r.constant_name == constant_name,
            r.referencing_pack_name == referencing_pack_name,
            r.defining_pack_name == defining_pack_name,
    {
        ViolationRecord { violation_type, constant_name, referencing_pack_name, defining_pack_name }
    }
}

impl Configuration {
    /// The snapshot that holds the given packs and violation records.
    pub fn new(packs: Vec<Pack>, all_violations: Vec<ViolationRecord>) -> (c: Configuration)
        ensures
            c.pack_set.packs == packs,
            c.pack_set.all_violations == all_violations,
    {
        Configuration { pack_set: PackSet { packs, all_violations } }
    }
}

} // verus!
