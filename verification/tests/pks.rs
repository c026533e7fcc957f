use packs_tui::configuration::{Configuration, Pack, ViolationRecord};
use packs_tui::pks::{part_contained_in_other_path, Pks};
use std::rc::Rc;
use std::sync::Arc;

fn pack(name: &str, dependencies: &[&str]) -> Pack {
    Pack::new(
        name.to_string(),
        dependencies.iter().map(|d| d.to_string()).collect(),
    )
}

fn record(violation_type: &str, constant: &str, referencing: &str, defining: &str) -> ViolationRecord {
    ViolationRecord::new(
        violation_type.to_string(),
        constant.to_string(),
        referencing.to_string(),
        defining.to_string(),
    )
}

fn simple_app_packs() -> Vec<Pack> {
    vec![
        pack("packs/foo", &["packs/baz"]),
        pack("packs/bar", &[]),
        pack(".", &[]),
        pack("packs/baz", &[]),
    ]
}

fn new_pks() -> Pks {
    Pks::new(Configuration::new(simple_app_packs(), vec![]))
}

fn new_pks_with_violations() -> Pks {
    Pks::new(Configuration::new(
        vec![pack("packs/foo", &[]), pack(".", &[]), pack("packs/bar", &[])],
        vec![
            record("privacy", "::Bar", "packs/foo", "packs/bar"),
            record("dependency", "::Foo", "packs/bar", "packs/foo"),
            record("dependency", "::Bar", "packs/foo", "packs/bar"),
            record("privacy", "::Foo", "packs/bar", "packs/foo"),
        ],
    ))
}

#[test]
fn test_new_pks_values() {
    let pks = new_pks();
    assert_eq!(pks.configuration().pack_set.packs.len(), 4);
    assert_eq!(pks.packs(), &None);
    assert_eq!(pks.pack_dependents(), &None);
    assert_eq!(pks.pack_dependent_violations(), &None);
    assert_eq!(pks.constant_violations(), &None);
}

#[test]
fn test_get_packs() {
    let mut pks = new_pks();
    let packs = pks.get_packs();
    let pack_names: Vec<String> = packs.iter().map(|pack| pack.name.clone()).collect();
    assert_eq!(pack_names, vec![".", "packs/bar", "packs/baz", "packs/foo"]);
}

#[test]
fn test_get_pack_dependents() {
    let mut pks = new_pks();
    let pack_dependents = pks.get_pack_dependents();
    assert_eq!(pack_dependents.len(), 4);
    assert_eq!(pack_dependents.get(".").unwrap().len(), 0);
    assert_eq!(pack_dependents.get("packs/baz").unwrap().len(), 1);
    assert!(pack_dependents
        .get("packs/baz")
        .unwrap()
        .contains("packs/foo"));
}

#[test]
fn test_get_pack_dependent_violations() {
    let mut pks = new_pks_with_violations();
    let pack_dependent_violations = pks.get_pack_dependent_violations();
    assert_eq!(pack_dependent_violations.len(), 2);
    assert_eq!(pack_dependent_violations[0].defining_pack_name, "packs/foo");
    let bar_violation = pack_dependent_violations[1].clone();
    assert_eq!(bar_violation.defining_pack_name, "packs/bar");
    assert_eq!(bar_violation.referencing_pack_name, "packs/foo");
    assert_eq!(bar_violation.violation_type_counts.len(), 2);
    assert_eq!(bar_violation.count_for_violation_type("privacy"), 1);
    assert_eq!(bar_violation.constant_counts.len(), 1);
    assert_eq!(bar_violation.constant_counts.get("::Bar").unwrap(), &2);
    assert_eq!(bar_violation.num_constants(), 1);
}

#[test]
fn test_part_contained_in_other_path() {
    assert!(part_contained_in_other_path(
        "./foo",
        &"./foo/bar".to_string()
    ));
    assert!(part_contained_in_other_path(
        "./foo",
        &"./foo/bar/baz".to_string()
    ));
    assert!(!part_contained_in_other_path("./foo", &"./bar".to_string()));
    assert!(!part_contained_in_other_path(
        "./foo",
        &"./bar/foo".to_string()
    ));
    assert!(part_contained_in_other_path("./foo", &"./foo".to_string()));
}

#[test]
fn test_get_path_violations() {
    let mut pks = new_pks_with_violations();
    let path_violations = pks.get_path_violations();
    assert_eq!(path_violations.len(), 4);
    let foo_violation = path_violations.get("./packs/foo").unwrap();
    assert_eq!(foo_violation.path, "./packs/foo");
    assert_eq!(foo_violation.uncontained_in_violations.len(), 1);
    assert_eq!(
        foo_violation.uncontained_in_violations[0].defining_pack_name,
        String::from("packs/foo")
    );
    assert_eq!(
        foo_violation.uncontained_in_violations[0].referencing_pack_name,
        String::from("packs/bar")
    );
    assert_eq!(foo_violation.uncontained_out_violations.len(), 1);
    assert_eq!(foo_violation.contained_in_violations.len(), 0);
    assert_eq!(foo_violation.contained_out_violations.len(), 0);

    let packs_violation = path_violations.get("./packs").unwrap();
    assert_eq!(packs_violation.contained_in_violations_count, 4);
    assert_eq!(packs_violation.contained_out_violations_count, 4);
    assert_eq!(packs_violation.uncontained_out_violations_count, 0);
    assert_eq!(packs_violation.uncontained_in_violations_count, 0);
}

#[test]
fn test_get_pack_dependent_violations_by_defining_pack_name() {
    let mut pks = new_pks_with_violations();
    let pack_dependent_violations =
        pks.get_pack_dependent_violations_by_defining_pack_name("packs/foo");
    assert_eq!(pack_dependent_violations.len(), 1);
    let violation = pack_dependent_violations[0].clone();
    assert_eq!(violation.defining_pack_name, "packs/foo");
    assert_eq!(violation.referencing_pack_name, "packs/bar");
    assert_eq!(violation.constant_counts.len(), 1);
    assert_eq!(violation.constant_counts.get("::Foo").unwrap(), &2);
    assert_eq!(violation.violation_type_counts.len(), 2);
    assert_eq!(violation.violation_type_counts.get("privacy").unwrap(), &1);
}

#[test]
fn test_get_constant_violations() {
    let mut pks = new_pks_with_violations();
    let constant_violations = pks.get_constant_violations();
    assert_eq!(constant_violations.len(), 2);
    assert_eq!(constant_violations[0].defining_pack_name, "packs/bar");
    let bar_violation = constant_violations[0].clone();
    assert_eq!(bar_violation.constant, "::Bar");
    assert_eq!(bar_violation.count, 2);
    assert_eq!(bar_violation.violation_type_counts.len(), 2);
    assert_eq!(
        bar_violation.violation_type_counts.get("privacy").unwrap(),
        &1
    );
    assert_eq!(bar_violation.referencing_pack_counts.len(), 1);
    assert_eq!(
        bar_violation
            .referencing_pack_counts
            .get("packs/foo")
            .unwrap(),
        &2
    );
}

#[test]
fn test_get_pks_tree_data() {
    let mut pks = new_pks();
    let pks_tree_data = pks.get_pks_tree_data();
    assert_eq!(pks_tree_data.len(), 1);
    let root = &pks_tree_data.iter().find(|node| node.path == ".").unwrap();
    assert!(root.children.is_some());
    assert!(root.has_package_definition);
    let packs = root
        .children
        .as_ref()
        .unwrap()
        .iter()
        .find(|node| node.path == "./packs")
        .unwrap();
    assert!(packs.children.is_some());
    assert!(!packs.has_package_definition);
    let bar = packs
        .children
        .as_ref()
        .unwrap()
        .iter()
        .find(|node| node.path == "./packs/bar")
        .unwrap();
    assert!(bar.children.is_none());
    assert!(bar.has_package_definition);
}

#[test]
fn pairwise_counts_sum_to_the_number_of_records() {
    let mut pks = Pks::new(Configuration::new(
        vec![],
        vec![
            record("privacy", "::A", "packs/x", "packs/y"),
            record("dependency", "::A", "packs/x", "packs/y"),
            record("privacy", "::B", "packs/x", "packs/y"),
            record("visibility", "::C", "packs/x", "packs/y"),
            record("privacy", "::B", "packs/x", "packs/y"),
            record("privacy", "::A", "packs/y", "packs/x"),
        ],
    ));
    let list = pks.get_pack_dependent_violations();
    assert_eq!(list.len(), 2);
    let summary = &list[0];
    assert_eq!(summary.referencing_pack_name, "packs/x");
    assert_eq!(summary.defining_pack_name, "packs/y");
    assert_eq!(summary.all_violation_counts(), 5);
    assert_eq!(summary.count_for_violation_type("privacy"), 3);
    assert_eq!(summary.count_for_violation_type("dependency"), 1);
    assert_eq!(summary.count_for_violation_type("visibility"), 1);
    assert_eq!(summary.count_for_violation_type("architecture"), 0);
    assert_eq!(summary.num_constants(), 3);
    assert_eq!(summary.constant_counts.get("::A").unwrap(), &2);
    assert_eq!(summary.constant_counts.get("::B").unwrap(), &2);
    assert_eq!(summary.constant_counts.get("::C").unwrap(), &1);
    assert_eq!(summary.constant_counts.get("::D"), None);
    assert_eq!(list[1].all_violation_counts(), 1);
}

#[test]
fn pairwise_summaries_are_ordered_by_referencing_then_defining_pack() {
    let mut pks = Pks::new(Configuration::new(
        vec![],
        vec![
            record("privacy", "::A", "packs/b", "packs/z"),
            record("privacy", "::A", "packs/b", "packs/a"),
            record("privacy", "::A", "packs/a", "packs/z"),
            record("privacy", "::A", "packs/ab", "packs/c"),
            record("privacy", "::A", "packs/a", "packs/b"),
        ],
    ));
    let list = pks.get_pack_dependent_violations();
    let keys: Vec<(String, String)> = list
        .iter()
        .map(|v| (v.referencing_pack_name.clone(), v.defining_pack_name.clone()))
        .collect();
    assert_eq!(
        keys,
        vec![
            ("packs/a".to_string(), "packs/b".to_string()),
            ("packs/a".to_string(), "packs/z".to_string()),
            ("packs/ab".to_string(), "packs/c".to_string()),
            ("packs/b".to_string(), "packs/a".to_string()),
            ("packs/b".to_string(), "packs/z".to_string()),
        ]
    );
}

#[test]
fn constant_summaries_are_ordered_by_constant_then_defining_pack() {
    let mut pks = Pks::new(Configuration::new(
        vec![],
        vec![
            record("privacy", "::B", "packs/x", "packs/z"),
            record("privacy", "::A", "packs/x", "packs/z"),
            record("privacy", "::A", "packs/y", "packs/a"),
            record("dependency", "::A", "packs/x", "packs/a"),
        ],
    ));
    let list = pks.get_constant_violations();
    let keys: Vec<(String, String, usize)> = list
        .iter()
        .map(|v| (v.constant.clone(), v.defining_pack_name.clone(), v.count))
        .collect();
    assert_eq!(
        keys,
        vec![
            ("::A".to_string(), "packs/a".to_string(), 2),
            ("::A".to_string(), "packs/z".to_string(), 1),
            ("::B".to_string(), "packs/z".to_string(), 1),
        ]
    );
    assert_eq!(list[0].referencing_pack_counts.len(), 2);
    assert_eq!(list[0].count_for_violation_type("dependency"), 1);
    assert_eq!(list[0].count_for_violation_type("visibility"), 0);
}

#[test]
fn no_records_give_no_summaries() {
    let mut pks = new_pks();
    assert_eq!(pks.get_pack_dependent_violations().len(), 0);
    assert_eq!(pks.get_constant_violations().len(), 0);
    assert_eq!(pks.get_path_violations().len(), 0);
    assert!(pks.get_path_violations_for_path(".").is_none());
    assert_eq!(
        pks.get_pack_dependent_violations_by_defining_pack_name("packs/foo")
            .len(),
        0
    );
}

#[test]
fn a_pack_without_dependents_has_an_empty_entry() {
    let mut pks = Pks::new(Configuration::new(
        vec![
            pack("packs/a", &["packs/c"]),
            pack("packs/b", &["packs/c", "packs/c", "packs/elsewhere"]),
            pack("packs/c", &[]),
        ],
        vec![],
    ));
    let index = pks.get_pack_dependents();
    assert_eq!(index.len(), 4);
    assert!(index.get("packs/a").unwrap().is_empty());
    assert!(index.get("packs/b").unwrap().is_empty());
    let of_c = index.get("packs/c").unwrap();
    assert_eq!(of_c.len(), 2);
    assert_eq!(of_c.get(0), "packs/a");
    assert_eq!(of_c.get(1), "packs/b");
    let of_elsewhere = index.get("packs/elsewhere").unwrap();
    assert_eq!(of_elsewhere.len(), 1);
    assert!(of_elsewhere.contains("packs/b"));
    assert!(index.get("packs/d").is_none());
    assert_eq!(pks.get_num_packs(), 3);
}

#[test]
fn a_violation_between_siblings_is_contained_under_their_parent_only() {
    let mut pks = Pks::new(Configuration::new(
        vec![],
        vec![record("privacy", "::Foo", "packs/bar", "packs/foo")],
    ));
    let under_foo = pks.get_path_violations_for_path("./packs/foo").unwrap();
    assert_eq!(under_foo.uncontained_in_violations.len(), 1);
    assert_eq!(under_foo.uncontained_out_violations.len(), 0);
    assert_eq!(under_foo.contained_in_violations.len(), 0);
    assert_eq!(under_foo.contained_out_violations.len(), 0);
    assert_eq!(under_foo.uncontained_in_violations_count, 1);
    let under_bar = pks.get_path_violations_for_path("./packs/bar").unwrap();
    assert_eq!(under_bar.uncontained_out_violations.len(), 1);
    assert_eq!(under_bar.uncontained_in_violations.len(), 0);
    assert_eq!(under_bar.contained_in_violations.len(), 0);
    assert_eq!(under_bar.contained_out_violations.len(), 0);
    let under_packs = pks.get_path_violations_for_path("./packs").unwrap();
    assert_eq!(under_packs.contained_in_violations.len(), 1);
    assert_eq!(under_packs.contained_out_violations.len(), 1);
    assert_eq!(under_packs.uncontained_in_violations.len(), 0);
    assert_eq!(under_packs.uncontained_out_violations.len(), 0);
    let under_root = pks.get_path_violations_for_path(".").unwrap();
    assert_eq!(under_root.contained_in_violations_count, 1);
    assert_eq!(under_root.contained_out_violations_count, 1);
    assert!(pks.get_path_violations_for_path("./packs/baz").is_none());
    assert!(pks.get_path_violations_for_path("packs/foo").is_none());
}

#[test]
fn a_common_prefix_is_no_containment() {
    assert!(!part_contained_in_other_path(
        "./foo",
        &"./foobar".to_string()
    ));
    assert!(!part_contained_in_other_path(
        "./foobar",
        &"./foo".to_string()
    ));
    assert!(!part_contained_in_other_path("./foo/", &"./foo".to_string()));
    assert!(part_contained_in_other_path(".", &"./foo".to_string()));
    assert!(part_contained_in_other_path("", &"/foo".to_string()));
    assert!(part_contained_in_other_path("", &"".to_string()));
    assert!(!part_contained_in_other_path("", &"foo".to_string()));

    let mut pks = Pks::new(Configuration::new(
        vec![],
        vec![record("privacy", "::X", "foobar", "foo")],
    ));
    let under_foo = pks.get_path_violations_for_path("./foo").unwrap();
    assert_eq!(under_foo.uncontained_in_violations.len(), 1);
    assert_eq!(under_foo.contained_in_violations.len(), 0);
    let under_foobar = pks.get_path_violations_for_path("./foobar").unwrap();
    assert_eq!(under_foobar.uncontained_out_violations.len(), 1);
    assert_eq!(under_foobar.contained_out_violations.len(), 0);
}

#[test]
fn a_violation_within_a_subtree_is_contained_in_the_defining_pack() {
    let mut pks = Pks::new(Configuration::new(
        vec![],
        vec![
            record("privacy", "::X", "packs/a/b", "packs/a"),
            record("dependency", "::X", "packs/a/b", "packs/a"),
            record("dependency", "::Y", "packs/c", "packs/a"),
        ],
    ));
    let under_a = pks.get_path_violations_for_path("./packs/a").unwrap();
    assert_eq!(under_a.contained_in_violations.len(), 1);
    assert_eq!(under_a.contained_in_violations_count, 2);
    assert_eq!(under_a.contained_out_violations_count, 2);
    assert_eq!(under_a.uncontained_in_violations.len(), 1);
    assert_eq!(under_a.uncontained_in_violations_count, 1);
    assert_eq!(under_a.uncontained_out_violations_count, 0);
    let under_b = pks.get_path_violations_for_path("./packs/a/b").unwrap();
    assert_eq!(under_b.uncontained_out_violations_count, 2);
    assert_eq!(under_b.uncontained_in_violations_count, 0);
    assert_eq!(under_b.contained_in_violations_count, 0);
    assert_eq!(under_b.contained_out_violations_count, 0);
}

#[test]
fn end_to_end() {
    let mut pks = Pks::new(Configuration::new(
        vec![
            pack(".", &[]),
            pack("packs/bar", &[]),
            pack("packs/baz", &[]),
            pack("packs/foo", &["packs/bar"]),
        ],
        vec![
            record("privacy", "::Bar", "packs/foo", "packs/bar"),
            record("dependency", "::Bar", "packs/foo", "packs/bar"),
        ],
    ));
    let list = pks.get_pack_dependent_violations();
    assert_eq!(list.len(), 1);
    assert_eq!(list[0].violation_type_counts.len(), 2);
    let path_violations = pks.get_path_violations();
    assert_eq!(
        path_violations
            .get("./packs/foo")
            .unwrap()
            .uncontained_out_violations
            .len(),
        1
    );
    assert_eq!(
        path_violations
            .get("./packs/bar")
            .unwrap()
            .uncontained_in_violations
            .len(),
        1
    );
    let tree = pks.get_pks_tree_data();
    assert_eq!(tree.len(), 1);
    let packs = &tree[0].children.as_ref().unwrap()[0];
    assert_eq!(packs.path, "./packs");
    assert_eq!(packs.in_violation_count, 0);
    assert_eq!(packs.out_violation_count, 0);
    let below: Vec<(String, usize, usize)> = packs
        .children
        .as_ref()
        .unwrap()
        .iter()
        .map(|n| (n.node_name.clone(), n.in_violation_count, n.out_violation_count))
        .collect();
    assert_eq!(
        below,
        vec![
            ("bar".to_string(), 2, 0),
            ("baz".to_string(), 0, 0),
            ("foo".to_string(), 0, 2),
        ]
    );
    assert_eq!(pks.get_pack_dependents().get("packs/bar").unwrap().len(), 1);
}

#[test]
fn every_part_is_computed_once_and_shared() {
    let mut pks = new_pks_with_violations();
    let packs = pks.get_packs();
    assert!(Arc::ptr_eq(&packs, &pks.get_packs()));
    let dependents = pks.get_pack_dependents();
    assert!(Arc::ptr_eq(&dependents, &pks.get_pack_dependents()));
    let pairwise = pks.get_pack_dependent_violations();
    assert!(Arc::ptr_eq(&pairwise, &pks.get_pack_dependent_violations()));
    let constants = pks.get_constant_violations();
    assert!(Arc::ptr_eq(&constants, &pks.get_constant_violations()));
    let by_path = pks.get_path_violations();
    assert!(Arc::ptr_eq(&by_path, &pks.get_path_violations()));
    let tree = pks.get_pks_tree_data();
    assert!(Rc::ptr_eq(&tree, &pks.get_pks_tree_data()));
    let under_packs = pks.get_path_violations_for_path("./packs").unwrap();
    assert!(Arc::ptr_eq(
        &under_packs,
        &pks.get_path_violations_for_path("./packs").unwrap()
    ));
    assert!(Arc::ptr_eq(&under_packs, by_path.get("./packs").unwrap()));
    let of_foo = pks.get_pack_dependent_violations_by_defining_pack_name("packs/foo");
    let again = pks.get_pack_dependent_violations_by_defining_pack_name("packs/foo");
    assert_eq!(of_foo.len(), again.len());
    assert!(Arc::ptr_eq(&of_foo[0], &again[0]));
    assert!(Arc::ptr_eq(&of_foo[0], &pairwise[0]));
    assert!(Arc::ptr_eq(
        &under_packs.contained_in_violations[0],
        &pairwise[0]
    ));
    assert_eq!(pks.get_num_packs(), 3);
    assert_eq!(pks.get_num_packs(), 3);
    assert!(pks.packs().is_some());
    assert!(Arc::ptr_eq(&packs, pks.packs().as_ref().unwrap()));
}

#[test]
fn packs_of_one_name_keep_their_order() {
    let mut pks = Pks::new(Configuration::new(
        vec![
            pack("b", &["second"]),
            pack("a", &[]),
            pack("b", &["first"]),
            pack("B", &[]),
            pack("", &[]),
            pack("ab", &[]),
        ],
        vec![],
    ));
    let packs = pks.get_packs();
    let got: Vec<(String, Vec<String>)> = packs
        .iter()
        .map(|p| (p.name.clone(), p.dependencies.clone()))
        .collect();
    assert_eq!(
        got,
        vec![
            ("".to_string(), vec![]),
            ("B".to_string(), vec![]),
            ("a".to_string(), vec![]),
            ("ab".to_string(), vec![]),
            ("b".to_string(), vec!["second".to_string()]),
            ("b".to_string(), vec!["first".to_string()]),
        ]
    );
}

#[test]
fn the_order_of_the_records_does_not_matter() {
    let records = || {
        vec![
            record("privacy", "::A", "packs/x", "packs/y"),
            record("dependency", "::A", "packs/x", "packs/y"),
            record("privacy", "::B", "packs/x", "packs/y"),
            record("privacy", "::A", "packs/y", "packs/x"),
            record("visibility", "::C", "packs/z", "packs/x/inner"),
            record("privacy", "::B", "packs/x", "packs/y"),
        ]
    };
    let mut forwards = Pks::new(Configuration::new(vec![], records()));
    let mut backwards = Pks::new(Configuration::new(
        vec![],
        records().into_iter().rev().collect(),
    ));
    let rotated = {
        let mut list = records();
        list.rotate_left(2);
        list
    };
    let mut rotated = Pks::new(Configuration::new(vec![], rotated));
    let summary = |pks: &mut Pks| -> Vec<(String, String, usize, usize, usize, usize)> {
        pks.get_pack_dependent_violations()
            .iter()
            .map(|v| {
                (
                    v.referencing_pack_name.clone(),
                    v.defining_pack_name.clone(),
                    v.all_violation_counts(),
                    v.count_for_violation_type("privacy"),
                    v.num_constants(),
                    v.constant_counts.count("::B"),
                )
            })
            .collect()
    };
    let expected = vec![
        ("packs/x".to_string(), "packs/y".to_string(), 4, 3, 2, 2),
        ("packs/y".to_string(), "packs/x".to_string(), 1, 1, 1, 0),
        ("packs/z".to_string(), "packs/x/inner".to_string(), 1, 0, 1, 0),
    ];
    assert_eq!(summary(&mut forwards), expected);
    assert_eq!(summary(&mut backwards), expected);
    assert_eq!(summary(&mut rotated), expected);
    let constants = |pks: &mut Pks| -> Vec<(String, String, usize, usize)> {
        pks.get_constant_violations()
            .iter()
            .map(|v| {
                (
                    v.constant.clone(),
                    v.defining_pack_name.clone(),
                    v.count,
                    v.referencing_pack_counts.len(),
                )
            })
            .collect()
    };
    assert_eq!(constants(&mut forwards), constants(&mut backwards));
    assert_eq!(constants(&mut forwards), constants(&mut rotated));
    let under_x = |pks: &mut Pks| -> (usize, usize, usize, usize) {
        let pv = pks.get_path_violations_for_path("./packs/x").unwrap();
        (
            pv.uncontained_in_violations_count,
            pv.uncontained_out_violations_count,
            pv.contained_in_violations_count,
            pv.contained_out_violations_count,
        )
    };
    assert_eq!(under_x(&mut forwards), (2, 4, 0, 0));
    assert_eq!(under_x(&mut backwards), (2, 4, 0, 0));
    assert_eq!(under_x(&mut rotated), (2, 4, 0, 0));
}
