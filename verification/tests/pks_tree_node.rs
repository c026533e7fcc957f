use packs_tui::pks_tree_node::{
    pack_name_to_node_names, prepend_dot_to_path, PksTreeBuilder, PksTreeNode,
};
use packs_tui::str_map::StrMap;
use std::sync::Arc;

fn node(
    path: &str,
    node_name: &str,
    has_package_definition: bool,
    children: Option<Vec<PksTreeNode>>,
) -> PksTreeNode {
    PksTreeNode {
        path: String::from(path),
        node_name: String::from(node_name),
        has_package_definition,
        in_violation_count: 0,
        out_violation_count: 0,
        children,
    }
}

fn names(list: &[&str]) -> Vec<String> {
    list.iter().map(|n| n.to_string()).collect()
}

fn pairs(list: &[(&str, &str)]) -> Vec<(String, String)> {
    list.iter()
        .map(|(a, b)| (a.to_string(), b.to_string()))
        .collect()
}

#[test]
fn test_build_pks_tree_data() {
    let pack_names = vec![
        String::from("."),
        String::from("packs/product_services/payroll/show_me_the_money"),
    ];
    let result = PksTreeBuilder::new(pack_names, Arc::new(StrMap::new())).children;
    let expected = vec![PksTreeNode {
        path: String::from("."),
        node_name: String::from("."),
        has_package_definition: true,
        in_violation_count: 0,
        out_violation_count: 0,
        children: Some(vec![PksTreeNode {
            path: String::from("./packs"),
            node_name: String::from("packs"),
            has_package_definition: false,
            in_violation_count: 0,
            out_violation_count: 0,
            children: Some(vec![PksTreeNode {
                path: String::from("./packs/product_services"),
                node_name: String::from("product_services"),
                has_package_definition: false,
                in_violation_count: 0,
                out_violation_count: 0,
                children: Some(vec![PksTreeNode {
                    path: String::from("./packs/product_services/payroll"),
                    node_name: String::from("payroll"),
                    has_package_definition: false,
                    in_violation_count: 0,
                    out_violation_count: 0,
                    children: Some(vec![PksTreeNode {
                        path: String::from(
                            "./packs/product_services/payroll/show_me_the_money",
                        ),
                        node_name: String::from("show_me_the_money"),
                        has_package_definition: true,
                        in_violation_count: 0,
                        out_violation_count: 0,
                        children: None,
                    }]),
                }]),
            }]),
        }]),
    }];
    assert_eq!(result, expected);
}

#[test]
fn test_pack_name_to_node_names() {
    assert_eq!(
        pack_name_to_node_names(&String::from(".")),
        vec![(String::from("."), String::from("."))]
    );
    assert_eq!(
        pack_name_to_node_names(&String::from("packs/foo")),
        vec![
            (String::from("."), String::from(".")),
            (String::from("./packs"), String::from("packs")),
            (String::from("./packs/foo"), String::from("foo")),
        ]
    );
    assert_eq!(
        pack_name_to_node_names(&String::from("packs/product_services/bar")),
        vec![
            (String::from("."), String::from(".")),
            (String::from("./packs"), String::from("packs")),
            (
                String::from("./packs/product_services"),
                String::from("product_services")
            ),
            (
                String::from("./packs/product_services/bar"),
                String::from("bar")
            ),
        ]
    );
    assert_eq!(
        pack_name_to_node_names(&String::from("packs/payroll/payroll")),
        vec![
            (String::from("."), String::from(".")),
            (String::from("./packs"), String::from("packs")),
            (String::from("./packs/payroll"), String::from("payroll")),
            (
                String::from("./packs/payroll/payroll"),
                String::from("payroll")
            ),
        ]
    );
}

#[test]
fn a_name_has_one_ancestor_more_than_slashes() {
    assert_eq!(pack_name_to_node_names(".").len(), 1);
    assert_eq!(
        pack_name_to_node_names("a/b"),
        pairs(&[(".", "."), ("./a", "a"), ("./a/b", "b")])
    );
    for name in ["a", "a/b/c/d/e", "./x/y", "x//y", "", "/", ".hidden/x", "é/ü"] {
        let chain = pack_name_to_node_names(name);
        let dotted = prepend_dot_to_path(name);
        assert_eq!(chain.len(), dotted.matches('/').count() + 1);
        assert_eq!(chain.last().unwrap().0, dotted);
        for (path, segment) in chain.iter() {
            assert!(path.ends_with(segment.as_str()));
            assert!(dotted.starts_with(path.as_str()));
            assert!(!segment.contains('/'));
        }
    }
}

#[test]
fn names_without_a_leading_dot_get_one() {
    assert_eq!(prepend_dot_to_path("packs/foo"), "./packs/foo");
    assert_eq!(prepend_dot_to_path("."), ".");
    assert_eq!(prepend_dot_to_path("./packs/foo"), "./packs/foo");
    assert_eq!(prepend_dot_to_path(".hidden"), ".hidden");
    assert_eq!(prepend_dot_to_path(""), "./");
    assert_eq!(prepend_dot_to_path("/abs"), ".//abs");
}

#[test]
fn unusual_names_are_decomposed_at_every_slash() {
    assert_eq!(
        pack_name_to_node_names(""),
        pairs(&[(".", "."), ("./", "")])
    );
    assert_eq!(
        pack_name_to_node_names("x//y"),
        pairs(&[(".", "."), ("./x", "x"), ("./x/", ""), ("./x//y", "y")])
    );
    assert_eq!(
        pack_name_to_node_names(".hidden/x"),
        pairs(&[(".hidden", ".hidden"), (".hidden/x", "x")])
    );
    assert_eq!(
        pack_name_to_node_names("é/ü"),
        pairs(&[(".", "."), ("./é", "é"), ("./é/ü", "ü")])
    );
}

#[test]
fn directories_above_packs_are_no_packs() {
    let result = PksTreeBuilder::new(names(&[".", "packs/a/b"]), Arc::new(StrMap::new())).children;
    let expected = vec![node(
        ".",
        ".",
        true,
        Some(vec![node(
            "./packs",
            "packs",
            false,
            Some(vec![node(
                "./packs/a",
                "a",
                false,
                Some(vec![node("./packs/a/b", "b", true, None)]),
            )]),
        )]),
    )];
    assert_eq!(result, expected);
}

#[test]
fn a_directory_that_is_met_as_a_pack_later_becomes_one() {
    let result = PksTreeBuilder::new(
        names(&["packs/a/b", "packs/c", "packs/a", "packs/a/b", "packs/a/d"]),
        Arc::new(StrMap::new()),
    )
    .children;
    let expected = vec![node(
        ".",
        ".",
        false,
        Some(vec![node(
            "./packs",
            "packs",
            false,
            Some(vec![
                node(
                    "./packs/a",
                    "a",
                    true,
                    Some(vec![
                        node("./packs/a/b", "b", true, None),
                        node("./packs/a/d", "d", true, None),
                    ]),
                ),
                node("./packs/c", "c", true, None),
            ]),
        )]),
    )];
    assert_eq!(result, expected);
}

#[test]
fn a_pack_below_which_a_pack_is_met_later_gets_children() {
    let result =
        PksTreeBuilder::new(names(&["packs/a", "packs/a/b"]), Arc::new(StrMap::new())).children;
    let expected = vec![node(
        ".",
        ".",
        false,
        Some(vec![node(
            "./packs",
            "packs",
            false,
            Some(vec![node(
                "./packs/a",
                "a",
                true,
                Some(vec![node("./packs/a/b", "b", true, None)]),
            )]),
        )]),
    )];
    assert_eq!(result, expected);
}

#[test]
fn names_with_another_root_stand_beside_the_dot() {
    let result =
        PksTreeBuilder::new(names(&["a", ".other/x", "."]), Arc::new(StrMap::new())).children;
    let expected = vec![
        node(".", ".", true, Some(vec![node("./a", "a", true, None)])),
        node(
            ".other",
            ".other",
            false,
            Some(vec![node(".other/x", "x", true, None)]),
        ),
    ];
    assert_eq!(result, expected);
    assert_eq!(
        PksTreeBuilder::new(vec![], Arc::new(StrMap::new())).children,
        vec![]
    );
}
