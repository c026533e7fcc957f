use packs_tui::action::Action;
use packs_tui::components::helpers::active_violations::{
    ActiveViolations, CONTAINED_IN_SORTABLE, CONTAINED_OUT_SORTABLE, UNCONTAINED_IN_SORTABLE,
    UNCONTAINED_OUT_SORTABLE,
};
use packs_tui::components::helpers::scroll_sortable::{ScrollSortable, SortDirection};
use packs_tui::components::helpers::violations_display::{
    clamp_vertical_scroll, get_constraint_widths, get_violation_specifics, header_titles,
    ViolationSpecifics, MIN_HEIGHT_FOR_CONSTANTS, VIOLATION_COLUMNS, VIOLATION_HEADER_ABBR_TITLES,
    VIOLATION_HEADER_FULL_TITLES,
};
use packs_tui::components::home::{ActivePanel, Home, InOutCount, TreeMove};
use packs_tui::configuration::{Configuration, ViolationRecord};
use packs_tui::pks::Pks;

fn record(violation_type: &str, constant: &str, referencing: &str, defining: &str) -> ViolationRecord {
    ViolationRecord::new(
        violation_type.to_string(),
        constant.to_string(),
        referencing.to_string(),
        defining.to_string(),
    )
}

fn report() -> Pks {
    Pks::new(Configuration::new(
        vec![],
        vec![
            record("privacy", "::A", "packs/x", "packs/a"),
            record("privacy", "::B", "packs/x", "packs/a"),
            record("privacy", "::B", "packs/x", "packs/a"),
            record("dependency", "::C", "packs/x", "packs/a"),
            record("privacy", "::A", "packs/y", "packs/a/b"),
            record("architecture", "::A", "packs/y", "packs/a/b"),
            record("architecture", "::A", "other/z", "packs/a"),
            record("visibility", "::D", "packs/a/b", "packs/a"),
            record("visibility", "::D", "packs/a", "packs/x"),
        ],
    ))
}

fn rows(specifics: &ViolationSpecifics) -> Vec<String> {
    specifics
        .violations
        .iter()
        .map(|v| format!("{}<{}", v.defining_pack_name, v.referencing_pack_name))
        .collect()
}

#[test]
fn a_table_starts_at_its_top_left() {
    let table = ScrollSortable::default();
    assert_eq!(table.vertical_scroll(), 0);
    assert_eq!(table.horizontal_scroll(), 0);
    assert_eq!(table.sort_column(), 0);
    assert_eq!(table.focused_column(), 0);
    assert!(!table.is_sort_ascending());
    assert_eq!(SortDirection::default(), SortDirection::Descending);
    assert_eq!(ActiveViolations::default(), ActiveViolations::Out);
    assert_eq!(ActivePanel::default(), ActivePanel::Tree);
    assert_eq!(UNCONTAINED_OUT_SORTABLE, 0);
    assert_eq!(UNCONTAINED_IN_SORTABLE, 1);
    assert_eq!(CONTAINED_OUT_SORTABLE, 2);
    assert_eq!(CONTAINED_IN_SORTABLE, 3);
    assert_eq!(VIOLATION_COLUMNS, VIOLATION_HEADER_ABBR_TITLES.len());
    assert_eq!(VIOLATION_COLUMNS, VIOLATION_HEADER_FULL_TITLES.len());
    assert_eq!(MIN_HEIGHT_FOR_CONSTANTS, 20);
}

#[test]
fn a_table_scrolls_and_sorts() {
    let mut table = ScrollSortable::default();
    table.previous_vertical_scroll();
    table.previous_horizontal_scroll();
    assert_eq!(table, ScrollSortable::default());
    table.next_vertical_scroll();
    table.next_vertical_scroll();
    table.next_horizontal_scroll();
    table.previous_vertical_scroll();
    assert_eq!(table.vertical_scroll(), 1);
    assert_eq!(table.horizontal_scroll(), 1);
    table.previous_horizontal_scroll();
    assert_eq!(table.horizontal_scroll(), 0);
    table.set_vertical_scroll(9);
    table.set_horizontal_scroll(4);
    assert_eq!(table.vertical_scroll(), 9);
    assert_eq!(table.horizontal_scroll(), 4);
    let mut seen = vec![];
    for _ in 0..8 {
        table.next_focus_column();
        seen.push(table.focused_column());
    }
    assert_eq!(seen, vec![1, 2, 3, 4, 5, 6, 0, 1]);
    assert_eq!(table.sort_column(), 0);
    table.set_sort_column_to_active_column();
    assert_eq!(table.sort_column(), 1);
    table.sort_ascending();
    assert!(table.is_sort_ascending());
    table.sort_descending();
    assert!(!table.is_sort_ascending());
    table.reset_vertical_scroll();
    table.reset_horizontal_scroll();
    assert_eq!(
        table,
        ScrollSortable {
            vertical_scroll: 0,
            horizontal_scroll: 0,
            sort_column: 1,
            focused_column: 1,
            sort_direction: SortDirection::Descending,
        }
    );
    table.focused_column = usize::MAX;
    table.next_focus_column();
    assert_eq!(table.focused_column(), 0);
}

#[test]
fn the_selection_is_brought_back_into_the_table() {
    let mut table = ScrollSortable::default();
    table.set_vertical_scroll(5);
    clamp_vertical_scroll(&mut table, 9);
    assert_eq!(table.vertical_scroll(), 5);
    clamp_vertical_scroll(&mut table, 5);
    assert_eq!(table.vertical_scroll(), 4);
    clamp_vertical_scroll(&mut table, 0);
    assert_eq!(table.vertical_scroll(), 4);
    clamp_vertical_scroll(&mut table, 1);
    assert_eq!(table.vertical_scroll(), 0);
}

#[test]
fn the_sorted_column_of_the_table_is_marked() {
    let mut table = ScrollSortable::default();
    assert_eq!(
        header_titles(&table),
        vec!["▲ def pack", "ref pack", "priv", "arch", "dep", "fvis", "vis"]
    );
    table.sort_column = 3;
    table.sort_ascending();
    assert_eq!(
        header_titles(&table),
        vec!["def pack", "ref pack", "priv", "▼ arch", "dep", "fvis", "vis"]
    );
    table.sort_column = 7;
    assert_eq!(
        header_titles(&table),
        vec!["def pack", "ref pack", "priv", "arch", "dep", "fvis", "vis"]
    );
}

#[test]
fn actions_move_in_the_tree_or_in_the_table() {
    let mut home = Home::new(report());
    assert!(home.pks.packs().is_some());
    assert_eq!(home.pks.get_pks_tree_data().len(), 0);
    assert_eq!(home.update(&Action::Down), TreeMove::Down);
    assert_eq!(home.update(&Action::Up), TreeMove::Up);
    assert_eq!(home.update(&Action::Left), TreeMove::Left);
    assert_eq!(home.update(&Action::Right), TreeMove::Right);
    assert_eq!(home.scroll_sortable, ScrollSortable::default());
    assert_eq!(home.update(&Action::NextTab), TreeMove::Stay);
    assert_eq!(home.active_panel, ActivePanel::Violations);
    assert_eq!(home.update(&Action::Down), TreeMove::Stay);
    assert_eq!(home.update(&Action::Down), TreeMove::Stay);
    assert_eq!(home.update(&Action::Up), TreeMove::Stay);
    assert_eq!(home.update(&Action::Left), TreeMove::Stay);
    assert_eq!(home.update(&Action::Right), TreeMove::Stay);
    assert_eq!(home.scroll_sortable.vertical_scroll(), 1);
    assert_eq!(home.update(&Action::NextTab), TreeMove::Stay);
    assert_eq!(home.update(&Action::NextTab), TreeMove::Stay);
    assert_eq!(home.active_panel, ActivePanel::Violations);
    assert_eq!(home.scroll_sortable.focused_column(), 2);
    assert_eq!(home.scroll_sortable.sort_column(), 0);
    home.update(&Action::SortAscending);
    assert_eq!(home.scroll_sortable.sort_column(), 2);
    assert!(home.scroll_sortable.is_sort_ascending());
    home.update(&Action::NextTab);
    home.update(&Action::SortDescending);
    assert_eq!(home.scroll_sortable.sort_column(), 3);
    assert!(!home.scroll_sortable.is_sort_ascending());
    for (action, shown) in [
        (Action::UncontainedInViolations, ActiveViolations::In),
        (Action::ContainedOutViolations, ActiveViolations::ContainedOut),
        (Action::ContainedInViolations, ActiveViolations::ContainedIn),
        (Action::UncontainedOutViolations, ActiveViolations::Out),
    ] {
        assert_eq!(home.update(&action), TreeMove::Stay);
        assert_eq!(home.active_violations, shown);
    }
    let before = home.scroll_sortable;
    for action in [
        Action::Tick,
        Action::Render,
        Action::Resize(3, 4),
        Action::Error("no".to_string()),
        Action::Quit,
        Action::Help,
        Action::Next,
    ] {
        assert_eq!(home.update(&action), TreeMove::Stay);
    }
    assert_eq!(home.scroll_sortable, before);
    assert_eq!(home.active_panel, ActivePanel::Violations);
    assert_eq!(home.update(&Action::Escape), TreeMove::Stay);
    assert_eq!(home.active_panel, ActivePanel::Tree);
    assert_eq!(home.update(&Action::Up), TreeMove::Up);
}

#[test]
fn the_counts_above_the_table_are_those_of_the_selected_path() {
    let mut home = Home::new(report());
    assert!(home.selected_path_violations(&vec![]).is_none());
    let none = home.in_out_counts(&None);
    assert_eq!(
        none.uncontained_out,
        InOutCount {
            active: true,
            count: 0,
            menu_key: 0
        }
    );
    assert_eq!(
        none.contained_in,
        InOutCount {
            active: false,
            count: 0,
            menu_key: 3
        }
    );
    let selected = home.selected_path_violations(&vec![
        ".".to_string(),
        "./packs".to_string(),
        "./packs/a".to_string(),
    ]);
    assert_eq!(selected.as_ref().unwrap().path, "./packs/a");
    home.update(&Action::ContainedInViolations);
    let counts = home.in_out_counts(&selected);
    assert_eq!(
        counts.uncontained_out,
        InOutCount {
            active: false,
            count: 1,
            menu_key: 0
        }
    );
    assert_eq!(
        counts.uncontained_in,
        InOutCount {
            active: false,
            count: 7,
            menu_key: 1
        }
    );
    assert_eq!(
        counts.contained_out,
        InOutCount {
            active: false,
            count: 1,
            menu_key: 2
        }
    );
    assert_eq!(
        counts.contained_in,
        InOutCount {
            active: true,
            count: 1,
            menu_key: 3
        }
    );
    assert!(home
        .selected_path_violations(&vec![".".to_string(), "./nowhere".to_string()])
        .is_none());
}

#[test]
fn the_table_shows_the_chosen_list_in_the_chosen_order() {
    let mut pks = report();
    let under_packs = pks.get_path_violations_for_path("./packs").unwrap();
    let mut table = ScrollSortable::default();
    table.sort_ascending();
    let shown = get_violation_specifics(ActiveViolations::ContainedIn, &under_packs, &table);
    assert_eq!(shown.table_title, "internal incoming violations");
    assert_eq!(
        rows(&shown),
        vec![
            "packs/a<packs/a/b",
            "packs/a<packs/x",
            "packs/a/b<packs/y",
            "packs/x<packs/a"
        ]
    );
    table.sort_column = 1;
    table.sort_descending();
    let shown = get_violation_specifics(ActiveViolations::ContainedOut, &under_packs, &table);
    assert_eq!(shown.table_title, "internal outgoing violations");
    assert_eq!(
        rows(&shown),
        vec![
            "packs/a/b<packs/y",
            "packs/a<packs/x",
            "packs/a<packs/a/b",
            "packs/x<packs/a"
        ]
    );
    table.sort_column = 2;
    let shown = get_violation_specifics(ActiveViolations::ContainedIn, &under_packs, &table);
    assert_eq!(
        rows(&shown),
        vec![
            "packs/a<packs/x",
            "packs/a/b<packs/y",
            "packs/x<packs/a",
            "packs/a<packs/a/b"
        ]
    );
    table.sort_column = 6;
    table.sort_ascending();
    let shown = get_violation_specifics(ActiveViolations::ContainedIn, &under_packs, &table);
    assert_eq!(
        rows(&shown),
        vec![
            "packs/a<packs/x",
            "packs/a/b<packs/y",
            "packs/a<packs/a/b",
            "packs/x<packs/a"
        ]
    );
    let shown = get_violation_specifics(ActiveViolations::In, &under_packs, &table);
    assert_eq!(shown.table_title, "uncontained incoming violations");
    assert_eq!(rows(&shown), vec!["packs/a<other/z"]);
    let shown = get_violation_specifics(ActiveViolations::Out, &under_packs, &table);
    assert_eq!(shown.table_title, "uncontained outgoing violations");
    assert_eq!(rows(&shown).len(), 0);
}

#[test]
fn the_constants_of_a_row_come_by_falling_count() {
    let mut pks = report();
    let under_a = pks.get_path_violations_for_path("./packs/a").unwrap();
    let mut table = ScrollSortable::default();
    table.sort_column = 1;
    table.sort_descending();
    let shown = get_violation_specifics(ActiveViolations::In, &under_a, &table);
    assert_eq!(
        rows(&shown),
        vec!["packs/a/b<packs/y", "packs/a<packs/x", "packs/a<other/z"]
    );
    assert_eq!(
        shown.constant_counts_for_index(0),
        Some(vec![("::A".to_string(), 2)])
    );
    assert_eq!(
        shown.constant_counts_for_index(1),
        Some(vec![
            ("::B".to_string(), 2),
            ("::A".to_string(), 1),
            ("::C".to_string(), 1)
        ])
    );
    assert_eq!(
        shown.constant_counts_for_index(2),
        Some(vec![("::A".to_string(), 1)])
    );
    assert_eq!(shown.constant_counts_for_index(3), None);
    let widths = get_constraint_widths(&shown);
    assert_eq!(widths.defining_pack, 9);
    assert_eq!(widths.referencing_pack, 7);
    assert_eq!(widths.counts, vec![4, 4, 3, 4, 3]);
    assert_eq!(widths.table, 9 + 7 + 18 + 5);
    let nothing = ViolationSpecifics {
        violations: vec![],
        table_title: "",
    };
    let widths = get_constraint_widths(&nothing);
    assert_eq!(widths.defining_pack, 0);
    assert_eq!(widths.referencing_pack, 0);
    assert_eq!(widths.table, 23);
    assert_eq!(nothing.constant_counts_for_index(0), None);
}

#[test]
fn actions_have_names() {
    assert_eq!(Action::Tick.name(), "Tick");
    assert_eq!(Action::Resize(1, 2).name(), "Resize");
    assert_eq!(Action::Error("x".to_string()).name(), "Error");
    assert_eq!(Action::SortDescending.name(), "SortDescending");
    assert_eq!(
        Action::UncontainedOutViolations.name(),
        "UncontainedOutViolations"
    );
    assert_eq!(Action::NextTab.clone(), Action::NextTab);
}
