use packs_tui::app::{
    ActiveFocus, App, ContextMenuConstantViolations, ContextMenuInfo, ContextMenuItem,
    ContextMenuNoViolationDependents, ContextMenuViolationDependents, MenuItem, SortDirection,
};
use packs_tui::configuration::{Configuration, Pack, ViolationRecord};
use packs_tui::handler::{command_for, handle_key_events, Command, Handled, KeyCode, KeyEvent};
use packs_tui::packs::{ConstantViolationSummaries, PackList, Packs};
use std::sync::Arc;

fn pack(name: &str, dependencies: &[&str]) -> Pack {
    Pack::new(
        name.to_string(),
        dependencies.iter().map(|d| d.to_string()).collect(),
    )
}

fn record(violation_type: &str, constant: &str, referencing: &str, defining: &str) -> ViolationRecord {
    ViolationRecord::new(
        violation_type.to_string(),
        constant.to_string(),
        referencing.to_string(),
        defining.to_string(),
    )
}

fn records() -> Vec<ViolationRecord> {
    vec![
        record("privacy", "::Bar", "packs/foo", "packs/bar"),
        record("dependency", "::Bar", "packs/foo", "packs/bar"),
        record("privacy", "::Bar::Inner", "packs/baz", "packs/bar"),
        record("privacy", "::Foo", "packs/bar", "packs/foo"),
        record("architecture", "::Baz", "packs/foo", "packs/baz"),
        record("architecture", "::Baz", "packs/bar", "packs/baz"),
        record("architecture", "::Baz", "packs/bar", "packs/baz"),
    ]
}

fn packs() -> Packs {
    Packs::new(Configuration::new(
        vec![
            pack("packs/foo", &["packs/baz"]),
            pack("packs/bar", &["packs/baz"]),
            pack(".", &[]),
            pack("packs/baz", &[]),
        ],
        records(),
    ))
}

fn names(list: &[Arc<Pack>]) -> Vec<&str> {
    list.iter().map(|p| p.name.as_str()).collect()
}

fn plain(code: KeyCode) -> KeyEvent {
    KeyEvent {
        code,
        control: false,
    }
}

fn control(code: KeyCode) -> KeyEvent {
    KeyEvent {
        code,
        control: true,
    }
}

#[test]
fn menu_items_have_their_places() {
    assert_eq!(usize::from(MenuItem::Packs), 0);
    assert_eq!(usize::from(MenuItem::Actions), 1);
    assert_eq!(usize::from(MenuItem::Summary), 2);
    assert_eq!(usize::from(packs_tui::menu::MenuItem::Home), 0);
    assert_eq!(usize::from(packs_tui::menu::MenuItem::Constants), 1);
    assert_eq!(usize::from(packs_tui::menu::MenuItem::Actions), 2);
    assert_eq!(
        usize::from(ContextMenuItem::Info(ContextMenuInfo::default())),
        0
    );
    assert_eq!(
        usize::from(ContextMenuItem::NoViolationDependents(
            ContextMenuNoViolationDependents::default()
        )),
        1
    );
    assert_eq!(
        usize::from(ContextMenuItem::ViolationDependents(
            ContextMenuViolationDependents::default()
        )),
        2
    );
    assert_eq!(
        usize::from(ContextMenuItem::ConstantViolations(
            ContextMenuConstantViolations::default()
        )),
        3
    );
}

#[test]
fn a_view_scrolls_and_stops_at_its_top() {
    let mut view = ContextMenuItem::ViolationDependents(ContextMenuViolationDependents::default());
    assert_eq!(view.scroll(), 0);
    view.previous_scroll();
    assert_eq!(view.scroll(), 0);
    view.next_scroll();
    view.next_scroll();
    assert_eq!(view.scroll(), 2);
    view.previous_scroll();
    assert_eq!(view.scroll(), 1);
    view.set_scroll(7);
    assert_eq!(view.scroll(), 7);
    view.sort_descending();
    assert_eq!(
        view,
        ContextMenuItem::ViolationDependents(ContextMenuViolationDependents {
            scroll: 7,
            sort_column: 0,
            sort_direction: SortDirection::Descending,
        })
    );
    view.sort_ascending();
    view.reset_scroll();
    assert_eq!(
        view,
        ContextMenuItem::ViolationDependents(ContextMenuViolationDependents::default())
    );
    let mut info = ContextMenuItem::Info(ContextMenuInfo { scroll: 3 });
    info.sort_descending();
    info.next_scroll();
    assert_eq!(info, ContextMenuItem::Info(ContextMenuInfo { scroll: 4 }));
}

#[test]
fn the_sorted_column_goes_round() {
    let mut constants = ContextMenuConstantViolations::default();
    let mut seen = vec![];
    for _ in 0..9 {
        constants.next_sort_column();
        seen.push(constants.sort_column);
    }
    assert_eq!(seen, vec![1, 2, 3, 4, 5, 6, 7, 0, 1]);
    let mut dependents = ContextMenuViolationDependents::default();
    let mut seen = vec![];
    for _ in 0..8 {
        dependents.next_sort_column();
        seen.push(dependents.sort_column);
    }
    assert_eq!(seen, vec![1, 2, 3, 4, 5, 6, 0, 1]);
    let mut far = ContextMenuConstantViolations {
        scroll: 0,
        sort_column: usize::MAX,
        sort_direction: SortDirection::Ascending,
    };
    far.next_sort_column();
    assert_eq!(far.sort_column, 0);
}

#[test]
fn the_sorted_column_is_marked_in_the_header() {
    let mut constants = ContextMenuConstantViolations {
        scroll: 0,
        sort_column: 1,
        sort_direction: SortDirection::Ascending,
    };
    assert_eq!(
        constants.header_titles(),
        vec![
            "constant",
            "▼ count",
            "architecture",
            "dependency",
            "folder visibility",
            "privacy",
            "visibility",
            "ref packs"
        ]
    );
    constants.sort_direction = SortDirection::Descending;
    constants.sort_column = 7;
    assert_eq!(constants.header_titles()[7], "▲ ref packs");
    assert_eq!(constants.header_titles()[1], "count");
    let mut dependents = ContextMenuViolationDependents {
        scroll: 0,
        sort_column: 4,
        sort_direction: SortDirection::Descending,
    };
    assert_eq!(
        dependents.header_titles(),
        vec!["pack", "cnst", "arch", "dep", "▲ folder visibility", "priv", "vis"]
    );
    dependents.sort_column = 9;
    assert_eq!(
        dependents.header_titles(),
        vec!["pack", "cnst", "arch", "dep", "fvis", "priv", "vis"]
    );
}

#[test]
fn summaries_by_constant_are_sorted_by_the_chosen_column() {
    let summaries = ConstantViolationSummaries::new(&records());
    let constants = |list: &Vec<Arc<packs_tui::packs::ConstantSummary>>| -> Vec<String> {
        list.iter().map(|s| s.constant.clone()).collect()
    };
    assert_eq!(
        constants(&summaries.constant_summaries),
        vec!["::Bar", "::Bar::Inner", "::Baz", "::Foo"]
    );
    let mut menu = ContextMenuConstantViolations::default();
    let mut rows = summaries.constant_summaries.clone();
    menu.sort_direction = SortDirection::Descending;
    menu.sort_violations(&mut rows);
    assert_eq!(constants(&rows), vec!["::Foo", "::Baz", "::Bar::Inner", "::Bar"]);
    menu.sort_column = 1;
    menu.sort_direction = SortDirection::Ascending;
    menu.sort_violations(&mut rows);
    assert_eq!(constants(&rows), vec!["::Bar::Inner", "::Foo", "::Bar", "::Baz"]);
    menu.sort_column = 5;
    menu.sort_violations(&mut rows);
    assert_eq!(constants(&rows), vec!["::Baz", "::Bar", "::Bar::Inner", "::Foo"]);
    menu.sort_column = 7;
    menu.sort_direction = SortDirection::Descending;
    menu.sort_violations(&mut rows);
    assert_eq!(constants(&rows), vec!["::Baz", "::Foo", "::Bar::Inner", "::Bar"]);
    menu.sort_column = 8;
    menu.sort_direction = SortDirection::Ascending;
    menu.sort_violations(&mut rows);
    assert_eq!(constants(&rows), vec!["::Baz", "::Foo", "::Bar::Inner", "::Bar"]);
    menu.sort_direction = SortDirection::Descending;
    menu.sort_violations(&mut rows);
    assert_eq!(constants(&rows), vec!["::Bar", "::Bar::Inner", "::Foo", "::Baz"]);
    let baz = &summaries.constant_summaries[2];
    assert_eq!(baz.count, 3);
    assert_eq!(baz.count_for_violation_type("architecture"), 3);
    assert_eq!(baz.count_for_violation_type("privacy"), 0);
    assert_eq!(baz.referencing_pack_count_length(), 2);
}

#[test]
fn pairwise_summaries_are_sorted_by_the_chosen_column() {
    let mut data = packs();
    let all = data.get_pack_dependent_violations();
    let keys = |list: &Vec<Arc<packs_tui::pks::PackDependentViolation>>| -> Vec<String> {
        list.iter()
            .map(|v| format!("{}<{}", v.defining_pack_name, v.referencing_pack_name))
            .collect()
    };
    let mut rows: Vec<_> = all.iter().cloned().collect();
    assert_eq!(
        keys(&rows),
        vec![
            "packs/baz<packs/bar",
            "packs/foo<packs/bar",
            "packs/bar<packs/baz",
            "packs/bar<packs/foo",
            "packs/baz<packs/foo"
        ]
    );
    let mut menu = ContextMenuViolationDependents::default();
    menu.sort_violations(&mut rows);
    assert_eq!(
        keys(&rows),
        vec![
            "packs/bar<packs/baz",
            "packs/bar<packs/foo",
            "packs/baz<packs/bar",
            "packs/baz<packs/foo",
            "packs/foo<packs/bar"
        ]
    );
    menu.sort_column = 2;
    menu.sort_direction = SortDirection::Descending;
    menu.sort_violations(&mut rows);
    assert_eq!(
        keys(&rows),
        vec![
            "packs/baz<packs/bar",
            "packs/baz<packs/foo",
            "packs/foo<packs/bar",
            "packs/bar<packs/foo",
            "packs/bar<packs/baz"
        ]
    );
    menu.sort_column = 5;
    menu.sort_direction = SortDirection::Ascending;
    menu.sort_violations(&mut rows);
    assert_eq!(
        keys(&rows),
        vec![
            "packs/baz<packs/bar",
            "packs/baz<packs/foo",
            "packs/foo<packs/bar",
            "packs/bar<packs/foo",
            "packs/bar<packs/baz"
        ]
    );
}

#[test]
fn the_filter_of_the_summaries_is_a_regular_expression() {
    let mut summaries = ConstantViolationSummaries::new(&records());
    let constants = |list: Vec<Arc<packs_tui::packs::ConstantSummary>>| -> Vec<String> {
        list.iter().map(|s| s.constant.clone()).collect()
    };
    assert_eq!(summaries.filter, "");
    assert_eq!(constants(summaries.filtered_summaries()).len(), 4);
    summaries.filter = "bar".to_string();
    assert_eq!(
        constants(summaries.filtered_summaries()),
        vec!["::Bar", "::Bar::Inner"]
    );
    summaries.filter = "^::ba.$".to_string();
    assert_eq!(
        constants(summaries.try_filtered_summaries().unwrap()),
        vec!["::Bar", "::Baz"]
    );
    summaries.filter = "INNER|foo".to_string();
    assert_eq!(
        constants(summaries.filtered_summaries()),
        vec!["::Bar::Inner", "::Foo"]
    );
    summaries.filter = "nothing".to_string();
    assert_eq!(constants(summaries.filtered_summaries()).len(), 0);
    summaries.filter = "(".to_string();
    assert!(summaries.try_filtered_summaries().is_none());
    assert_eq!(summaries.filter, "(");
    assert_eq!(summaries.constant_summaries.len(), 4);
}

#[test]
fn the_list_of_packs_is_filtered_and_walked() {
    let mut data = packs();
    let sorted = data.get_packs();
    let mut list = PackList::with_items(sorted.iter().cloned().collect());
    assert_eq!(list.selected, Some(0));
    assert_eq!(
        names(&list.filtered_items()),
        vec![".", "packs/bar", "packs/baz", "packs/foo"]
    );
    assert_eq!(list.selected_pack().unwrap().name, ".");
    list.next();
    assert_eq!(list.selected_pack().unwrap().name, "packs/bar");
    list.next();
    list.next();
    assert_eq!(list.selected, Some(3));
    list.next();
    assert_eq!(list.selected, Some(0));
    list.previous();
    assert_eq!(list.selected, Some(3));
    list.previous();
    assert_eq!(list.selected_pack().unwrap().name, "packs/baz");
    list.filter = "ba".to_string();
    assert_eq!(names(&list.filtered_items()), vec!["packs/bar", "packs/baz"]);
    assert_eq!(names(&list.filtered_items()), vec!["packs/bar", "packs/baz"]);
    assert_eq!(list.selected, Some(2));
    assert_eq!(list.selected_pack().unwrap().name, "packs/bar");
    list.next();
    assert_eq!(list.selected, Some(0));
    list.next();
    assert_eq!(list.selected_pack().unwrap().name, "packs/baz");
    list.filter = "nothing".to_string();
    assert_eq!(list.filtered_items().len(), 0);
    assert!(list.selected_pack().is_none());
    list.unselect();
    assert_eq!(list.selected, None);
    assert!(list.selected_pack().is_none());
    list.filter = String::new();
    list.next();
    assert_eq!(list.selected, Some(0));
    list.unselect();
    list.previous();
    assert_eq!(list.selected, Some(0));
    let empty = PackList::with_items(vec![]);
    assert_eq!(empty.selected, None);
}

#[test]
fn the_data_behind_the_menus_is_made_on_demand() {
    let mut data = packs();
    assert!(data.pack_list.is_none());
    assert!(data.constant_violation_summaries.is_none());
    assert_eq!(
        data.get_summary(),
        vec![
            ("packs".to_string(), 4),
            ("architecture violations".to_string(), 3),
            ("dependency violations".to_string(), 1),
            ("folder_visibility violations".to_string(), 0),
            ("privacy violations".to_string(), 3),
            ("visibility violations".to_string(), 0),
        ]
    );
    assert_eq!(
        data.get_pack_dependent_violations_by_selected_defining_pack_name()
            .len(),
        0
    );
    assert!(data.pack_list.is_some());
    assert_eq!(data.get_pack_list().selected, Some(0));
    data.next_pack_list();
    assert_eq!(data.get_pack_list().selected_pack().unwrap().name, "packs/bar");
    let of_bar: Vec<String> = data
        .get_pack_dependent_violations_by_selected_defining_pack_name()
        .iter()
        .map(|v| v.referencing_pack_name.clone())
        .collect();
    assert_eq!(of_bar, vec!["packs/baz", "packs/foo"]);
    data.previous_pack_list();
    data.previous_pack_list();
    assert_eq!(data.get_pack_list().selected_pack().unwrap().name, "packs/foo");
    data.unselect_pack_list();
    assert_eq!(data.get_pack_list().selected, None);
    assert_eq!(data.get_constant_violation_summaries().constant_summaries.len(), 4);
    data.get_constant_violation_summaries().filter = "baz".to_string();
    assert_eq!(
        data.get_constant_violation_summaries()
            .filtered_summaries()
            .len(),
        1
    );
    let baz = data.get_packs()[2].clone();
    let dependents = data.pack_dependents(&baz);
    assert_eq!(dependents.len(), 2);
    assert!(dependents.contains("packs/foo"));
    assert!(dependents.contains("packs/bar"));
    let stranger = pack("packs/stranger", &[]);
    assert!(data.pack_dependents(&stranger).is_empty());
    assert_eq!(data.get_pack_dependents().len(), 4);
    data.check_stale();
    assert!(data.pack_list.is_some());
}

#[test]
fn keys_are_told_apart() {
    for editing in [false, true] {
        assert_eq!(command_for(plain(KeyCode::Tab), editing), Command::Tab);
        assert_eq!(command_for(plain(KeyCode::Esc), editing), Command::FocusLeft);
        assert_eq!(command_for(plain(KeyCode::Down), editing), Command::Next);
        assert_eq!(command_for(plain(KeyCode::Char('j')), editing), Command::Next);
        assert_eq!(
            command_for(control(KeyCode::Down), editing),
            Command::SortDescending
        );
        assert_eq!(
            command_for(control(KeyCode::Char('j')), editing),
            Command::SortDescending
        );
    }
    for code in [
        KeyCode::Char('q'),
        KeyCode::Char('x'),
        KeyCode::Char('c'),
        KeyCode::Up,
        KeyCode::Left,
        KeyCode::Right,
        KeyCode::Other,
    ] {
        assert_eq!(command_for(plain(code), true), Command::FilterInput);
        assert_eq!(command_for(control(code), true), Command::FilterInput);
    }
    let expected = [
        ('q', Command::Quit),
        ('s', Command::TopMenuS),
        ('p', Command::TopMenuP),
        ('a', Command::TopMenuA),
        ('f', Command::FocusFilter),
        ('k', Command::Previous),
        ('c', Command::ContextMenuC),
        ('d', Command::ContextMenuD),
        ('v', Command::ContextMenuV),
        ('i', Command::ContextMenuI),
        ('x', Command::Nothing),
        ('Q', Command::Nothing),
        ('C', Command::Nothing),
    ];
    for (c, command) in expected {
        assert_eq!(command_for(plain(KeyCode::Char(c)), false), command);
    }
    assert_eq!(command_for(plain(KeyCode::Up), false), Command::Previous);
    assert_eq!(command_for(control(KeyCode::Up), false), Command::SortAscending);
    assert_eq!(
        command_for(control(KeyCode::Char('k')), false),
        Command::SortAscending
    );
    assert_eq!(command_for(plain(KeyCode::Left), false), Command::FocusLeft);
    assert_eq!(command_for(plain(KeyCode::Right), false), Command::FocusRight);
    assert_eq!(command_for(plain(KeyCode::Other), false), Command::Nothing);
}

#[test]
fn keys_move_through_the_menus() {
    let mut app = App::new(packs());
    assert!(app.running);
    app.tick();
    assert_eq!(app.menu_context.active_menu_item, MenuItem::Packs);
    assert_eq!(app.menu_context.active_focus, ActiveFocus::Left);
    app.packs.ensure_pack_list();
    assert_eq!(
        handle_key_events(plain(KeyCode::Char('j')), &mut app),
        Handled::Done
    );
    assert_eq!(app.packs.get_pack_list().selected, Some(1));
    handle_key_events(plain(KeyCode::Char('v')), &mut app);
    handle_key_events(plain(KeyCode::Right), &mut app);
    assert_eq!(app.menu_context.active_focus, ActiveFocus::Right);
    handle_key_events(plain(KeyCode::Down), &mut app);
    handle_key_events(plain(KeyCode::Down), &mut app);
    handle_key_events(plain(KeyCode::Up), &mut app);
    handle_key_events(plain(KeyCode::Tab), &mut app);
    handle_key_events(control(KeyCode::Down), &mut app);
    assert_eq!(
        app.menu_context.active_context_menu_item,
        ContextMenuItem::ViolationDependents(ContextMenuViolationDependents {
            scroll: 1,
            sort_column: 1,
            sort_direction: SortDirection::Descending,
        })
    );
    assert_eq!(app.packs.get_pack_list().selected, Some(1));
    handle_key_events(control(KeyCode::Char('k')), &mut app);
    handle_key_events(plain(KeyCode::Esc), &mut app);
    handle_key_events(plain(KeyCode::Char('k')), &mut app);
    assert_eq!(app.packs.get_pack_list().selected, Some(0));
    assert_eq!(
        app.menu_context.active_context_menu_item,
        ContextMenuItem::ViolationDependents(ContextMenuViolationDependents {
            scroll: 0,
            sort_column: 1,
            sort_direction: SortDirection::Ascending,
        })
    );
    handle_key_events(plain(KeyCode::Char('k')), &mut app);
    assert_eq!(app.packs.get_pack_list().selected, Some(3));
    handle_key_events(plain(KeyCode::Char('d')), &mut app);
    assert_eq!(
        app.menu_context.active_context_menu_item,
        ContextMenuItem::NoViolationDependents(ContextMenuNoViolationDependents { scroll: 0 })
    );
    handle_key_events(plain(KeyCode::Char('i')), &mut app);
    handle_key_events(plain(KeyCode::Char('a')), &mut app);
    assert_eq!(app.menu_context.active_menu_item, MenuItem::Actions);
    handle_key_events(plain(KeyCode::Down), &mut app);
    assert_eq!(app.packs.get_pack_list().selected, Some(3));
    handle_key_events(plain(KeyCode::Char('s')), &mut app);
    assert_eq!(app.menu_context.active_menu_item, MenuItem::Summary);
    handle_key_events(plain(KeyCode::Down), &mut app);
    assert_eq!(
        app.menu_context.active_context_menu_item,
        ContextMenuItem::Info(ContextMenuInfo { scroll: 0 })
    );
    handle_key_events(plain(KeyCode::Char('c')), &mut app);
    handle_key_events(plain(KeyCode::Down), &mut app);
    handle_key_events(plain(KeyCode::Tab), &mut app);
    assert_eq!(
        app.menu_context.active_context_menu_item,
        ContextMenuItem::ConstantViolations(ContextMenuConstantViolations {
            scroll: 1,
            sort_column: 1,
            sort_direction: SortDirection::Ascending,
        })
    );
    handle_key_events(plain(KeyCode::Char('p')), &mut app);
    assert_eq!(app.menu_context.active_menu_item, MenuItem::Packs);
    app.unselect();
    assert_eq!(app.packs.get_pack_list().selected, None);
    assert!(app.running);
    handle_key_events(plain(KeyCode::Char('q')), &mut app);
    assert!(!app.running);
}

#[test]
fn the_filter_takes_the_keys_while_it_is_edited() {
    let mut app = App::new(packs());
    app.packs.ensure_pack_list();
    assert!(!app.handle_as_textarea(&vec!["ignored".to_string()]));
    assert_eq!(app.packs.get_pack_list().filter, "");
    assert_eq!(
        handle_key_events(plain(KeyCode::Char('f')), &mut app),
        Handled::Done
    );
    assert_eq!(
        app.menu_context.active_focus,
        ActiveFocus::Filter(String::new())
    );
    assert_eq!(
        handle_key_events(plain(KeyCode::Char('q')), &mut app),
        Handled::FilterInput
    );
    assert!(app.running);
    assert!(app.handle_as_textarea(&vec!["ba".to_string(), "r".to_string()]));
    assert_eq!(
        app.menu_context.active_focus,
        ActiveFocus::Filter("bar".to_string())
    );
    assert_eq!(app.packs.get_pack_list().filter, "bar");
    assert_eq!(names(&app.packs.get_pack_list().filtered_items()), vec!["packs/bar"]);
    assert_eq!(
        handle_key_events(control(KeyCode::Char('c')), &mut app),
        Handled::FilterInput
    );
    assert!(!app.running);
    assert_eq!(
        handle_key_events(plain(KeyCode::Tab), &mut app),
        Handled::Done
    );
    assert_eq!(app.menu_context.active_focus, ActiveFocus::Left);
    handle_key_events(plain(KeyCode::Char('f')), &mut app);
    assert_eq!(
        app.menu_context.active_focus,
        ActiveFocus::Filter("bar".to_string())
    );
    handle_key_events(plain(KeyCode::Down), &mut app);
    assert_eq!(app.menu_context.active_focus, ActiveFocus::Left);
    handle_key_events(plain(KeyCode::Char('s')), &mut app);
    handle_key_events(plain(KeyCode::Char('c')), &mut app);
    let _ = app.packs.get_constant_violation_summaries();
    app.update_filter("baz".to_string());
    assert_eq!(app.packs.get_constant_violation_summaries().filter, "baz");
    assert_eq!(app.packs.get_pack_list().filter, "bar");
    handle_key_events(plain(KeyCode::Char('f')), &mut app);
    assert_eq!(
        app.menu_context.active_focus,
        ActiveFocus::Filter("baz".to_string())
    );
    app.focus_left();
    handle_key_events(plain(KeyCode::Char('i')), &mut app);
    app.update_filter("other".to_string());
    assert_eq!(app.packs.get_constant_violation_summaries().filter, "baz");
    handle_key_events(plain(KeyCode::Char('a')), &mut app);
    app.focus_filter();
    assert_eq!(
        app.menu_context.active_focus,
        ActiveFocus::Filter(String::new())
    );
}

#[test]
fn control_c_stops_the_explorer_and_still_opens_the_constants() {
    let mut app = App::new(packs());
    assert_eq!(
        handle_key_events(control(KeyCode::Char('c')), &mut app),
        Handled::Done
    );
    assert!(!app.running);
    assert_eq!(
        app.menu_context.active_context_menu_item,
        ContextMenuItem::ConstantViolations(ContextMenuConstantViolations::default())
    );
    let mut app = App::new(packs());
    handle_key_events(control(KeyCode::Char('C')), &mut app);
    assert!(!app.running);
    assert_eq!(
        app.menu_context.active_context_menu_item,
        ContextMenuItem::Info(ContextMenuInfo::default())
    );
    let mut app = App::new(packs());
    app.focus_right();
    app.sort_descending();
    app.sort_ascending();
    handle_key_events(plain(KeyCode::Left), &mut app);
    assert_eq!(app.menu_context.active_focus, ActiveFocus::Left);
    assert!(app.running);
}
