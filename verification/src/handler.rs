//! What the keys do to the menus.
//!
//! A key is handled in two steps. Some keys act at once. Any other key goes
//! into the filter while its text is edited; only where it is not, the key
//! acts on the menus.

use crate::app::{
    ActiveFocus, App, ContextMenuConstantViolations, ContextMenuInfo, ContextMenuItem,
    ContextMenuNoViolationDependents, ContextMenuViolationDependents, MenuContext, MenuItem,
    SortDirection,
};
use vstd::prelude::*;

verus! {

/// The keys that the menus tell apart.
#[derive(Clone, Copy, Debug, PartialEq, Eq)]
pub enum KeyCode {
    Char(char),
    Tab,
    Esc,
    Down,
    Up,
    Left,
    Right,
    /// Any other key.
    Other,
}

/// A key that was pressed. `control` says that the control key, and no other
/// modifier, was held down with it.
#[derive(Clone, Copy, Debug, PartialEq, Eq)]
pub struct KeyEvent {
    pub code: KeyCode,
    pub control: bool,
}

/// What a key asks for.
#[derive(Clone, Copy, Debug, PartialEq, Eq)]
pub enum Command {
    Nothing,
    /// The key belongs to the text of the filter.
    FilterInput,
    Quit,
    Tab,
    FocusLeft,
    FocusRight,
    FocusFilter,
    SortDescending,
    SortAscending,
    Next,
    Previous,
    TopMenuS,
    TopMenuP,
    TopMenuA,
    ContextMenuC,
    ContextMenuD,
    ContextMenuV,
    ContextMenuI,
}

/// What became of a key.
#[derive(Clone, Copy, Debug, PartialEq, Eq)]
pub enum Handled {
    /// The key was dealt with.
    Done,
    /// The key is to be given to the text area of the filter, and what the
    /// text area holds then is to be handed to `App::handle_as_textarea`.
    FilterInput,
}

/// Control with `c` stops the explorer, whatever the key does besides.
pub open spec fn stops(key: KeyEvent) -> bool {
    key.control && (key.code == KeyCode::Char('c') || key.code == KeyCode::Char('C'))
}

/// What a key asks for, where `editing` says whether the text of the filter
/// is edited.
pub open spec fn command_of(key: KeyEvent, editing: bool) -> Command {
    match key.code {
        KeyCode::Tab => Command::Tab,
        KeyCode::Esc => Command::FocusLeft,
        KeyCode::Down => if key.control {
            Command::SortDescending
        } else {
            Command::Next
        },
        KeyCode::Char(c) => if c == 'j' {
            if key.control {
                Command::SortDescending
            } else {
                Command::Next
            }
        } else if editing {
            Command::FilterInput
        } else if c == 'q' {
            Command::Quit
        } else if c == 's' {
            Command::TopMenuS
        } else if c == 'p' {
            Command::TopMenuP
        } else if c == 'a' {
            Command::TopMenuA
        } else if c == 'f' {
            Command::FocusFilter
        } else if c == 'k' {
            if key.control {
                Command::SortAscending
            } else {
                Command::Previous
            }
        } else if c == 'c' {
            Command::ContextMenuC
        } else if c == 'd' {
            Command::ContextMenuD
        } else if c == 'v' {
            Command::ContextMenuV
        } else if c == 'i' {
            Command::ContextMenuI
        } else {
            Command::Nothing
        },
        KeyCode::Up => if editing {
            Command::FilterInput
        } else if key.control {
            Command::SortAscending
        } else {
            Command::Previous
        },
        KeyCode::Left => if editing {
            Command::FilterInput
        } else {
            Command::FocusLeft
        },
        KeyCode::Right => if editing {
            Command::FilterInput
        } else {
            Command::FocusRight
        },
        KeyCode::Other => if editing {
            Command::FilterInput
        } else {
            Command::Nothing
        },
    }
}

/// The explorer `app` with the keys going to `focus`.
pub open spec fn with_focus(app: App, focus: ActiveFocus) -> App {
    App { menu_context: MenuContext { active_focus: focus, ..app.menu_context }, ..app }
}

/// The explorer `app` with the view `view`.
pub open spec fn with_view(app: App, view: ContextMenuItem) -> App {
    App { menu_context: MenuContext { active_context_menu_item: view, ..app.menu_context }, ..app }
}

/// The explorer `app` with the menu `menu` open.
pub open spec fn with_menu(app: App, menu: MenuItem) -> App {
    App { menu_context: MenuContext { active_menu_item: menu, ..app.menu_context }, ..app }
}

/// What carrying out `command` makes of `before`.
pub open spec fn carried_out(command: Command, before: App, after: App) -> bool {
    let view = before.menu_context.active_context_menu_item;
    match command {
        Command::Nothing => after == before,
        Command::FilterInput => after == before,
        Command::Quit => after == (App { running: false, ..before }),
        Command::Tab => after == if before.menu_context.active_focus is Filter {
            with_focus(before, ActiveFocus::Left)
        } else {
            with_view(before, view.with_next_sort_column())
        },
        Command::FocusLeft => after == with_focus(before, ActiveFocus::Left),
        Command::FocusRight => after == with_focus(before, ActiveFocus::Right),
        Command::FocusFilter => {
            &&& after.menu_context.active_focus.is_editing(before.filter_text())
            &&& after.running == before.running
            &&& after.packs == before.packs
            &&& after.menu_context.active_menu_item == before.menu_context.active_menu_item
            &&& after.menu_context.active_context_menu_item == view
        },
        Command::SortDescending => after == with_view(
            before,
            view.sorted(SortDirection::Descending),
        ),
        Command::SortAscending => after == with_view(before, view.sorted(SortDirection::Ascending)),
        Command::Next => App::went_next(before, after),
        Command::Previous => App::went_previous(before, after),
        Command::TopMenuS => after == with_view(
            with_menu(before, MenuItem::Summary),
            ContextMenuItem::Info(ContextMenuInfo { scroll: 0 }),
        ),
        Command::TopMenuP => after == with_view(
            with_menu(before, MenuItem::Packs),
            ContextMenuItem::Info(ContextMenuInfo { scroll: 0 }),
        ),
        Command::TopMenuA => after == with_menu(before, MenuItem::Actions),
        Command::ContextMenuC => after == with_view(
            before,
            ContextMenuItem::ConstantViolations(
                ContextMenuConstantViolations {
                    scroll: 0,
                    sort_column: 0,
                    sort_direction: SortDirection::Ascending,
                },
            ),
        ),
        Command::ContextMenuD => after == with_view(
            before,
            ContextMenuItem::NoViolationDependents(ContextMenuNoViolationDependents { scroll: 0 }),
        ),
        Command::ContextMenuV => after == with_view(
            before,
            ContextMenuItem::ViolationDependents(
                ContextMenuViolationDependents {
                    scroll: 0,
                    sort_column: 0,
                    sort_direction: SortDirection::Ascending,
                },
            ),
        ),
        Command::ContextMenuI => after == with_view(
            before,
            ContextMenuItem::Info(ContextMenuInfo { scroll: 0 }),
        ),
    }
}

/// What `handle_key_events` makes of `before` on the key `key`: the explorer
/// is stopped first where the key stops it, and then what the key asks for
/// is carried out.
pub open spec fn handled(key: KeyEvent, before: App, after: App) -> bool {
    let started = if stops(key) {
        App { running: false, ..before }
    } else {
        before
    };
    carried_out(command_of(key, before.menu_context.active_focus is Filter), started, after)
}

/// What the key asks for.
pub fn command_for(key_event: KeyEvent, editing: bool) -> (r: Command)
    ensures
        r == command_of(key_event, editing),
{
    match key_event.code {
        KeyCode::Tab => {
            return Command::Tab;
        },
        KeyCode::Esc => {
            return Command::FocusLeft;
        },
        KeyCode::Down => {
            return if key_event.control {
                Command::SortDescending
            } else {
                Command::Next
            };
        },
        KeyCode::Char(c) => {
            if c == 'j' {
                return if key_event.control {
                    Command::SortDescending
                } else {
                    Command::Next
                };
            }
        },
        _ => {},
    }
    if editing {
        return Command::FilterInput;
    }
    match key_event.code {
        KeyCode::Char(c) => {
            if c == 'q' {
                Command::Quit
            } else if c == 's' {
                Command::TopMenuS
            } else if c == 'p' {
                Command::TopMenuP
            } else if c == 'a' {
                Command::TopMenuA
            } else if c == 'f' {
                Command::FocusFilter
            } else if c == 'k' {
                if key_event.control {
                    Command::SortAscending
                } else {
                    Command::Previous
                }
            } else if c == 'c' {
                Command::ContextMenuC
            } else if c == 'd' {
                Command::ContextMenuD
            } else if c == 'v' {
                Command::ContextMenuV
            } else if c == 'i' {
                Command::ContextMenuI
            } else {
                Command::Nothing
            }
        },
        KeyCode::Left => Command::FocusLeft,
        KeyCode::Right => Command::FocusRight,
        KeyCode::Up => {
            if key_event.control {
                Command::SortAscending
            } else {
                Command::Previous
            }
        },
        _ => Command::Nothing,
    }
}

/// Handles a key: changes the menus as the key asks, or answers that the
/// key is to go into the text area of the filter.
pub fn handle_key_events(key_event: KeyEvent, app: &mut App) -> (r: Handled)
    requires
        old(app).wf(),
        command_of(key_event, old(app).menu_context.active_focus is Filter) == Command::Next
            ==> old(app).can_go_next(),
        command_of(key_event, old(app).menu_context.active_focus is Filter) == Command::Previous
            ==> old(app).can_go_previous(),
    ensures
        final(app).wf(),
        handled(key_event, *old(app), *final(app)),
        r == if command_of(key_event, old(app).menu_context.active_focus is Filter)
            == Command::FilterInput {
            Handled::FilterInput
        } else {
            Handled::Done
        },
{
    let stop = key_event.control && match key_event.code {
        KeyCode::Char(c) => c == 'c' || c == 'C',
        _ => false,
    };
    if stop {
        app.quit();
    }
    let editing = match &app.menu_context.active_focus {
        ActiveFocus::Filter(_) => true,
        _ => false,
    };
    match command_for(key_event, editing) {
        Command::Nothing => {},
        Command::FilterInput => {
            return Handled::FilterInput;
        },
        Command::Quit => app.quit(),
        Command::Tab => app.handle_tab(),
        Command::FocusLeft => app.focus_left(),
        Command::FocusRight => app.focus_right(),
        Command::FocusFilter => app.focus_filter(),
        Command::SortDescending => app.sort_descending(),
        Command::SortAscending => app.sort_ascending(),
        Command::Next => app.next(),
        Command::Previous => app.previous(),
        Command::TopMenuS => app.handle_top_menu_s(),
        Command::TopMenuP => app.handle_top_menu_p(),
        Command::TopMenuA => app.handle_top_menu_a(),
        Command::ContextMenuC => app.handle_context_menu_c(),
        Command::ContextMenuD => app.handle_context_menu_d(),
        Command::ContextMenuV => app.handle_context_menu_v(),
        Command::ContextMenuI => app.handle_context_menu_i(),
    }
    Handled::Done
}

} // verus!
