//! What the explorer can be asked to do.

use vstd::prelude::*;

verus! {

/// A request to the explorer, as a key binding or the terminal raises it.
#[derive(Debug, Clone, PartialEq, Eq)]
pub enum Action {
    Tick,
    Render,
    Resize(u16, u16),
    Suspend,
    Resume,
    Quit,
    Refresh,
    Error(String),
    Help,
    Next,
    Down,
    Up,
    Left,
    Right,
    UncontainedOutViolations,
    UncontainedInViolations,
    ContainedOutViolations,
    ContainedInViolations,
    NextTab,
    Escape,
    SortAscending,
    SortDescending,
}

impl Action {
    /// The name of the action, without what it carries.
    pub fn name(&self) -> (r: &'static str)
        ensures
            r@ == (match *self {
                Action::Tick => "Tick"@,
                Action::Render => "Render"@,
                Action::Resize(_, _) => "Resize"@,
                Action::Suspend => "Suspend"@,
                Action::Resume => "Resume"@,
                Action::Quit => "Quit"@,
                Action::Refresh => "Refresh"@,
                Action::Error(_) => "Error"@,
                Action::Help => "Help"@,
                Action::Next => "Next"@,
                Action::Down => "Down"@,
                Action::Up => "Up"@,
                Action::Left => "Left"@,
                Action::Right => "Right"@,
                Action::UncontainedOutViolations => "UncontainedOutViolations"@,
                Action::UncontainedInViolations => "UncontainedInViolations"@,
                Action::ContainedOutViolations => "ContainedOutViolations"@,
                Action::ContainedInViolations => "ContainedInViolations"@,
                Action::NextTab => "NextTab"@,
                Action::Escape => "Escape"@,
                Action::SortAscending => "SortAscending"@,
                Action::SortDescending => "SortDescending"@,
            }),
    {
        match self {
            Action::Tick => "Tick",
            Action::Render => "Render",
            Action::Resize(_, _) => "Resize",
            Action::Suspend => "Suspend",
            Action::Resume => "Resume",
            Action::Quit => "Quit",
            Action::Refresh => "Refresh",
            Action::Error(_) => "Error",
            Action::Help => "Help",
            Action::Next => "Next",
            Action::Down => "Down",
            Action::Up => "Up",
            Action::Left => "Left",
            Action::Right => "Right",
            Action::UncontainedOutViolations => "UncontainedOutViolations",
            Action::UncontainedInViolations => "UncontainedInViolations",
            Action::ContainedOutViolations => "ContainedOutViolations",
            Action::ContainedInViolations => "ContainedInViolations",
            Action::NextTab => "NextTab",
            Action::Escape => "Escape",
            Action::SortAscending => "SortAscending",
            Action::SortDescending => "SortDescending",
        }
    }
}

} // verus!
