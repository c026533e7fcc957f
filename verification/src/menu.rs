//! The entries of the top menu.

use vstd::prelude::*;
use vstd::std_specs::convert::FromSpecImpl;

verus! {

#[derive(Copy, Clone, Debug, PartialEq, Eq)]
pub enum MenuItem {
    Home,
    Constants,
    Actions,
}

impl MenuItem {
    /// The place of the entry in the menu, from the left.
    pub open spec fn index(self) -> usize {
        match self {
            MenuItem::Home => 0,
            MenuItem::Constants => 1,
            MenuItem::Actions => 2,
        }
    }
}

impl From<MenuItem> for usize {
    fn from(input: MenuItem) -> (r: usize) {
        match input {
            MenuItem::Home => 0,
            MenuItem::Constants => 1,
            MenuItem::Actions => 2,
        }
    }
}

impl FromSpecImpl<MenuItem> for usize {
    open spec fn obeys_from_spec() -> bool {
        true
    }

    open spec fn from_spec(input: MenuItem) -> usize {
        input.index()
    }
}

} // verus!
