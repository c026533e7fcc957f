//! State that the panels share.

pub mod active_violations;
pub mod scroll_sortable;
pub mod violations_display;
