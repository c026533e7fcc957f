//! What the screens are drawn with: the choice of styles and the measures
//! of the layout.

pub mod shared;
pub mod style;
