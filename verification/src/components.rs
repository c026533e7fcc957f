//! The panels of the explorer and the state they keep.

pub mod helpers;
pub mod home;
