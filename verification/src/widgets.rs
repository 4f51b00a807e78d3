//! What the widgets of the picker hold.

pub mod preview;
pub mod searchbar;
