//! Verified core of the `fast` shell toolkit: history and alias stores,
//! the three-column directory browser state machine, and the text
//! rendering of the system monitor widgets.

pub mod text;
pub mod sort;
pub mod hist;
pub mod alias;
pub mod fastcd;
pub mod info;
pub mod screen;
