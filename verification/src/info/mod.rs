//! The text of the system monitor widgets.

pub mod bar;
pub mod disk;
pub mod gpu;
pub mod network;
pub mod ram;
pub mod system_info;
