//! The panel that shows the pending changelists of the active workspace.

pub mod dock;
pub mod expansion;
pub mod file_menu;
pub mod rows;
