//! Messages that are sent at a later time.

pub mod actions;
pub mod clock;
pub mod labels;
pub mod menu;
pub mod message;
pub mod parsing;
pub mod state;
pub mod store;
