//! A Perforce workspace behind the editor's version-control interface.

pub mod blame;
pub mod changelists;
pub mod client;
pub mod commands;
pub mod commit;
pub mod config;
pub mod describe;
pub mod history;
pub mod lcs;
pub mod opened;
pub mod pending;
pub mod repository;
pub mod script;
pub mod workspace;
pub mod ztag;
