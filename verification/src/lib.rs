//! Version-control and scheduling logic of an editor back end.

pub mod calendar;
pub mod checkout;
pub mod decimal;
pub mod oid;
pub mod order;
pub mod panel;
pub mod path;
pub mod perforce;
pub mod schedule;
pub mod seqs;
pub mod status;
pub mod text;
pub mod text_map;
pub mod update_url;
