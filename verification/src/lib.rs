//! Routing core of a multi-track audio recorder.

pub mod busses;
pub mod config;
pub mod fanout;
pub mod link;
pub mod mixer;
pub mod router;
pub mod routes;
pub mod text;
pub mod tracks;
pub mod ui;
pub mod utils;
