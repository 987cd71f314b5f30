//! A read-only dashboard over many issue repositories at once.
pub mod app;
pub mod bd;
pub mod cache;
pub mod cli;
pub mod config;
pub mod disk;
pub mod hub;
pub mod io;
pub mod measure;
pub mod migration;
pub mod path;
pub mod publish;
pub mod refresh;
pub mod replace;
pub mod runtime;
pub mod search;
pub mod snapshot;
pub mod text;
pub mod time;
pub mod ui_state;
