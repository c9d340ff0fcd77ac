//! Routing of clicked links to browser profiles by domain, with the text
//! handling around it: rule matching, profile lookup, registry entries,
//! command-line dispatch and the lines the program reports.

pub mod text;
pub mod config;
pub mod matcher;
pub mod chrome;
pub mod register;
pub mod logging;
pub mod cli;
pub mod notes;
