//! Mod manager core for Diablo II: Resurrected: mod sources, file tracking,
//! TSV tables and the helpers that the command line program builds on.

pub mod keyed;
pub mod text;
pub mod mod_sources;
pub mod file_manager;
pub mod tsv;
pub mod json;
pub mod config;
pub mod lua_tables;
pub mod casc;
pub mod runtime;
pub mod cli;
pub mod loader;
pub mod github;
pub mod mod_entries;
pub mod handover;
