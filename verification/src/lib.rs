//! Verified core of `olma`, a package manager for macOS bottles: paths,
//! metadata lookups, dependency ordering, relocation of prefixes inside files
//! and launchd property lists, and the decisions the command line takes.
pub mod text;
pub mod error;
pub mod resolver;
pub mod metadata;
pub mod relocator;
pub mod services;
pub mod cache;
pub mod config;
pub mod platform;
pub mod pipeline;
pub mod cli;
pub mod state;
pub mod output;
pub mod fs_lock;
