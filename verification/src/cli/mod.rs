//! The decisions that the subcommands take.
pub mod autoremove;
pub mod history;
pub mod default;
pub mod prompt;
pub mod rollback;
pub mod upgrade;
pub mod outdated;
pub mod add;
pub mod remove;
pub mod list;
pub mod update;
pub mod info;
pub mod autoclean;
pub mod search;

use vstd::prelude::*;

verus! {

/// The parsed command line.
#[derive(Debug)]
pub struct Cli {
    pub cmd: Cmd,
}

/// The subcommands.
#[derive(Debug)]
pub enum Cmd {
    /// Install a formula and what it depends on.
    Add { name: String },
}

} // verus!
