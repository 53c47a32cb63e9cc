//! The services table.
use vstd::prelude::*;

verus! {

/// One launchd service that olma manages.
#[derive(Debug, Clone)]
pub struct ServiceRow {
    pub name: String,
    pub plist_path: String,
    pub enabled: bool,
    pub last_action: Option<String>,
    pub last_action_ts: Option<i64>,
}

} // verus!
