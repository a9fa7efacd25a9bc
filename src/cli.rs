//! The commands of the command-line tool, as plain values.
use vstd::prelude::*;

verus! {

/// A parsed command line.
#[derive(Debug, Clone)]
pub struct Cli {
    pub command: Commands,
}

/// What the tool is asked to do.
#[derive(Debug, Clone)]
pub enum Commands {
    /// Initialize in the current repository.
    Init { force: bool },
    /// Check for documentation drift in a range (upstream..HEAD by default).
    Check { range: Option<String>, no_tui: bool },
    /// Show or edit the configuration.
    Config { edit: bool, path: bool },
    Enable,
    Disable,
    /// Manage the query cache.
    Cache { action: CacheAction },
    /// Install the pre-push hook.
    InstallHook { force: bool },
    /// Run as the pre-push hook.
    Hook,
}

/// What to do with the query cache.
#[derive(Debug, Clone, Copy, PartialEq, Eq, Structural)]
pub enum CacheAction {
    Clear,
    Stats,
}

} // verus!
