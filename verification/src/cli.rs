use vstd::prelude::*;

verus! {

// ---------------------------------------------------------------------------
// The command surface, as plain data. Argument parsing lives with the
// binary; these types carry what was asked for into the library.
// ---------------------------------------------------------------------------

/// A parsed invocation: global switches, the chosen command if any, and
/// raw passthrough arguments otherwise.
pub struct Cli {
    pub disable_agt: bool,
    pub directory: Option<String>,
    pub command: Option<Commands>,
    pub args: Vec<String>,
}

/// The top-level commands.
pub enum Commands {
    /// Clone a remote repository into the managed layout.
    Clone { remote_url: String, path: Option<String> },
    /// Session management.
    Session(SessionCommands),
    /// Commit all modified files to the session's shadow branch.
    Autocommit {
        session_id: String,
        timestamp: Option<i64>,
        dry_run: bool,
        siblings: Option<Vec<String>>,
    },
    /// Show tool status.
    Status,
}

/// The session subcommands.
pub enum SessionCommands {
    /// Create a session for a fresh piece of work.
    New { id: Option<String>, from: Option<String>, profile: String },
    /// Push the session's user branch to the remote.
    Export { session_id: Option<String> },
    /// Remove a session and its folders.
    Remove { id: String, delete_branch: bool },
    /// Fork a session for parallel work.
    Fork { from: String, id: Option<String> },
    /// Reset the session folder to an earlier shadow commit.
    Restore { session_id: String, commit: String },
    /// List sessions.
    List,
}

} // verus!
