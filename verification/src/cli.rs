//! What the command line can ask for.

use vstd::prelude::*;

verus! {

/// A parsed command line.
#[derive(Debug, PartialEq, Eq)]
pub struct Cli {
    pub command: Command,
}

/// The subcommands.
#[derive(Debug, PartialEq, Eq)]
pub enum Command {
    /// Start a port forward (profile name or host + ports).
    Start {
        /// Profile name or SSH host.
        name_or_host: String,
        /// Port mapping (LOCAL:REMOTE), e.g. 8080:80.
        ports: Option<String>,
        /// Name for ad-hoc forwards.
        name: Option<String>,
        /// Disable auto-reconnect.
        no_reconnect: bool,
        /// Max reconnect attempts (0 = unlimited).
        max_retries: u32,
        /// Delay between retries in seconds.
        retry_delay: u64,
    },
    /// Stop a running forward.
    Stop {
        name: Option<String>,
        all: bool,
        /// Stop every forward on one machine.
        host: Option<String>,
    },
    /// List all forwards.
    List { json: bool },
    /// Restart a forward.
    Restart { name: Option<String>, all: bool },
    /// View the session log of a forward's machine.
    Logs {
        name: Option<String>,
        follow: bool,
        /// Show a machine's session log directly.
        host: Option<String>,
    },
    /// Manage saved profiles.
    Config { action: ConfigAction },
    /// Forget sessions no live watcher owns.
    Clean,
    /// Launch the interactive dashboard.
    Tui,
    /// List SSH hosts from ~/.ssh/config.
    Hosts,
    /// Generate shell completions.
    Completions { shell: ShellType },
    /// Internal: provide dynamic completions for a shell.
    Complete { subcommand: String, prefix: String },
    /// Internal: run as a machine's watcher.
    Watcher { host: String },
}

/// What to do with saved profiles.
#[derive(Debug, PartialEq, Eq)]
pub enum ConfigAction {
    /// Save a new profile.
    Add { name: String, host: String, ports: String },
    /// Remove a saved profile.
    Remove { name: String },
    /// List saved profiles.
    List,
}

/// A shell that completions can be generated for.
#[derive(Debug, Clone, Copy, PartialEq, Eq, Structural)]
pub enum ShellType {
    Bash,
    Zsh,
    Fish,
}

}
