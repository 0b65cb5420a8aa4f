//! The command surface: what a parsed command line asks for.

use vstd::prelude::*;

verus! {

/// A parsed command line; no command prints the help.
pub struct Cli {
    pub command: Option<Commands>,
}

/// The commands.
pub enum Commands {
    /// Add a profile through prompts; `env` holds extra `KEY=VALUE` entries.
    Add { name: String, env: Vec<String> },
    /// List the profiles, marking the active ones.
    List,
    /// Show a profile's document.
    Show { name: String },
    /// Remove a profile that is not active.
    Remove { name: String },
    /// Switch to a profile, globally or for the working project.
    Switch { name: String, project: bool },
    /// Launch the assistant with the active profile.
    Run,
    /// Store the live settings as a new profile.
    Import { name: String },
    /// Rename a profile.
    Rename { origin: String, new: String },
    /// Open a profile in an editor.
    Edit { name: String },
    /// Store the live settings into the active profile.
    Sync,
    /// Take the project's profile back out of its overlay.
    ClearProject,
    /// The interactive list.
    Ui,
    /// Exercise the interactive list without a terminal.
    TestTui,
    /// Update this program to the latest release.
    Update { check: bool },
}

} // verus!
