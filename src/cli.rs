//! The tool's own command line, as plain values: a sub-command, or the command
//! to build a session for.

use vstd::prelude::*;

verus! {

/// The parsed command line of the tool.
pub struct Cli {
    pub command: Option<Commands>,
    pub wrapped_command: Vec<String>,
}

/// The tool's sub-commands.
pub enum Commands {
    History { search: Option<String> },
    SavePreset { name: String },
    ListPresets,
}

} // verus!
