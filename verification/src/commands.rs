//! The commands a caller can ask of the tool, as plain data.
//!
//! Argument parsing and prompting live with the embedding program; what
//! stands here is the parsed shape it hands around.

use vstd::prelude::*;

verus! {

/// One invocation: a command, or none for the interactive default.
pub struct Cli {
    pub command: Option<Commands>,
}

/// Everything the tool can be asked to do.
#[allow(inconsistent_fields)]
pub enum Commands {
    /// Initialize a new vault.
    Init,
    /// Add a new server.
    Add,
    /// List all servers.
    List,
    /// Connect to a server, by name or identity if given.
    Connect { name: Option<String> },
    /// Remove a server, by name or identity.
    Remove { name: String },
    /// Interactive server selection and connection.
    Quick,
    /// Search servers.
    Search { query: String },
    /// Export ssh-config entries, printed or written out.
    SshConfig { write: bool },
    /// The full-screen interactive surface.
    Ui,
}

} // verus!
