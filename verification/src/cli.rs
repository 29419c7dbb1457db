//! The command-line surface: the two ways to run a project.

use vstd::prelude::*;

verus! {

/// The parsed command line.
pub struct Cli {
    pub command: Commands,
}

/// Serve the site in development mode, or build it as static HTML files;
/// either way over an optional project folder.
pub enum Commands {
    Serve { folder: Option<String> },
    Build { folder: Option<String> },
}

} // verus!
