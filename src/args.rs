//! The server's command-line arguments.

use vstd::prelude::*;

verus! {

/// The command-line arguments.
#[derive(Clone, Debug, PartialEq, Eq)]
pub struct Args {
    /// The Kakoune session to send commands to.
    pub session: i32,
    /// Whether to run in the background.
    pub daemonize: bool,
    /// The file to read the style tables from.
    pub config: String,
}

} // verus!
