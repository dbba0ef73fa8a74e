//! What the command line gives the client.

use vstd::prelude::*;

verus! {

/// The arguments of the client.
#[derive(Clone, Debug, PartialEq, Eq)]
pub struct AppArgs {
    /// The torrent files to work on.
    pub torrent_files: Vec<String>,
    /// Whether to log more than warnings.
    pub verbose: bool,
}

} // verus!
