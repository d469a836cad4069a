//! The command-line surface as plain data: which role to run, the
//! connection timeout, and verbosity.  Argument parsing itself stays with
//! the binary; the library only defines what a parsed invocation holds.
use vstd::prelude::*;

verus! {

/// One parsed invocation.
#[derive(Clone, Copy, PartialEq, Eq, Structural, Debug)]
pub struct Cli {
    pub command: Commands,
    /// Connection timeout in seconds.
    pub timeout: u64,
    /// Verbose logging.
    pub verbose: bool,
}

/// The role this process takes in the exchange.
#[derive(Clone, Copy, PartialEq, Eq, Structural, Debug)]
pub enum Commands {
    /// Initiate the connection and emit the offer block.
    Offer,
    /// Wait for an offer block and reply with an answer block.
    Answer,
    /// The experimental multi-peer mode, a non-functional stub.
    Group { max_peers: usize },
}

} // verus!
