use vstd::prelude::*;

verus! {

/// The command line: one subcommand.
#[derive(Debug)]
pub struct Args {
    pub command: Command,
}

/// The subcommands of the command line.
#[derive(Debug)]
pub enum Command {
    Init,
    Status,
    Log,
    /// Paths to add to staging.
    Add { path: Vec<String> },
    /// Commit with a message.
    Commit { message: String },
    /// Check out the commit with this id.
    Checkout { commit: String },
}

} // verus!
