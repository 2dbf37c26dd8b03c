use vstd::prelude::*;

verus! {

/// The command surface of the engine, as plain data. The command line
/// front end parses the process arguments into this enum and dispatches
/// on it; each variant maps one to one onto a history command.
pub enum VcsCommands {
    /// Create a repository at the given path.
    Init { path: String },
    /// Show the working tree status.
    Status,
    /// Record the working tree as a new commit on the current branch.
    Commit { message: String },
    /// Switch to a branch, or restore the tree of one commit; exactly one
    /// of the two selectors must be given.
    Jump { branch_name: Option<String>, commit_hash: Option<String> },
    /// Create a new branch at the current trunk commit.
    NewBranch { name: String },
    /// Merge the named branch into the trunk.
    Merge { branch: String },
    /// List the current commit and its ancestors.
    Log,
}

/// A parsed command line: the one command the invocation asks for.
pub struct CommandLineArgumentsParser {
    pub command: VcsCommands,
}

} // verus!
