use vstd::prelude::*;

verus! {

/// The error taxonomy of the engine. Variants are specific conditions;
/// [`VcsError::kind`] groups them into the coarse classes that callers
/// report. Rendering the conditions as text is left to the boundary.
#[derive(Clone, Copy, Debug, PartialEq, Eq, Structural)]
pub enum VcsError {
    /// Both jump selectors were given at once.
    BothJumpArguments,
    /// Neither jump selector was given.
    NoJumpArguments,
    /// A commit-hash prefix longer than a full hash.
    OversizedHashPrefix,
    /// No branch of the requested name exists.
    BranchNotFound,
    /// No commit hash starts with the requested prefix.
    CommitNotFound,
    /// More than one commit hash starts with the requested prefix.
    AmbiguousHashPrefix,
    /// A commit was requested while the current branch tip is not the head.
    NotOnBranchTip,
    /// A commit was requested while the working tree matches the head.
    NothingToCommit,
    /// A branch was requested while the current branch is not the trunk.
    NotOnTrunk,
    /// A branch of the requested name already exists.
    BranchExists,
    /// The working tree differs from the head where a clean tree is required.
    DirtyWorkingTree,
    /// A jump to the branch already checked out at the head.
    AlreadyOnBranch,
    /// A jump to the commit already checked out.
    AlreadyOnCommit,
    /// A merge was requested while the trunk tip is not the head.
    NotAtTrunkTip,
    /// A merge of the trunk into itself.
    CannotMergeTrunk,
    /// Persisted state or a hash rendering failed to parse, or a snapshot
    /// identity collides with the zero sentinel.
    Corrupt,
    /// An underlying filesystem or archival operation failed; raised by the
    /// boundary, never by the engine's own transitions.
    IoFailure,
}

/// The coarse error classes of the engine. A merge conflict is not here:
/// it is a reported outcome of merge resolution, not an error.
#[derive(Clone, Copy, Debug, PartialEq, Eq, Structural)]
pub enum ErrorKind {
    InvalidInput,
    NotFound,
    Ambiguous,
    PreconditionFailed,
    Corrupt,
    IoFailure,
}

impl VcsError {
    /// The class a condition belongs to.
    pub open spec fn spec_kind(self) -> ErrorKind {
        match self {
            VcsError::BothJumpArguments => ErrorKind::InvalidInput,
            VcsError::NoJumpArguments => ErrorKind::InvalidInput,
            VcsError::OversizedHashPrefix => ErrorKind::InvalidInput,
            VcsError::BranchNotFound => ErrorKind::NotFound,
            VcsError::CommitNotFound => ErrorKind::NotFound,
            VcsError::AmbiguousHashPrefix => ErrorKind::Ambiguous,
            VcsError::NotOnBranchTip => ErrorKind::PreconditionFailed,
            VcsError::NothingToCommit => ErrorKind::PreconditionFailed,
            VcsError::NotOnTrunk => ErrorKind::PreconditionFailed,
            VcsError::BranchExists => ErrorKind::PreconditionFailed,
            VcsError::DirtyWorkingTree => ErrorKind::PreconditionFailed,
            VcsError::AlreadyOnBranch => ErrorKind::PreconditionFailed,
            VcsError::AlreadyOnCommit => ErrorKind::PreconditionFailed,
            VcsError::NotAtTrunkTip => ErrorKind::PreconditionFailed,
            VcsError::CannotMergeTrunk => ErrorKind::PreconditionFailed,
            VcsError::Corrupt => ErrorKind::Corrupt,
            VcsError::IoFailure => ErrorKind::IoFailure,
        }
    }

    /// The class a condition belongs to.
    pub fn kind(&self) -> (k: ErrorKind)
        ensures
            k == self.spec_kind(),
    {
        match self {
            VcsError::BothJumpArguments => ErrorKind::InvalidInput,
            VcsError::NoJumpArguments => ErrorKind::InvalidInput,
            VcsError::OversizedHashPrefix => ErrorKind::InvalidInput,
            VcsError::BranchNotFound => ErrorKind::NotFound,
            VcsError::CommitNotFound => ErrorKind::NotFound,
            VcsError::AmbiguousHashPrefix => ErrorKind::Ambiguous,
            VcsError::NotOnBranchTip => ErrorKind::PreconditionFailed,
            VcsError::NothingToCommit => ErrorKind::PreconditionFailed,
            VcsError::NotOnTrunk => ErrorKind::PreconditionFailed,
            VcsError::BranchExists => ErrorKind::PreconditionFailed,
            VcsError::DirtyWorkingTree => ErrorKind::PreconditionFailed,
            VcsError::AlreadyOnBranch => ErrorKind::PreconditionFailed,
            VcsError::AlreadyOnCommit => ErrorKind::PreconditionFailed,
            VcsError::NotAtTrunkTip => ErrorKind::PreconditionFailed,
            VcsError::CannotMergeTrunk => ErrorKind::PreconditionFailed,
            VcsError::Corrupt => ErrorKind::Corrupt,
            VcsError::IoFailure => ErrorKind::IoFailure,
        }
    }
}

} // verus!
