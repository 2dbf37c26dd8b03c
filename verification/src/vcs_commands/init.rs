use vstd::prelude::*;
use crate::util::branch::{Branch, BranchView};
use crate::util::commit::{ChangesView, Commit, CommitChanges, CommitView};
use crate::util::error::VcsError;
use crate::util::hash::{zero_digest, VcsHash};
use crate::util::vcs_state::{trunk_name, well_formed, StateView, VcsState};

verus! {

broadcast use crate::util::hash::lemma_hash_view_len;

/// The empty comparison.
pub open spec fn empty_changes() -> ChangesView {
    ChangesView {
        modified: Seq::<Seq<char>>::empty(),
        added: Seq::<Seq<char>>::empty(),
        deleted: Seq::<Seq<char>>::empty(),
    }
}

/// The record a fresh repository starts with: one root commit holding the
/// initial capture of the tree, and the trunk branch pointing at it.
pub open spec fn initial_state(snapshot_hash: Seq<u8>, time: Seq<char>) -> StateView {
    StateView {
        head: snapshot_hash,
        branch_name: trunk_name(),
        branches: seq![BranchView { name: trunk_name(), commit_hash: snapshot_hash }],
        commits: seq![
            CommitView {
                branch_name: trunk_name(),
                time: time,
                message: "Initial commit"@,
                changes: empty_changes(),
                hash: snapshot_hash,
                parent: zero_digest(),
            },
        ],
    }
}

/// Builds the record of a freshly initialized repository around the
/// initial snapshot capture. The capture's identity must not be the zero
/// sentinel, which is reserved for "no parent".
pub fn run(snapshot_hash: &VcsHash, time: &str) -> (r: Result<VcsState, VcsError>)
    ensures
        match r {
            Ok(st) => snapshot_hash@ != zero_digest() && st@ == initial_state(
                snapshot_hash@,
                time@,
            ) && well_formed(st@),
            Err(e) => snapshot_hash@ == zero_digest() && e == VcsError::Corrupt,
        },
{
    if snapshot_hash.is_zero() {
        return Err(VcsError::Corrupt);
    }
    let commit = Commit {
        branch_name: String::from_str("master"),
        time: time.to_owned(),
        message: String::from_str("Initial commit"),
        changes: CommitChanges::default(),
        hash: *snapshot_hash,
        parent: VcsHash::zero(),
    };
    let branch = Branch { name: String::from_str("master"), commit_hash: *snapshot_hash };
    let mut branches: Vec<Branch> = Vec::new();
    branches.push(branch);
    let mut commits: Vec<Commit> = Vec::new();
    commits.push(commit);
    let st = VcsState {
        head: *snapshot_hash,
        branch_name: String::from_str("master"),
        branches,
        commits,
    };
    proof {
        assert(st@.commits[0].changes =~= empty_changes());
        assert(st@.commits =~= initial_state(snapshot_hash@, time@).commits);
        assert(st@.branches =~= initial_state(snapshot_hash@, time@).branches);
        assert(st@ =~= initial_state(snapshot_hash@, time@));
        assert(well_formed(st@)) by {
            assert(st@.commits[0].hash == st@.head);
            assert(st@.commits[0].branch_name == st@.branch_name);
            assert(st@.branches[0].name == trunk_name());
        }
    }
    Ok(st)
}

} // verus!
