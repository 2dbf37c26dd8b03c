use vstd::prelude::*;
use crate::util::branch::{Branch, BranchView};
use crate::util::commit::{ChangesView, Commit, CommitChanges, CommitView};
use crate::util::error::VcsError;
use crate::util::hash::{zero_digest, VcsHash};
use crate::util::vcs_state::{
    branch_index_of, branches_ok, chain_ok, head_witness, lemma_branch_index_unique, names_ok,
    parent_witness, tip_witness, trunk_name, well_formed, StateView, VcsState,
};

verus! {

broadcast use crate::util::hash::lemma_hash_view_len;

/// The commit a successful run appends: created on the current branch,
/// carrying the comparison against the old head, identified by the new
/// snapshot hash, linked to the old head as its parent.
pub open spec fn new_commit_view(
    s: StateView,
    changes: ChangesView,
    new_hash: Seq<u8>,
    time: Seq<char>,
    message: Seq<char>,
) -> CommitView {
    CommitView {
        branch_name: s.branch_name,
        time: time,
        message: message,
        changes: changes,
        hash: new_hash,
        parent: s.head,
    }
}

/// The state a successful run leaves: the new commit appended, the
/// current branch's tip and the head advanced to the new snapshot hash.
pub open spec fn commit_applied(
    s: StateView,
    changes: ChangesView,
    new_hash: Seq<u8>,
    time: Seq<char>,
    message: Seq<char>,
) -> StateView {
    let bi = branch_index_of(s, s.branch_name);
    StateView {
        head: new_hash,
        branch_name: s.branch_name,
        branches: s.branches.update(
            bi,
            BranchView { name: s.branches[bi].name, commit_hash: new_hash },
        ),
        commits: s.commits.push(new_commit_view(s, changes, new_hash, time, message)),
    }
}

/// Whether the current branch's tip is the head: commits may only extend
/// a branch at its tip, never fork from the middle.
pub open spec fn at_branch_tip(s: StateView) -> bool {
    s.branches[branch_index_of(s, s.branch_name)].commit_hash == s.head
}

/// Appending a commit at the current branch's tip preserves every global
/// invariant of the repository record.
proof fn lemma_commit_preserves(
    s: StateView,
    s2: StateView,
    changes: ChangesView,
    new_hash: Seq<u8>,
    time: Seq<char>,
    message: Seq<char>,
)
    requires
        well_formed(s),
        at_branch_tip(s),
        new_hash != zero_digest(),
        new_hash.len() == 20,
        s2 == commit_applied(s, changes, new_hash, time, message),
    ensures
        well_formed(s2),
{
    let bi = branch_index_of(s, s.branch_name);
    assert(0 <= bi < s.branches.len() && s.branches[bi].name == s.branch_name);
    let n = s.commits.len() as int;
    let c = new_commit_view(s, changes, new_hash, time, message);
    assert(forall|i: int| 0 <= i < n ==> s2.commits[i] == s.commits[i]);
    assert(s2.commits[n] == c);
    assert(forall|b: int|
        0 <= b < s.branches.len() ==> (#[trigger] s2.branches[b]).name == s.branches[b].name);
    // chain: old commits keep their witnesses, the new one points at the tip
    assert forall|i: int| 1 <= i < s2.commits.len() implies #[trigger] parent_witness(s2, i) by {
        if i < n {
            assert(parent_witness(s, i));
            let j = choose|j: int|
                0 <= j < i && (#[trigger] s.commits[j]).hash == s.commits[i].parent && (
                s.commits[j].branch_name == s.commits[i].branch_name || s.commits[j].branch_name
                    == trunk_name());
            assert(s2.commits[j] == s.commits[j]);
        } else {
            assert(tip_witness(s, bi));
            let k = choose|k: int|
                0 <= k < s.commits.len() && (#[trigger] s.commits[k]).hash
                    == s.branches[bi].commit_hash && (s.commits[k].branch_name
                    == s.branches[bi].name || s.commits[k].branch_name == trunk_name());
            assert(s2.commits[k] == s.commits[k]);
            assert(s2.commits[k].hash == s2.commits[i].parent);
        }
    }
    assert(chain_ok(s2));
    // branches: names unchanged; the updated tip is witnessed by the new commit
    assert forall|b: int| 0 <= b < s2.branches.len() implies #[trigger] tip_witness(s2, b) by {
        if b == bi {
            assert(s2.commits[n].hash == s2.branches[b].commit_hash);
        } else {
            assert(tip_witness(s, b));
            let k = choose|k: int|
                0 <= k < s.commits.len() && (#[trigger] s.commits[k]).hash
                    == s.branches[b].commit_hash && (s.commits[k].branch_name == s.branches[b].name
                    || s.commits[k].branch_name == trunk_name());
            assert(s2.commits[k] == s.commits[k]);
            assert(s2.branches[b] == s.branches[b]);
        }
    }
    assert(branches_ok(s2));
    // every commit name still resolves; the new one is the current branch
    assert forall|i: int| 0 <= i < s2.commits.len() implies exists|b: int|
        0 <= b < s2.branches.len() && (#[trigger] s2.branches[b]).name == (#[trigger] s2.commits[i]).branch_name by {
        if i < n {
            let b = choose|b: int|
                0 <= b < s.branches.len() && (#[trigger] s.branches[b]).name
                    == s.commits[i].branch_name;
            assert(s2.branches[b].name == s2.commits[i].branch_name);
        } else {
            assert(s2.branches[bi].name == s2.commits[i].branch_name);
        }
    }
    assert(names_ok(s2));
    // the head is the new commit, on the current branch
    assert(s2.commits[n].hash == s2.head);
    assert(head_witness(s2));
}

/// Records the working tree as a new commit on the current branch.
///
/// `changes` is the comparison of the working tree against the head
/// snapshot, and `new_hash` the identity of the freshly captured
/// snapshot. The commit is refused when the current branch is not at its
/// tip, when there is nothing to commit, and when the snapshot identity
/// collides with the zero sentinel.
pub fn run(
    state: &mut VcsState,
    changes: CommitChanges,
    new_hash: &VcsHash,
    time: &str,
    message: &str,
) -> (r: Result<(), VcsError>)
    requires
        well_formed(old(state)@),
    ensures
        match r {
            Ok(_) => at_branch_tip(old(state)@) && !changes@.is_empty() && new_hash@
                != zero_digest() && final(state)@ == commit_applied(
                old(state)@,
                changes@,
                new_hash@,
                time@,
                message@,
            ) && well_formed(final(state)@),
            Err(e) => final(state)@ == old(state)@ && match e {
                VcsError::NotOnBranchTip => !at_branch_tip(old(state)@),
                VcsError::NothingToCommit => at_branch_tip(old(state)@) && changes@.is_empty(),
                VcsError::Corrupt => at_branch_tip(old(state)@) && !changes@.is_empty()
                    && new_hash@ == zero_digest(),
                _ => false,
            },
        },
{
    let ghost changes_v = changes@;
    let bi = match state.find_branch(state.branch_name.as_str()) {
        Some(b) => b,
        None => {
            proof {
                assert(false);
            }
            return Err(VcsError::Corrupt);
        },
    };
    proof {
        lemma_branch_index_unique(state@, bi as int);
        assert(branch_index_of(state@, state@.branch_name) == bi as int);
        assert(state@.branches[bi as int] == state.branches@[bi as int]@);
    }
    if !state.branches[bi].commit_hash.eq(&state.head) {
        return Err(VcsError::NotOnBranchTip);
    }
    if changes.is_empty() {
        return Err(VcsError::NothingToCommit);
    }
    if new_hash.is_zero() {
        return Err(VcsError::Corrupt);
    }
    let commit = Commit {
        branch_name: state.branch_name.clone(),
        time: time.to_owned(),
        message: message.to_owned(),
        changes,
        hash: *new_hash,
        parent: state.head,
    };
    let ghost s0 = state@;
    let name_kept = state.branches[bi].name.clone();
    let new_branch_entry = Branch { name: name_kept, commit_hash: *new_hash };
    state.branches[bi] = new_branch_entry;
    state.head = *new_hash;
    state.commits.push(commit);
    proof {
        assert(state@.commits =~= s0.commits.push(
            new_commit_view(s0, changes_v, new_hash@, time@, message@),
        ));
        assert(state@.branches =~= s0.branches.update(
            bi as int,
            BranchView { name: s0.branches[bi as int].name, commit_hash: new_hash@ },
        ));
        assert(state@ =~= commit_applied(s0, changes_v, new_hash@, time@, message@));
        lemma_commit_preserves(s0, state@, changes_v, new_hash@, time@, message@);
    }
    Ok(())
}

} // verus!
