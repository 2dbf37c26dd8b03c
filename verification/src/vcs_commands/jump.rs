use vstd::prelude::*;
use crate::util::commit::CommitChanges;
use crate::util::error::VcsError;
use crate::util::hash::{hex_of, VcsHash};
use crate::util::vcs_state::{
    branch_exists, head_witness, lemma_wf_core_transfer, trunk_name, well_formed, StateView,
    VcsState,
};

verus! {

broadcast use crate::util::hash::lemma_hash_view_len;

/// Whether the commit at index `k` is selected by the case-sensitive hex
/// prefix `p`.
pub open spec fn matched(s: StateView, p: Seq<char>, k: int) -> bool {
    0 <= k < s.commits.len() && hex_of(s.commits[k].hash).take(p.len() as int) == p
}

/// Some commit is selected by the prefix.
pub open spec fn some_match(s: StateView, p: Seq<char>) -> bool {
    exists|k: int| #[trigger] matched(s, p, k)
}

/// At least two commits are selected by the prefix.
pub open spec fn ambiguous_match(s: StateView, p: Seq<char>) -> bool {
    exists|k1: int, k2: int| k1 < k2 && #[trigger] matched(s, p, k1) && #[trigger] matched(s, p, k2)
}

/// The index of the selected commit (meaningful when the match is
/// unique).
pub open spec fn the_match(s: StateView, p: Seq<char>) -> int {
    choose|k: int| #[trigger] matched(s, p, k)
}

/// Switches the working tree to a branch or to a commit, exactly one of
/// which must be named. The working tree must be clean; the target must
/// differ from the current position. On success the head (and, for a
/// commit target, the current branch name, taken from that commit's
/// record) is updated, and the returned hash is the snapshot the caller
/// must restore the tree from. Branch pointers and commits are never
/// touched.
#[verifier::loop_isolation(false)]
pub fn run(
    state: &mut VcsState,
    branch_name: &Option<String>,
    commit_hash: &Option<String>,
    head_changes: &CommitChanges,
) -> (r: Result<VcsHash, VcsError>)
    requires
        well_formed(old(state)@),
    ensures
        match r {
            Ok(target) => head_changes@.is_empty() && well_formed(final(state)@)
                && final(state)@.commits == old(state)@.commits
                && final(state)@.branches == old(state)@.branches
                && final(state)@.head == target@ && match (branch_name, commit_hash) {
                (Some(n), None) => exists|b: int|
                    0 <= b < old(state)@.branches.len() && (#[trigger] old(state)@.branches[b]).name
                        == n@ && target@ == old(state)@.branches[b].commit_hash
                        && final(state)@.branch_name == n@ && !(n@ == old(state)@.branch_name
                        && old(state)@.branches[b].commit_hash == old(state)@.head),
                (None, Some(p)) => {
                    let k = the_match(old(state)@, p@);
                    p@.len() <= 40 && some_match(old(state)@, p@) && !ambiguous_match(
                        old(state)@,
                        p@,
                    ) && target@ == old(state)@.commits[k].hash && old(state)@.commits[k].hash
                        != old(state)@.head && final(state)@.branch_name
                        == old(state)@.commits[k].branch_name
                },
                _ => false,
            },
            Err(e) => final(state)@ == old(state)@ && match e {
                VcsError::DirtyWorkingTree => !head_changes@.is_empty(),
                VcsError::BothJumpArguments => head_changes@.is_empty() && branch_name is Some
                    && commit_hash is Some,
                VcsError::NoJumpArguments => head_changes@.is_empty() && branch_name is None
                    && commit_hash is None,
                VcsError::BranchNotFound => head_changes@.is_empty() && commit_hash is None
                    && match branch_name {
                    Some(n) => !branch_exists(old(state)@, n@),
                    None => false,
                },
                VcsError::AlreadyOnBranch => head_changes@.is_empty() && commit_hash is None
                    && match branch_name {
                    Some(n) => n@ == old(state)@.branch_name && exists|b: int|
                        0 <= b < old(state)@.branches.len() && (#[trigger] old(
                        state)@.branches[b]).name == n@ && old(state)@.branches[b].commit_hash
                            == old(state)@.head,
                    None => false,
                },
                VcsError::OversizedHashPrefix => head_changes@.is_empty() && branch_name is None
                    && match commit_hash {
                    Some(p) => p@.len() > 40,
                    None => false,
                },
                VcsError::CommitNotFound => head_changes@.is_empty() && branch_name is None
                    && match commit_hash {
                    Some(p) => p@.len() <= 40 && !some_match(old(state)@, p@),
                    None => false,
                },
                VcsError::AmbiguousHashPrefix => head_changes@.is_empty() && branch_name is None
                    && match commit_hash {
                    Some(p) => p@.len() <= 40 && ambiguous_match(old(state)@, p@),
                    None => false,
                },
                VcsError::AlreadyOnCommit => head_changes@.is_empty() && branch_name is None
                    && match commit_hash {
                    Some(p) => some_match(old(state)@, p@) && !ambiguous_match(old(state)@, p@)
                        && old(state)@.commits[the_match(old(state)@, p@)].hash
                        == old(state)@.head,
                    None => false,
                },
                _ => false,
            },
        },
{
    if !head_changes.is_empty() {
        return Err(VcsError::DirtyWorkingTree);
    }
    if branch_name.is_some() && commit_hash.is_some() {
        return Err(VcsError::BothJumpArguments);
    }
    if branch_name.is_none() && commit_hash.is_none() {
        return Err(VcsError::NoJumpArguments);
    }
    let ghost s0 = state@;
    if let Some(n) = branch_name {
        let b = match state.find_branch(n.as_str()) {
            Some(b) => b,
            None => {
                return Err(VcsError::BranchNotFound);
            },
        };
        proof {
            assert(state@.branches[b as int] == state.branches@[b as int]@);
        }
        let tip = state.branches[b].commit_hash;
        if crate::util::text::str_eq(n.as_str(), state.branch_name.as_str()) && tip.eq(
            &state.head,
        ) {
            return Err(VcsError::AlreadyOnBranch);
        }
        state.branch_name = n.clone();
        state.head = tip;
        proof {
            lemma_wf_core_transfer(s0, state@);
            assert(crate::util::vcs_state::tip_witness(s0, b as int));
            let k = choose|k: int|
                0 <= k < s0.commits.len() && (#[trigger] s0.commits[k]).hash
                    == s0.branches[b as int].commit_hash && (s0.commits[k].branch_name
                    == s0.branches[b as int].name || s0.commits[k].branch_name == trunk_name());
            assert(state@.commits[k] == s0.commits[k]);
            assert(head_witness(state@));
            assert(state@.branches[b as int].name == state@.branch_name);
        }
        return Ok(tip);
    }
    if let Some(p) = commit_hash {
        let plen: usize = p.unicode_len();
        if plen > 40 {
            return Err(VcsError::OversizedHashPrefix);
        }
        let nc: usize = state.commits.len();
        let mut found: usize = 0;
        let mut fidx: usize = 0;
        let mut k: usize = 0;
        while k < nc
            invariant
                0 <= k <= nc,
                found <= k,
                found == 0 ==> forall|m: int| 0 <= m < k ==> !matched(state@, p@, m),
                found == 1 ==> fidx < k && matched(state@, p@, fidx as int) && forall|m: int|
                    0 <= m < k && m != fidx ==> !matched(state@, p@, m),
                found >= 2 ==> ambiguous_match(state@, p@),
            decreases nc - k,
        {
            proof {
                assert(state@.commits[k as int] == state.commits@[k as int]@);
            }
            if state.commits[k].hash.matches_hex_prefix(p.as_str()) {
                proof {
                    assert(matched(state@, p@, k as int));
                }
                if found == 1 {
                    proof {
                        assert(matched(state@, p@, fidx as int) && matched(state@, p@, k as int)
                            && fidx < k);
                    }
                }
                if found == 0 {
                    fidx = k;
                }
                found += 1;
            } else {
                proof {
                    assert(!matched(state@, p@, k as int));
                }
            }
            k += 1;
        }
        if found == 0 {
            proof {
                assert(!some_match(state@, p@)) by {
                    if some_match(state@, p@) {
                        let m = choose|m: int| #[trigger] matched(state@, p@, m);
                        assert(!matched(state@, p@, m));
                    }
                }
            }
            return Err(VcsError::CommitNotFound);
        }
        if found >= 2 {
            return Err(VcsError::AmbiguousHashPrefix);
        }
        // exactly one commit carries the prefix
        proof {
            assert(some_match(state@, p@));
            assert(!ambiguous_match(state@, p@)) by {
                if ambiguous_match(state@, p@) {
                    let (k1, k2) = choose|k1: int, k2: int|
                        k1 < k2 && #[trigger] matched(state@, p@, k1) && #[trigger] matched(
                            state@,
                            p@,
                            k2,
                        );
                    assert(k1 != fidx || k2 != fidx);
                    if k1 != fidx {
                        assert(!matched(state@, p@, k1));
                    } else {
                        assert(!matched(state@, p@, k2));
                    }
                }
            }
            assert(the_match(state@, p@) == fidx as int) by {
                let m = the_match(state@, p@);
                assert(matched(state@, p@, m));
                if m != fidx {
                    assert(!matched(state@, p@, m));
                }
            }
            assert(state@.commits[fidx as int] == state.commits@[fidx as int]@);
        }
        if state.commits[fidx].hash.eq(&state.head) {
            return Err(VcsError::AlreadyOnCommit);
        }
        let target = state.commits[fidx].hash;
        state.branch_name = state.commits[fidx].branch_name.clone();
        state.head = target;
        proof {
            lemma_wf_core_transfer(s0, state@);
            assert(state@.commits[fidx as int].hash == state@.head);
            assert(state@.commits[fidx as int].branch_name == state@.branch_name);
            assert(head_witness(state@));
            // the commit's branch name resolves, so the current branch exists
            assert(crate::util::vcs_state::names_ok(s0));
            let bb = choose|bb: int|
                0 <= bb < s0.branches.len() && (#[trigger] s0.branches[bb]).name
                    == s0.commits[fidx as int].branch_name;
            assert(state@.branches[bb].name == state@.branch_name);
        }
        return Ok(target);
    }
    proof {
        assert(false);
    }
    Err(VcsError::NoJumpArguments)
}

} // verus!
