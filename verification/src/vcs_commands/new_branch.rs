use vstd::prelude::*;
use crate::util::branch::{Branch, BranchView};
use crate::util::error::VcsError;
use crate::util::vcs_state::{
    branch_exists, branches_ok, chain_ok, head_witness, names_ok, parent_witness, tip_witness,
    trunk_name, well_formed, StateView, VcsState,
};

verus! {

broadcast use crate::util::hash::lemma_hash_view_len;

/// The state a successful run leaves: a new branch pointing at the
/// current head, checked out immediately.
pub open spec fn branch_added(s: StateView, name: Seq<char>) -> StateView {
    StateView {
        head: s.head,
        branch_name: name,
        branches: s.branches.push(BranchView { name: name, commit_hash: s.head }),
        commits: s.commits,
    }
}

/// Adding a branch at the trunk's current head preserves every global
/// invariant of the repository record.
proof fn lemma_new_branch_preserves(s: StateView, s2: StateView, name: Seq<char>)
    requires
        well_formed(s),
        s.branch_name == trunk_name(),
        !branch_exists(s, name),
        s2 == branch_added(s, name),
    ensures
        well_formed(s2),
{
    let nb = s.branches.len() as int;
    assert(forall|b: int| 0 <= b < nb ==> s2.branches[b] == s.branches[b]);
    assert(s2.branches[nb].name == name && s2.branches[nb].commit_hash == s.head);
    assert(s2.commits == s.commits);
    // the chain is untouched
    assert forall|i: int| 1 <= i < s2.commits.len() implies #[trigger] parent_witness(s2, i) by {
        assert(parent_witness(s, i));
        let j = choose|j: int|
            0 <= j < i && (#[trigger] s.commits[j]).hash == s.commits[i].parent && (
            s.commits[j].branch_name == s.commits[i].branch_name || s.commits[j].branch_name
                == trunk_name());
        assert(s2.commits[j] == s.commits[j]);
    }
    assert(chain_ok(s2));
    // the head commit is trunk history, so it witnesses the new tip too
    let hk = choose|k: int|
        0 <= k < s.commits.len() && (#[trigger] s.commits[k]).hash == s.head && (
        s.commits[k].branch_name == s.branch_name || s.commits[k].branch_name == trunk_name());
    assert forall|b: int| 0 <= b < s2.branches.len() implies #[trigger] tip_witness(s2, b) by {
        if b < nb {
            assert(tip_witness(s, b));
            let k = choose|k: int|
                0 <= k < s.commits.len() && (#[trigger] s.commits[k]).hash
                    == s.branches[b].commit_hash && (s.commits[k].branch_name == s.branches[b].name
                    || s.commits[k].branch_name == trunk_name());
            assert(s2.commits[k] == s.commits[k]);
        } else {
            assert(s2.commits[hk] == s.commits[hk]);
            assert(s2.commits[hk].branch_name == trunk_name());
        }
    }
    assert forall|b1: int, b2: int| 0 <= b1 < b2 < s2.branches.len() implies s2.branches[b1].name
        != s2.branches[b2].name by {
        if b2 == nb {
            assert(s2.branches[b1] == s.branches[b1]);
        }
    }
    assert(branches_ok(s2));
    assert forall|i: int| 0 <= i < s2.commits.len() implies exists|b: int|
        0 <= b < s2.branches.len() && (#[trigger] s2.branches[b]).name == (#[trigger] s2.commits[i]).branch_name by {
        let b = choose|b: int|
            0 <= b < s.branches.len() && (#[trigger] s.branches[b]).name == s.commits[i].branch_name;
        assert(s2.branches[b].name == s2.commits[i].branch_name);
    }
    assert(names_ok(s2));
    assert(s2.commits[hk].branch_name == trunk_name());
    assert(head_witness(s2));
    assert(s2.branches[nb].name == s2.branch_name);
}

/// Creates a branch of the given name at the current trunk commit and
/// checks it out. Branches fork only from the trunk, and names are
/// unique; the head and the commit list are untouched.
pub fn run(state: &mut VcsState, name: &str) -> (r: Result<(), VcsError>)
    requires
        well_formed(old(state)@),
    ensures
        match r {
            Ok(_) => old(state)@.branch_name == trunk_name() && !branch_exists(old(state)@, name@)
                && final(state)@ == branch_added(old(state)@, name@) && well_formed(final(state)@),
            Err(e) => final(state)@ == old(state)@ && match e {
                VcsError::NotOnTrunk => old(state)@.branch_name != trunk_name(),
                VcsError::BranchExists => old(state)@.branch_name == trunk_name() && branch_exists(
                    old(state)@,
                    name@,
                ),
                _ => false,
            },
        },
{
    if !crate::util::text::str_eq(state.branch_name.as_str(), "master") {
        return Err(VcsError::NotOnTrunk);
    }
    match state.find_branch(name) {
        Some(_) => {
            return Err(VcsError::BranchExists);
        },
        None => {},
    }
    let ghost s0 = state@;
    state.branches.push(Branch { name: name.to_owned(), commit_hash: state.head });
    state.branch_name = name.to_owned();
    proof {
        assert(state@.branches =~= s0.branches.push(
            BranchView { name: name@, commit_hash: s0.head },
        ));
        assert(state@ =~= branch_added(s0, name@));
        lemma_new_branch_preserves(s0, state@, name@);
    }
    Ok(())
}

} // verus!
