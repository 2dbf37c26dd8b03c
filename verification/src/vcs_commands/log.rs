use vstd::prelude::*;
use crate::util::hash::zero_digest;
use crate::util::vcs_state::{parent_witness, well_formed, VcsState};

verus! {

broadcast use crate::util::hash::lemma_hash_view_len;

/// Walks the commit chain from the head to the root, returning the index
/// of each visited commit: the head commit first, then parent after
/// parent until the commit whose parent is the zero sentinel. The indices
/// strictly decrease, which is why the walk terminates.
#[verifier::loop_isolation(false)]
pub fn run(state: &VcsState) -> (r: Vec<usize>)
    requires
        well_formed(state@),
    ensures
        r@.len() >= 1,
        forall|x: int| 0 <= x < r@.len() ==> #[trigger] r@[x] < state@.commits.len(),
        state@.commits[r@[0] as int].hash == state@.head,
        forall|x: int|
            0 <= x < r@.len() - 1 ==> state@.commits[#[trigger] r@[x + 1] as int].hash
                == state@.commits[r@[x] as int].parent,
        state@.commits[r@[r@.len() - 1] as int].parent == zero_digest(),
        forall|x: int| 0 <= x < r@.len() - 1 ==> #[trigger] r@[x + 1] < r@[x],
{
    let mut r: Vec<usize> = Vec::new();
    let k0 = match state.find_commit(&state.head) {
        Some(k) => k,
        None => {
            proof {
                assert(false);
            }
            return Vec::new();
        },
    };
    r.push(k0);
    let mut cur: usize = k0;
    while !state.commits[cur].parent.is_zero()
        invariant
            cur < state@.commits.len(),
            r@.len() >= 1,
            r@[r@.len() - 1] == cur,
            forall|x: int| 0 <= x < r@.len() ==> #[trigger] r@[x] < state@.commits.len(),
            state@.commits[r@[0] as int].hash == state@.head,
            forall|x: int|
                0 <= x < r@.len() - 1 ==> state@.commits[#[trigger] r@[x + 1] as int].hash
                    == state@.commits[r@[x] as int].parent,
            forall|x: int| 0 <= x < r@.len() - 1 ==> #[trigger] r@[x + 1] < r@[x],
        decreases cur,
    {
        proof {
            assert(state@.commits[cur as int] == state.commits@[cur as int]@);
            if cur == 0 {
                assert(state@.commits[0].parent == zero_digest());
                assert(false);
            }
            assert(parent_witness(state@, cur as int));
        }
        let parent_hash = state.commits[cur].parent;
        let j = match state.find_commit(&parent_hash) {
            Some(j) => j,
            None => {
                proof {
                    assert(false);
                }
                return r;
            },
        };
        proof {
            let jw = choose|jw: int|
                0 <= jw < cur && (#[trigger] state@.commits[jw]).hash
                    == state@.commits[cur as int].parent && (state@.commits[jw].branch_name
                    == state@.commits[cur as int].branch_name || state@.commits[jw].branch_name
                    == crate::util::vcs_state::trunk_name());
            if j > jw {
                assert(state@.commits[jw].hash != parent_hash@);
            }
            assert(j < cur);
        }
        r.push(j);
        cur = j;
    }
    proof {
        assert(state@.commits[cur as int] == state.commits@[cur as int]@);
    }
    r
}

} // verus!
