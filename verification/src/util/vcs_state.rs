use vstd::prelude::*;
use crate::util::branch::{Branch, BranchView};
use crate::util::commit::{Commit, CommitView};
use crate::util::hash::{zero_digest, VcsHash};
use crate::util::text::str_eq;

verus! {

broadcast use crate::util::hash::lemma_hash_view_len;

/// The name of the reserved trunk branch, always present at index 0.
pub open spec fn trunk_name() -> Seq<char> {
    "master"@
}

/// The full persistent record of one repository: head commit, current
/// branch, every branch pointer, and the append-only commit list.
pub struct VcsState {
    pub head: VcsHash,
    pub branch_name: String,
    pub branches: Vec<Branch>,
    pub commits: Vec<Commit>,
}

/// The mathematical value of a [`VcsState`].
#[verifier::ext_equal]
pub ghost struct StateView {
    pub head: Seq<u8>,
    pub branch_name: Seq<char>,
    pub branches: Seq<BranchView>,
    pub commits: Seq<CommitView>,
}

impl View for VcsState {
    type V = StateView;

    open spec fn view(&self) -> StateView {
        StateView {
            head: self.head@,
            branch_name: self.branch_name@,
            branches: self.branches.deep_view(),
            commits: self.commits.deep_view(),
        }
    }
}

/// A non-root commit has an earlier commit carrying its parent hash, on
/// the same branch or on the trunk: lineage below a branch's own commits
/// is pure trunk history, and chains are acyclic because the witness
/// stands strictly earlier in the append-only list.
pub open spec fn parent_witness(s: StateView, i: int) -> bool {
    exists|j: int|
        0 <= j < i && (#[trigger] s.commits[j]).hash == s.commits[i].parent && (s.commits[j].branch_name
            == s.commits[i].branch_name || s.commits[j].branch_name == trunk_name())
}

/// A branch tip points at a recorded commit of its own lineage: the
/// commit carries the branch's own name, or the trunk's (for tips still
/// at their fork point).
pub open spec fn tip_witness(s: StateView, b: int) -> bool {
    exists|k: int|
        0 <= k < s.commits.len() && (#[trigger] s.commits[k]).hash == s.branches[b].commit_hash
            && (s.commits[k].branch_name == s.branches[b].name || s.commits[k].branch_name
            == trunk_name())
}

/// The head points at a recorded commit of the current branch's lineage.
pub open spec fn head_witness(s: StateView) -> bool {
    exists|k: int|
        0 <= k < s.commits.len() && (#[trigger] s.commits[k]).hash == s.head && (s.commits[k].branch_name
            == s.branch_name || s.commits[k].branch_name == trunk_name())
}

/// The commit list invariant: exactly one root (at index 0, with the zero
/// parent), no commit identified by the zero sentinel, and every later
/// commit linked to an earlier one of its own lineage.
pub open spec fn chain_ok(s: StateView) -> bool {
    &&& s.commits.len() >= 1
    &&& s.commits[0].parent == zero_digest()
    &&& s.commits[0].branch_name == trunk_name()
    &&& forall|i: int|
        0 <= i < s.commits.len() ==> (#[trigger] s.commits[i]).hash != zero_digest()
            && s.commits[i].hash.len() == 20 && s.commits[i].parent.len() == 20
    &&& forall|i: int| 1 <= i < s.commits.len() ==> #[trigger] parent_witness(s, i)
}

/// The branch list invariant: non-empty, the trunk first, unique names,
/// every tip a recorded commit of the branch's lineage.
pub open spec fn branches_ok(s: StateView) -> bool {
    &&& s.branches.len() >= 1
    &&& s.branches[0].name == trunk_name()
    &&& forall|b: int| 0 <= b < s.branches.len() ==> (#[trigger] s.branches[b]).commit_hash.len() == 20
    &&& forall|b1: int, b2: int|
        0 <= b1 < b2 < s.branches.len() ==> s.branches[b1].name != s.branches[b2].name
    &&& forall|b: int| 0 <= b < s.branches.len() ==> #[trigger] tip_witness(s, b)
}

/// Every commit's branch name resolves to a live branch.
pub open spec fn names_ok(s: StateView) -> bool {
    forall|i: int|
        0 <= i < s.commits.len() ==> exists|b: int|
            0 <= b < s.branches.len() && (#[trigger] s.branches[b]).name == (#[trigger] s.commits[i]).branch_name
}

/// The global well-formedness of a repository record; established by
/// `init` and preserved by every successful command.
pub open spec fn well_formed(s: StateView) -> bool {
    &&& chain_ok(s)
    &&& branches_ok(s)
    &&& names_ok(s)
    &&& s.head.len() == 20
    &&& head_witness(s)
    &&& exists|b: int| 0 <= b < s.branches.len() && (#[trigger] s.branches[b]).name == s.branch_name
}

/// The index of the branch with this name (meaningful when one exists;
/// unique under `branches_ok`).
pub open spec fn branch_index_of(s: StateView, name: Seq<char>) -> int {
    choose|b: int| 0 <= b < s.branches.len() && (#[trigger] s.branches[b]).name == name
}

/// Under unique branch names, any index whose branch carries the name is
/// the chosen one.
pub proof fn lemma_branch_index_unique(s: StateView, b: int)
    requires
        branches_ok(s),
        0 <= b < s.branches.len(),
    ensures
        branch_index_of(s, s.branches[b].name) == b,
{
    let n = s.branches[b].name;
    assert(0 <= b < s.branches.len() && s.branches[b].name == n);
    let b2 = branch_index_of(s, n);
    if b2 < b {
        assert(s.branches[b2].name != s.branches[b].name);
    } else if b < b2 {
        assert(s.branches[b].name != s.branches[b2].name);
    }
}

/// Whether a branch of this name exists.
pub open spec fn branch_exists(s: StateView, name: Seq<char>) -> bool {
    exists|b: int| 0 <= b < s.branches.len() && (#[trigger] s.branches[b]).name == name
}

/// The invariants that depend only on the branch and commit lists carry
/// over to any record with the same lists, whatever its head and current
/// branch.
pub proof fn lemma_wf_core_transfer(s: StateView, s2: StateView)
    requires
        chain_ok(s),
        branches_ok(s),
        names_ok(s),
        s2.commits == s.commits,
        s2.branches == s.branches,
    ensures
        chain_ok(s2),
        branches_ok(s2),
        names_ok(s2),
{
    assert forall|i: int| 1 <= i < s2.commits.len() implies #[trigger] parent_witness(s2, i) by {
        assert(parent_witness(s, i));
        let j = choose|j: int|
            0 <= j < i && (#[trigger] s.commits[j]).hash == s.commits[i].parent && (
            s.commits[j].branch_name == s.commits[i].branch_name || s.commits[j].branch_name
                == trunk_name());
        assert(s2.commits[j] == s.commits[j]);
    }
    assert forall|b: int| 0 <= b < s2.branches.len() implies #[trigger] tip_witness(s2, b) by {
        assert(tip_witness(s, b));
        let k = choose|k: int|
            0 <= k < s.commits.len() && (#[trigger] s.commits[k]).hash == s.branches[b].commit_hash
                && (s.commits[k].branch_name == s.branches[b].name || s.commits[k].branch_name
                == trunk_name());
        assert(s2.commits[k] == s.commits[k]);
        assert(s2.branches[b] == s.branches[b]);
    }
    assert forall|i: int| 0 <= i < s2.commits.len() implies exists|b: int|
        0 <= b < s2.branches.len() && (#[trigger] s2.branches[b]).name == (#[trigger] s2.commits[i]).branch_name by {
        let b = choose|b: int|
            0 <= b < s.branches.len() && (#[trigger] s.branches[b]).name == s.commits[i].branch_name;
        assert(s2.branches[b].name == s2.commits[i].branch_name);
    }
}

/// Commit chain integrity: in a well-formed record exactly the root
/// commit carries the zero parent, and every other commit's parent is the
/// hash of a strictly earlier commit, so parent chains are acyclic and
/// reach the root in finitely many steps.
pub proof fn lemma_commit_chain_integrity(s: StateView)
    requires
        well_formed(s),
    ensures
        s.commits.len() >= 1,
        s.commits[0].parent == zero_digest(),
        forall|i: int| 1 <= i < s.commits.len() ==> (#[trigger] s.commits[i]).parent != zero_digest(),
        forall|i: int|
            1 <= i < s.commits.len() ==> exists|j: int|
                0 <= j < i && (#[trigger] s.commits[j]).hash == (#[trigger] s.commits[i]).parent,
{
    assert forall|i: int| 1 <= i < s.commits.len() implies (#[trigger] s.commits[i]).parent
        != zero_digest() && exists|j: int|
        0 <= j < i && (#[trigger] s.commits[j]).hash == s.commits[i].parent by {
        assert(parent_witness(s, i));
        let j = choose|j: int|
            0 <= j < i && (#[trigger] s.commits[j]).hash == s.commits[i].parent && (
            s.commits[j].branch_name == s.commits[i].branch_name || s.commits[j].branch_name
                == trunk_name());
        assert(s.commits[j].hash != zero_digest());
    }
}

/// Branch tip integrity: in a well-formed record every branch's tip is
/// the hash of some recorded commit, as is the head itself.
pub proof fn lemma_branch_tips_recorded(s: StateView)
    requires
        well_formed(s),
    ensures
        forall|b: int|
            0 <= b < s.branches.len() ==> exists|k: int|
                0 <= k < s.commits.len() && (#[trigger] s.commits[k]).hash == (#[trigger] s.branches[b]).commit_hash,
        exists|k: int| 0 <= k < s.commits.len() && (#[trigger] s.commits[k]).hash == s.head,
{
    assert forall|b: int| 0 <= b < s.branches.len() implies exists|k: int|
        0 <= k < s.commits.len() && (#[trigger] s.commits[k]).hash == (#[trigger] s.branches[b]).commit_hash by {
        assert(tip_witness(s, b));
        let k = choose|k: int|
            0 <= k < s.commits.len() && (#[trigger] s.commits[k]).hash == s.branches[b].commit_hash
                && (s.commits[k].branch_name == s.branches[b].name || s.commits[k].branch_name
                == trunk_name());
    }
    let k = choose|k: int|
        0 <= k < s.commits.len() && (#[trigger] s.commits[k]).hash == s.head && (
        s.commits[k].branch_name == s.branch_name || s.commits[k].branch_name == trunk_name());
}

impl VcsState {
    /// The index of the branch with the given name, if any.
    pub fn find_branch(&self, name: &str) -> (r: Option<usize>)
        ensures
            match r {
                Some(b) => b < self@.branches.len() && self@.branches[b as int].name == name@,
                None => forall|b: int|
                    0 <= b < self@.branches.len() ==> (#[trigger] self@.branches[b]).name != name@,
            },
    {
        let n: usize = self.branches.len();
        let mut b: usize = 0;
        while b < n
            invariant
                0 <= b <= n,
                n == self@.branches.len(),
                forall|m: int| 0 <= m < b ==> (#[trigger] self@.branches[m]).name != name@,
            decreases n - b,
        {
            if str_eq(self.branches[b].name.as_str(), name) {
                return Some(b);
            }
            b += 1;
        }
        None
    }

    /// The index of the first commit recorded under the given hash, if any.
    pub fn find_commit(&self, h: &VcsHash) -> (r: Option<usize>)
        ensures
            match r {
                Some(k) => k < self@.commits.len() && self@.commits[k as int].hash == h@
                    && forall|m: int| 0 <= m < k ==> (#[trigger] self@.commits[m]).hash != h@,
                None => forall|m: int|
                    0 <= m < self@.commits.len() ==> (#[trigger] self@.commits[m]).hash != h@,
            },
    {
        let n: usize = self.commits.len();
        let mut k: usize = 0;
        while k < n
            invariant
                0 <= k <= n,
                n == self@.commits.len(),
                forall|m: int| 0 <= m < k ==> (#[trigger] self@.commits[m]).hash != h@,
            decreases n - k,
        {
            if self.commits[k].hash.eq(h) {
                return Some(k);
            }
            k += 1;
        }
        None
    }

    /// Checks the full well-formedness invariant of this record, as a
    /// decision procedure: true exactly on well-formed states. The sibling
    /// requirement that every commit's snapshot blob exists on disk is the
    /// store's to check.
    #[verifier::loop_isolation(false)]
    pub fn assert_validity(&self) -> (r: bool)
        ensures
            r == well_formed(self@),
    {
        let nc: usize = self.commits.len();
        let nb: usize = self.branches.len();
        if nc == 0 || nb == 0 {
            return false;
        }
        if !str_eq(self.branches[0].name.as_str(), "master") {
            return false;
        }
        let z = VcsHash::zero();
        if !self.commits[0].parent.eq(&z) {
            return false;
        }
        if !str_eq(self.commits[0].branch_name.as_str(), "master") {
            proof {
                assert(self@.commits[0] == self.commits@[0]@);
            }
            return false;
        }
        proof {
            assert(self@.commits[0] == self.commits@[0]@);
        }
        // no commit hash is the zero sentinel
        let mut i: usize = 0;
        while i < nc
            invariant
                0 <= i <= nc,
                nc == self@.commits.len(),
                forall|m: int| 0 <= m < i ==> (#[trigger] self@.commits[m]).hash != zero_digest(),
            decreases nc - i,
        {
            proof {
                assert(self@.commits[i as int] == self.commits@[i as int]@);
            }
            if self.commits[i].hash.eq(&z) {
                proof {
                    assert(self.commits@[i as int].hash@ == zero_digest());
                    assert(self@.commits[i as int].hash == zero_digest());
                    assert(!chain_ok(self@));
                }
                return false;
            }
            proof {
                assert(self.commits@[i as int].hash@ != zero_digest());
                assert(self@.commits[i as int].hash != zero_digest());
            }
            i += 1;
        }
        // every non-root commit has an earlier lineage witness
        let mut i: usize = 1;
        while i < nc
            invariant
                1 <= i <= nc,
                nc == self@.commits.len(),
                forall|m: int| 1 <= m < i ==> #[trigger] parent_witness(self@, m),
            decreases nc - i,
        {
            proof {
                assert(self@.commits[i as int] == self.commits@[i as int]@);
            }
            let mut j: usize = 0;
            let mut found: bool = false;
            while j < i
                invariant
                    0 <= j <= i < nc,
                    self@.commits[i as int] == self.commits@[i as int]@,
                    nc == self@.commits.len(),
                    !found ==> forall|m: int|
                        0 <= m < j ==> !((#[trigger] self@.commits[m]).hash
                            == self@.commits[i as int].parent && (self@.commits[m].branch_name
                            == self@.commits[i as int].branch_name || self@.commits[m].branch_name
                            == trunk_name())),
                    found ==> parent_witness(self@, i as int),
                decreases i - j,
            {
                proof {
                    assert(self@.commits[j as int] == self.commits@[j as int]@);
                }
                if self.commits[j].hash.eq(&self.commits[i].parent) && (str_eq(
                    self.commits[j].branch_name.as_str(),
                    self.commits[i].branch_name.as_str(),
                ) || str_eq(self.commits[j].branch_name.as_str(), "master")) {
                    found = true;
                    proof {
                        assert(parent_witness(self@, i as int));
                    }
                    break;
                }
                j += 1;
            }
            if !found {
                proof {
                    assert(!parent_witness(self@, i as int));
                }
                return false;
            }
            i += 1;
        }
        // unique branch names
        let mut b1: usize = 0;
        while b1 < nb
            invariant
                0 <= b1 <= nb,
                nb == self@.branches.len(),
                forall|x: int, y: int|
                    0 <= x < y < nb && x < b1 ==> (#[trigger] self@.branches[x]).name
                        != (#[trigger] self@.branches[y]).name,
            decreases nb - b1,
        {
            let mut b2: usize = b1 + 1;
            while b2 < nb
                invariant
                    0 <= b1 < b2 <= nb,
                    nb == self@.branches.len(),
                    forall|y: int| b1 < y < b2 ==> (#[trigger] self@.branches[y]).name
                        != self@.branches[b1 as int].name,
                decreases nb - b2,
            {
                proof {
                    assert(self@.branches[b1 as int] == self.branches@[b1 as int]@);
                    assert(self@.branches[b2 as int] == self.branches@[b2 as int]@);
                }
                if str_eq(self.branches[b1].name.as_str(), self.branches[b2].name.as_str()) {
                    return false;
                }
                b2 += 1;
            }
            b1 += 1;
        }
        // every branch tip is a recorded commit of the branch's lineage
        let mut b: usize = 0;
        while b < nb
            invariant
                0 <= b <= nb,
                nb == self@.branches.len(),
                forall|m: int| 0 <= m < b ==> #[trigger] tip_witness(self@, m),
            decreases nb - b,
        {
            if !self.has_lineage_commit(&self.branches[b].commit_hash, &self.branches[b].name) {
                proof {
                    assert(!tip_witness(self@, b as int));
                }
                return false;
            }
            proof {
                assert(tip_witness(self@, b as int));
            }
            b += 1;
        }
        // every commit's branch name resolves
        let mut i: usize = 0;
        while i < nc
            invariant
                0 <= i <= nc,
                nc == self@.commits.len(),
                forall|m: int|
                    0 <= m < i ==> exists|bx: int|
                        0 <= bx < self@.branches.len() && (#[trigger] self@.branches[bx]).name
                            == (#[trigger] self@.commits[m]).branch_name,
            decreases nc - i,
        {
            proof {
                assert(self@.commits[i as int] == self.commits@[i as int]@);
            }
            match self.find_branch(self.commits[i].branch_name.as_str()) {
                Some(_) => {},
                None => {
                    return false;
                },
            }
            i += 1;
        }
        // the head is a recorded commit of the current branch's lineage
        if !self.has_lineage_commit(&self.head, &self.branch_name) {
            proof {
                assert(!head_witness(self@));
            }
            return false;
        }
        // the current branch exists
        match self.find_branch(self.branch_name.as_str()) {
            Some(_) => {},
            None => {
                return false;
            },
        }
        true
    }

    /// Whether some commit carries this hash together with this branch
    /// name or the trunk's.
    #[verifier::loop_isolation(false)]
    fn has_lineage_commit(&self, h: &VcsHash, name: &String) -> (r: bool)
        ensures
            r == exists|k: int|
                0 <= k < self@.commits.len() && (#[trigger] self@.commits[k]).hash == h@
                    && (self@.commits[k].branch_name == name@ || self@.commits[k].branch_name
                    == trunk_name()),
    {
        let nc: usize = self.commits.len();
        let mut k: usize = 0;
        while k < nc
            invariant
                0 <= k <= nc,
                nc == self@.commits.len(),
                forall|m: int|
                    0 <= m < k ==> !((#[trigger] self@.commits[m]).hash == h@
                        && (self@.commits[m].branch_name == name@ || self@.commits[m].branch_name
                        == trunk_name())),
            decreases nc - k,
        {
            proof {
                assert(self@.commits[k as int] == self.commits@[k as int]@);
            }
            if self.commits[k].hash.eq(h) && (str_eq(
                self.commits[k].branch_name.as_str(),
                name.as_str(),
            ) || str_eq(self.commits[k].branch_name.as_str(), "master")) {
                return true;
            }
            k += 1;
        }
        false
    }
}

} // verus!
