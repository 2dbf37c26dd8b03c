use vstd::prelude::*;
use crate::util::commit::{ChangesView, CommitChanges, CommitView};
use crate::util::error::VcsError;
use crate::util::hash::{zero_digest, VcsHash};
use crate::util::listing::{has_path, lookup_hash, path_hash, unique_paths, FileEntry};
use crate::util::snapshot::{contains_path, contains_str};
use crate::util::vcs_state::{
    branch_exists, branch_index_of, branches_ok, chain_ok, head_witness,
    lemma_branch_index_unique, names_ok, parent_witness, tip_witness, trunk_name, well_formed,
    StateView, VcsState,
};
use crate::vcs_commands::commit::{at_branch_tip, commit_applied};

verus! {

broadcast use crate::util::hash::lemma_hash_view_len;

/// A chain of parent links leading from `from` down to `to`, all of whose
/// intermediate commits lie off the trunk. The fork point of a branch is
/// the first trunk commit such a chain reaches.
pub open spec fn ancestor_path(cs: Seq<CommitView>, from: Seq<u8>, to: Seq<u8>, fuel: nat) -> bool
    decreases fuel,
{
    from == to || (fuel > 0 && exists|k: int|
        0 <= k < cs.len() && (#[trigger] cs[k]).hash == from && cs[k].branch_name != trunk_name()
            && ancestor_path(cs, cs[k].parent, to, (fuel - 1) as nat))
}

/// `a` is a fork point for a chain starting at `tip`: reachable from the
/// tip through off-trunk commits, and recorded as a trunk commit's hash.
pub open spec fn is_fork_point(s: StateView, tip: Seq<u8>, a: Seq<u8>) -> bool {
    &&& exists|fuel: nat| ancestor_path(s.commits, tip, a, fuel)
    &&& exists|k: int|
        0 <= k < s.commits.len() && (#[trigger] s.commits[k]).hash == a && s.commits[k].branch_name
            == trunk_name()
}

/// A chain may be extended at its lower end through one more off-trunk
/// commit carrying its endpoint.
proof fn lemma_path_extend(cs: Seq<CommitView>, from: Seq<u8>, mid: Seq<u8>, k: int, fuel: nat)
    requires
        ancestor_path(cs, from, mid, fuel),
        0 <= k < cs.len(),
        cs[k].hash == mid,
        cs[k].branch_name != trunk_name(),
    ensures
        ancestor_path(cs, from, cs[k].parent, (fuel + 1) as nat),
    decreases fuel,
{
    if from == mid {
        assert(ancestor_path(cs, cs[k].parent, cs[k].parent, fuel));
        assert(ancestor_path(cs, from, cs[k].parent, (fuel + 1) as nat));
    } else {
        let k0 = choose|k0: int|
            0 <= k0 < cs.len() && (#[trigger] cs[k0]).hash == from && cs[k0].branch_name
                != trunk_name() && ancestor_path(cs, cs[k0].parent, mid, (fuel - 1) as nat);
        lemma_path_extend(cs, cs[k0].parent, mid, k, (fuel - 1) as nat);
        assert(ancestor_path(cs, from, cs[k].parent, (fuel + 1) as nat));
    }
}

/// What `prepare` resolves before any mutation: the tip of the branch to
/// merge, and the fork point both sides diverged from.
pub struct MergePlan {
    pub branch_tip: VcsHash,
    pub ancestor: VcsHash,
}

/// Checks the preconditions of a merge and resolves the fork point, with
/// no mutation: the trunk must stand at its own tip, the branch must
/// exist and not be the trunk itself, and the working tree must be clean.
/// The fork point is found by walking parent links from the branch tip
/// until the first trunk commit.
#[verifier::loop_isolation(false)]
pub fn prepare(state: &VcsState, branch: &str, head_changes: &CommitChanges) -> (r: Result<
    MergePlan,
    VcsError,
>)
    requires
        well_formed(state@),
    ensures
        match r {
            Ok(plan) => {
                &&& state@.branches[0].commit_hash == state@.head
                &&& branch@ != trunk_name()
                &&& head_changes@.is_empty()
                &&& exists|b: int|
                    0 <= b < state@.branches.len() && (#[trigger] state@.branches[b]).name
                        == branch@ && plan.branch_tip@ == state@.branches[b].commit_hash
                &&& is_fork_point(state@, plan.branch_tip@, plan.ancestor@)
            },
            Err(e) => match e {
                VcsError::NotAtTrunkTip => state@.branches[0].commit_hash != state@.head,
                VcsError::CannotMergeTrunk => state@.branches[0].commit_hash == state@.head
                    && branch@ == trunk_name(),
                VcsError::BranchNotFound => state@.branches[0].commit_hash == state@.head
                    && branch@ != trunk_name() && !branch_exists(state@, branch@),
                VcsError::DirtyWorkingTree => state@.branches[0].commit_hash == state@.head
                    && branch@ != trunk_name() && branch_exists(state@, branch@)
                    && !head_changes@.is_empty(),
                _ => false,
            },
        },
{
    proof {
        assert(state@.branches[0] == state.branches@[0]@);
    }
    if !state.branches[0].commit_hash.eq(&state.head) {
        return Err(VcsError::NotAtTrunkTip);
    }
    if crate::util::text::str_eq(branch, "master") {
        return Err(VcsError::CannotMergeTrunk);
    }
    let b = match state.find_branch(branch) {
        Some(b) => b,
        None => {
            return Err(VcsError::BranchNotFound);
        },
    };
    if !head_changes.is_empty() {
        return Err(VcsError::DirtyWorkingTree);
    }
    proof {
        assert(state@.branches[b as int] == state.branches@[b as int]@);
    }
    let tip = state.branches[b].commit_hash;
    let mut cur = match state.find_commit(&tip) {
        Some(k) => k,
        None => {
            proof {
                assert(tip_witness(state@, b as int));
                assert(false);
            }
            return Err(VcsError::BranchNotFound);
        },
    };
    proof {
        assert(ancestor_path(state@.commits, tip@, state@.commits[cur as int].hash, 0));
    }
    while !crate::util::text::str_eq(state.commits[cur].branch_name.as_str(), "master")
        invariant
            cur < state@.commits.len(),
            exists|fuel: nat|
                ancestor_path(state@.commits, tip@, state@.commits[cur as int].hash, fuel),
        decreases cur,
    {
        proof {
            assert(state@.commits[cur as int] == state.commits@[cur as int]@);
            if cur == 0 {
                assert(state@.commits[0].branch_name == trunk_name());
                assert(false);
            }
            assert(parent_witness(state@, cur as int));
        }
        let parent_hash = state.commits[cur].parent;
        let j = match state.find_commit(&parent_hash) {
            Some(j) => j,
            None => {
                proof {
                    assert(false);
                }
                return Err(VcsError::BranchNotFound);
            },
        };
        proof {
            let jw = choose|jw: int|
                0 <= jw < cur && (#[trigger] state@.commits[jw]).hash
                    == state@.commits[cur as int].parent && (state@.commits[jw].branch_name
                    == state@.commits[cur as int].branch_name || state@.commits[jw].branch_name
                    == trunk_name());
            if j > jw {
                assert(state@.commits[jw].hash != parent_hash@);
            }
            assert(j < cur);
            let fuel = choose|fuel: nat|
                ancestor_path(state@.commits, tip@, state@.commits[cur as int].hash, fuel);
            lemma_path_extend(
                state@.commits,
                tip@,
                state@.commits[cur as int].hash,
                cur as int,
                fuel,
            );
            assert(state@.commits[j as int].hash == state@.commits[cur as int].parent);
            assert(ancestor_path(
                state@.commits,
                tip@,
                state@.commits[j as int].hash,
                (fuel + 1) as nat,
            ));
        }
        cur = j;
    }
    proof {
        assert(state@.commits[cur as int] == state.commits@[cur as int]@);
        assert(state@.commits[cur as int].branch_name == trunk_name());
    }
    let ancestor = state.commits[cur].hash;
    Ok(MergePlan { branch_tip: tip, ancestor })
}

/// Whether a comparison touched this path at all.
pub open spec fn changed(c: ChangesView, p: Seq<char>) -> bool {
    contains_str(c.modified, p) || contains_str(c.added, p) || contains_str(c.deleted, p)
}

/// The content a side's change leaves at a path: the zero digest as a
/// deletion marker, or the hash the side's tree records for it.
pub open spec fn change_result(c: ChangesView, listing: Seq<FileEntry>, p: Seq<char>) -> Seq<u8> {
    if contains_str(c.deleted, p) {
        zero_digest()
    } else {
        path_hash(listing, p)
    }
}

/// A path both sides changed since the fork, with different resulting
/// content.
pub open spec fn conflicting(
    cm: ChangesView,
    ml: Seq<FileEntry>,
    cb: ChangesView,
    bl: Seq<FileEntry>,
    p: Seq<char>,
) -> bool {
    changed(cm, p) && changed(cb, p) && change_result(cm, ml, p) != change_result(cb, bl, p)
}

/// How a conflict-free merge is applied to the branch's tree, or the
/// conflicting paths that stop it.
pub enum MergeResolution {
    Conflicts(Vec<String>),
    Apply { copy: Vec<String>, delete: Vec<String> },
}

/// A comparison whose modified and added paths all appear in the listing
/// of the tree it was taken from (which `find_changes` guarantees).
pub open spec fn changes_cover(c: ChangesView, listing: Seq<FileEntry>) -> bool {
    forall|p: Seq<char>|
        #![trigger contains_str(c.modified, p)]
        #![trigger contains_str(c.added, p)]
        (contains_str(c.modified, p) || contains_str(c.added, p)) ==> has_path(listing, p)
}

/// The content a side's change leaves at a path it touched.
fn result_of(c: &CommitChanges, listing: &Vec<FileEntry>, p: &str) -> (r: VcsHash)
    requires
        unique_paths(listing@),
        changes_cover(c@, listing@),
        changed(c@, p@),
    ensures
        r@ == change_result(c@, listing@, p@),
{
    if contains_path(&c.deleted, p) {
        return VcsHash::zero();
    }
    match lookup_hash(listing, p) {
        Some(h) => h,
        None => {
            proof {
                assert(false);
            }
            VcsHash::zero()
        },
    }
}

/// Whether a comparison touched this path.
fn changed_exec(c: &CommitChanges, p: &str) -> (r: bool)
    ensures
        r == changed(c@, p@),
{
    contains_path(&c.modified, p) || contains_path(&c.added, p) || contains_path(&c.deleted, p)
}

/// Detects divergence between what the trunk and the branch each did
/// since the fork, and resolves it: either the conflicting paths, or the
/// application lists — which trunk-side files to copy forward into the
/// branch's tree (those the branch does not hold) and which to delete
/// from it (those trunk deleted that the branch still holds).
#[verifier::loop_isolation(false)]
pub fn resolve(
    changes_master: &CommitChanges,
    master_listing: &Vec<FileEntry>,
    changes_branch: &CommitChanges,
    branch_listing: &Vec<FileEntry>,
) -> (r: MergeResolution)
    requires
        unique_paths(master_listing@),
        unique_paths(branch_listing@),
        changes_cover(changes_master@, master_listing@),
        changes_cover(changes_branch@, branch_listing@),
    ensures
        match r {
            MergeResolution::Conflicts(v) => v.deep_view().len() > 0 && forall|p: Seq<char>|
                #[trigger] contains_str(v.deep_view(), p) <==> conflicting(
                    changes_master@,
                    master_listing@,
                    changes_branch@,
                    branch_listing@,
                    p,
                ),
            MergeResolution::Apply { copy, delete } => {
                &&& forall|p: Seq<char>|
                    !conflicting(
                        changes_master@,
                        master_listing@,
                        changes_branch@,
                        branch_listing@,
                        p,
                    )
                &&& forall|p: Seq<char>|
                    #[trigger] contains_str(copy.deep_view(), p) <==> ((contains_str(
                        changes_master@.modified,
                        p,
                    ) || contains_str(changes_master@.added, p)) && !has_path(branch_listing@, p))
                &&& forall|p: Seq<char>|
                    #[trigger] contains_str(delete.deep_view(), p) <==> (contains_str(
                        changes_master@.deleted,
                        p,
                    ) && has_path(branch_listing@, p))
            },
        },
{
    let ghost cm = changes_master@;
    let ghost ml = master_listing@;
    let ghost cb = changes_branch@;
    let ghost bl = branch_listing@;
    let mut conflicts: Vec<String> = Vec::new();
    let mut li: usize = 0;
    while li < 3
        invariant
            0 <= li <= 3,
            forall|q: Seq<char>|
                #![trigger contains_str(conflicts.deep_view(), q)]
                #![trigger conflicting(cm, ml, cb, bl, q)]
                contains_str(conflicts.deep_view(), q) <==> (conflicting(cm, ml, cb, bl, q) && ((li
                    >= 1 && contains_str(cm.modified, q)) || (li >= 2 && contains_str(cm.added, q))
                    || (li >= 3 && contains_str(cm.deleted, q)))),
        decreases 3 - li,
    {
        let lst: &Vec<String> = if li == 0 {
            &changes_master.modified
        } else if li == 1 {
            &changes_master.added
        } else {
            &changes_master.deleted
        };
        let ghost lst_v: Seq<Seq<char>> = if li == 0 {
            cm.modified
        } else if li == 1 {
            cm.added
        } else {
            cm.deleted
        };
        let n: usize = lst.len();
        let mut x: usize = 0;
        while x < n
            invariant
                0 <= x <= n,
                n == lst_v.len(),
                lst@.len() == n,
                lst.deep_view() == lst_v,
                li < 3,
                forall|q: Seq<char>|
                    #![trigger contains_str(conflicts.deep_view(), q)]
                    #![trigger conflicting(cm, ml, cb, bl, q)]
                    contains_str(conflicts.deep_view(), q) <==> (conflicting(cm, ml, cb, bl, q) && (
                    (li >= 1 && contains_str(cm.modified, q)) || (li >= 2 && contains_str(
                        cm.added,
                        q,
                    )) || (li >= 3 && contains_str(cm.deleted, q)) || contains_str(
                        lst_v.take(x as int),
                        q,
                    ))),
            decreases n - x,
        {
            let p = &lst[x];
            proof {
                assert(lst.deep_view()[x as int] == lst@[x as int]@);
                assert(contains_str(lst_v, p@));
                assert(changed(cm, p@));
                assert(lst_v.take(x + 1) =~= lst_v.take(x as int).push(p@));
            }
            if changed_exec(changes_branch, p.as_str()) {
                let rm = result_of(changes_master, master_listing, p.as_str());
                let rb = result_of(changes_branch, branch_listing, p.as_str());
                if !rm.eq(&rb) {
                    let ghost old_dv = conflicts.deep_view();
                    conflicts.push(p.clone());
                    proof {
                        assert(conflicts.deep_view() =~= old_dv.push(p@));
                        assert(conflicting(cm, ml, cb, bl, p@));
                        assert forall|q: Seq<char>| #[trigger] contains_str(
                            conflicts.deep_view(),
                            q,
                        ) implies contains_str(old_dv, q) || q == p@ by {
                            let y = choose|y: int|
                                0 <= y < conflicts.deep_view().len() && conflicts.deep_view()[y]
                                    == q;
                            if y < old_dv.len() {
                                assert(old_dv[y] == q);
                            }
                        }
                        assert forall|q: Seq<char>| contains_str(old_dv, q) implies contains_str(
                            conflicts.deep_view(),
                            q,
                        ) by {
                            let y = choose|y: int| 0 <= y < old_dv.len() && old_dv[y] == q;
                            assert(conflicts.deep_view()[y] == q);
                        }
                        assert(conflicts.deep_view()[old_dv.len() as int] == p@);
                        assert(contains_str(conflicts.deep_view(), p@));
                    }
                }
            }
            proof {
                lemma_take_contains(lst_v, x as int);
                assert forall|q: Seq<char>|
                    #![trigger contains_str(conflicts.deep_view(), q)]
                    #![trigger conflicting(cm, ml, cb, bl, q)]
                    contains_str(conflicts.deep_view(), q)
                    <==> (conflicting(cm, ml, cb, bl, q) && ((li >= 1 && contains_str(
                    cm.modified,
                    q,
                )) || (li >= 2 && contains_str(cm.added, q)) || (li >= 3 && contains_str(
                    cm.deleted,
                    q,
                )) || contains_str(lst_v.take(x as int + 1), q))) by {
                    assert(contains_str(lst_v.take(x as int + 1), q) == (contains_str(
                        lst_v.take(x as int),
                        q,
                    ) || q == p@));
                    if q == p@ && !conflicting(cm, ml, cb, bl, p@) {
                        assert(!contains_str(conflicts.deep_view(), q));
                    }
                }
            }
            x += 1;
        }
        proof {
            assert(lst_v.take(n as int) =~= lst_v);
        }
        li += 1;
    }
    if conflicts.len() > 0 {
        proof {
            assert(contains_str(conflicts.deep_view(), conflicts.deep_view()[0]));
        }
        return MergeResolution::Conflicts(conflicts);
    }
    // no divergence: build the application lists
    proof {
        assert forall|p: Seq<char>| !conflicting(cm, ml, cb, bl, p) by {
            if conflicting(cm, ml, cb, bl, p) {
                assert(contains_str(conflicts.deep_view(), p));
            }
        }
    }
    let mut copy: Vec<String> = Vec::new();
    let mut delete: Vec<String> = Vec::new();
    let mut li: usize = 0;
    while li < 2
        invariant
            0 <= li <= 2,
            forall|q: Seq<char>|
                #![trigger contains_str(copy.deep_view(), q)]
                #![trigger has_path(bl, q)]
                contains_str(copy.deep_view(), q) <==> (((li >= 1 && contains_str(cm.modified, q))
                    || (li >= 2 && contains_str(cm.added, q))) && !has_path(bl, q)),
        decreases 2 - li,
    {
        let lst: &Vec<String> = if li == 0 {
            &changes_master.modified
        } else {
            &changes_master.added
        };
        let ghost lst_v: Seq<Seq<char>> = if li == 0 {
            cm.modified
        } else {
            cm.added
        };
        let n: usize = lst.len();
        let mut x: usize = 0;
        while x < n
            invariant
                0 <= x <= n,
                n == lst_v.len(),
                lst@.len() == n,
                lst.deep_view() == lst_v,
                li < 2,
                forall|q: Seq<char>|
                    #![trigger contains_str(copy.deep_view(), q)]
                    #![trigger has_path(bl, q)]
                    contains_str(copy.deep_view(), q) <==> (((li >= 1 && contains_str(
                        cm.modified,
                        q,
                    )) || (li >= 2 && contains_str(cm.added, q)) || contains_str(
                        lst_v.take(x as int),
                        q,
                    )) && !has_path(bl, q)),
            decreases n - x,
        {
            let p = &lst[x];
            proof {
                assert(lst.deep_view()[x as int] == lst@[x as int]@);
                assert(contains_str(lst_v, p@));
                assert(lst_v.take(x + 1) =~= lst_v.take(x as int).push(p@));
            }
            match lookup_hash(branch_listing, p.as_str()) {
                Some(_) => {},
                None => {
                    let ghost old_dv = copy.deep_view();
                    copy.push(p.clone());
                    proof {
                        assert(copy.deep_view() =~= old_dv.push(p@));
                        assert forall|q: Seq<char>| #[trigger] contains_str(
                            copy.deep_view(),
                            q,
                        ) implies contains_str(old_dv, q) || q == p@ by {
                            let y = choose|y: int|
                                0 <= y < copy.deep_view().len() && copy.deep_view()[y] == q;
                            if y < old_dv.len() {
                                assert(old_dv[y] == q);
                            }
                        }
                        assert forall|q: Seq<char>| contains_str(old_dv, q) implies contains_str(
                            copy.deep_view(),
                            q,
                        ) by {
                            let y = choose|y: int| 0 <= y < old_dv.len() && old_dv[y] == q;
                            assert(copy.deep_view()[y] == q);
                        }
                        assert(copy.deep_view()[old_dv.len() as int] == p@);
                        assert(contains_str(copy.deep_view(), p@));
                    }
                },
            }
            proof {
                lemma_take_contains(lst_v, x as int);
                assert forall|q: Seq<char>|
                    #![trigger contains_str(copy.deep_view(), q)]
                    #![trigger has_path(bl, q)]
                    contains_str(copy.deep_view(), q) <==> (((li
                    >= 1 && contains_str(cm.modified, q)) || (li >= 2 && contains_str(cm.added, q))
                    || contains_str(lst_v.take(x as int + 1), q)) && !has_path(bl, q)) by {
                    assert(contains_str(lst_v.take(x as int + 1), q) == (contains_str(
                        lst_v.take(x as int),
                        q,
                    ) || q == p@));
                }
            }
            x += 1;
        }
        proof {
            assert(lst_v.take(n as int) =~= lst_v);
        }
        li += 1;
    }
    let n: usize = changes_master.deleted.len();
    let mut x: usize = 0;
    while x < n
        invariant
            0 <= x <= n,
            n == cm.deleted.len(),
            changes_master.deleted@.len() == n,
            forall|q: Seq<char>|
                #![trigger contains_str(delete.deep_view(), q)]
                #![trigger has_path(bl, q)]
                contains_str(delete.deep_view(), q) <==> (contains_str(
                    cm.deleted.take(x as int),
                    q,
                ) && has_path(bl, q)),
        decreases n - x,
    {
        let p = &changes_master.deleted[x];
        proof {
            assert(changes_master.deleted.deep_view()[x as int]
                == changes_master.deleted@[x as int]@);
            assert(cm.deleted.take(x + 1) =~= cm.deleted.take(x as int).push(p@));
        }
        match lookup_hash(branch_listing, p.as_str()) {
            Some(_) => {
                let ghost old_dv = delete.deep_view();
                delete.push(p.clone());
                proof {
                    assert(delete.deep_view() =~= old_dv.push(p@));
                    assert forall|q: Seq<char>| #[trigger] contains_str(
                        delete.deep_view(),
                        q,
                    ) implies contains_str(old_dv, q) || q == p@ by {
                        let y = choose|y: int|
                            0 <= y < delete.deep_view().len() && delete.deep_view()[y] == q;
                        if y < old_dv.len() {
                            assert(old_dv[y] == q);
                        }
                    }
                    assert forall|q: Seq<char>| contains_str(old_dv, q) implies contains_str(
                        delete.deep_view(),
                        q,
                    ) by {
                        let y = choose|y: int| 0 <= y < old_dv.len() && old_dv[y] == q;
                        assert(delete.deep_view()[y] == q);
                    }
                    assert(delete.deep_view()[old_dv.len() as int] == p@);
                    assert(contains_str(delete.deep_view(), p@));
                }
            },
            None => {},
        }
        proof {
            lemma_take_contains(cm.deleted, x as int);
            assert forall|q: Seq<char>|
                #![trigger contains_str(delete.deep_view(), q)]
                #![trigger has_path(bl, q)]
                contains_str(delete.deep_view(), q) <==> (contains_str(
                cm.deleted.take(x as int + 1), q) && has_path(bl, q)) by {
                assert(contains_str(cm.deleted.take(x as int + 1), q) == (contains_str(
                    cm.deleted.take(x as int),
                    q,
                ) || q == p@));
            }
        }
        x += 1;
    }
    proof {
        assert(cm.deleted.take(n as int) =~= cm.deleted);
    }
    MergeResolution::Apply { copy, delete }
}

/// Membership in a prefix, one element longer.
proof fn lemma_take_contains(l: Seq<Seq<char>>, x: int)
    requires
        0 <= x < l.len(),
    ensures
        forall|q: Seq<char>|
            #[trigger] contains_str(l.take(x + 1), q) <==> contains_str(l.take(x), q) || q == l[x],
{
    assert(l.take(x + 1) =~= l.take(x).push(l[x]));
    assert forall|q: Seq<char>| #[trigger] contains_str(l.take(x + 1), q) implies contains_str(
        l.take(x),
        q,
    ) || q == l[x] by {
        let lx = l.take(x + 1);
        let y = choose|y: int| 0 <= y < lx.len() && #[trigger] lx[y] == q;
        if y < x {
            assert(l.take(x)[y] == q);
        }
    }
    assert forall|q: Seq<char>| contains_str(l.take(x), q) implies #[trigger] contains_str(
        l.take(x + 1),
        q,
    ) by {
        let lx = l.take(x);
        let y = choose|y: int| 0 <= y < lx.len() && #[trigger] lx[y] == q;
        assert(l.take(x + 1)[y] == q);
    }
    assert(l.take(x + 1)[x] == l[x]);
    assert(contains_str(l.take(x + 1), l[x]));
}


/// The commits that survive deleting branch `b`, from position `i` on.
pub open spec fn kept_from(cs: Seq<CommitView>, b: Seq<char>, i: int) -> Seq<CommitView>
    decreases cs.len() - i when 0 <= i <= cs.len()
{
    if i >= cs.len() {
        Seq::<CommitView>::empty()
    } else if cs[i].branch_name == b {
        kept_from(cs, b, i + 1)
    } else {
        seq![cs[i]] + kept_from(cs, b, i + 1)
    }
}

/// The record after the merged branch and its commits are deleted and
/// the trunk is checked out, before the merge commit is recorded.
pub open spec fn stripped(s: StateView, b: Seq<char>) -> StateView {
    StateView {
        head: s.head,
        branch_name: trunk_name(),
        branches: s.branches.remove(branch_index_of(s, b)),
        commits: kept_from(s.commits, b, 0),
    }
}

/// The message recorded by the merge commit.
pub open spec fn merge_message(b: Seq<char>) -> Seq<char> {
    "Merged branch "@ + b + "."@
}

/// What holds while a branch's commits are being deleted: every global
/// invariant except that commits of the dying branch may still name it,
/// though its entry is gone; the head is a trunk commit throughout.
spec fn strip_inv(s: StateView, b: Seq<char>) -> bool {
    &&& chain_ok(s)
    &&& branches_ok(s)
    &&& s.head.len() == 20
    &&& s.branch_name == trunk_name()
    &&& exists|k: int|
        0 <= k < s.commits.len() && (#[trigger] s.commits[k]).hash == s.head
            && s.commits[k].branch_name == trunk_name()
    &&& forall|i: int|
        0 <= i < s.commits.len() ==> (exists|bb: int|
            0 <= bb < s.branches.len() && (#[trigger] s.branches[bb]).name == (
            #[trigger] s.commits[i]).branch_name) || s.commits[i].branch_name == b
    &&& !branch_exists(s, b)
    &&& b != trunk_name()
}

/// Removing the dying branch's entry establishes the stripping invariant.
proof fn lemma_strip_entry(s: StateView, s2: StateView, b: Seq<char>, pos: int)
    requires
        well_formed(s),
        0 <= pos < s.branches.len(),
        s.branches[pos].name == b,
        b != trunk_name(),
        s.branches[0].commit_hash == s.head,
        s2 == (StateView {
            head: s.head,
            branch_name: trunk_name(),
            branches: s.branches.remove(pos),
            commits: s.commits,
        }),
    ensures
        strip_inv(s2, b),
        pos >= 1,
        s2.branches[0] == s.branches[0],
{
    assert(pos != 0);
    assert(forall|bb: int|
        0 <= bb < s2.branches.len() ==> #[trigger] s2.branches[bb] == (if bb < pos {
            s.branches[bb]
        } else {
            s.branches[bb + 1]
        }));
    assert forall|i: int| 1 <= i < s2.commits.len() implies #[trigger] parent_witness(s2, i) by {
        assert(parent_witness(s, i));
        let j = choose|j: int|
            0 <= j < i && (#[trigger] s.commits[j]).hash == s.commits[i].parent && (
            s.commits[j].branch_name == s.commits[i].branch_name || s.commits[j].branch_name
                == trunk_name());
        assert(s2.commits[j] == s.commits[j]);
    }
    assert(chain_ok(s2));
    assert forall|bb: int| 0 <= bb < s2.branches.len() implies #[trigger] tip_witness(s2, bb) by {
        let orig: int = if bb < pos { bb } else { bb + 1 };
        assert(tip_witness(s, orig));
        let k = choose|k: int|
            0 <= k < s.commits.len() && (#[trigger] s.commits[k]).hash
                == s.branches[orig].commit_hash && (s.commits[k].branch_name
                == s.branches[orig].name || s.commits[k].branch_name == trunk_name());
        assert(s2.commits[k] == s.commits[k]);
        assert(s2.branches[bb] == s.branches[orig]);
    }
    assert(branches_ok(s2));
    // the head is the trunk's own tip
    assert(tip_witness(s, 0));
    let hk = choose|k: int|
        0 <= k < s.commits.len() && (#[trigger] s.commits[k]).hash == s.branches[0].commit_hash && (
        s.commits[k].branch_name == s.branches[0].name || s.commits[k].branch_name
            == trunk_name());
    assert(s2.commits[hk].hash == s2.head && s2.commits[hk].branch_name == trunk_name());
    // every commit still resolves, or belongs to the dying branch
    assert forall|i: int| 0 <= i < s2.commits.len() implies (exists|bb: int|
        0 <= bb < s2.branches.len() && (#[trigger] s2.branches[bb]).name == (
        #[trigger] s2.commits[i]).branch_name) || s2.commits[i].branch_name == b by {
        let bb = choose|bb: int|
            0 <= bb < s.branches.len() && (#[trigger] s.branches[bb]).name
                == s.commits[i].branch_name;
        if bb == pos {
        } else {
            let nb: int = if bb < pos {
                bb
            } else {
                bb - 1
            };
            assert(s2.branches[nb] == s.branches[bb]);
        }
    }
    assert forall|bb: int| 0 <= bb < s2.branches.len() implies (#[trigger] s2.branches[bb]).name
        != b by {
        let orig: int = if bb < pos { bb } else { bb + 1 };
        if orig < pos {
            assert(s.branches[orig].name != s.branches[pos].name);
        } else {
            assert(s.branches[pos].name != s.branches[orig].name);
        }
    }
    assert(!branch_exists(s2, b)) by {
        if branch_exists(s2, b) {
            let bb = choose|bb: int|
                0 <= bb < s2.branches.len() && (#[trigger] s2.branches[bb]).name == b;
            assert(s2.branches[bb].name != b);
        }
    }
}

/// Removing one commit of the dying branch, with everything above it
/// already clean, keeps the stripping invariant.
proof fn lemma_strip_remove(s: StateView, s2: StateView, b: Seq<char>, r: int)
    requires
        strip_inv(s, b),
        0 <= r < s.commits.len(),
        s.commits[r].branch_name == b,
        forall|x: int| r < x < s.commits.len() ==> (#[trigger] s.commits[x]).branch_name != b,
        s2 == (StateView {
            head: s.head,
            branch_name: s.branch_name,
            branches: s.branches,
            commits: s.commits.remove(r),
        }),
    ensures
        strip_inv(s2, b),
        forall|x: int| r <= x < s2.commits.len() ==> (#[trigger] s2.commits[x]).branch_name != b,
{
    assert(r != 0);
    assert(forall|x: int|
        0 <= x < s2.commits.len() ==> #[trigger] s2.commits[x] == (if x < r {
            s.commits[x]
        } else {
            s.commits[x + 1]
        }));
    assert forall|x: int| 1 <= x < s2.commits.len() implies #[trigger] parent_witness(s2, x) by {
        let o: int = if x < r { x } else { x + 1 };
        assert(s2.commits[x] == s.commits[o]);
        assert(parent_witness(s, o));
        let j = choose|j: int|
            0 <= j < o && (#[trigger] s.commits[j]).hash == s.commits[o].parent && (
            s.commits[j].branch_name == s.commits[o].branch_name || s.commits[j].branch_name
                == trunk_name());
        if o > r {
            // the witness is not the removed commit: its name is off the
            // dying branch, as the commit's own name is
            assert(s.commits[o].branch_name != b);
            assert(j != r);
        }
        if j < r {
            assert(s2.commits[j] == s.commits[j]);
            assert(parent_witness(s2, x));
        } else {
            assert(j > r);
            assert(s2.commits[j - 1] == s.commits[j]);
            assert(parent_witness(s2, x));
        }
    }
    assert(chain_ok(s2));
    assert forall|bb: int| 0 <= bb < s2.branches.len() implies #[trigger] tip_witness(s2, bb) by {
        assert(tip_witness(s, bb));
        let k = choose|k: int|
            0 <= k < s.commits.len() && (#[trigger] s.commits[k]).hash
                == s.branches[bb].commit_hash && (s.commits[k].branch_name == s.branches[bb].name
                || s.commits[k].branch_name == trunk_name());
        assert(s.branches[bb].name != b) by {
            if s.branches[bb].name == b {
                assert(branch_exists(s, b));
            }
        }
        assert(k != r);
        if k < r {
            assert(s2.commits[k] == s.commits[k]);
        } else {
            assert(s2.commits[k - 1] == s.commits[k]);
        }
    }
    assert(branches_ok(s2));
    let hk = choose|k: int|
        0 <= k < s.commits.len() && (#[trigger] s.commits[k]).hash == s.head
            && s.commits[k].branch_name == trunk_name();
    assert(hk != r);
    if hk < r {
        assert(s2.commits[hk] == s.commits[hk]);
    } else {
        assert(s2.commits[hk - 1] == s.commits[hk]);
    }
    assert forall|i: int| 0 <= i < s2.commits.len() implies (exists|bb: int|
        0 <= bb < s2.branches.len() && (#[trigger] s2.branches[bb]).name == (
        #[trigger] s2.commits[i]).branch_name) || s2.commits[i].branch_name == b by {
        let o: int = if i < r { i } else { i + 1 };
        assert(s2.commits[i] == s.commits[o]);
        if s.commits[o].branch_name != b {
            let bb = choose|bb: int|
                0 <= bb < s.branches.len() && (#[trigger] s.branches[bb]).name
                    == s.commits[o].branch_name;
            assert(s2.branches[bb].name == s2.commits[i].branch_name);
        }
    }
}

/// Deletes the merged branch and records the merge commit. `merged_changes`
/// is the comparison of the merged tree against the old trunk head, and
/// `new_hash` the identity of its captured snapshot. On success the
/// branch's entry and every commit carrying its name are gone, the trunk
/// is checked out with the merge commit at its tip, and the returned
/// hashes identify the snapshot blobs whose commits were deleted.
#[verifier::loop_isolation(false)]
pub fn finish(
    state: &mut VcsState,
    branch: &str,
    merged_changes: CommitChanges,
    new_hash: &VcsHash,
    time: &str,
) -> (r: Result<Vec<VcsHash>, VcsError>)
    requires
        well_formed(old(state)@),
    ensures
        match r {
            Ok(blobs) => {
                &&& old(state)@.branches[0].commit_hash == old(state)@.head
                &&& branch@ != trunk_name()
                &&& branch_exists(old(state)@, branch@)
                &&& !merged_changes@.is_empty()
                &&& new_hash@ != zero_digest()
                &&& final(state)@ == commit_applied(
                    stripped(old(state)@, branch@),
                    merged_changes@,
                    new_hash@,
                    time@,
                    merge_message(branch@),
                )
                &&& well_formed(final(state)@)
                &&& forall|h: Seq<u8>|
                    #[trigger] blobs.deep_view().contains(h) <==> exists|ii: int|
                        0 <= ii < old(state)@.commits.len() && (#[trigger] old(
                        state)@.commits[ii]).branch_name == branch@ && old(state)@.commits[ii].hash
                            == h
            },
            Err(e) => final(state)@ == old(state)@ && match e {
                VcsError::NotAtTrunkTip => old(state)@.branches[0].commit_hash != old(state)@.head,
                VcsError::CannotMergeTrunk => old(state)@.branches[0].commit_hash == old(
                    state)@.head && branch@ == trunk_name(),
                VcsError::BranchNotFound => old(state)@.branches[0].commit_hash == old(state)@.head
                    && branch@ != trunk_name() && !branch_exists(old(state)@, branch@),
                VcsError::NothingToCommit => old(state)@.branches[0].commit_hash == old(
                    state)@.head && branch@ != trunk_name() && branch_exists(old(state)@, branch@)
                    && merged_changes@.is_empty(),
                VcsError::Corrupt => old(state)@.branches[0].commit_hash == old(state)@.head
                    && branch@ != trunk_name() && branch_exists(old(state)@, branch@)
                    && !merged_changes@.is_empty() && new_hash@ == zero_digest(),
                _ => false,
            },
        },
{
    let ghost s0 = state@;
    proof {
        assert(state@.branches[0] == state.branches@[0]@);
    }
    if !state.branches[0].commit_hash.eq(&state.head) {
        return Err(VcsError::NotAtTrunkTip);
    }
    if crate::util::text::str_eq(branch, "master") {
        return Err(VcsError::CannotMergeTrunk);
    }
    let pos = match state.find_branch(branch) {
        Some(b) => b,
        None => {
            proof {
                assert(!branch_exists(state@, branch@)) by {
                    if branch_exists(state@, branch@) {
                        let bb = choose|bb: int|
                            0 <= bb < state@.branches.len() && (#[trigger] state@.branches[bb]).name
                                == branch@;
                        assert(state@.branches[bb].name != branch@);
                    }
                }
            }
            return Err(VcsError::BranchNotFound);
        },
    };
    if merged_changes.is_empty() {
        return Err(VcsError::NothingToCommit);
    }
    if new_hash.is_zero() {
        return Err(VcsError::Corrupt);
    }
    proof {
        lemma_branch_index_unique(s0, pos as int);
    }
    // the snapshot blobs of the commits about to be deleted
    let nc: usize = state.commits.len();
    let mut blobs: Vec<VcsHash> = Vec::new();
    let mut k: usize = 0;
    while k < nc
        invariant
            0 <= k <= nc,
            nc == s0.commits.len(),
            state@ == s0,
            forall|h: Seq<u8>|
                #![trigger blobs.deep_view().contains(h)]
                blobs.deep_view().contains(h) <==> exists|ii: int|
                    0 <= ii < k && (#[trigger] s0.commits[ii]).branch_name == branch@
                        && s0.commits[ii].hash == h,
        decreases nc - k,
    {
        proof {
            assert(state@.commits[k as int] == state.commits@[k as int]@);
        }
        if crate::util::text::str_eq(state.commits[k].branch_name.as_str(), branch) {
            let ghost old_dv = blobs.deep_view();
            blobs.push(state.commits[k].hash);
            proof {
                assert(blobs.deep_view() =~= old_dv.push(s0.commits[k as int].hash));
                assert(blobs.deep_view()[old_dv.len() as int] == s0.commits[k as int].hash);
                assert forall|h: Seq<u8>| #[trigger] blobs.deep_view().contains(h) implies
                    old_dv.contains(h) || h == s0.commits[k as int].hash by {
                    let y = choose|y: int|
                        0 <= y < blobs.deep_view().len() && blobs.deep_view()[y] == h;
                    if y < old_dv.len() {
                        assert(old_dv[y] == h);
                    }
                }
                assert forall|h: Seq<u8>| old_dv.contains(h) implies #[trigger] blobs.deep_view().contains(
                    h,
                ) by {
                    let y = choose|y: int| 0 <= y < old_dv.len() && old_dv[y] == h;
                    assert(blobs.deep_view()[y] == h);
                }
                assert(blobs.deep_view().contains(s0.commits[k as int].hash));
            }
        }
        proof {
            assert forall|h: Seq<u8>| #[trigger] blobs.deep_view().contains(h) implies exists|
                ii: int,
            |
                0 <= ii < k + 1 && (#[trigger] s0.commits[ii]).branch_name == branch@
                    && s0.commits[ii].hash == h by {}
            assert forall|h: Seq<u8>|
                (exists|ii: int|
                    0 <= ii < k + 1 && (#[trigger] s0.commits[ii]).branch_name == branch@
                        && s0.commits[ii].hash == h) implies #[trigger] blobs.deep_view().contains(
                h,
            ) by {
                let ii = choose|ii: int|
                    0 <= ii < k + 1 && (#[trigger] s0.commits[ii]).branch_name == branch@
                        && s0.commits[ii].hash == h;
                if ii < k {
                    assert(exists|jj: int|
                        0 <= jj < k && (#[trigger] s0.commits[jj]).branch_name == branch@
                            && s0.commits[jj].hash == h);
                }
            }
        }
        k += 1;
    }
    // check out the trunk and drop the branch's entry
    state.branch_name = String::from_str("master");
    state.branches.remove(pos);
    let ghost s_entry = state@;
    proof {
        assert(s_entry.branches =~= s0.branches.remove(pos as int));
        assert(s_entry =~= (StateView {
            head: s0.head,
            branch_name: trunk_name(),
            branches: s0.branches.remove(pos as int),
            commits: s0.commits,
        }));
        lemma_strip_entry(s0, s_entry, branch@, pos as int);
    }
    // drop the branch's commits, from the newest down
    let n0: usize = state.commits.len();
    let mut i: usize = n0;
    while i > 0
        invariant
            0 <= i <= s0.commits.len(),
            state@.branches == s_entry.branches,
            state@.branch_name == s_entry.branch_name,
            state@.head == s0.head,
            strip_inv(state@, branch@),
            state@.commits =~= s0.commits.take(i as int) + kept_from(s0.commits, branch@, i as int),
            forall|x: int|
                i <= x < state@.commits.len() ==> (#[trigger] state@.commits[x]).branch_name
                    != branch@,
        decreases i,
    {
        i -= 1;
        proof {
            assert(state@.commits[i as int] == s0.commits[i as int]);
            assert(state@.commits[i as int] == state.commits@[i as int]@);
        }
        if crate::util::text::str_eq(state.commits[i].branch_name.as_str(), branch) {
            let ghost s_pre = state@;
            state.commits.remove(i);
            proof {
                assert(state@.commits =~= s_pre.commits.remove(i as int));
                assert(state@ =~= (StateView {
                    head: s_pre.head,
                    branch_name: s_pre.branch_name,
                    branches: s_pre.branches,
                    commits: s_pre.commits.remove(i as int),
                }));
                lemma_strip_remove(s_pre, state@, branch@, i as int);
                assert(kept_from(s0.commits, branch@, i as int) == kept_from(
                    s0.commits,
                    branch@,
                    i + 1,
                ));
                assert(state@.commits =~= s0.commits.take(i as int) + kept_from(
                    s0.commits,
                    branch@,
                    i as int,
                ));
            }
        } else {
            proof {
                assert(kept_from(s0.commits, branch@, i as int) == seq![s0.commits[i as int]]
                    + kept_from(s0.commits, branch@, i + 1));
                assert(state@.commits =~= s0.commits.take(i as int) + kept_from(
                    s0.commits,
                    branch@,
                    i as int,
                ));
            }
        }
    }
    proof {
        assert(s0.commits.take(0) =~= Seq::<CommitView>::empty());
        assert(state@.commits =~= kept_from(s0.commits, branch@, 0));
        assert(state@ =~= stripped(s0, branch@));
        // with the dying branch's commits gone, the record is well formed
        assert forall|ii: int| 0 <= ii < state@.commits.len() implies exists|bb: int|
            0 <= bb < state@.branches.len() && (#[trigger] state@.branches[bb]).name == (
            #[trigger] state@.commits[ii]).branch_name by {
            assert(state@.commits[ii].branch_name != branch@);
        }
        assert(names_ok(state@));
        assert(head_witness(state@));
        assert(state@.branches[0].name == trunk_name());
        assert(well_formed(state@));
        // the trunk is at its tip, so the merge commit may be recorded
        lemma_branch_index_unique(state@, 0);
        assert(at_branch_tip(state@));
    }
    let message = String::from_str("Merged branch ").concat(branch).concat(".");
    proof {
        assert(message@ == merge_message(branch@));
    }
    let ghost s_strip = state@;
    match crate::vcs_commands::commit::run(state, merged_changes, new_hash, time, message.as_str())
    {
        Ok(_) => {},
        Err(_) => {
            proof {
                assert(false);
            }
            return Err(VcsError::Corrupt);
        },
    }
    Ok(blobs)
}

} // verus!
