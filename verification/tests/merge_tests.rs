use std::collections::HashMap;
use vcs::util::commit::CommitChanges;
use vcs::util::error::VcsError;
use vcs::util::hash::VcsHash;
use vcs::util::listing::{sort_entries, FileEntry};
use vcs::util::snapshot::{create_snapshot, find_changes};
use vcs::util::vcs_state::VcsState;
use vcs::vcs_commands::{commit, init, jump, merge, new_branch};
use vcs::vcs_commands::merge::MergeResolution;

fn entry(path: &str, content: &str) -> FileEntry {
    FileEntry { path: path.to_string(), hash: VcsHash::from_bytes(content.as_bytes()) }
}

fn listing(entries: &[(&str, &str)]) -> Vec<FileEntry> {
    entries.iter().map(|(p, c)| entry(p, c)).collect()
}

fn capture(l: &Vec<FileEntry>) -> VcsHash {
    let mut s = String::new();
    for e in sort_entries(l) {
        s.push_str(&e.path);
        s.push('=');
        s.push_str(&e.hash.to_hex());
        s.push(';');
    }
    create_snapshot(s.as_bytes())
}

struct World {
    state: VcsState,
    tree: Vec<FileEntry>,
    store: HashMap<String, Vec<FileEntry>>,
}

fn init_world(entries: &[(&str, &str)]) -> World {
    let tree = listing(entries);
    let h = capture(&tree);
    let state = init::run(&h, "t0").unwrap();
    let mut store = HashMap::new();
    store.insert(h.to_hex(), tree.clone());
    World { state, tree, store }
}

fn diff_vs_head(w: &World) -> CommitChanges {
    find_changes(&w.store[&w.state.head.to_hex()], &w.tree)
}

fn commit_world(w: &mut World, msg: &str) -> Result<(), VcsError> {
    let changes = diff_vs_head(w);
    let h = capture(&w.tree);
    let r = commit::run(&mut w.state, changes, &h, "t", msg);
    if r.is_ok() {
        w.store.insert(h.to_hex(), w.tree.clone());
    }
    r
}

fn jump_branch(w: &mut World, branch: &str) {
    let changes = diff_vs_head(w);
    let target = jump::run(&mut w.state, &Some(branch.to_string()), &None, &changes).unwrap();
    w.tree = w.store[&target.to_hex()].clone();
}

fn set_file(tree: &mut Vec<FileEntry>, path: &str, content: &str) {
    for e in tree.iter_mut() {
        if e.path == path {
            e.hash = VcsHash::from_bytes(content.as_bytes());
            return;
        }
    }
    tree.push(entry(path, content));
}

/// Forks "dev" from the trunk, then applies the two given edits: one to
/// the trunk's tree, one to dev's. Leaves the world checked out on the
/// trunk, at its tip, clean.
fn forked_world(trunk_edit: (&str, &str), dev_edit: (&str, &str)) -> World {
    let mut w = init_world(&[("a.txt", "a1"), ("b.txt", "b1")]);
    new_branch::run(&mut w.state, "dev").unwrap();
    // on dev: apply dev's edit and commit
    set_file(&mut w.tree, dev_edit.0, dev_edit.1);
    commit_world(&mut w, "dev change").unwrap();
    // back on the trunk: apply the trunk's edit and commit
    jump_branch(&mut w, "master");
    set_file(&mut w.tree, trunk_edit.0, trunk_edit.1);
    commit_world(&mut w, "trunk change").unwrap();
    w
}

/// Runs the full merge protocol the way the boundary would, against the
/// in-memory tree store.
fn merge_world(w: &mut World, branch: &str) -> Result<Result<(), Vec<String>>, VcsError> {
    let plan = merge::prepare(&w.state, branch, &diff_vs_head(w))?;
    let ancestor_listing = w.store[&plan.ancestor.to_hex()].clone();
    let master_listing = w.store[&w.state.head.to_hex()].clone();
    let changes_master = find_changes(&ancestor_listing, &master_listing);
    // materialize the branch's snapshot in the working tree
    let branch_listing = w.store[&plan.branch_tip.to_hex()].clone();
    w.tree = branch_listing.clone();
    let changes_branch = find_changes(&ancestor_listing, &branch_listing);
    match merge::resolve(&changes_master, &master_listing, &changes_branch, &branch_listing) {
        MergeResolution::Conflicts(paths) => {
            // unwind: the tree goes back to the trunk's head snapshot
            w.tree = master_listing.clone();
            Ok(Err(paths))
        },
        MergeResolution::Apply { copy, delete } => {
            for p in copy.iter() {
                let h = master_listing.iter().find(|e| &e.path == p).unwrap().hash;
                w.tree.push(FileEntry { path: p.clone(), hash: h });
            }
            for p in delete.iter() {
                w.tree.retain(|e| &e.path != p);
            }
            let merged_changes = find_changes(&master_listing, &w.tree);
            let new_hash = capture(&w.tree);
            let blobs = merge::finish(&mut w.state, branch, merged_changes, &new_hash, "t")?;
            w.store.insert(new_hash.to_hex(), w.tree.clone());
            for h in blobs.iter() {
                w.store.remove(&h.to_hex());
            }
            Ok(Ok(()))
        },
    }
}

#[test]
fn merge_of_disjoint_edits_succeeds() {
    // trunk edits a.txt, dev edits b.txt: no conflict
    let mut w = forked_world(("a.txt", "a2"), ("b.txt", "b2"));
    let dev_tip = w.state.branches[1].commit_hash;
    merge_world(&mut w, "dev").unwrap().unwrap();
    assert!(w.state.assert_validity());
    // the trunk gained the branch's edit
    let b = w.tree.iter().find(|e| e.path == "b.txt").unwrap();
    assert!(b.hash == VcsHash::from_bytes("b2".as_bytes()));
    // the branch is gone, with its commits and blobs
    assert_eq!(w.state.branches.len(), 1);
    assert_eq!(w.state.branches[0].name, "master");
    assert!(w.state.commits.iter().all(|c| c.branch_name != "dev"));
    assert!(!w.store.contains_key(&dev_tip.to_hex()));
    // the merge commit sits on the trunk at the head
    let last = w.state.commits.last().unwrap();
    assert_eq!(last.branch_name, "master");
    assert_eq!(last.message, "Merged branch dev.");
    assert!(last.hash == w.state.head);
    assert!(w.state.branches[0].commit_hash == w.state.head);
}

#[test]
fn merge_of_conflicting_edits_reports_and_unwinds() {
    // both sides edit a.txt differently: a conflict, nothing mutated
    let mut w = forked_world(("a.txt", "a2"), ("a.txt", "a3"));
    let branches_before = w.state.branches.len();
    let commits_before = w.state.commits.len();
    let head_before = w.state.head;
    let conflicts = merge_world(&mut w, "dev").unwrap().unwrap_err();
    assert_eq!(conflicts, ["a.txt"]);
    // the record is untouched and the tree is back at the trunk's head
    assert_eq!(w.state.branches.len(), branches_before);
    assert_eq!(w.state.commits.len(), commits_before);
    assert!(w.state.head == head_before);
    assert!(diff_vs_head(&w).is_empty());
    assert!(w.state.assert_validity());
}

#[test]
fn merge_precondition_errors() {
    let mut w = forked_world(("a.txt", "a2"), ("b.txt", "b2"));
    assert_eq!(merge_world(&mut w, "nope").unwrap_err(), VcsError::BranchNotFound);
    assert_eq!(merge_world(&mut w, "master").unwrap_err(), VcsError::CannotMergeTrunk);
    // a dirty tree blocks the merge
    set_file(&mut w.tree, "c.txt", "c1");
    assert_eq!(merge_world(&mut w, "dev").unwrap_err(), VcsError::DirtyWorkingTree);
    w.tree.retain(|e| e.path != "c.txt");
    // away from the trunk tip no merge lands
    jump_branch(&mut w, "dev");
    assert_eq!(merge_world(&mut w, "dev").unwrap_err(), VcsError::NotAtTrunkTip);
}

#[test]
fn merge_with_deletion_applies_trunk_removal() {
    // trunk deletes a.txt, dev adds c.txt: both survive merging
    let mut w = init_world(&[("a.txt", "a1"), ("b.txt", "b1")]);
    new_branch::run(&mut w.state, "dev").unwrap();
    set_file(&mut w.tree, "c.txt", "c1");
    commit_world(&mut w, "dev adds").unwrap();
    jump_branch(&mut w, "master");
    w.tree.retain(|e| e.path != "a.txt");
    commit_world(&mut w, "trunk deletes").unwrap();
    merge_world(&mut w, "dev").unwrap().unwrap();
    assert!(w.state.assert_validity());
    assert!(w.tree.iter().all(|e| e.path != "a.txt"));
    assert!(w.tree.iter().any(|e| e.path == "c.txt"));
    assert!(w.tree.iter().any(|e| e.path == "b.txt"));
}
