use std::collections::HashMap;
use vcs::util::commit::CommitChanges;
use vcs::util::error::{ErrorKind, VcsError};
use vcs::util::hash::VcsHash;
use vcs::util::listing::{sort_entries, FileEntry};
use vcs::util::snapshot::{create_snapshot, find_changes};
use vcs::util::vcs_state::VcsState;
use vcs::vcs_commands::{commit, init, jump, log, new_branch, status};
use vcs::vcs_commands::status::StatusReport;
use vcs::command_line_handling::parser::VcsCommands;

fn entry(path: &str, content: &str) -> FileEntry {
    FileEntry { path: path.to_string(), hash: VcsHash::from_bytes(content.as_bytes()) }
}

fn listing(entries: &[(&str, &str)]) -> Vec<FileEntry> {
    entries.iter().map(|(p, c)| entry(p, c)).collect()
}

/// A stand-in archive codec for the tests: a canonical byte rendering of
/// the tree's paths and content hashes, captured through the real digest.
fn capture(l: &Vec<FileEntry>) -> VcsHash {
    let mut s = String::new();
    for e in sort_entries(l) {
        s.push_str(&e.path);
        s.push('=');
        s.push_str(&e.hash.to_hex());
        s.push(';');
    }
    create_snapshot(s.as_bytes())
}

struct World {
    state: VcsState,
    tree: Vec<FileEntry>,
    store: HashMap<String, Vec<FileEntry>>,
}

fn init_world(entries: &[(&str, &str)]) -> World {
    let tree = listing(entries);
    let h = capture(&tree);
    let state = init::run(&h, "t0").unwrap();
    let mut store = HashMap::new();
    store.insert(h.to_hex(), tree.clone());
    World { state, tree, store }
}

fn diff_vs_head(w: &World) -> CommitChanges {
    let snap = &w.store[&w.state.head.to_hex()];
    find_changes(snap, &w.tree)
}

fn commit_world(w: &mut World, msg: &str) -> Result<(), VcsError> {
    let changes = diff_vs_head(w);
    let h = capture(&w.tree);
    let r = commit::run(&mut w.state, changes, &h, "t", msg);
    if r.is_ok() {
        w.store.insert(h.to_hex(), w.tree.clone());
    }
    r
}

fn jump_world(
    w: &mut World,
    branch: Option<&str>,
    commit_hash: Option<&str>,
) -> Result<VcsHash, VcsError> {
    let changes = diff_vs_head(w);
    let b = branch.map(|s| s.to_string());
    let c = commit_hash.map(|s| s.to_string());
    let r = jump::run(&mut w.state, &b, &c, &changes);
    if let Ok(target) = &r {
        // restore the working tree from the target snapshot
        w.tree = w.store[&target.to_hex()].clone();
    }
    r
}

#[test]
fn status_clean_then_added() {
    // a fresh repository reports no changes
    let mut w = init_world(&[]);
    assert!(w.state.assert_validity());
    match status::run(&w.state, diff_vs_head(&w)) {
        StatusReport::Clean => {},
        StatusReport::Dirty { .. } => panic!("fresh repository must be clean"),
    }
    // adding a file shows up as added
    w.tree.push(entry("3.txt", "3"));
    match status::run(&w.state, diff_vs_head(&w)) {
        StatusReport::Clean => panic!("new file must be reported"),
        StatusReport::Dirty { branch, changes } => {
            assert_eq!(branch, "master");
            assert_eq!(changes.added, ["3.txt"]);
            assert!(changes.modified.is_empty() && changes.deleted.is_empty());
        },
    }
}

#[test]
fn commit_advances_head() {
    let mut w = init_world(&[("1.txt", "1")]);
    // nothing to commit right after init
    assert_eq!(commit_world(&mut w, "hi").unwrap_err(), VcsError::NothingToCommit);
    // a new file commits fine and the head advances over the old one
    let old_head = w.state.head;
    w.tree.push(entry("2.txt", "2"));
    commit_world(&mut w, "second").unwrap();
    assert!(w.state.assert_validity());
    assert!(!(w.state.head == old_head));
    let last = w.state.commits.last().unwrap();
    assert!(last.parent == old_head);
    assert!(last.hash == w.state.head);
    assert_eq!(last.message, "second");
    assert_eq!(last.branch_name, "master");
    assert_eq!(last.changes.added, ["2.txt"]);
    // the branch tip followed
    assert!(w.state.branches[0].commit_hash == w.state.head);
}

#[test]
fn new_branch_rules() {
    let mut w = init_world(&[("1.txt", "1")]);
    let tip = w.state.head;
    new_branch::run(&mut w.state, "dev").unwrap();
    assert!(w.state.assert_validity());
    assert_eq!(w.state.branch_name, "dev");
    assert_eq!(w.state.branches[1].name, "dev");
    // the new branch points at the same commit as the trunk
    assert!(w.state.branches[1].commit_hash == tip);
    assert!(w.state.branches[0].commit_hash == tip);
    // away from the trunk no branch is created, the same name or another
    assert_eq!(new_branch::run(&mut w.state, "dev").unwrap_err(), VcsError::NotOnTrunk);
    assert_eq!(new_branch::run(&mut w.state, "other").unwrap_err(), VcsError::NotOnTrunk);
    // back on the trunk the name is taken
    jump_world(&mut w, Some("master"), None).unwrap();
    assert_eq!(new_branch::run(&mut w.state, "dev").unwrap_err(), VcsError::BranchExists);
}

#[test]
fn jump_selector_rules() {
    let mut w = init_world(&[("1.txt", "1")]);
    assert_eq!(jump_world(&mut w, None, None).unwrap_err(), VcsError::NoJumpArguments);
    assert_eq!(
        jump_world(&mut w, Some("master"), Some("ab")).unwrap_err(),
        VcsError::BothJumpArguments
    );
    assert_eq!(jump_world(&mut w, Some("nope"), None).unwrap_err(), VcsError::BranchNotFound);
    assert_eq!(jump_world(&mut w, Some("master"), None).unwrap_err(), VcsError::AlreadyOnBranch);
    // a dirty tree blocks every jump
    w.tree.push(entry("2.txt", "2"));
    let e = jump_world(&mut w, Some("master"), None).unwrap_err();
    assert_eq!(e, VcsError::DirtyWorkingTree);
    assert_eq!(e.kind(), ErrorKind::PreconditionFailed);
}

#[test]
fn jump_by_prefix() {
    let mut w = init_world(&[("1.txt", "1")]);
    let first = w.state.head;
    w.tree.push(entry("2.txt", "2"));
    commit_world(&mut w, "second").unwrap();
    // the empty prefix matches both commits
    assert_eq!(jump_world(&mut w, None, Some("")).unwrap_err(), VcsError::AmbiguousHashPrefix);
    // no hash contains a 'z'
    assert_eq!(jump_world(&mut w, None, Some("zz")).unwrap_err(), VcsError::CommitNotFound);
    // an oversized prefix is invalid input
    let too_long = "a".repeat(41);
    let e = jump_world(&mut w, None, Some(&too_long)).unwrap_err();
    assert_eq!(e, VcsError::OversizedHashPrefix);
    assert_eq!(e.kind(), ErrorKind::InvalidInput);
    // the full hash of the root commit matches exactly one
    let target = jump_world(&mut w, None, Some(&first.to_hex())).unwrap();
    assert!(target == first);
    assert!(w.state.head == first);
    // the restored tree matches the snapshot it came from
    assert!(diff_vs_head(&w).is_empty());
    // the branch name follows the commit's record
    assert_eq!(w.state.branch_name, "master");
    assert!(w.state.assert_validity());
    // jumping again to the same commit is refused
    assert_eq!(
        jump_world(&mut w, None, Some(&first.to_hex())).unwrap_err(),
        VcsError::AlreadyOnCommit
    );
}

#[test]
fn log_walks_to_root() {
    let mut w = init_world(&[("1.txt", "1")]);
    w.tree.push(entry("2.txt", "2"));
    commit_world(&mut w, "second").unwrap();
    w.tree.push(entry("3.txt", "3"));
    commit_world(&mut w, "third").unwrap();
    let chain = log::run(&w.state);
    assert_eq!(chain, [2, 1, 0]);
    assert!(w.state.commits[chain[0]].hash == w.state.head);
    assert!(w.state.commits[chain[2]].parent == VcsHash::zero());
    assert_eq!(w.state.commits[chain[1]].message, "second");
}

#[test]
fn validity_check_rejects_broken_records() {
    let w = init_world(&[("1.txt", "1")]);
    assert!(w.state.assert_validity());
    // a record whose trunk is renamed is invalid
    let mut broken = VcsState {
        head: w.state.head,
        branch_name: w.state.branch_name.clone(),
        branches: Vec::new(),
        commits: Vec::new(),
    };
    assert!(!broken.assert_validity());
    broken.branches.push(vcs::util::branch::Branch {
        name: "main".to_string(),
        commit_hash: w.state.head,
    });
    assert!(!broken.assert_validity());
}

#[test]
fn init_rejects_zero_capture() {
    match init::run(&VcsHash::zero(), "t0") {
        Ok(_) => panic!("the zero sentinel must not identify a snapshot"),
        Err(e) => {
            assert_eq!(e, VcsError::Corrupt);
            assert_eq!(e.kind(), ErrorKind::Corrupt);
        },
    }
}

#[test]
fn jump_to_branch_commit_switches_branch() {
    let mut w = init_world(&[("1.txt", "1")]);
    new_branch::run(&mut w.state, "dev").unwrap();
    w.tree.push(entry("2.txt", "2"));
    commit_world(&mut w, "on dev").unwrap();
    let dev_commit = w.state.head;
    jump_world(&mut w, Some("master"), None).unwrap();
    assert_eq!(w.state.branch_name, "master");
    // jumping to a commit takes over that commit's recorded branch
    jump_world(&mut w, None, Some(&dev_commit.to_hex())).unwrap();
    assert_eq!(w.state.branch_name, "dev");
    assert!(w.state.head == dev_commit);
    assert!(w.state.assert_validity());
}

#[test]
fn command_surface_carries_arguments() {
    let c = VcsCommands::Jump { branch_name: Some("dev".to_string()), commit_hash: None };
    match c {
        VcsCommands::Jump { branch_name, commit_hash } => {
            assert_eq!(branch_name.as_deref(), Some("dev"));
            assert!(commit_hash.is_none());
        },
        _ => panic!("the command must keep its selectors"),
    }
}
