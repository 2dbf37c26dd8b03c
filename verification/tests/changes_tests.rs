use vcs::util::hash::VcsHash;
use vcs::util::listing::{lookup_hash, sort_entries, FileEntry};
use vcs::util::snapshot::{contains_path, find_changes, is_metadata_path};

fn entry(path: &str, content: &str) -> FileEntry {
    FileEntry { path: path.to_string(), hash: VcsHash::from_bytes(content.as_bytes()) }
}

fn listing(entries: &[(&str, &str)]) -> Vec<FileEntry> {
    entries.iter().map(|(p, c)| entry(p, c)).collect()
}

fn paths(l: &Vec<String>) -> Vec<&str> {
    l.iter().map(|s| s.as_str()).collect()
}

#[test]
fn diff_of_identical_trees_is_empty() {
    let snap = listing(&[("1.txt", "1"), ("inner/2.txt", "2")]);
    let work = listing(&[("inner/2.txt", "2"), ("1.txt", "1")]);
    let c = find_changes(&snap, &work);
    assert!(c.is_empty());
    let c = find_changes(&snap, &snap);
    assert!(c.is_empty());
}

#[test]
fn diff_classifies_and_sorts() {
    let snap = listing(&[("kept.txt", "same"), ("gone.txt", "old"), ("b.txt", "1"), ("a.txt", "1")]);
    let work = listing(&[("kept.txt", "same"), ("b.txt", "2"), ("a.txt", "2"), ("new.txt", "n")]);
    let c = find_changes(&snap, &work);
    assert_eq!(paths(&c.modified), ["a.txt", "b.txt"]);
    assert_eq!(paths(&c.added), ["new.txt"]);
    assert_eq!(paths(&c.deleted), ["gone.txt"]);
    assert!(!c.is_empty());
}

#[test]
fn diff_empty_trees() {
    let none: Vec<FileEntry> = Vec::new();
    let work = listing(&[("a.txt", "x")]);
    let c = find_changes(&none, &work);
    assert_eq!(paths(&c.added), ["a.txt"]);
    assert!(c.modified.is_empty() && c.deleted.is_empty());
    let c = find_changes(&work, &none);
    assert_eq!(paths(&c.deleted), ["a.txt"]);
    let c = find_changes(&none, &none);
    assert!(c.is_empty());
}

#[test]
fn sort_entries_orders_and_keeps_hashes() {
    let l = listing(&[("c", "3"), ("a", "1"), ("b", "2")]);
    let s = sort_entries(&l);
    let got: Vec<&str> = s.iter().map(|e| e.path.as_str()).collect();
    assert_eq!(got, ["a", "b", "c"]);
    let h = lookup_hash(&s, "b").unwrap();
    assert!(h == VcsHash::from_bytes("2".as_bytes()));
    assert!(lookup_hash(&s, "d").is_none());
}

#[test]
fn metadata_paths_are_recognized() {
    assert!(is_metadata_path(".vcs"));
    assert!(is_metadata_path(".vcs/status.json"));
    assert!(is_metadata_path("sub/.vcs/snapshots/x.zip"));
    assert!(is_metadata_path("sub/.vcs"));
    assert!(!is_metadata_path("a.vcs"));
    assert!(!is_metadata_path(".vcsx/file"));
    assert!(!is_metadata_path("src/main.rs"));
    assert!(!is_metadata_path(""));
}

#[test]
fn contains_path_finds_strings() {
    let l: Vec<String> = ["x.txt".to_string(), "y.txt".to_string()].to_vec();
    assert!(contains_path(&l, "x.txt"));
    assert!(!contains_path(&l, "z.txt"));
}
