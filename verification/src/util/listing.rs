use vstd::prelude::*;
use crate::util::hash::VcsHash;
use crate::util::text::{lex_lt, lemma_lex_trichotomy, lemma_lex_lt_trans, str_cmp};

verus! {

/// One file of a directory tree: its repo-relative path and the content
/// hash of its bytes. A walk of the working tree or of an unpacked
/// snapshot produces a listing of these.
pub struct FileEntry {
    pub path: String,
    pub hash: VcsHash,
}

impl Clone for FileEntry {
    fn clone(&self) -> (r: FileEntry)
        ensures
            r.path@ == self.path@,
            r.hash@ == self.hash@,
    {
        FileEntry { path: self.path.clone(), hash: self.hash }
    }
}

/// Whether some entry of the listing carries this path.
pub open spec fn has_path(l: Seq<FileEntry>, p: Seq<char>) -> bool {
    exists|i: int| 0 <= i < l.len() && l[i].path@ == p
}

/// The index of the entry carrying this path (meaningful under
/// `unique_paths` when `has_path` holds).
pub open spec fn entry_index_of(l: Seq<FileEntry>, p: Seq<char>) -> int {
    choose|i: int| 0 <= i < l.len() && l[i].path@ == p
}

/// The content hash the listing records for this path.
pub open spec fn path_hash(l: Seq<FileEntry>, p: Seq<char>) -> Seq<u8> {
    l[entry_index_of(l, p)].hash@
}

/// No two entries share a path.
pub open spec fn unique_paths(l: Seq<FileEntry>) -> bool {
    forall|i: int, j: int| 0 <= i < j < l.len() ==> l[i].path@ != l[j].path@
}

/// Paths strictly ascending throughout the listing.
pub open spec fn sorted_strict(l: Seq<FileEntry>) -> bool {
    forall|i: int, j: int| 0 <= i < j < l.len() ==> lex_lt(l[i].path@, l[j].path@)
}

/// Under unique paths, the recorded hash for an entry's path is that
/// entry's own hash.
pub proof fn lemma_path_hash_at(l: Seq<FileEntry>, i: int)
    requires
        unique_paths(l),
        0 <= i < l.len(),
    ensures
        entry_index_of(l, l[i].path@) == i,
        path_hash(l, l[i].path@) == l[i].hash@,
{
    let p = l[i].path@;
    assert(has_path(l, p));
    let j = entry_index_of(l, p);
    assert(0 <= j < l.len() && l[j].path@ == p);
    if i < j {
        assert(l[i].path@ != l[j].path@);
    } else if j < i {
        assert(l[j].path@ != l[i].path@);
    }
}

/// The content hash a listing records for a path, if the path is there.
pub fn lookup_hash(l: &Vec<FileEntry>, p: &str) -> (r: Option<VcsHash>)
    requires
        unique_paths(l@),
    ensures
        match r {
            Some(h) => has_path(l@, p@) && h@ == path_hash(l@, p@),
            None => !has_path(l@, p@),
        },
{
    let n: usize = l.len();
    let mut i: usize = 0;
    while i < n
        invariant
            0 <= i <= n,
            n == l@.len(),
            unique_paths(l@),
            forall|m: int| 0 <= m < i ==> (#[trigger] l@[m]).path@ != p@,
        decreases n - i,
    {
        if crate::util::text::str_eq(l[i].path.as_str(), p) {
            proof {
                lemma_path_hash_at(l@, i as int);
            }
            return Some(l[i].hash);
        }
        i += 1;
    }
    None
}

/// The position a fresh path takes in a strictly sorted listing: everything
/// before it is below the path, and what follows (if anything) is above it.
fn find_insert_pos(r: &Vec<FileEntry>, p: &str) -> (pos: usize)
    requires
        sorted_strict(r@),
        !has_path(r@, p@),
    ensures
        pos <= r@.len(),
        forall|m: int| 0 <= m < pos ==> lex_lt(r@[m].path@, p@),
        pos < r@.len() ==> lex_lt(p@, r@[pos as int].path@),
{
    let mut pos: usize = 0;
    while pos < r.len()
        invariant
            0 <= pos <= r@.len(),
            sorted_strict(r@),
            !has_path(r@, p@),
            forall|m: int| 0 <= m < pos ==> lex_lt(r@[m].path@, p@),
        decreases r@.len() - pos,
    {
        let c = str_cmp(p, r[pos].path.as_str());
        proof {
            lemma_lex_trichotomy(p@, r@[pos as int].path@);
            assert(r@[pos as int].path@ != p@);
        }
        if c < 0 {
            return pos;
        }
        pos += 1;
    }
    pos
}

/// Rebuilds a listing with its entries in strictly ascending path order;
/// which hash each path carries is unchanged.
pub fn sort_entries(l: &Vec<FileEntry>) -> (r: Vec<FileEntry>)
    requires
        unique_paths(l@),
    ensures
        sorted_strict(r@),
        unique_paths(r@),
        r@.len() == l@.len(),
        forall|p: Seq<char>| has_path(r@, p) == has_path(l@, p),
        forall|p: Seq<char>| has_path(l@, p) ==> path_hash(r@, p) == path_hash(l@, p),
{
    let mut r: Vec<FileEntry> = Vec::new();
    let n: usize = l.len();
    let mut k: usize = 0;
    while k < n
        invariant
            unique_paths(l@),
            n == l@.len(),
            0 <= k <= n,
            r@.len() == k,
            sorted_strict(r@),
            unique_paths(r@),
            forall|p: Seq<char>| has_path(r@, p) == has_path(l@.take(k as int), p),
            forall|p: Seq<char>| has_path(r@, p) ==> path_hash(r@, p) == path_hash(l@, p),
        decreases n - k,
    {
        let e = l[k].clone();
        let ghost p0 = e.path@;
        proof {
            lemma_path_hash_at(l@, k as int);
            assert(!has_path(l@.take(k as int), p0)) by {
                assert(forall|i: int| 0 <= i < k ==> l@.take(k as int)[i] == l@[i]);
            }
        }
        let pos = find_insert_pos(&r, e.path.as_str());
        let ghost old_r = r@;
        r.insert(pos, e);
        proof {
            let pi = pos as int;
            assert(r@ =~= old_r.insert(pi, e));
            assert(forall|m: int| 0 <= m < pi ==> r@[m] == old_r[m]);
            assert(forall|m: int| pi < m < r@.len() ==> r@[m] == old_r[m - 1]);
            assert(r@[pi] == e);
            // sortedness across the inserted element
            assert forall|i: int, j: int| 0 <= i < j < r@.len() implies lex_lt(
                r@[i].path@,
                r@[j].path@,
            ) by {
                if i < pi && j < pi {
                } else if i < pi && j == pi {
                } else if i == pi && j > pi {
                    if pi < old_r.len() {
                        lemma_lex_trichotomy(p0, old_r[pi].path@);
                        if j - 1 > pi {
                            lemma_lex_lt_trans(p0, old_r[pi].path@, old_r[j - 1].path@);
                        }
                    }
                } else if i < pi && j > pi {
                } else {
                    // pi < i < j
                }
            }
            // membership
            assert(l@.take(k + 1) =~= l@.take(k as int).push(l@[k as int]));
            assert forall|p: Seq<char>| has_path(r@, p) == has_path(l@.take(k + 1), p) by {
                if has_path(r@, p) {
                    let i = choose|i: int| 0 <= i < r@.len() && r@[i].path@ == p;
                    if i == pi {
                        assert(l@.take(k + 1)[k as int].path@ == p);
                        assert(has_path(l@.take(k + 1), p));
                    } else {
                        let iold: int = if i < pi { i } else { i - 1 };
                        assert(old_r[iold].path@ == p);
                        assert(has_path(old_r, p));
                        assert(has_path(l@.take(k as int), p));
                        let m = choose|m: int|
                            0 <= m < l@.take(k as int).len() && l@.take(k as int)[m].path@ == p;
                        assert(l@.take(k + 1)[m].path@ == p);
                        assert(has_path(l@.take(k + 1), p));
                    }
                }
                if has_path(l@.take(k + 1), p) {
                    let lk1 = l@.take(k + 1);
                    let m = choose|m: int| 0 <= m < lk1.len() && (#[trigger] lk1[m]).path@ == p;
                    if m == k as int {
                        assert(r@[pi].path@ == p);
                        assert(has_path(r@, p));
                    } else {
                        assert(l@.take(k as int)[m].path@ == p);
                        assert(has_path(l@.take(k as int), p));
                        assert(has_path(old_r, p));
                        let i = choose|i: int| 0 <= i < old_r.len() && old_r[i].path@ == p;
                        let inew: int = if i < pi { i } else { i + 1 };
                        assert(r@[inew].path@ == p);
                        assert(has_path(r@, p));
                    }
                }
            }
            // uniqueness of the grown listing
            assert forall|i: int, j: int| 0 <= i < j < r@.len() implies r@[i].path@ != r@[j].path@ by {
                lemma_lex_trichotomy(r@[i].path@, r@[j].path@);
            }
            // recorded hashes unchanged
            assert forall|p: Seq<char>| has_path(r@, p) implies path_hash(r@, p) == path_hash(l@, p) by {
                let i = entry_index_of(r@, p);
                assert(0 <= i < r@.len() && r@[i].path@ == p);
                lemma_path_hash_at(r@, i);
                if i == pi {
                    assert(r@[i].hash@ == l@[k as int].hash@);
                    lemma_path_hash_at(l@, k as int);
                } else {
                    let iold: int = if i < pi { i } else { i - 1 };
                    assert(old_r[iold].path@ == p && old_r[iold].hash@ == r@[i].hash@);
                    assert(has_path(old_r, p));
                    lemma_path_hash_at(old_r, iold);
                    assert(path_hash(old_r, p) == l@[entry_index_of(l@, p)].hash@ || true);
                    assert(path_hash(old_r, p) == path_hash(l@, p));
                }
            }
        }
        k += 1;
    }
    proof {
        assert(l@.take(n as int) =~= l@);
    }
    r
}

} // verus!
