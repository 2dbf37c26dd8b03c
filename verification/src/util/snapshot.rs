use vstd::prelude::*;
use crate::util::commit::{ChangesView, CommitChanges};
use crate::util::hash::{sha1_of, VcsHash};
use crate::util::listing::{has_path, path_hash, sort_entries, unique_paths, sorted_strict, FileEntry, lemma_path_hash_at};
use crate::util::text::{lex_lt, lemma_lex_lt_trans, lemma_lex_trichotomy, str_cmp};

verus! {

/// Whether a string list holds this string.
pub open spec fn contains_str(l: Seq<Seq<char>>, p: Seq<char>) -> bool {
    exists|i: int| 0 <= i < l.len() && l[i] == p
}

/// Strings strictly ascending throughout the list.
pub open spec fn strictly_sorted_strs(l: Seq<Seq<char>>) -> bool {
    forall|i: int, j: int| 0 <= i < j < l.len() ==> lex_lt(l[i], l[j])
}

/// What it means for change lists to classify a working tree against a
/// snapshot: a path is modified when both trees hold it with different
/// content, added when only the working tree holds it, and deleted when
/// only the snapshot holds it.
pub open spec fn is_classification(snap: Seq<FileEntry>, work: Seq<FileEntry>, c: ChangesView) -> bool {
    &&& forall|p: Seq<char>|
        #![trigger contains_str(c.modified, p)]
        #![trigger has_path(snap, p), has_path(work, p)]
        contains_str(c.modified, p) <==> (has_path(snap, p) && has_path(work, p) && path_hash(
            snap,
            p,
        ) != path_hash(work, p))
    &&& forall|p: Seq<char>|
        #![trigger contains_str(c.added, p)]
        #![trigger has_path(work, p)]
        contains_str(c.added, p) <==> (has_path(work, p) && !has_path(snap, p))
    &&& forall|p: Seq<char>|
        #![trigger contains_str(c.deleted, p)]
        #![trigger has_path(snap, p)]
        contains_str(c.deleted, p) <==> (has_path(snap, p) && !has_path(work, p))
}

/// Whether one of the listed paths is this one.
pub fn contains_path(l: &Vec<String>, p: &str) -> (r: bool)
    ensures
        r == contains_str(l.deep_view(), p@),
{
    let n: usize = l.len();
    let mut i: usize = 0;
    while i < n
        invariant
            0 <= i <= n,
            n == l@.len(),
            forall|m: int| 0 <= m < i ==> l.deep_view()[m] != p@,
        decreases n - i,
    {
        if crate::util::text::str_eq(l[i].as_str(), p) {
            proof {
                assert(l.deep_view()[i as int] == p@);
            }
            return true;
        }
        i += 1;
    }
    false
}

/// The identity of a captured snapshot: the content hash of the archived
/// bytes the codec produced for the tree. Capturing the same archive
/// bytes again yields the same identity.
pub fn create_snapshot(archive: &[u8]) -> (h: VcsHash)
    ensures
        h@ == sha1_of(archive@),
        h@.len() == 20,
{
    VcsHash::from_bytes(archive)
}

/// Compares a working tree against a snapshot, both given as listings of
/// path and content hash, and classifies every path as modified, added or
/// deleted; each resulting list is strictly ascending.
#[verifier::loop_isolation(false)]
pub fn find_changes(snapshot: &Vec<FileEntry>, worktree: &Vec<FileEntry>) -> (r: CommitChanges)
    requires
        unique_paths(snapshot@),
        unique_paths(worktree@),
    ensures
        is_classification(snapshot@, worktree@, r@),
        strictly_sorted_strs(r@.modified),
        strictly_sorted_strs(r@.added),
        strictly_sorted_strs(r@.deleted),
{
    let s = sort_entries(snapshot);
    let w = sort_entries(worktree);
    let ns: usize = s.len();
    let nw: usize = w.len();
    let mut modified: Vec<String> = Vec::new();
    let mut added: Vec<String> = Vec::new();
    let mut deleted: Vec<String> = Vec::new();
    let mut i: usize = 0;
    let mut j: usize = 0;
    while i < ns || j < nw
        invariant
            0 <= i <= ns,
            0 <= j <= nw,
            forall|k1: int, k2: int|
                0 <= k1 < i && j <= k2 < nw ==> lex_lt(
                    (#[trigger] s@[k1]).path@,
                    (#[trigger] w@[k2]).path@,
                ),
            forall|k1: int, k2: int|
                0 <= k1 < j && i <= k2 < ns ==> lex_lt(
                    (#[trigger] w@[k1]).path@,
                    (#[trigger] s@[k2]).path@,
                ),
            forall|p: Seq<char>|
                #![trigger contains_str(modified.deep_view(), p)]
                #![trigger has_path(s@.take(i as int), p), has_path(w@.take(j as int), p)]
                contains_str(modified.deep_view(), p) <==> (has_path(s@.take(i as int), p)
                    && has_path(w@.take(j as int), p) && path_hash(s@, p) != path_hash(w@, p)),
            forall|p: Seq<char>|
                #![trigger contains_str(added.deep_view(), p)]
                #![trigger has_path(w@.take(j as int), p)]
                contains_str(added.deep_view(), p) <==> (has_path(w@.take(j as int), p)
                    && !has_path(s@, p)),
            forall|p: Seq<char>|
                #![trigger contains_str(deleted.deep_view(), p)]
                #![trigger has_path(s@.take(i as int), p)]
                contains_str(deleted.deep_view(), p) <==> (has_path(s@.take(i as int), p)
                    && !has_path(w@, p)),
            strictly_sorted_strs(modified.deep_view()),
            strictly_sorted_strs(added.deep_view()),
            strictly_sorted_strs(deleted.deep_view()),
        decreases (ns - i) + (nw - j),
    {
        let take_s: bool;
        let take_w: bool;
        if i >= ns {
            take_s = false;
            take_w = true;
        } else if j >= nw {
            take_s = true;
            take_w = false;
        } else {
            let c = str_cmp(s[i].path.as_str(), w[j].path.as_str());
            proof {
                lemma_lex_trichotomy(s@[i as int].path@, w@[j as int].path@);
            }
            if c < 0 {
                take_s = true;
                take_w = false;
            } else if c > 0 {
                take_s = false;
                take_w = true;
            } else {
                take_s = true;
                take_w = true;
            }
        }
        if take_s && take_w {
            // the path is in both trees: modified when content differs
            let ghost p = s@[i as int].path@;
            proof {
                lemma_path_hash_at(s@, i as int);
                lemma_path_hash_at(w@, j as int);
                lemma_take_grow(s@, i as int);
                lemma_take_grow(w@, j as int);
                lemma_not_in_take(s@, i as int, p);
                lemma_not_in_take(w@, j as int, p);
            }
            let hash_differs = !(s[i].hash.eq(&w[j].hash));
            if hash_differs {
                let ghost old_dv = modified.deep_view();
                proof {
                    lemma_emitted_below(modified.deep_view(), s@, i as int, j as int, w@);
                }
                modified.push(s[i].path.clone());
                proof {
                    assert(modified.deep_view() =~= old_dv.push(p));
                    lemma_push_sorted(old_dv, p);
                    lemma_push_contains(old_dv, p);
                }
            }
            proof {
                assert forall|k2: int| j < k2 < nw implies lex_lt(
                    s@[i as int].path@,
                    (#[trigger] w@[k2]).path@,
                ) by {
                    assert(lex_lt(w@[j as int].path@, w@[k2].path@));
                }
                assert forall|k2: int| i < k2 < ns implies lex_lt(
                    w@[j as int].path@,
                    (#[trigger] s@[k2]).path@,
                ) by {
                    assert(lex_lt(s@[i as int].path@, s@[k2].path@));
                }
            }
            i += 1;
            j += 1;
        } else if take_s {
            // the path is only in the snapshot: deleted
            let ghost p = s@[i as int].path@;
            proof {
                lemma_take_grow(s@, i as int);
                lemma_not_in_take(s@, i as int, p);
                // the path is in no part of the working tree
                assert(!has_path(w@, p)) by {
                    assert forall|k: int| 0 <= k < nw implies (#[trigger] w@[k]).path@ != p by {
                        if k < j {
                            lemma_lex_trichotomy(w@[k].path@, p);
                        } else {
                            lemma_lex_trichotomy(p, w@[k].path@);
                        }
                    }
                }
            }
            let ghost old_dv = deleted.deep_view();
            proof {
                lemma_emitted_below(deleted.deep_view(), s@, i as int, j as int, w@);
            }
            deleted.push(s[i].path.clone());
            proof {
                assert(deleted.deep_view() =~= old_dv.push(p));
                lemma_push_sorted(old_dv, p);
                lemma_push_contains(old_dv, p);
            }
            proof {
                assert forall|k2: int| j <= k2 < nw implies lex_lt(
                    s@[i as int].path@,
                    (#[trigger] w@[k2]).path@,
                ) by {
                    if k2 > j {
                        lemma_lex_lt_trans(s@[i as int].path@, w@[j as int].path@, w@[k2].path@);
                    }
                }
            }
            i += 1;
        } else {
            // the path is only in the working tree: added
            let ghost p = w@[j as int].path@;
            proof {
                lemma_take_grow(w@, j as int);
                lemma_not_in_take(w@, j as int, p);
                assert(!has_path(s@, p)) by {
                    assert forall|k: int| 0 <= k < ns implies (#[trigger] s@[k]).path@ != p by {
                        if k < i {
                            lemma_lex_trichotomy(s@[k].path@, p);
                        } else {
                            lemma_lex_trichotomy(p, s@[k].path@);
                        }
                    }
                }
            }
            let ghost old_dv = added.deep_view();
            proof {
                lemma_emitted_below(added.deep_view(), w@, j as int, i as int, s@);
            }
            added.push(w[j].path.clone());
            proof {
                assert(added.deep_view() =~= old_dv.push(p));
                lemma_push_sorted(old_dv, p);
                lemma_push_contains(old_dv, p);
            }
            proof {
                assert forall|k2: int| i <= k2 < ns implies lex_lt(
                    w@[j as int].path@,
                    (#[trigger] s@[k2]).path@,
                ) by {
                    if k2 > i {
                        lemma_lex_lt_trans(w@[j as int].path@, s@[i as int].path@, s@[k2].path@);
                    }
                }
            }
            j += 1;
        }
    }
    let r = CommitChanges { modified, added, deleted };
    proof {
        assert(s@.take(ns as int) =~= s@);
        assert(w@.take(nw as int) =~= w@);
        assert(is_classification(snapshot@, worktree@, r@)) by {
            assert forall|p: Seq<char>| #[trigger] has_path(snapshot@, p) implies has_path(s@, p)
                && path_hash(snapshot@, p) == path_hash(s@, p) by {}
            assert forall|p: Seq<char>| #[trigger] has_path(worktree@, p) implies has_path(w@, p)
                && path_hash(worktree@, p) == path_hash(w@, p) by {}
        }
    }
    r
}

/// Growing a prefix by one element keeps every prior path and adds the
/// new entry's path.
proof fn lemma_take_grow(l: Seq<FileEntry>, i: int)
    requires
        0 <= i < l.len(),
    ensures
        forall|p: Seq<char>| has_path(l.take(i), p) ==> #[trigger] has_path(l.take(i + 1), p),
        has_path(l.take(i + 1), l[i].path@),
        forall|p: Seq<char>|
            #[trigger] has_path(l.take(i + 1), p) ==> has_path(l.take(i), p) || p == l[i].path@,
{
    assert(l.take(i + 1) =~= l.take(i).push(l[i]));
    assert(l.take(i + 1)[i].path@ == l[i].path@);
    assert forall|p: Seq<char>| has_path(l.take(i), p) implies #[trigger] has_path(l.take(i + 1), p) by {
        let k = choose|k: int| 0 <= k < l.take(i).len() && (#[trigger] l.take(i)[k]).path@ == p;
        assert(l.take(i + 1)[k].path@ == p);
    }
    assert forall|p: Seq<char>| #[trigger] has_path(l.take(i + 1), p) implies has_path(l.take(i), p)
        || p == l[i].path@ by {
        let k = choose|k: int| 0 <= k < l.take(i + 1).len() && (#[trigger] l.take(i + 1)[k]).path@ == p;
        if k < i {
            assert(l.take(i)[k].path@ == p);
        }
    }
}

/// A fresh entry's path is not among the first `i` under unique paths.
proof fn lemma_not_in_take(l: Seq<FileEntry>, i: int, p: Seq<char>)
    requires
        unique_paths(l),
        0 <= i < l.len(),
        p == l[i].path@,
    ensures
        !has_path(l.take(i), p),
{
    assert forall|k: int| 0 <= k < i implies (#[trigger] l.take(i)[k]).path@ != p by {
        assert(l[k].path@ != l[i].path@);
    }
}

/// Every string already emitted from the consumed prefix lies strictly
/// below the path at the frontier of either input.
proof fn lemma_emitted_below(
    emitted: Seq<Seq<char>>,
    prim: Seq<FileEntry>,
    i: int,
    other_i: int,
    other: Seq<FileEntry>,
)
    requires
        0 <= i < prim.len(),
        sorted_strict(prim),
        forall|q: Seq<char>| #[trigger] contains_str(emitted, q) ==> has_path(prim.take(i), q) || (
        has_path(other.take(other_i), q) && 0 <= other_i <= other.len()),
        forall|k1: int, k2: int|
            0 <= k1 < other_i && i <= k2 < prim.len() ==> lex_lt(
                (#[trigger] other[k1]).path@,
                (#[trigger] prim[k2]).path@,
            ),
        0 <= other_i <= other.len(),
    ensures
        forall|m: int| 0 <= m < emitted.len() ==> lex_lt(#[trigger] emitted[m], prim[i].path@),
{
    assert forall|m: int| 0 <= m < emitted.len() implies lex_lt(#[trigger] emitted[m], prim[i].path@) by {
        let q = emitted[m];
        assert(contains_str(emitted, q));
        if has_path(prim.take(i), q) {
            let k = choose|k: int| 0 <= k < prim.take(i).len() && (#[trigger] prim.take(i)[k]).path@ == q;
            assert(prim[k].path@ == q);
            assert(lex_lt(prim[k].path@, prim[i].path@));
        } else {
            let k = choose|k: int|
                0 <= k < other.take(other_i).len() && (#[trigger] other.take(other_i)[k]).path@ == q;
            assert(other[k].path@ == q);
            assert(lex_lt(other[k].path@, prim[i].path@));
        }
    }
}

/// Pushing a string above everything emitted keeps the list strictly
/// sorted.
proof fn lemma_push_sorted(l: Seq<Seq<char>>, p: Seq<char>)
    requires
        strictly_sorted_strs(l),
        forall|m: int| 0 <= m < l.len() ==> lex_lt(#[trigger] l[m], p),
    ensures
        strictly_sorted_strs(l.push(p)),
{
    assert forall|i: int, j: int| 0 <= i < j < l.push(p).len() implies lex_lt(
        #[trigger] l.push(p)[i],
        #[trigger] l.push(p)[j],
    ) by {
        if j < l.len() {
            assert(l.push(p)[i] == l[i] && l.push(p)[j] == l[j]);
        } else {
            assert(l.push(p)[i] == l[i] && l.push(p)[j] == p);
        }
    }
}

/// What a grown list holds: everything it held, and the new string.
proof fn lemma_push_contains(l: Seq<Seq<char>>, p: Seq<char>)
    ensures
        forall|q: Seq<char>| #[trigger] contains_str(l.push(p), q) <==> contains_str(l, q) || q == p,
{
    assert forall|q: Seq<char>| #[trigger] contains_str(l.push(p), q) implies contains_str(l, q) || q
        == p by {
        let k = choose|k: int| 0 <= k < l.push(p).len() && #[trigger] l.push(p)[k] == q;
        if k < l.len() {
            assert(l[k] == q);
        }
    }
    assert forall|q: Seq<char>| contains_str(l, q) implies #[trigger] contains_str(l.push(p), q) by {
        let k = choose|k: int| 0 <= k < l.len() && #[trigger] l[k] == q;
        assert(l.push(p)[k] == q);
    }
    assert(l.push(p)[l.len() as int] == p);
    assert(contains_str(l.push(p), p));
}

/// Whether a repo-relative path (with `/` separators) lies under the
/// engine's own metadata subtree: some component of it is exactly ".vcs".
pub open spec fn metadata_path_spec(s: Seq<char>) -> bool {
    exists|i: int|
        0 <= i && i + 4 <= s.len() && #[trigger] s.subrange(i, i + 4) == ".vcs"@ && (i == 0 || s[i
            - 1] == '/') && (i + 4 == s.len() || s[i + 4] == '/')
}

/// Decides whether a path belongs to the metadata subtree, which every
/// capture, comparison and restore excludes.
#[verifier::loop_isolation(false)]
pub fn is_metadata_path(path: &str) -> (r: bool)
    ensures
        r == metadata_path_spec(path@),
{
    proof {
        reveal_strlit(".vcs");
    }
    let n: usize = path.unicode_len();
    if n < 4 {
        return false;
    }
    let mut i: usize = 0;
    while i <= n - 4
        invariant
            0 <= i <= n - 3,
            forall|m: int|
                0 <= m < i ==> !(#[trigger] path@.subrange(m, m + 4) == ".vcs"@ && (m == 0
                    || path@[m - 1] == '/') && (m + 4 == n || path@[m + 4] == '/')),
        decreases n - i,
    {
        let b0 = i == 0 || path.get_char(i - 1) == '/';
        let b1 = i + 4 == n || path.get_char(i + 4) == '/';
        let c0 = path.get_char(i) == '.';
        let c1 = path.get_char(i + 1) == 'v';
        let c2 = path.get_char(i + 2) == 'c';
        let c3 = path.get_char(i + 3) == 's';
        if b0 && b1 && c0 && c1 && c2 && c3 {
            proof {
                assert(path@.subrange(i as int, i as int + 4) =~= ".vcs"@);
            }
            return true;
        }
        proof {
            let ii = i as int;
            assert(!(path@.subrange(ii, ii + 4) == ".vcs"@ && (ii == 0 || path@[ii - 1] == '/') && (
            ii + 4 == n || path@[ii + 4] == '/'))) by {
                if path@.subrange(ii, ii + 4) == ".vcs"@ {
                    assert(path@[ii] == path@.subrange(ii, ii + 4)[0]);
                    assert(path@[ii + 1] == path@.subrange(ii, ii + 4)[1]);
                    assert(path@[ii + 2] == path@.subrange(ii, ii + 4)[2]);
                    assert(path@[ii + 3] == path@.subrange(ii, ii + 4)[3]);
                }
            }
        }
        i += 1;
    }
    false
}

/// Capture is idempotent: with no tree change between two captures the
/// codec reproduces the same archive bytes, and the digest is a function
/// of those bytes alone, so the snapshot identity is the same.
pub proof fn lemma_capture_idempotent(first: Seq<u8>, second: Seq<u8>)
    requires
        first == second,
    ensures
        sha1_of(first) == sha1_of(second),
{
}

/// Diff roundtrip: comparing a tree against a snapshot of identical
/// content (every path present in both, with equal content hashes)
/// reports no changes at all.
pub proof fn lemma_diff_roundtrip(snap: Seq<FileEntry>, work: Seq<FileEntry>, c: ChangesView)
    requires
        is_classification(snap, work, c),
        forall|p: Seq<char>| #[trigger] has_path(snap, p) == has_path(work, p),
        forall|p: Seq<char>| #[trigger] has_path(snap, p) ==> path_hash(snap, p) == path_hash(work, p),
    ensures
        c.is_empty(),
{
    if c.modified.len() > 0 {
        let p = c.modified[0];
        assert(contains_str(c.modified, p));
        assert(false);
    }
    if c.added.len() > 0 {
        let p = c.added[0];
        assert(contains_str(c.added, p));
        assert(false);
    }
    if c.deleted.len() > 0 {
        let p = c.deleted[0];
        assert(contains_str(c.deleted, p));
        assert(false);
    }
}

} // verus!
