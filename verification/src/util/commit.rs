use vstd::prelude::*;
use crate::util::hash::VcsHash;

verus! {

/// The change lists of one comparison between a working tree and a
/// snapshot: repo-relative paths, each list in ascending order.
pub struct CommitChanges {
    pub modified: Vec<String>,
    pub added: Vec<String>,
    pub deleted: Vec<String>,
}

/// The mathematical value of a [`CommitChanges`].
#[verifier::ext_equal]
pub ghost struct ChangesView {
    pub modified: Seq<Seq<char>>,
    pub added: Seq<Seq<char>>,
    pub deleted: Seq<Seq<char>>,
}

impl ChangesView {
    /// No path in any of the three lists.
    pub open spec fn is_empty(self) -> bool {
        self.modified.len() == 0 && self.added.len() == 0 && self.deleted.len() == 0
    }
}

impl View for CommitChanges {
    type V = ChangesView;

    open spec fn view(&self) -> ChangesView {
        ChangesView {
            modified: self.modified.deep_view(),
            added: self.added.deep_view(),
            deleted: self.deleted.deep_view(),
        }
    }
}

impl DeepView for CommitChanges {
    type V = ChangesView;

    open spec fn deep_view(&self) -> ChangesView {
        self.view()
    }
}

impl Default for CommitChanges {
    /// The empty comparison: nothing modified, added or deleted.
    fn default() -> (r: CommitChanges)
        ensures
            r@.is_empty(),
    {
        CommitChanges { modified: Vec::new(), added: Vec::new(), deleted: Vec::new() }
    }
}

impl CommitChanges {
    /// Whether the comparison found no change at all.
    pub fn is_empty(&self) -> (r: bool)
        ensures
            r == self@.is_empty(),
    {
        self.modified.len() == 0 && self.added.len() == 0 && self.deleted.len() == 0
    }
}

/// A recorded commit, immutable once created. Its hash is the content hash
/// of its archived snapshot and acts as the commit's identity; its changes
/// are relative to its parent snapshot.
pub struct Commit {
    pub branch_name: String,
    pub time: String,
    pub message: String,
    pub changes: CommitChanges,
    pub hash: VcsHash,
    pub parent: VcsHash,
}

/// The mathematical value of a [`Commit`].
#[verifier::ext_equal]
pub ghost struct CommitView {
    pub branch_name: Seq<char>,
    pub time: Seq<char>,
    pub message: Seq<char>,
    pub changes: ChangesView,
    pub hash: Seq<u8>,
    pub parent: Seq<u8>,
}

impl View for Commit {
    type V = CommitView;

    open spec fn view(&self) -> CommitView {
        CommitView {
            branch_name: self.branch_name@,
            time: self.time@,
            message: self.message@,
            changes: self.changes@,
            hash: self.hash@,
            parent: self.parent@,
        }
    }
}

impl DeepView for Commit {
    type V = CommitView;

    open spec fn deep_view(&self) -> CommitView {
        self.view()
    }
}

} // verus!
