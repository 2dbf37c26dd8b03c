use vstd::prelude::*;
use crate::util::hash::VcsHash;

verus! {

/// A branch: a mutable pointer from a unique name to its tip commit.
pub struct Branch {
    pub name: String,
    pub commit_hash: VcsHash,
}

/// The mathematical value of a [`Branch`].
#[verifier::ext_equal]
pub ghost struct BranchView {
    pub name: Seq<char>,
    pub commit_hash: Seq<u8>,
}

impl View for Branch {
    type V = BranchView;

    open spec fn view(&self) -> BranchView {
        BranchView { name: self.name@, commit_hash: self.commit_hash@ }
    }
}

impl DeepView for Branch {
    type V = BranchView;

    open spec fn deep_view(&self) -> BranchView {
        self.view()
    }
}

} // verus!
