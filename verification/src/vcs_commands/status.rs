use vstd::prelude::*;
use crate::util::commit::CommitChanges;
use crate::util::vcs_state::VcsState;

verus! {

/// What `status` reports: a clean working tree, or the change lists of a
/// dirty one together with the branch they were found on.
pub enum StatusReport {
    Clean,
    Dirty { branch: String, changes: CommitChanges },
}

/// Reports the working tree status: clean when the comparison against
/// the head snapshot found nothing, otherwise the branch name and the
/// three change lists. Read-only; the record is never touched.
pub fn run(state: &VcsState, changes: CommitChanges) -> (r: StatusReport)
    ensures
        match r {
            StatusReport::Clean => changes@.is_empty(),
            StatusReport::Dirty { branch, changes: c } => !changes@.is_empty() && branch@
                == state@.branch_name && c@ == changes@,
        },
{
    if changes.is_empty() {
        StatusReport::Clean
    } else {
        StatusReport::Dirty { branch: state.branch_name.clone(), changes }
    }
}

} // verus!
