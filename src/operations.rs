//! Decisions inside the repository operations that the viewer starts. The
//! caller asks the repository, hands the answers in, and carries out the
//! returned step.

use vstd::prelude::*;

use crate::app::{has_prefix, is_prefix};
use crate::commit::CommitId;

verus! {

/// What a merge of a branch into HEAD does, after the backend's analysis.
#[derive(Debug, Clone, Copy, PartialEq, Eq, Structural)]
pub enum MergePlan {
    /// HEAD already contains the branch: nothing to do.
    UpToDate,
    /// HEAD moves forward to the branch's tip.
    FastForward,
    /// A merge commit with two parents is made.
    MergeCommit,
    /// None of the above applies: nothing is done.
    Nothing,
}

/// The step a merge takes, from the backend's analysis flags.
pub fn merge_plan(up_to_date: bool, fast_forward: bool, normal: bool) -> (r: MergePlan)
    ensures
        r == if up_to_date {
            MergePlan::UpToDate
        } else if fast_forward {
            MergePlan::FastForward
        } else if normal {
            MergePlan::MergeCommit
        } else {
            MergePlan::Nothing
        },
{
    if up_to_date {
        MergePlan::UpToDate
    } else if fast_forward {
        MergePlan::FastForward
    } else if normal {
        MergePlan::MergeCommit
    } else {
        MergePlan::Nothing
    }
}

/// The local branch a remote branch `origin/<name>` is checked out as:
/// `<name>`, or `None` for a branch of another remote.
pub fn local_branch_name(remote_branch: &str) -> (r: Option<String>)
    ensures
        match r {
            Some(name) => is_prefix("origin/"@, remote_branch@) && name@ == remote_branch@.subrange(
                7,
                remote_branch@.len() as int,
            ),
            None => !is_prefix("origin/"@, remote_branch@),
        },
{
    proof {
        reveal_strlit("origin/");
    }
    if has_prefix(remote_branch, "origin/") {
        let n = remote_branch.unicode_len();
        Some(remote_branch.substring_char(7, n).to_owned())
    } else {
        None
    }
}

/// How a remote branch is checked out.
#[derive(Debug, Clone, Copy, PartialEq, Eq, Structural)]
pub enum RemoteCheckout {
    /// The local branch already points at the remote tip: check it out.
    CheckoutLocal,
    /// The local branch points elsewhere: move it to the remote tip, then
    /// check it out.
    MoveLocal,
    /// There is no local branch: create one tracking the remote branch.
    CreateTracking,
}

/// The checkout step for a remote branch whose tip is `remote_tip`, given
/// the tip of the local branch of the same name, if there is one.
pub fn remote_checkout_plan(local_tip: Option<CommitId>, remote_tip: CommitId) -> (r: RemoteCheckout)
    ensures
        r == match local_tip {
            Some(t) => if t == remote_tip {
                RemoteCheckout::CheckoutLocal
            } else {
                RemoteCheckout::MoveLocal
            },
            None => RemoteCheckout::CreateTracking,
        },
{
    match local_tip {
        Some(t) => if t == remote_tip {
            RemoteCheckout::CheckoutLocal
        } else {
            RemoteCheckout::MoveLocal
        },
        None => RemoteCheckout::CreateTracking,
    }
}

} // verus!
