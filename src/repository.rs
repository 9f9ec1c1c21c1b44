//! Summaries of the working tree.

use vstd::prelude::*;

verus! {

/// Status bits of a file staged for commit (new, modified, deleted,
/// renamed or with a changed type in the index), as the repository backend
/// reports them.
pub const STAGED_CHANGES: u32 = 0x1f;

/// Status bits of an unstaged change to a tracked file (modified, deleted,
/// type changed or renamed in the working tree).
pub const UNSTAGED_CHANGES: u32 = 0xf00;

/// How many files have staged or unstaged changes.
#[derive(Debug, Clone, Copy, PartialEq, Eq, Structural)]
pub struct WorkingTreeStatus {
    pub file_count: usize,
}

pub open spec fn is_changed(bits: u32) -> bool {
    bits & STAGED_CHANGES != 0 || bits & UNSTAGED_CHANGES != 0
}

/// How many of the first `n` entries are changed files.
pub open spec fn changed_count(entries: Seq<u32>, n: int) -> int
    decreases n,
{
    if n <= 0 {
        0
    } else {
        changed_count(entries, n - 1) + if is_changed(entries[n - 1]) {
            1int
        } else {
            0
        }
    }
}

proof fn lemma_changed_count_bound(entries: Seq<u32>, n: int)
    requires
        0 <= n <= entries.len(),
    ensures
        0 <= changed_count(entries, n) <= n,
    decreases n,
{
    if n > 0 {
        lemma_changed_count_bound(entries, n - 1);
    }
}

/// The status of a working tree whose files have the status bits `entries`
/// (untracked and ignored files left out): `None` when no file is changed.
pub fn working_tree_status(entries: &[u32]) -> (r: Option<WorkingTreeStatus>)
    ensures
        changed_count(entries@, entries@.len() as int) == 0 ==> r is None,
        changed_count(entries@, entries@.len() as int) > 0 ==> r == Some(
            WorkingTreeStatus { file_count: changed_count(entries@, entries@.len() as int) as usize },
        ),
{
    let mut file_count: usize = 0;
    let mut i: usize = 0;
    while i < entries.len()
        invariant
            i <= entries@.len(),
            file_count == changed_count(entries@, i as int),
        decreases entries.len() - i,
    {
        proof {
            lemma_changed_count_bound(entries@, i as int);
        }
        let status = entries[i];
        if status & STAGED_CHANGES != 0 {
            file_count += 1;
        } else if status & UNSTAGED_CHANGES != 0 {
            file_count += 1;
        }
        i += 1;
    }
    if file_count > 0 {
        Some(WorkingTreeStatus { file_count })
    } else {
        None
    }
}

} // verus!
