//! Branch pointers as read from the repository backend.

use vstd::prelude::*;

use crate::commit::CommitId;

verus! {

/// A local or remote branch and the commit it points at.
#[derive(Debug)]
pub struct BranchInfo {
    pub name: String,
    pub is_head: bool,
    pub is_remote: bool,
    pub upstream: Option<String>,
    pub tip_oid: CommitId,
}

/// Whether `a` sorts before `b` from position `i` on: characters compared
/// by code point, a proper prefix first.
pub open spec fn name_before_from(a: Seq<char>, b: Seq<char>, i: int) -> bool
    decreases a.len() - i,
{
    if i >= a.len() {
        i < b.len()
    } else if i >= b.len() {
        false
    } else if a[i] != b[i] {
        a[i] < b[i]
    } else {
        name_before_from(a, b, i + 1)
    }
}

/// Whether name `a` sorts before name `b`.
pub open spec fn name_before(a: Seq<char>, b: Seq<char>) -> bool {
    name_before_from(a, b, 0)
}

/// Whether branch `x` is listed before branch `y`: the HEAD branch first,
/// the others by name.
pub open spec fn branch_before(x: BranchInfo, y: BranchInfo) -> bool {
    (x.is_head && !y.is_head) || (x.is_head == y.is_head && name_before(x.name@, y.name@))
}

proof fn lemma_name_order(a: Seq<char>, b: Seq<char>, c: Seq<char>, i: int)
    requires
        0 <= i,
    ensures
        !(name_before_from(a, b, i) && name_before_from(b, a, i)),
        name_before_from(a, b, i) && name_before_from(b, c, i) ==> name_before_from(a, c, i),
        i <= a.len() && i <= b.len() && !name_before_from(a, b, i) && !name_before_from(b, a, i) ==> a.len() == b.len()
            && forall|k: int| i <= k < a.len() ==> a[k] == b[k],
    decreases a.len() - i,
{
    if i < a.len() && i < b.len() {
        lemma_name_order(a, b, c, i + 1);
    }
}

/// Names equal as sequences sort alike, and the order on names is strict,
/// transitive and total.
proof fn lemma_branch_order(x: BranchInfo, y: BranchInfo, z: BranchInfo)
    ensures
        !(branch_before(x, y) && branch_before(y, x)),
        branch_before(x, y) && branch_before(y, z) ==> branch_before(x, z),
        !branch_before(x, y) && !branch_before(y, x) ==> x.is_head == y.is_head && x.name@ == y.name@,
{
    lemma_name_order(x.name@, y.name@, z.name@, 0);
    if !branch_before(x, y) && !branch_before(y, x) {
        assert(x.name@ =~= y.name@);
    }
}

/// Whether name `a` sorts before name `b`.
fn name_is_before(a: &str, b: &str) -> (r: bool)
    ensures
        r == name_before(a@, b@),
{
    let n = a.unicode_len();
    let m = b.unicode_len();
    let mut i: usize = 0;
    while i < n && i < m
        invariant
            n == a@.len(),
            m == b@.len(),
            i <= n,
            i <= m,
            name_before(a@, b@) == name_before_from(a@, b@, i as int),
        decreases n - i,
    {
        let ca = a.get_char(i);
        let cb = b.get_char(i);
        if ca != cb {
            return ca < cb;
        }
        i += 1;
    }
    i < m
}

fn is_before(x: &BranchInfo, y: &BranchInfo) -> (r: bool)
    ensures
        r == branch_before(*x, *y),
{
    if x.is_head != y.is_head {
        x.is_head
    } else {
        name_is_before(x.name.as_str(), y.name.as_str())
    }
}

/// The order in which `branches` are listed: the HEAD branch first, the
/// others by name, branches that sort alike in their given order. The
/// result is a permutation of the indices of `branches`.
pub fn branch_order(branches: &[BranchInfo]) -> (order: Vec<usize>)
    ensures
        order@.len() == branches@.len(),
        forall|a: int| 0 <= a < order@.len() ==> #[trigger] order@[a] < branches@.len(),
        forall|a: int, b: int| 0 <= a < b < order@.len() ==> order@[a] != order@[b],
        forall|a: int, b: int|
            0 <= a < b < order@.len() ==> !branch_before(branches@[order@[b] as int], branches@[order@[a] as int]),
        forall|a: int, b: int|
            0 <= a < b < order@.len() && !branch_before(branches@[order@[a] as int], branches@[order@[b] as int])
                ==> order@[a] < order@[b],
{
    let n = branches.len();
    let mut order: Vec<usize> = Vec::new();
    let mut i: usize = 0;
    while i < n
        invariant
            n == branches@.len(),
            i <= n,
            order@.len() == i,
            forall|a: int| 0 <= a < order@.len() ==> #[trigger] order@[a] < i,
            forall|a: int, b: int| 0 <= a < b < order@.len() ==> order@[a] != order@[b],
            forall|a: int, b: int|
                0 <= a < b < order@.len() ==> !branch_before(branches@[order@[b] as int], branches@[order@[a] as int]),
            forall|a: int, b: int|
                0 <= a < b < order@.len() && !branch_before(branches@[order@[a] as int], branches@[order@[b] as int])
                    ==> order@[a] < order@[b],
        decreases n - i,
    {
        let x = &branches[i];
        let mut j: usize = 0;
        while j < order.len() && !is_before(x, &branches[order[j]])
            invariant
                n == branches@.len(),
                i < n,
                order@.len() == i,
                j <= order@.len(),
                forall|a: int| 0 <= a < order@.len() ==> #[trigger] order@[a] < i,
                forall|a: int| 0 <= a < j ==> !branch_before(*x, #[trigger] branches@[order@[a] as int]),
                *x == branches@[i as int],
            decreases order@.len() - j,
        {
            j += 1;
        }
        let ghost old_order = order@;
        proof {
            if j < old_order.len() {
                assert(branch_before(*x, branches@[old_order[j as int] as int]));
            }
            assert forall|b: int| j <= b < old_order.len() implies #[trigger] branch_before(
                *x,
                branches@[old_order[b] as int],
            ) by {
                let xj = branches@[old_order[j as int] as int];
                let yb = branches@[old_order[b] as int];
                assert(branch_before(*x, xj));
                if b > j {
                    assert(!branch_before(yb, xj));
                }
                lemma_branch_order(*x, xj, yb);
                lemma_branch_order(xj, yb, *x);
                if !branch_before(xj, yb) {
                    assert(xj.name@ == yb.name@);
                    assert(name_before(x.name@, yb.name@) == name_before(x.name@, xj.name@));
                }
            }
        }
        order.insert(j, i);
        proof {
            let o = order@;
            assert forall|a: int| 0 <= a < o.len() implies #[trigger] o[a] < i + 1 by {
                if a < j {
                    assert(o[a] == old_order[a]);
                } else if a > j {
                    assert(o[a] == old_order[a - 1]);
                }
            }
            assert forall|a: int, b: int| 0 <= a < b < o.len() implies o[a] != o[b] by {
                if a < j {
                    assert(o[a] == old_order[a]);
                }
                if a > j {
                    assert(o[a] == old_order[a - 1]);
                }
                if b < j {
                    assert(o[b] == old_order[b]);
                }
                if b > j {
                    assert(o[b] == old_order[b - 1]);
                }
            }
            assert forall|a: int, b: int|
                0 <= a < b < o.len() implies !branch_before(branches@[o[b] as int], branches@[o[a] as int]) && (!branch_before(
                branches@[o[a] as int],
                branches@[o[b] as int],
            ) ==> o[a] < o[b]) by {
                if a < j {
                    assert(o[a] == old_order[a]);
                }
                if a > j {
                    assert(o[a] == old_order[a - 1]);
                }
                if b < j {
                    assert(o[b] == old_order[b]);
                }
                if b > j {
                    assert(o[b] == old_order[b - 1]);
                }
                if a == j {
                    let yb = branches@[old_order[b - 1] as int];
                    assert(branch_before(*x, yb));
                    lemma_branch_order(*x, yb, *x);
                } else if b == j {
                    lemma_branch_order(*x, branches@[old_order[a] as int], *x);
                }
            }
        }
        i += 1;
    }
    order
}

} // verus!
