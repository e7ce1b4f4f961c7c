//! Validation of the per-tree parallel arrays of a scikit-learn tree ensemble:
//! one array of each kind per tree, every array of a tree as long as its node
//! count, and every child index either `-1` (no child) or a node of the tree.

use vstd::prelude::*;
use crate::sklearn::error::SklError;

verus! {

/// A model scalar that must be at least 1.
pub open spec fn positive_spec(field: &'static str, value: i32) -> Result<i32, SklError> {
    if value < 1 {
        Err(SklError::InvalidScalar { field, value: value as i64, reason: "must be at least 1" })
    } else {
        Ok(value)
    }
}

/// Reject a model scalar below 1.
pub fn require_positive(field: &'static str, value: i32) -> (r: Result<i32, SklError>)
    ensures
        r == positive_spec(field, value),
{
    if value < 1 {
        return Err(SklError::InvalidScalar { field, value: value as i64, reason: "must be at least 1" });
    }
    Ok(value)
}

/// The number of per-tree arrays of one kind must equal the tree count.
pub fn check_outer(field: &'static str, expected: usize, got: usize) -> (r: Result<(), SklError>)
    ensures
        got == expected ==> r is Ok,
        got != expected ==> r == Err::<(), SklError>(SklError::TreeCountMismatch { field, expected, got }),
{
    if got != expected {
        return Err(SklError::TreeCountMismatch { field, expected, got });
    }
    Ok(())
}

/// A per-tree array must be as long as the tree's node count.
pub fn check_dim(tree: usize, field: &'static str, node_count: usize, got: usize) -> (r: Result<(), SklError>)
    ensures
        got == node_count ==> r is Ok,
        got != node_count ==> r == Err::<(), SklError>(SklError::DimensionMismatch { tree, field, expected: node_count, got }),
{
    if got != node_count {
        return Err(SklError::DimensionMismatch { tree, field, expected: node_count, got });
    }
    Ok(())
}

/// The first entry from `i` on of `(field, length)` pairs whose length is not
/// `n`.
pub open spec fn first_mismatch(dims: Seq<(&'static str, usize)>, n: int, i: int) -> Option<int>
    decreases dims.len() - i,
{
    if i >= dims.len() {
        None
    } else if dims[i].1 as int != n {
        Some(i)
    } else {
        first_mismatch(dims, n, i + 1)
    }
}

/// No pair from `i` on mismatches: every length from `i` on is `n`.
pub proof fn lemma_no_mismatch(dims: Seq<(&'static str, usize)>, n: int, i: int)
    requires
        0 <= i,
        first_mismatch(dims, n, i) is None,
    ensures
        forall|k: int| i <= k < dims.len() ==> (#[trigger] dims[k]).1 as int == n,
    decreases dims.len() - i,
{
    if i < dims.len() {
        lemma_no_mismatch(dims, n, i + 1);
    }
}

/// The outer-count check of the `(field, count)` pairs against `expected`
/// trees: the first pair whose count differs is the error.
pub open spec fn outer_spec(dims: Seq<(&'static str, usize)>, expected: usize) -> Result<(), SklError> {
    match first_mismatch(dims, expected as int, 0) {
        Some(j) => Err(SklError::TreeCountMismatch { field: dims[j].0, expected, got: dims[j].1 }),
        None => Ok(()),
    }
}

proof fn lemma_first_mismatch(dims: Seq<(&'static str, usize)>, n: int, i: int, j: int)
    requires
        0 <= i <= j <= dims.len(),
        forall|k: int| i <= k < j ==> (#[trigger] dims[k]).1 as int == n,
    ensures
        first_mismatch(dims, n, i) == first_mismatch(dims, n, j),
    decreases j - i,
{
    if i < j {
        lemma_first_mismatch(dims, n, i + 1, j);
    }
}

/// Check each `(field, count)` pair against `expected` trees in order.
pub fn check_outers(dims: &[(&'static str, usize)], expected: usize) -> (r: Result<(), SklError>)
    ensures
        r == outer_spec(dims@, expected),
{
    let mut i: usize = 0;
    while i < dims.len()
        invariant
            i <= dims@.len(),
            forall|k: int| 0 <= k < i ==> (#[trigger] dims@[k]).1 == expected,
        decreases dims@.len() - i,
    {
        let (field, got) = dims[i];
        if got != expected {
            proof {
                lemma_first_mismatch(dims@, expected as int, 0, i as int);
            }
            return Err(SklError::TreeCountMismatch { field, expected, got });
        }
        i = i + 1;
    }
    proof {
        lemma_first_mismatch(dims@, expected as int, 0, dims@.len() as int);
    }
    Ok(())
}

/// A child index that is neither `-1` nor a node of a tree of `n` nodes.
pub open spec fn bad_child(c: i64, n: int) -> bool {
    c != -1 && (c < 0 || c >= n)
}

/// The first node from `i` on (with its offending child, left before right)
/// that has a child outside a tree of `n` nodes.
pub open spec fn first_bad_child(l: Seq<i64>, r: Seq<i64>, n: int, i: int) -> Option<(int, i64)>
    decreases n - i,
{
    if i >= n {
        None
    } else if bad_child(l[i], n) {
        Some((i, l[i]))
    } else if bad_child(r[i], n) {
        Some((i, r[i]))
    } else {
        first_bad_child(l, r, n, i + 1)
    }
}

/// Both children of node `k` are `-1` or nodes of a tree of `n` nodes.
pub open spec fn node_ok(l: Seq<i64>, r: Seq<i64>, n: int, k: int) -> bool {
    !bad_child(l[k], n) && !bad_child(r[k], n)
}

proof fn lemma_first_bad_child(l: Seq<i64>, r: Seq<i64>, n: int, i: int, j: int)
    requires
        0 <= i <= j <= n,
        forall|k: int| i <= k < j ==> #[trigger] node_ok(l, r, n, k),
    ensures
        first_bad_child(l, r, n, i) == first_bad_child(l, r, n, j),
    decreases j - i,
{
    if i < j {
        assert(node_ok(l, r, n, i));
        lemma_first_bad_child(l, r, n, i + 1, j);
    }
}

/// The node count of a tree: it must lie in `0..=i32::MAX`.
pub open spec fn node_count_spec(node_count: i64) -> Result<usize, SklError> {
    if node_count < 0 {
        Err(SklError::InvalidScalar { field: "node_count", value: node_count, reason: "must be non-negative" })
    } else if node_count > 0x7fff_ffff {
        Err(SklError::InvalidScalar { field: "node_count", value: node_count, reason: "exceeds i32::MAX" })
    } else {
        Ok(node_count as usize)
    }
}

/// The arrays of a tree in checking order: the two child arrays, then `dims`.
pub open spec fn all_dims(dims: Seq<(&'static str, usize)>, l: Seq<i64>, r: Seq<i64>) -> Seq<(&'static str, usize)> {
    seq![("children_left", l.len() as usize), ("children_right", r.len() as usize)] + dims
}

/// The validation of tree `tree`: its node count, then the length of the two
/// child arrays and of each `(field, length)` pair of `dims` in order, then
/// every child index; the node count when all hold.
pub open spec fn tree_check_spec(
    tree: usize,
    node_count: i64,
    dims: Seq<(&'static str, usize)>,
    l: Seq<i64>,
    r: Seq<i64>,
) -> Result<usize, SklError> {
    let dims = all_dims(dims, l, r);
    match node_count_spec(node_count) {
        Err(e) => Err(e),
        Ok(n) => match first_mismatch(dims, n as int, 0) {
            Some(j) => Err(SklError::DimensionMismatch { tree, field: dims[j].0, expected: n, got: dims[j].1 }),
            None => match first_bad_child(l, r, n as int, 0) {
                Some(p) => Err(SklError::ChildIndexOutOfRange { tree, node: p.0 as usize, child: p.1, node_count: n }),
                None => Ok(n),
            },
        },
    }
}

/// Validate tree `tree` (see [`tree_check_spec`]). `dims` lists the name and
/// length of each of the tree's other arrays in checking order. On success
/// every child index is `-1` or below the returned node count.
pub fn validate_tree(tree: usize, node_count: i64, dims: &[(&'static str, usize)], children_left: &[i64], children_right: &[i64]) -> (r:
    Result<usize, SklError>)
    ensures
        r == tree_check_spec(tree, node_count, dims@, children_left@, children_right@),
        r matches Ok(n) ==> n <= 0x7fff_ffff && forall|k: int| 0 <= k < dims@.len() ==> (#[trigger] dims@[k]).1 == n,
        r matches Ok(n) ==> children_left@.len() == n && children_right@.len() == n
            && forall|k: int| 0 <= k < n ==> #[trigger] node_ok(children_left@, children_right@, n as int, k),
{
    if node_count < 0 {
        return Err(SklError::InvalidScalar { field: "node_count", value: node_count, reason: "must be non-negative" });
    }
    if node_count > 0x7fff_ffff {
        return Err(SklError::InvalidScalar { field: "node_count", value: node_count, reason: "exceeds i32::MAX" });
    }
    let n = node_count as usize;
    let ghost all = all_dims(dims@, children_left@, children_right@);
    if children_left.len() != n {
        return Err(SklError::DimensionMismatch { tree, field: "children_left", expected: n, got: children_left.len() });
    }
    if children_right.len() != n {
        proof {
            lemma_first_mismatch(all, n as int, 0, 1);
        }
        return Err(SklError::DimensionMismatch { tree, field: "children_right", expected: n, got: children_right.len() });
    }
    proof {
        lemma_first_mismatch(all, n as int, 0, 2);
    }
    let mut i: usize = 0;
    while i < dims.len()
        invariant
            i <= dims@.len(),
            all == all_dims(dims@, children_left@, children_right@),
            0 <= node_count <= 0x7fff_ffff,
            n == node_count as usize,
            first_mismatch(all, n as int, 0) == first_mismatch(all, n as int, 2),
            forall|k: int| 0 <= k < i ==> (#[trigger] dims@[k]).1 == n,
        decreases dims@.len() - i,
    {
        let (field, got) = dims[i];
        if got != n {
            proof {
                assert forall|k: int| 2 <= k < i + 2 implies (#[trigger] all[k]).1 as int == n as int by {
                    assert(all[k] == dims@[k - 2]);
                }
                lemma_first_mismatch(all, n as int, 2, i + 2);
                assert(all[i + 2] == dims@[i as int]);
            }
            return Err(SklError::DimensionMismatch { tree, field, expected: n, got });
        }
        i = i + 1;
    }
    proof {
        assert forall|k: int| 2 <= k < all.len() implies (#[trigger] all[k]).1 as int == n as int by {
            assert(all[k] == dims@[k - 2]);
        }
        lemma_first_mismatch(all, n as int, 2, all.len() as int);
    }
    let mut node: usize = 0;
    while node < n
        invariant
            node <= n,
            children_left@.len() == n,
            children_right@.len() == n,
            n <= 0x7fff_ffff,
            0 <= node_count <= 0x7fff_ffff,
            n == node_count as usize,
            first_mismatch(all_dims(dims@, children_left@, children_right@), n as int, 0) is None,
            forall|k: int| 0 <= k < node ==> #[trigger] node_ok(children_left@, children_right@, n as int, k),
        decreases n - node,
    {
        let left = children_left[node];
        if left != -1 && (left < 0 || left >= n as i64) {
            proof {
                lemma_first_bad_child(children_left@, children_right@, n as int, 0, node as int);
            }
            return Err(SklError::ChildIndexOutOfRange { tree, node, child: left, node_count: n });
        }
        let right = children_right[node];
        if right != -1 && (right < 0 || right >= n as i64) {
            proof {
                lemma_first_bad_child(children_left@, children_right@, n as int, 0, node as int);
            }
            return Err(SklError::ChildIndexOutOfRange { tree, node, child: right, node_count: n });
        }
        assert(node_ok(children_left@, children_right@, n as int, node as int));
        node = node + 1;
    }
    proof {
        lemma_first_bad_child(children_left@, children_right@, n as int, 0, n as int);
    }
    Ok(n)
}

} // verus!
