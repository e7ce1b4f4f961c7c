//! Checked access to the compressed (offset, value) columns of a tree: the
//! category list of a categorical split and the leaf vector of a leaf, each
//! given by per-node `begin`/`end` offsets into a value buffer.

use vstd::prelude::*;
use crate::gtil::error::GtilError;

verus! {

/// The category list of node `nid`: the range `begin[nid]..end[nid]` of a
/// buffer of `values_len` entries. Missing offsets, inverted offsets or an
/// end past the buffer are malformed; an empty in-range list is valid.
pub open spec fn category_list_spec(begin: Seq<u64>, end: Seq<u64>, values_len: usize, nid: usize) -> Result<(usize, usize), GtilError> {
    if nid < begin.len() && nid < end.len() && begin[nid as int] <= end[nid as int] && end[nid as int] <= values_len {
        Ok((begin[nid as int] as usize, end[nid as int] as usize))
    } else {
        Err(GtilError::MalformedCategoryList { node: nid })
    }
}

/// The bounds of the category list of node `nid` (see
/// [`category_list_spec`]).
pub fn category_list_range(begin: &[u64], end: &[u64], values_len: usize, nid: usize) -> (r: Result<(usize, usize), GtilError>)
    ensures
        r == category_list_spec(begin@, end@, values_len, nid),
        r matches Ok(p) ==> p.0 <= p.1 <= values_len,
{
    if nid < begin.len() && nid < end.len() {
        let b = begin[nid];
        let e = end[nid];
        if b <= e && e <= values_len as u64 {
            return Ok((b as usize, e as usize));
        }
    }
    Err(GtilError::MalformedCategoryList { node: nid })
}

/// Whether leaf `leaf` holds a leaf vector: absent offsets mean a scalar
/// leaf; present offsets must satisfy `begin <= end <= values_len`, and the
/// leaf holds a vector exactly when the range is not empty.
pub open spec fn leaf_vector_spec(begin: Seq<u64>, end: Seq<u64>, values_len: usize, leaf: usize) -> Result<bool, GtilError> {
    if leaf < begin.len() && leaf < end.len() {
        if begin[leaf as int] > end[leaf as int] || end[leaf as int] > values_len {
            Err(GtilError::MalformedLeafVector { node: leaf })
        } else {
            Ok(begin[leaf as int] != end[leaf as int])
        }
    } else {
        Ok(false)
    }
}

/// Whether leaf `leaf` holds a leaf vector (see [`leaf_vector_spec`]).
pub fn has_leaf_vector(begin: &[u64], end: &[u64], values_len: usize, leaf: usize) -> (r: Result<bool, GtilError>)
    ensures
        r == leaf_vector_spec(begin@, end@, values_len, leaf),
{
    if leaf < begin.len() && leaf < end.len() {
        let b = begin[leaf];
        let e = end[leaf];
        if b > e || e > values_len as u64 {
            return Err(GtilError::MalformedLeafVector { node: leaf });
        }
        return Ok(b != e);
    }
    Ok(false)
}

/// The next node of a traversal: a child id must name one of the tree's
/// `num_nodes` nodes.
pub fn checked_child(next: i32, num_nodes: usize) -> (r: Result<usize, GtilError>)
    ensures
        0 <= next < num_nodes ==> r == Ok::<usize, GtilError>(next as usize),
        !(0 <= next < num_nodes) ==> r == Err::<usize, GtilError>(GtilError::NodeIndexOutOfBounds { node: next as usize }),
{
    if next < 0 || next as usize >= num_nodes {
        return Err(GtilError::NodeIndexOutOfBounds { node: next as usize });
    }
    Ok(next as usize)
}

/// The feature that node `node` splits on must index the input row, of
/// `row_len` values (the error reports the width as an `i32`).
pub fn checked_feature(node: usize, feature: i32, row_len: usize) -> (r: Result<usize, GtilError>)
    ensures
        0 <= feature < row_len ==> r == Ok::<usize, GtilError>(feature as usize),
        !(0 <= feature < row_len) ==> r == Err::<usize, GtilError>(
            GtilError::FeatureIndexOutOfBounds { node, feature, num_feature: row_len as i32 },
        ),
{
    if feature < 0 || feature as usize >= row_len {
        return Err(GtilError::FeatureIndexOutOfBounds { node, feature, num_feature: row_len as i32 });
    }
    Ok(feature as usize)
}

/// Whether the category `value` is in `category_list`.
pub fn category_listed(category_list: &[u32], value: u32) -> (b: bool)
    ensures
        b == category_list@.contains(value),
{
    let mut i: usize = 0;
    while i < category_list.len()
        invariant
            i <= category_list@.len(),
            forall|j: int| 0 <= j < i ==> category_list@[j] != value,
        decreases category_list@.len() - i,
    {
        if category_list[i] == value {
            return true;
        }
        i = i + 1;
    }
    false
}

/// The child a categorical split routes to: a matched category goes right
/// when the list names the right child's categories and left otherwise; an
/// unmatched one goes the other way.
pub fn route_categorical(matched: bool, category_list_right_child: bool, left: i32, right: i32) -> (c: i32)
    ensures
        c == (if matched == category_list_right_child { right } else { left }),
{
    if category_list_right_child {
        if matched { right } else { left }
    } else if matched {
        left
    } else {
        right
    }
}

} // verus!
