//! Typed errors of the prediction engine's integer checks.

use vstd::prelude::*;

verus! {

/// Errors of input validation and output routing.
#[allow(inconsistent_fields)]
#[derive(Debug, Clone, Copy, PartialEq, Eq, Structural)]
pub enum GtilError {
    /// A split reads a feature outside the input row.
    FeatureIndexOutOfBounds { node: usize, feature: i32, num_feature: i32 },
    /// The dense input holds fewer values than `num_row * num_feature`.
    InvalidInputShape { num_row: usize, num_feature: usize, required: usize, got: usize },
    /// A tree's `(target_id, class_id)` routes outside the output buffer.
    OutputRouteOutOfBounds { target_id: i32, class_id: i32, num_target: i32, max_num_class: i32 },
    /// A leaf vector holds fewer values than its route reads.
    LeafVectorTooShort { needed: usize, got: usize },
    /// A sparse column index is not below the feature count.
    SparseColumnOutOfBounds { col: u64, num_feature: u64 },
    /// A sparse `row_ptr` entry violates its limit.
    SparseRowPtrInvalid { index: usize, value: u64, limit: u64 },
    /// A node's category-list offsets are missing or out of range.
    MalformedCategoryList { node: usize },
    /// A leaf's leaf-vector offsets are inverted or out of range.
    MalformedLeafVector { node: usize },
    /// A child id outside the tree's nodes.
    NodeIndexOutOfBounds { node: usize },
}

} // verus!
