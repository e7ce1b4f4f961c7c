//! Typed errors of the scikit-learn loaders.

use vstd::prelude::*;

verus! {

/// Why a packed HistGradientBoosting node or categorical row could not be
/// decoded.
#[derive(Debug, Clone, Copy, PartialEq, Eq, Structural)]
pub enum DecodeFault {
    /// The node struct size is neither 52 nor 56 bytes.
    UnexpectedItemsize { itemsize: usize },
    /// A field does not fit in the node record.
    ShortRecord,
    /// `node_count` is negative.
    NegativeNodeCount { tree: usize, node_count: i64 },
    /// `node_count` exceeds `i32::MAX`.
    NodeCountTooLarge { tree: usize, node_count: i64 },
    /// `node_count * itemsize` overflows `usize`.
    BufferSizeOverflow { tree: usize },
    /// The nodes buffer is shorter than `node_count * itemsize` bytes.
    ShortNodesBuffer { tree: usize, got: usize, need: usize },
    /// A split node has a negative `feature_idx`.
    NegativeFeatureIdx { tree: usize, node: usize, feature_idx: i64 },
    /// A split node's `feature_idx` is outside `features_map`.
    FeatureIdxOutOfRange { tree: usize, node: usize, feature_idx: i64, len: usize },
    /// `8 * bitset_idx` overflows `usize`.
    BitsetRowOverflow { bitset_idx: u32 },
    /// The 8-word categorical row is not within the bitmap.
    BitsetRowOutOfRange { row_start: usize, bitmap_len: usize },
    /// A negative `feature_idx` indexes `categories_map`.
    NegativeCategoryFeature { feature_idx: i64 },
    /// `feature_idx` is outside `categories_map`.
    CategoryFeatureOutOfRange { feature_idx: i64, len: usize },
    /// A category is outside its `categories_map` row.
    CategoryOutOfRange { category: u32, len: usize },
    /// A transformed category is not a `u32`.
    CategoryNotU32 { value: i64 },
}

/// Errors raised by the scikit-learn loaders.
#[derive(Debug, Clone, Copy, PartialEq, Eq)]
pub enum SklError {
    /// A per-tree array length disagrees with that tree's node count.
    DimensionMismatch { tree: usize, field: &'static str, expected: usize, got: usize },
    /// A model scalar is out of range.
    InvalidScalar { field: &'static str, value: i64, reason: &'static str },
    /// A child index points outside its tree.
    ChildIndexOutOfRange { tree: usize, node: usize, child: i64, node_count: usize },
    /// The leaf value buffer of a tree is too short.
    ValueBufferTooShort { tree: usize, expected: usize, got: usize },
    /// The number of per-tree arrays disagrees with the tree count.
    TreeCountMismatch { field: &'static str, expected: usize, got: usize },
    /// A packed HistGradientBoosting node could not be decoded; `offset` is
    /// the byte or word offset concerned (0 when none applies).
    HistGbDecode { offset: usize, fault: DecodeFault },
}

} // verus!
