//! Typed errors of the LightGBM loader. Every malformed input is a returned
//! error, never a panic or an out-of-bounds access.

use vstd::prelude::*;
use crate::text::opt_view;

verus! {

/// Where in the model text a parse error was detected.
#[derive(Debug, Clone, Copy, PartialEq, Eq)]
pub enum ParseLocation {
    /// The global header section.
    Global,
    /// The tree with this index (in file order).
    Tree(usize),
}

/// The cause of a parse error.
#[derive(Debug, Clone, PartialEq, Eq)]
pub enum ParseDetail {
    /// A numeric token of `field` does not parse as a number of its type.
    CannotParseNumber { field: &'static str, token: String },
    /// An array field is blank although `num_entry > 0` entries are expected.
    EmptyArray { field: &'static str, num_entry: usize },
    /// An array field holds fewer tokens than expected.
    TooFewEntries { field: &'static str, expected: usize, found: usize },
    /// A required key is absent.
    MissingKey { key: &'static str },
    /// `num_leaves` is negative.
    NegativeNumLeaves { num_leaves: i32 },
    /// A global scalar that must be non-negative is negative.
    NegativeScalar { field: &'static str, value: i32 },
    /// `num_class > 1` with an objective that is not a multiclass objective.
    NotMulticlass { objective: &'static str, num_class: i32 },
    /// `max_feature_idx + 1` overflows `i32`.
    FeatureCountOverflow { max_feature_idx: i32 },
    /// A tree with `num_leaves == 0`.
    EmptyTree,
    /// A negative `leaf_count` entry.
    NegativeLeafCount { count: i32 },
    /// A negative `internal_count` entry.
    NegativeInternalCount { count: i32 },
}

/// Why the bitset of a categorical split cannot be located.
#[derive(Debug, Clone, Copy, PartialEq, Eq, Structural)]
pub enum BitsetFault {
    /// The split's threshold is not a non-negative integer literal, so it
    /// names no categorical index.
    IndexNotInteger,
    /// The categorical index has no `cat_boundaries` entry after it.
    IndexOutOfRange { num_boundaries: usize },
    /// The boundaries of the index decrease.
    BoundariesDecreasing { begin: u64, end: u64 },
    /// The bitset ends past `cat_threshold`.
    PastThreshold { end: u64, len: usize },
}

/// Errors raised by the LightGBM loader.
#[allow(inconsistent_fields)]
#[derive(Debug, Clone, PartialEq, Eq)]
pub enum LgbError {
    /// Missing key, unparseable number, short array or inconsistent scalar.
    Parse { line: ParseLocation, detail: ParseDetail },
    /// A per-tree array length disagrees with the expected count.
    DimensionMismatch { tree: usize, field: &'static str, expected: usize, got: usize },
    /// A decoded negative-index leaf falls outside `leaf_value`.
    LeafIndexOutOfRange { tree: usize, index: usize, num_leaves: usize },
    /// An internal node index falls outside the parsed arrays.
    NodeIndexOutOfRange { tree: usize, index: i64, detail: &'static str },
    /// A malformed categorical split bitset.
    Bitset { tree: usize, node: usize, fault: BitsetFault },
    /// An objective name that LightGBM does not define.
    UnrecognizedObjective(String),
    /// `binary` or `multiclassova` whose sigmoid alpha is missing (`alpha`
    /// is `None`) or reads as a value that is not positive (`alpha` holds its
    /// text).
    InvalidSigmoidAlpha { objective: String, alpha: Option<String> },
}

/// The mathematical content of a [`ParseDetail`], with strings as character
/// sequences and counts as integers.
pub enum DetailModel {
    CannotParseNumber { field: &'static str, token: Seq<char> },
    EmptyArray { field: &'static str, num_entry: int },
    TooFewEntries { field: &'static str, expected: int, found: int },
    MissingKey { key: &'static str },
    NegativeNumLeaves { num_leaves: int },
    NegativeScalar { field: &'static str, value: int },
    NotMulticlass { objective: Seq<char>, num_class: int },
    FeatureCountOverflow { max_feature_idx: int },
    EmptyTree,
    NegativeLeafCount { count: int },
    NegativeInternalCount { count: int },
}

impl ParseDetail {
    /// The mathematical content of this detail.
    pub open spec fn model(self) -> DetailModel {
        match self {
            ParseDetail::CannotParseNumber { field, token } => DetailModel::CannotParseNumber {
                field,
                token: token@,
            },
            ParseDetail::EmptyArray { field, num_entry } => DetailModel::EmptyArray {
                field,
                num_entry: num_entry as int,
            },
            ParseDetail::TooFewEntries { field, expected, found } => DetailModel::TooFewEntries {
                field,
                expected: expected as int,
                found: found as int,
            },
            ParseDetail::MissingKey { key } => DetailModel::MissingKey { key },
            ParseDetail::NegativeNumLeaves { num_leaves } => DetailModel::NegativeNumLeaves {
                num_leaves: num_leaves as int,
            },
            ParseDetail::NegativeScalar { field, value } => DetailModel::NegativeScalar {
                field,
                value: value as int,
            },
            ParseDetail::NotMulticlass { objective, num_class } => DetailModel::NotMulticlass {
                objective: objective@,
                num_class: num_class as int,
            },
            ParseDetail::FeatureCountOverflow { max_feature_idx } =>
                DetailModel::FeatureCountOverflow { max_feature_idx: max_feature_idx as int },
            ParseDetail::EmptyTree => DetailModel::EmptyTree,
            ParseDetail::NegativeLeafCount { count } => DetailModel::NegativeLeafCount {
                count: count as int,
            },
            ParseDetail::NegativeInternalCount { count } => DetailModel::NegativeInternalCount {
                count: count as int,
            },
        }
    }
}

/// The mathematical content of an [`LgbError`].
#[allow(inconsistent_fields)]
pub enum ErrorModel {
    Parse { line: ParseLocation, detail: DetailModel },
    DimensionMismatch { tree: int, field: &'static str, expected: int, got: int },
    LeafIndexOutOfRange { tree: int, index: int, num_leaves: int },
    NodeIndexOutOfRange { tree: int, index: int, detail: &'static str },
    Bitset { tree: int, node: int, fault: BitsetFault },
    UnrecognizedObjective(Seq<char>),
    InvalidSigmoidAlpha { objective: Seq<char>, alpha: Option<Seq<char>> },
}

impl LgbError {
    /// The mathematical content of this error.
    pub open spec fn model(self) -> ErrorModel {
        match self {
            LgbError::Parse { line, detail } => ErrorModel::Parse { line, detail: detail.model() },
            LgbError::DimensionMismatch { tree, field, expected, got } => ErrorModel::DimensionMismatch {
                tree: tree as int,
                field,
                expected: expected as int,
                got: got as int,
            },
            LgbError::LeafIndexOutOfRange { tree, index, num_leaves } => ErrorModel::LeafIndexOutOfRange {
                tree: tree as int,
                index: index as int,
                num_leaves: num_leaves as int,
            },
            LgbError::NodeIndexOutOfRange { tree, index, detail } => ErrorModel::NodeIndexOutOfRange {
                tree: tree as int,
                index: index as int,
                detail,
            },
            LgbError::Bitset { tree, node, fault } => ErrorModel::Bitset { tree: tree as int, node: node as int, fault },
            LgbError::UnrecognizedObjective(s) => ErrorModel::UnrecognizedObjective(s@),
            LgbError::InvalidSigmoidAlpha { objective, alpha } => ErrorModel::InvalidSigmoidAlpha {
                objective: objective@,
                alpha: opt_view(alpha),
            },
        }
    }
}

} // verus!
