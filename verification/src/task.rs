//! The task type of a tree-ensemble model.

use vstd::prelude::*;

verus! {

/// What a model predicts.
#[derive(Debug, Clone, Copy, PartialEq, Eq, Structural)]
pub enum TaskType {
    /// Binary classification.
    BinaryClf,
    /// Regression.
    Regressor,
    /// Multi-class classification.
    MultiClf,
    /// Learning to rank.
    LearningToRank,
    /// Isolation-forest anomaly scoring.
    IsolationForest,
}

} // verus!
