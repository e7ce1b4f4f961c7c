//! scikit-learn estimator loading: validation of the per-tree parallel arrays
//! of RandomForest/ExtraTrees, GradientBoosting and IsolationForest models,
//! the packed-node decoder of HistGradientBoosting, and the model metadata of
//! each estimator kind.

pub mod arrays;
pub mod error;
pub mod forest;
pub mod gradient;
pub mod histgb;
pub mod meta;
