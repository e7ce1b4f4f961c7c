//! Verified core of a tree-ensemble model toolkit: model-file decoding
//! (LightGBM text models, scikit-learn packed HistGradientBoosting nodes),
//! structural validation of estimator arrays and the load plans built from
//! them, the integer bookkeeping of the reference prediction engine, and the
//! decisions of its equivalence harness.

pub mod binding;
pub mod gtil;
pub mod harness;
pub mod lightgbm;
pub mod search;
pub mod sklearn;
pub mod task;
pub mod text;
