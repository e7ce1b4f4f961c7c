//! The argument checks of the Python binding: the prediction configuration
//! built from its keyword arguments, and the exact feature-count check of a
//! 2-D input (a too-wide matrix would otherwise be read at the wrong stride).

use vstd::prelude::*;
use crate::gtil::config::{Config, PredictKind};

verus! {

/// The configuration for `nthread` workers: raw margins when `pred_margin`,
/// the default prediction otherwise.
pub fn make_config(nthread: i32, pred_margin: bool) -> (c: Config)
    ensures
        c == (Config { kind: if pred_margin { PredictKind::Raw } else { PredictKind::Default }, nthread }),
{
    Config {
        kind: if pred_margin {
            PredictKind::Raw
        } else {
            PredictKind::Default
        },
        nthread,
    }
}

/// Why an input does not fit a model.
#[derive(Debug, Clone, Copy, PartialEq, Eq, Structural)]
pub enum FeatureCountError {
    /// The model's feature count is negative (a corrupt model).
    NegativeFeatureCount { num_feature: i32 },
    /// The input has a different number of columns than the model features.
    ColumnMismatch { num_col: usize, num_feature: i32 },
}

/// The input must have exactly as many columns as the model has features;
/// a negative feature count is rejected first.
pub fn check_feature_count(num_col: usize, num_feature: i32) -> (r: Result<(), FeatureCountError>)
    ensures
        num_feature < 0 ==> r == Err::<(), FeatureCountError>(FeatureCountError::NegativeFeatureCount { num_feature }),
        num_feature >= 0 && num_col != num_feature ==> r == Err::<(), FeatureCountError>(
            FeatureCountError::ColumnMismatch { num_col, num_feature },
        ),
        num_feature >= 0 && num_col == num_feature ==> r is Ok,
{
    if num_feature < 0 {
        return Err(FeatureCountError::NegativeFeatureCount { num_feature });
    }
    if num_col != num_feature as usize {
        return Err(FeatureCountError::ColumnMismatch { num_col, num_feature });
    }
    Ok(())
}

} // verus!
