//! The postprocessors a model can name, and the resolution of a name to one
//! of them.

use vstd::prelude::*;
use crate::text::str_eq;

verus! {

/// A postprocessor applied to the raw margins of a default prediction.
#[derive(Debug, Clone, Copy, PartialEq, Eq, Structural)]
pub enum Postprocessor {
    /// The margin unchanged.
    Identity,
    /// The margins unchanged (multi-class).
    IdentityMulticlass,
    /// `1 / (1 + exp(-alpha * v))` per cell.
    Sigmoid,
    /// `v * v` with the sign of `v`, per cell.
    SignedSquare,
    /// `1` when `v > 0`, else `0`, per cell.
    Hinge,
    /// `exp(v)` per cell.
    Exponential,
    /// `exp2(-v / c)` per cell.
    ExponentialStandardRatio,
    /// `ln(1 + exp(v))` per cell.
    LogarithmOnePlusExp,
    /// A normalized exponential over the classes of each target of a row.
    Softmax,
    /// An independent sigmoid per class of each target of a row.
    MulticlassOva,
}

impl Postprocessor {
    /// Whether the postprocessor works on the classes of each target of a row
    /// together, rather than cell by cell.
    pub open spec fn row_wise(self) -> bool {
        self == Postprocessor::Softmax || self == Postprocessor::MulticlassOva
    }

    /// Whether it works on the classes of a row together (see
    /// [`Self::row_wise`]).
    pub fn is_row_wise(self) -> (b: bool)
        ensures
            b == self.row_wise(),
    {
        match self {
            Postprocessor::Softmax | Postprocessor::MulticlassOva => true,
            _ => false,
        }
    }
}

/// The postprocessor named `name`, if it is one of the supported names.
pub open spec fn postprocessor_of(name: Seq<char>) -> Option<Postprocessor> {
    if name == "identity"@ {
        Some(Postprocessor::Identity)
    } else if name == "identity_multiclass"@ {
        Some(Postprocessor::IdentityMulticlass)
    } else if name == "sigmoid"@ {
        Some(Postprocessor::Sigmoid)
    } else if name == "signed_square"@ {
        Some(Postprocessor::SignedSquare)
    } else if name == "hinge"@ {
        Some(Postprocessor::Hinge)
    } else if name == "exponential"@ {
        Some(Postprocessor::Exponential)
    } else if name == "exponential_standard_ratio"@ {
        Some(Postprocessor::ExponentialStandardRatio)
    } else if name == "logarithm_one_plus_exp"@ {
        Some(Postprocessor::LogarithmOnePlusExp)
    } else if name == "softmax"@ {
        Some(Postprocessor::Softmax)
    } else if name == "multiclass_ova"@ {
        Some(Postprocessor::MulticlassOva)
    } else {
        None
    }
}

/// Resolve a postprocessor name (see [`postprocessor_of`]); `None` for a
/// name the engine does not support.
pub fn postprocessor_kind(name: &str) -> (k: Option<Postprocessor>)
    ensures
        k == postprocessor_of(name@),
{
    if str_eq(name, "identity") {
        Some(Postprocessor::Identity)
    } else if str_eq(name, "identity_multiclass") {
        Some(Postprocessor::IdentityMulticlass)
    } else if str_eq(name, "sigmoid") {
        Some(Postprocessor::Sigmoid)
    } else if str_eq(name, "signed_square") {
        Some(Postprocessor::SignedSquare)
    } else if str_eq(name, "hinge") {
        Some(Postprocessor::Hinge)
    } else if str_eq(name, "exponential") {
        Some(Postprocessor::Exponential)
    } else if str_eq(name, "exponential_standard_ratio") {
        Some(Postprocessor::ExponentialStandardRatio)
    } else if str_eq(name, "logarithm_one_plus_exp") {
        Some(Postprocessor::LogarithmOnePlusExp)
    } else if str_eq(name, "softmax") {
        Some(Postprocessor::Softmax)
    } else if str_eq(name, "multiclass_ova") {
        Some(Postprocessor::MulticlassOva)
    } else {
        None
    }
}

} // verus!
