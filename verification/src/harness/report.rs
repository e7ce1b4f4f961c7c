//! The family of predicted deviation band a postprocessor belongs to in the
//! equivalence report, by the transcendental functions it evaluates.

use vstd::prelude::*;
use crate::text::str_eq;

verus! {

/// A postprocessor family of the report's predicted-deviation table.
#[derive(Debug, Clone, Copy, PartialEq, Eq, Structural)]
pub enum BandFamily {
    /// No transcendental function: basic-operation rounding only.
    NoTranscendental,
    /// One saturating `exp`.
    SingleExp,
    /// One unbounded `exp`.
    UnboundedExp,
    /// A bounded `exp2(-x/c)`.
    BoundedExp2,
    /// Two transcendentals in turn (`exp`, then `ln1p`).
    TwoTranscendentals,
    /// A per-class `exp` with accumulation.
    PerClassExp,
    /// An unknown postprocessor, for which no band is claimed.
    Unclaimed,
}

/// The family of the postprocessor named `p`.
pub open spec fn band_family_of(p: Seq<char>) -> BandFamily {
    if p == "identity"@ || p == "identity_multiclass"@ || p == "hinge"@ || p == "signed_square"@ {
        BandFamily::NoTranscendental
    } else if p == "sigmoid"@ || p == "multiclass_ova"@ {
        BandFamily::SingleExp
    } else if p == "exponential"@ {
        BandFamily::UnboundedExp
    } else if p == "exponential_standard_ratio"@ {
        BandFamily::BoundedExp2
    } else if p == "logarithm_one_plus_exp"@ {
        BandFamily::TwoTranscendentals
    } else if p == "softmax"@ {
        BandFamily::PerClassExp
    } else {
        BandFamily::Unclaimed
    }
}

/// The predicted-band family of the postprocessor named `postprocessor`
/// (see [`band_family_of`]).
pub fn band_family(postprocessor: &str) -> (f: BandFamily)
    ensures
        f == band_family_of(postprocessor@),
{
    if str_eq(postprocessor, "identity") || str_eq(postprocessor, "identity_multiclass") || str_eq(
        postprocessor,
        "hinge",
    ) || str_eq(postprocessor, "signed_square") {
        BandFamily::NoTranscendental
    } else if str_eq(postprocessor, "sigmoid") || str_eq(postprocessor, "multiclass_ova") {
        BandFamily::SingleExp
    } else if str_eq(postprocessor, "exponential") {
        BandFamily::UnboundedExp
    } else if str_eq(postprocessor, "exponential_standard_ratio") {
        BandFamily::BoundedExp2
    } else if str_eq(postprocessor, "logarithm_one_plus_exp") {
        BandFamily::TwoTranscendentals
    } else if str_eq(postprocessor, "softmax") {
        BandFamily::PerClassExp
    } else {
        BandFamily::Unclaimed
    }
}

} // verus!
