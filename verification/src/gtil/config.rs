//! The prediction configuration.

use vstd::prelude::*;

verus! {

/// Which prediction the engine produces.
#[derive(Debug, Clone, Copy, PartialEq, Eq, Hash, Structural)]
pub enum PredictKind {
    /// Sum over trees, then post-process; output `(num_row, num_target, max_num_class)`.
    Default,
    /// Sum over trees without post-processing (raw margins).
    Raw,
    /// One leaf id per tree; output `(num_row, num_tree)`.
    LeafId,
    /// The leaf output of every tree; output `(num_row, num_tree, leaf vector size)`.
    ScorePerTree,
}

impl Default for PredictKind {
    /// [`PredictKind::Default`].
    fn default() -> (k: Self)
        ensures
            k == PredictKind::Default,
    {
        PredictKind::Default
    }
}

/// The prediction configuration: the kind of prediction and the requested
/// worker count (`<= 0`: all cores; `n > 0`: exactly `n` workers).
#[derive(Debug, Clone, Copy, PartialEq, Eq, Hash, Structural)]
pub struct Config {
    pub kind: PredictKind,
    pub nthread: i32,
}

impl Default for Config {
    /// The default prediction on all cores.
    fn default() -> (c: Self)
        ensures
            c == (Config { kind: PredictKind::Default, nthread: 0 }),
    {
        Config { kind: PredictKind::Default, nthread: 0 }
    }
}

} // verus!
