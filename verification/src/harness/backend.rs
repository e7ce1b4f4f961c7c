//! The compute backends a prediction can be checked against.

use vstd::prelude::*;

verus! {

/// Which compute runtime produces a prediction under test.
#[derive(Debug, Clone, Copy, PartialEq, Eq, Structural)]
pub enum Backend {
    /// The plain scalar reference engine.
    ScalarCpu,
    /// The CPU backend of the kernel engine.
    CubeclCpu,
    /// The AMD GPU backend.
    Rocm,
    /// The CUDA GPU backend.
    Cuda,
    /// The wgpu GPU backend.
    Wgpu,
}

} // verus!
