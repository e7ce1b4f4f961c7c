//! The metadata of a scikit-learn tree ensemble.

use vstd::prelude::*;
use crate::task::TaskType;

verus! {

/// Where the base scores of a model come from.
#[derive(Debug, Clone, Copy, PartialEq, Eq, Structural)]
pub enum BaseScores {
    /// This many zeros.
    Zeros(usize),
    /// The first this many of the scores supplied by the caller.
    Given(usize),
}

/// The model metadata handed to the builder.
#[derive(Debug)]
pub struct ModelMeta {
    pub num_feature: i32,
    pub task_type: TaskType,
    pub average_tree_output: bool,
    pub num_target: i32,
    pub num_class: Vec<i32>,
    pub leaf_vector_shape: (i32, i32),
    pub target_id: Vec<i32>,
    pub class_id: Vec<i32>,
    pub postprocessor: &'static str,
    pub base_scores: BaseScores,
}

/// A vector of `n` copies of `x`.
pub fn filled(n: usize, x: i32) -> (v: Vec<i32>)
    ensures
        v@ == Seq::new(n as nat, |i: int| x),
{
    let mut v: Vec<i32> = Vec::new();
    let mut i: usize = 0;
    while i < n
        invariant
            i <= n,
            v@ == Seq::new(i as nat, |k: int| x),
        decreases n - i,
    {
        v.push(x);
        i = i + 1;
        assert(v@ =~= Seq::new(i as nat, |k: int| x));
    }
    v
}

/// The class of each of `n` trees assigned round robin over `m` classes:
/// tree `t` gets class `t % m`.
pub fn round_robin(n: usize, m: i32) -> (v: Vec<i32>)
    requires
        m >= 1,
    ensures
        v@ == Seq::new(n as nat, |t: int| (t % (m as int)) as i32),
{
    let mut v: Vec<i32> = Vec::new();
    let mut i: usize = 0;
    while i < n
        invariant
            i <= n,
            m >= 1,
            v@ == Seq::new(i as nat, |t: int| (t % (m as int)) as i32),
        decreases n - i,
    {
        v.push((i % (m as usize)) as i32);
        i = i + 1;
        assert(v@ =~= Seq::new(i as nat, |t: int| (t % (m as int)) as i32));
    }
    v
}

} // verus!
