//! The per-kind shape of a prediction's output.

use vstd::prelude::*;
use crate::gtil::config::{Config, PredictKind};
use crate::search::{max_of, seq_max};

verus! {

/// The output dimensions, outermost (rows) first.
#[derive(Debug, Clone, PartialEq, Eq)]
pub struct Shape {
    pub dims: Vec<u64>,
}

/// The parts of a model that determine its output shape.
#[derive(Debug, Clone)]
pub struct ModelShape {
    pub num_target: i32,
    pub num_class: Vec<i32>,
    pub num_tree: u64,
    pub leaf_vector_shape: Vec<i32>,
}

/// The largest class count, at least 1 (1 when there is none).
pub open spec fn max_num_class_spec(num_class: Seq<i32>) -> int {
    if num_class.len() == 0 {
        1
    } else if seq_max(num_class) < 1 {
        1
    } else {
        seq_max(num_class)
    }
}

/// Entry `i` of the leaf vector shape as `u64`, or 0 when absent.
pub open spec fn lvs_entry(lvs: Seq<i32>, i: int) -> u64 {
    if i < lvs.len() { lvs[i] as u64 } else { 0 }
}

/// The output dimensions for `num_row` rows: `[num_row, num_target (1 when
/// there is at most one target), max_num_class]` for the default and raw
/// kinds, `[num_row, num_tree]` for leaf ids, and `[num_row, num_tree,
/// leaf_vector_shape[0] * leaf_vector_shape[1]]` for per-tree scores.
pub open spec fn output_dims(m: ModelShape, num_row: u64, kind: PredictKind) -> Seq<u64> {
    match kind {
        PredictKind::Default | PredictKind::Raw => seq![
            num_row,
            if m.num_target > 1 { m.num_target as u64 } else { 1u64 },
            max_num_class_spec(m.num_class@) as u64,
        ],
        PredictKind::LeafId => seq![num_row, m.num_tree],
        PredictKind::ScorePerTree => seq![
            num_row,
            m.num_tree,
            (lvs_entry(m.leaf_vector_shape@, 0) * lvs_entry(m.leaf_vector_shape@, 1)) as u64,
        ],
    }
}

/// The largest class count of a model, at least 1.
fn max_num_class(num_class: &[i32]) -> (m: u64)
    ensures
        m as int == max_num_class_spec(num_class@),
{
    if num_class.len() == 0 {
        return 1;
    }
    let m = max_of(num_class);
    if m < 1 { 1 } else { m as u64 }
}

/// The output shape of a prediction of `num_row` rows (see [`output_dims`]).
pub fn output_shape(model: &ModelShape, num_row: u64, config: &Config) -> (s: Shape)
    requires
        config.kind == PredictKind::ScorePerTree ==> lvs_entry(model.leaf_vector_shape@, 0) * lvs_entry(model.leaf_vector_shape@, 1)
            <= u64::MAX,
    ensures
        s.dims@ == output_dims(*model, num_row, config.kind),
{
    match config.kind {
        PredictKind::Default | PredictKind::Raw => {
            let mnc = max_num_class(model.num_class.as_slice());
            let t: u64 = if model.num_target > 1 { model.num_target as u64 } else { 1 };
            let dims = vec![num_row, t, mnc];
            Shape { dims }
        },
        PredictKind::LeafId => Shape { dims: vec![num_row, model.num_tree] },
        PredictKind::ScorePerTree => {
            let a: u64 = if model.leaf_vector_shape.len() > 0 { model.leaf_vector_shape[0] as u64 } else { 0 };
            let b: u64 = if model.leaf_vector_shape.len() > 1 { model.leaf_vector_shape[1] as u64 } else { 0 };
            Shape { dims: vec![num_row, model.num_tree, a * b] }
        },
    }
}

} // verus!
