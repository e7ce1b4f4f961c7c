//! The shape of a golden input matrix: a non-empty list of rows that all
//! have the width of the first.

use vstd::prelude::*;
use crate::search::{first_failing, lemma_first_failing};

verus! {

/// Why a golden input matrix is not rectangular.
#[derive(Debug, Clone, Copy, PartialEq, Eq, Structural)]
pub enum InputShapeError {
    /// The matrix has no row.
    NoRows,
    /// Row `row` has `got` cells where the first row has `expected`.
    RaggedRow { row: usize, got: usize, expected: usize },
}

/// The shape `(num_row, num_feature)` of rows of lengths `row_lens`, or
/// why it has none: no row, or the first row whose length differs from the
/// first row's.
pub open spec fn input_shape_spec(row_lens: Seq<usize>) -> Result<(usize, usize), InputShapeError> {
    if row_lens.len() == 0 {
        Err(InputShapeError::NoRows)
    } else {
        match first_failing(|r: int| row_lens[r] != row_lens[0], 0, row_lens.len() as int) {
            Some(r) => Err(InputShapeError::RaggedRow { row: r as usize, got: row_lens[r], expected: row_lens[0] }),
            None => Ok((row_lens.len() as usize, row_lens[0])),
        }
    }
}

/// The shape of a matrix whose rows have lengths `row_lens` (see
/// [`input_shape_spec`]).
pub fn input_shape(row_lens: &[usize]) -> (r: Result<(usize, usize), InputShapeError>)
    ensures
        r == input_shape_spec(row_lens@),
        r matches Ok(s) ==> forall|i: int| 0 <= i < row_lens@.len() ==> row_lens@[i] == s.1,
{
    if row_lens.len() == 0 {
        return Err(InputShapeError::NoRows);
    }
    let expected = row_lens[0];
    let ghost fails = |r: int| row_lens@[r] != row_lens@[0];
    let mut i: usize = 0;
    while i < row_lens.len()
        invariant
            i <= row_lens@.len(),
            row_lens@.len() > 0,
            expected == row_lens@[0],
            fails == (|r: int| row_lens@[r] != row_lens@[0]),
            forall|k: int| 0 <= k < i ==> !#[trigger] fails(k),
        decreases row_lens@.len() - i,
    {
        if row_lens[i] != expected {
            proof {
                lemma_first_failing(fails, 0, i as int, row_lens@.len() as int);
                assert(fails(i as int));
            }
            return Err(InputShapeError::RaggedRow { row: i, got: row_lens[i], expected });
        }
        assert(!fails(i as int));
        i = i + 1;
    }
    proof {
        lemma_first_failing(fails, 0, row_lens@.len() as int, row_lens@.len() as int);
        assert forall|k: int| 0 <= k < row_lens@.len() implies row_lens@[k] == expected by {
            assert(!fails(k));
        }
    }
    Ok((row_lens.len(), expected))
}

} // verus!
