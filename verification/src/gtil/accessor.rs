//! Sparse CSR input: its validation, and the materialization of one row as a
//! dense feature view in which absent features hold the missing-value
//! sentinel (not zero), so a sparse row routes exactly like the dense row
//! with missing values.

use vstd::prelude::*;
use crate::gtil::error::GtilError;
use crate::search::{first_failing, lemma_first_failing, lemma_no_failure_before, lemma_none_failing};

verus! {

/// A borrowed compressed-sparse-row feature matrix: `data[k]` is the `k`-th
/// present value, `col_ind[k]` its column, and `row_ptr[r]..row_ptr[r + 1]`
/// the entries of row `r`. `O` is the element type of the values.
#[derive(Debug, Clone, Copy)]
pub struct SparseCsr<'a, O> {
    pub data: &'a [O],
    pub col_ind: &'a [u64],
    pub row_ptr: &'a [u64],
}

/// The fence before `row_ptr[i]` (0 for the first).
pub open spec fn prev_fence(rp: Seq<u64>, i: int) -> u64 {
    if i == 0 { 0 } else { rp[i - 1] }
}

/// `min(a, b)`.
pub open spec fn min_len(a: int, b: int) -> int {
    if a < b { a } else { b }
}

/// `num_row + 1` as a `u64`, saturating at `u64::MAX`: the row-fence count
/// that a `row_ptr` of `num_row` rows must have.
pub open spec fn fence_count(num_row: usize) -> u64 {
    if num_row + 1 <= u64::MAX { (num_row + 1) as u64 } else { u64::MAX }
}

/// The validation of a CSR matrix of `num_row` rows and `num_feature`
/// features, in order: `row_ptr` has `num_row + 1` entries; it never
/// decreases (the first decrease is reported); its last fence is within both
/// `data` and `col_ind`; every column index below that fence is a feature.
pub open spec fn validate_spec<O>(csr: SparseCsr<O>, num_row: usize, num_feature: usize) -> Result<(), GtilError> {
    let rp = csr.row_ptr@;
    let ci = csr.col_ind@;
    if rp.len() != num_row + 1 {
        Err(GtilError::SparseRowPtrInvalid { index: num_row, value: rp.len() as u64, limit: fence_count(num_row) })
    } else {
        match first_failing(|i: int| rp[i] < prev_fence(rp, i), 0, rp.len() as int) {
            Some(i) => Err(GtilError::SparseRowPtrInvalid { index: i as usize, value: rp[i], limit: prev_fence(rp, i) }),
            None => {
                let total = rp[num_row as int];
                let backing = min_len(csr.data@.len() as int, ci.len() as int);
                if total > backing {
                    Err(GtilError::SparseRowPtrInvalid { index: num_row, value: total, limit: backing as u64 })
                } else {
                    match first_failing(|k: int| ci[k] >= num_feature, 0, total as int) {
                        Some(k) => Err(GtilError::SparseColumnOutOfBounds { col: ci[k], num_feature: num_feature as u64 }),
                        None => Ok(()),
                    }
                }
            },
        }
    }
}

impl<'a, O: Copy> SparseCsr<'a, O> {
    /// Row `r` can be materialized into `width` features: its entries lie
    /// within `data` and `col_ind`, and each names a column below `width`.
    pub open spec fn row_ok(&self, r: int, width: int) -> bool {
        let rp = self.row_ptr@;
        &&& 0 <= r
        &&& r + 1 < rp.len()
        &&& rp[r] <= rp[r + 1]
        &&& rp[r + 1] <= self.data@.len()
        &&& rp[r + 1] <= self.col_ind@.len()
        &&& forall|k: int| rp[r] <= k < rp[r + 1] ==> self.col_ind@[k] < width
    }

    /// Check the CSR structure against `num_row` and `num_feature` before any
    /// row is read (see [`validate_spec`]). When it succeeds, every row can be
    /// materialized.
    pub fn validate(&self, num_row: usize, num_feature: usize) -> (r: Result<(), GtilError>)
        ensures
            r == validate_spec(*self, num_row, num_feature),
            r is Ok ==> forall|row: int| 0 <= row < num_row ==> #[trigger] self.row_ok(row, num_feature as int),
    {
        let rp = self.row_ptr;
        if num_row == usize::MAX || rp.len() != num_row + 1 {
            let limit: u64 = if (num_row as u64) < u64::MAX { num_row as u64 + 1 } else { u64::MAX };
            return Err(GtilError::SparseRowPtrInvalid { index: num_row, value: rp.len() as u64, limit });
        }
        let ghost fails = |i: int| rp@[i] < prev_fence(rp@, i);
        let mut prev: u64 = 0;
        let mut i: usize = 0;
        while i < rp.len()
            invariant
                rp == self.row_ptr,
                i <= rp@.len(),
                rp@.len() == num_row + 1,
                prev == prev_fence(rp@, i as int),
                fails == (|i: int| rp@[i] < prev_fence(rp@, i)),
                forall|k: int| 0 <= k < i ==> !#[trigger] fails(k),
                forall|a: int, b: int| 0 <= a <= b < i ==> rp@[a] <= rp@[b],
            decreases rp@.len() - i,
        {
            let p = rp[i];
            if p < prev {
                proof {
                    lemma_first_failing(fails, 0, i as int, rp@.len() as int);
                    assert(fails(i as int));
                    assert(first_failing(fails, i as int, rp@.len() as int) == Some(i as int));
                }
                return Err(GtilError::SparseRowPtrInvalid { index: i, value: p, limit: prev });
            }
            assert(!fails(i as int));
            prev = p;
            i = i + 1;
        }
        proof {
            lemma_first_failing(fails, 0, rp@.len() as int, rp@.len() as int);
        }
        let total = rp[num_row];
        let backing: u64 = if self.data.len() < self.col_ind.len() {
            self.data.len() as u64
        } else {
            self.col_ind.len() as u64
        };
        if total > backing {
            return Err(GtilError::SparseRowPtrInvalid { index: num_row, value: total, limit: backing });
        }
        let nf = num_feature as u64;
        let ci = self.col_ind;
        let ghost cfails = |k: int| ci@[k] >= num_feature;
        let mut k: usize = 0;
        while k < total as usize
            invariant
                k <= total <= ci@.len(),
                nf == num_feature,
                ci == self.col_ind,
                rp == self.row_ptr,
                rp@.len() == num_row + 1,
                total == rp@[num_row as int],
                total <= backing,
                backing == min_len(self.data@.len() as int, ci@.len() as int),
                first_failing(|i: int| rp@[i] < prev_fence(rp@, i), 0, rp@.len() as int) is None,
                forall|a: int, b: int| 0 <= a <= b < rp@.len() ==> rp@[a] <= rp@[b],
                cfails == (|k: int| ci@[k] >= num_feature),
                forall|j: int| 0 <= j < k ==> !#[trigger] cfails(j),
            decreases total - k,
        {
            let col = ci[k];
            if col >= nf {
                proof {
                    lemma_first_failing(cfails, 0, k as int, total as int);
                    assert(cfails(k as int));
                }
                return Err(GtilError::SparseColumnOutOfBounds { col, num_feature: nf });
            }
            assert(!cfails(k as int));
            k = k + 1;
        }
        proof {
            lemma_first_failing(cfails, 0, total as int, total as int);
            assert forall|row: int| 0 <= row < num_row implies #[trigger] self.row_ok(row, num_feature as int) by {
                assert(rp@[row + 1] <= rp@[num_row as int]);
                assert forall|j: int| rp@[row] <= j < rp@[row + 1] implies self.col_ind@[j] < num_feature by {
                    assert(!cfails(j));
                }
            }
        }
        Ok(())
    }
}

/// The last entry in `b..e` whose column is `j`.
pub open spec fn last_write(ci: Seq<u64>, b: int, e: int, j: int) -> Option<int>
    decreases e - b,
{
    if e <= b {
        None
    } else if ci[e - 1] == j {
        Some(e - 1)
    } else {
        last_write(ci, b, e - 1, j)
    }
}

/// Feature `j` of row `r`: the value of the last entry of the row in column
/// `j`, or `missing` when the row has none.
pub open spec fn row_value<O>(csr: SparseCsr<O>, r: int, j: int, missing: O) -> O {
    match last_write(csr.col_ind@, csr.row_ptr@[r] as int, csr.row_ptr@[r + 1] as int, j) {
        Some(k) => csr.data@[k],
        None => missing,
    }
}

impl<'a, O: Copy> SparseCsr<'a, O> {
    /// Materialize row `r` into `scratch`: every feature is first set to
    /// `missing`, then each entry of the row writes its value into its column.
    pub fn get_row(&self, r: usize, scratch: &mut [O], missing: O)
        requires
            self.row_ok(r as int, old(scratch)@.len() as int),
        ensures
            final(scratch)@ == Seq::new(old(scratch)@.len(), |j: int| row_value(*self, r as int, j, missing)),
    {
        let n = scratch.len();
        let mut i: usize = 0;
        while i < n
            invariant
                i <= n == scratch@.len(),
                forall|j: int| 0 <= j < i ==> scratch@[j] == missing,
            decreases n - i,
        {
            scratch[i] = missing;
            i = i + 1;
        }
        let dl = self.data.len();
        assert(self.row_ptr@[r as int] <= self.row_ptr@[r as int + 1] <= dl);
        let b = self.row_ptr[r] as usize;
        let e = self.row_ptr[r + 1] as usize;
        let mut k = b;
        while k < e
            invariant
                b <= k <= e,
                b == self.row_ptr@[r as int],
                e == self.row_ptr@[r as int + 1],
                self.row_ok(r as int, n as int),
                n == scratch@.len(),
                forall|j: int| 0 <= j < n ==> scratch@[j] == match last_write(self.col_ind@, b as int, k as int, j) {
                    Some(kk) => self.data@[kk],
                    None => missing,
                },
            decreases e - k,
        {
            let col = self.col_ind[k] as usize;
            scratch[col] = self.data[k];
            k = k + 1;
        }
        assert(scratch@ =~= Seq::new(n as nat, |j: int| row_value(*self, r as int, j, missing)));
    }
}

/// Where the rows of a prediction come from.
pub enum RowSource<'a, O> {
    /// A dense row-major `num_row x num_feature` matrix.
    Dense { data: &'a [O], num_feature: usize },
    /// A validated CSR matrix (absent features are `missing`).
    Sparse(SparseCsr<'a, O>),
}

/// Feature `j` of row `r` of a row source.
pub open spec fn source_value<O>(src: RowSource<O>, r: int, j: int, missing: O) -> O {
    match src {
        RowSource::Dense { data, num_feature } => data@[r * num_feature + j],
        RowSource::Sparse(csr) => row_value(csr, r, j, missing),
    }
}

/// Row `r` of the source can be materialized into `width` features.
pub open spec fn source_row_ok<O: Copy>(src: RowSource<O>, r: int, width: int) -> bool {
    match src {
        RowSource::Dense { data, num_feature } => num_feature == width && 0 <= r && (r + 1) * num_feature <= data@.len(),
        RowSource::Sparse(csr) => csr.row_ok(r, width),
    }
}

impl<'a, O: Copy> RowSource<'a, O> {
    /// Fill `scratch` with the features of row `r` (see [`source_value`]).
    pub fn materialize(&self, r: usize, scratch: &mut [O], missing: O)
        requires
            source_row_ok(*self, r as int, old(scratch)@.len() as int),
        ensures
            final(scratch)@ == Seq::new(old(scratch)@.len(), |j: int| source_value(*self, r as int, j, missing)),
    {
        match self {
            RowSource::Dense { data, num_feature } => {
                let nf = *num_feature;
                let dl = data.len();
                assert(r * nf + nf == (r + 1) * nf) by (nonlinear_arith);
                assert(r * nf <= (r + 1) * nf) by (nonlinear_arith);
                let begin = r * nf;
                let mut j: usize = 0;
                while j < nf
                    invariant
                        j <= nf == scratch@.len(),
                        begin == r * nf,
                        begin + nf <= dl,
                        dl == data@.len(),
                        forall|i: int| 0 <= i < j ==> scratch@[i] == data@[begin + i],
                    decreases nf - j,
                {
                    scratch[j] = data[begin + j];
                    j = j + 1;
                }
                assert(scratch@ =~= Seq::new(nf as nat, |i: int| source_value(*self, r as int, i, missing)));
            },
            RowSource::Sparse(csr) => csr.get_row(r, scratch, missing),
        }
    }
}

/// The feature count of a dense input of `got` values for `num_row` rows:
/// a negative model feature count is rejected (as requiring `usize::MAX`
/// values), and the input must hold `num_row * num_feature` values (the
/// product saturating at `usize::MAX`).
pub fn check_dense_input(num_row: usize, num_feature: i32, got: usize) -> (r: Result<usize, GtilError>)
    ensures
        num_feature < 0 ==> r == Err::<usize, GtilError>(
            GtilError::InvalidInputShape { num_row, num_feature: 0, required: usize::MAX, got },
        ),
        num_feature >= 0 ==> {
            let required = if num_row * num_feature <= usize::MAX { (num_row * num_feature) as usize } else { usize::MAX };
            &&& got < required ==> r == Err::<usize, GtilError>(
                GtilError::InvalidInputShape { num_row, num_feature: num_feature as usize, required, got },
            )
            &&& got >= required ==> r == Ok::<usize, GtilError>(num_feature as usize)
        },
{
    if num_feature < 0 {
        return Err(GtilError::InvalidInputShape { num_row, num_feature: 0, required: usize::MAX, got });
    }
    let nf = num_feature as usize;
    let required = match num_row.checked_mul(nf) {
        Some(v) => v,
        None => usize::MAX,
    };
    if got < required {
        return Err(GtilError::InvalidInputShape { num_row, num_feature: nf, required, got });
    }
    Ok(nf)
}

/// The feature count of a sparse input of `num_row` rows: a negative model
/// feature count is rejected as for a dense input, then the CSR structure is
/// validated (see [`validate_spec`]).
pub fn check_sparse_input<O: Copy>(csr: &SparseCsr<O>, num_row: usize, num_feature: i32) -> (r: Result<usize, GtilError>)
    ensures
        num_feature < 0 ==> r == Err::<usize, GtilError>(
            GtilError::InvalidInputShape { num_row, num_feature: 0, required: usize::MAX, got: csr.data@.len() as usize },
        ),
        num_feature >= 0 ==> match validate_spec(*csr, num_row, num_feature as usize) {
            Err(e) => r == Err::<usize, GtilError>(e),
            Ok(_) => r == Ok::<usize, GtilError>(num_feature as usize),
        },
        r matches Ok(nf) ==> forall|row: int| 0 <= row < num_row ==> #[trigger] csr.row_ok(row, nf as int),
{
    if num_feature < 0 {
        return Err(GtilError::InvalidInputShape { num_row, num_feature: 0, required: usize::MAX, got: csr.data.len() });
    }
    let nf = num_feature as usize;
    csr.validate(num_row, nf)?;
    Ok(nf)
}


/// A well-formed CSR matrix of `num_row` rows over `num_feature` features:
/// `row_ptr` has `num_row + 1` entries and never decreases, its last entry
/// lies within both `data` and `col_ind`, and every column index before it
/// names a feature (is below `num_feature`).
pub open spec fn csr_well_formed<O>(csr: SparseCsr<O>, num_row: usize, num_feature: usize) -> bool {
    let rp = csr.row_ptr@;
    let ci = csr.col_ind@;
    &&& rp.len() == num_row + 1
    &&& forall|i: int, j: int| 0 <= i <= j < rp.len() ==> rp[i] <= rp[j]
    &&& rp[num_row as int] <= csr.data@.len()
    &&& rp[num_row as int] <= ci.len()
    &&& forall|k: int| 0 <= k < rp[num_row as int] ==> #[trigger] ci[k] < num_feature
}

proof fn lemma_adjacent_to_monotone(rp: Seq<u64>, i: int, j: int)
    requires
        0 <= i <= j < rp.len(),
        forall|k: int| 0 <= k < rp.len() ==> !(#[trigger] rp[k] < prev_fence(rp, k)),
    ensures
        rp[i] <= rp[j],
    decreases j - i,
{
    if i < j {
        lemma_adjacent_to_monotone(rp, i, j - 1);
        assert(!(rp[j] < prev_fence(rp, j)));
    }
}

/// Validation accepts exactly the well-formed CSR matrices (see
/// [`csr_well_formed`]): it never rejects a valid matrix, a column index equal
/// to `num_feature - 1` included, and never accepts a malformed one.
pub proof fn lemma_validate_accepts_well_formed<O>(csr: SparseCsr<O>, num_row: usize, num_feature: usize)
    ensures
        validate_spec(csr, num_row, num_feature) is Ok <==> csr_well_formed(csr, num_row, num_feature),
{
    let rp = csr.row_ptr@;
    let ci = csr.col_ind@;
    if rp.len() == num_row + 1 {
        let fails = |i: int| rp[i] < prev_fence(rp, i);
        let mono = forall|i: int, j: int| 0 <= i <= j < rp.len() ==> rp[i] <= rp[j];
        if mono {
            assert forall|k: int| 0 <= k < rp.len() implies !#[trigger] fails(k) by {
                if k > 0 {
                    assert(rp[k - 1] <= rp[k]);
                }
            }
            lemma_none_failing(fails, 0, rp.len() as int);
        }
        if first_failing(fails, 0, rp.len() as int) is None {
            assert forall|k: int| 0 <= k < rp.len() implies !(#[trigger] rp[k] < prev_fence(rp, k)) by {
                lemma_no_failure_before(fails, 0, rp.len() as int, k);
                assert(!fails(k));
            }
            assert forall|i: int, j: int| 0 <= i <= j < rp.len() implies rp[i] <= rp[j] by {
                lemma_adjacent_to_monotone(rp, i, j);
            }
            let total = rp[num_row as int];
            let cfails = |k: int| ci[k] >= num_feature;
            if forall|k: int| 0 <= k < total ==> #[trigger] ci[k] < num_feature {
                assert forall|k: int| 0 <= k < total implies !#[trigger] cfails(k) by {
                    assert(ci[k] < num_feature);
                }
                lemma_none_failing(cfails, 0, total as int);
            }
            if first_failing(cfails, 0, total as int) is None {
                assert forall|k: int| 0 <= k < total implies #[trigger] ci[k] < num_feature by {
                    lemma_no_failure_before(cfails, 0, total as int, k);
                    assert(!cfails(k));
                }
            }
        }
    }
}

} // verus!
