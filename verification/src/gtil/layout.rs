//! The layout of the `(num_row, num_target, max_num_class)` output buffer:
//! cell indexing, the cells each tree's leaf is added into, and the number
//! of trees averaged into each cell.
//!
//! A tree routes to `(target_id, class_id)`; `-1` in either position means
//! "all": a scalar leaf goes to one cell, a leaf vector is spread over the
//! targets and/or classes its `-1`s name.

use vstd::prelude::*;
use crate::gtil::error::GtilError;
use crate::search::{first_failing, lemma_first_failing, lemma_seq_max, max_of, seq_max};

verus! {

/// The output layout of a model.
pub struct OutputLayout<'m> {
    /// The number of targets (at least 1).
    pub num_target: i32,
    /// The largest class count (at least 1).
    pub max_num_class: i32,
    /// The class count of each target.
    pub num_class: &'m [i32],
    /// The target of each tree.
    pub target_id: &'m [i32],
    /// The class of each tree.
    pub class_id: &'m [i32],
    /// Whether each cell is averaged over the trees routed to it.
    pub average_tree_output: bool,
}

impl<'m> OutputLayout<'m> {
    /// The layout invariant: at least one target and one class, a row of
    /// cells that fits in memory, and no target with more classes than
    /// `max_num_class`.
    pub open spec fn wf(&self) -> bool {
        &&& self.num_target >= 1
        &&& self.max_num_class >= 1
        &&& self.num_target * self.max_num_class <= usize::MAX
        &&& forall|t: int| 0 <= t < self.num_class@.len() ==> #[trigger] self.num_class@[t] <= self.max_num_class
    }

    /// The number of cells of one row.
    pub open spec fn cells(&self) -> int {
        self.num_target * self.max_num_class
    }

    /// The index of cell `(t, c)` of row `row`.
    pub open spec fn cell(&self, row: int, t: int, c: int) -> int {
        row * self.cells() + t * self.max_num_class + c
    }

    /// The class count of target `t`, 0 when `t` is not a target.
    pub open spec fn ncl(&self, t: int) -> int {
        if t < 0 || t >= self.num_class@.len() { 0 } else { self.num_class@[t] as int }
    }

    /// The route of tree `k` (`-1` for a missing id).
    pub open spec fn route(&self, k: int) -> (i32, i32) {
        (
            if 0 <= k < self.target_id@.len() { self.target_id@[k] } else { -1i32 },
            if 0 <= k < self.class_id@.len() { self.class_id@[k] } else { -1i32 },
        )
    }

    /// Whether a tree with route `(tid, cid)` is averaged into cell `(t, c)`:
    /// all classes of every target, class `cid` of every target, all
    /// classes of target `tid`, or the single cell `(tid, cid)`.
    pub open spec fn covers(&self, tid: i32, cid: i32, t: int, c: int) -> bool {
        if tid < 0 && cid < 0 {
            c < self.ncl(t)
        } else if tid < 0 {
            cid < self.max_num_class && c == cid
        } else if cid < 0 {
            tid < self.num_target && t == tid && c < self.ncl(tid as int)
        } else {
            tid < self.num_target && cid < self.max_num_class && t == tid && c == cid
        }
    }

    /// The number of the first `n` trees averaged into cell `(t, c)`.
    pub open spec fn coverage(&self, n: int, t: int, c: int) -> nat
        decreases n,
    {
        if n <= 0 {
            0
        } else {
            self.coverage(n - 1, t, c) + if self.covers(self.route(n - 1).0, self.route(n - 1).1, t, c) { 1nat } else { 0nat }
        }
    }

    /// The layout of a model with `num_target` targets (clamped to at least
    /// 1), class counts `num_class` (their maximum clamped to at least 1),
    /// and per-tree routes.
    pub fn new(num_target: i32, num_class: &'m [i32], target_id: &'m [i32], class_id: &'m [i32], average_tree_output: bool) -> (l:
        OutputLayout<'m>)
        requires
            (if num_target > 1 { num_target as int } else { 1int }) * (if num_class@.len() > 0 && seq_max(num_class@) > 1 {
                seq_max(num_class@)
            } else {
                1int
            }) <= usize::MAX,
        ensures
            l.wf(),
            l.num_target == (if num_target > 1 { num_target } else { 1 }),
            l.max_num_class == (if num_class@.len() > 0 && seq_max(num_class@) > 1 { seq_max(num_class@) as i32 } else { 1 }),
            l.num_class == num_class,
            l.target_id == target_id,
            l.class_id == class_id,
            l.average_tree_output == average_tree_output,
    {
        let nt = if num_target > 1 { num_target } else { 1 };
        let mnc = if num_class.len() > 0 {
            proof {
                lemma_seq_max(num_class@);
            }
            let m = max_of(num_class);
            if m > 1 { m } else { 1 }
        } else {
            1
        };
        OutputLayout { num_target: nt, max_num_class: mnc, num_class, target_id, class_id, average_tree_output }
    }

    /// The number of cells of one row.
    pub fn cells_per_row(&self) -> (n: usize)
        requires
            self.wf(),
        ensures
            n == self.cells(),
    {
        self.num_target as usize * self.max_num_class as usize
    }

    /// The index of cell `(target_id, class_id)` of row `row_id`; it lies
    /// within the block of that row.
    pub fn idx(&self, row_id: usize, target_id: i32, class_id: i32) -> (i: usize)
        requires
            self.wf(),
            0 <= target_id < self.num_target,
            0 <= class_id < self.max_num_class,
            (row_id + 1) * self.cells() <= usize::MAX,
        ensures
            i == self.cell(row_id as int, target_id as int, class_id as int),
            row_id * self.cells() <= i < (row_id + 1) * self.cells(),
    {
        let cells = self.cells_per_row();
        let mnc = self.max_num_class as usize;
        let t = target_id as usize;
        let c = class_id as usize;
        assert(t * mnc + c < cells) by (nonlinear_arith)
            requires
                t < self.num_target,
                c < mnc,
                cells == self.num_target * mnc,
        ;
        assert(row_id * cells + cells == (row_id + 1) * cells) by (nonlinear_arith);
        assert(row_id * cells <= (row_id + 1) * cells) by (nonlinear_arith);
        row_id * cells + t * mnc + c
    }

    /// The class count of `target_id`, 0 when it is not a target.
    pub fn num_class_of(&self, target_id: i32) -> (n: i32)
        ensures
            n as int == self.ncl(target_id as int),
    {
        if target_id < 0 || target_id as usize >= self.num_class.len() {
            0
        } else {
            self.num_class[target_id as usize]
        }
    }

    /// The cells holding the classes of target `target_id` in row `row_id`:
    /// the `num_class[target_id]` cells from `(target_id, 0)` on, or `None`
    /// when the target has no class.
    pub fn class_segment(&self, row_id: usize, target_id: i32) -> (r: Option<(usize, usize)>)
        requires
            self.wf(),
            0 <= target_id < self.num_target,
            (row_id + 1) * self.cells() <= usize::MAX,
        ensures
            self.ncl(target_id as int) <= 0 ==> r is None,
            self.ncl(target_id as int) > 0 ==> r == Some(
                (
                    self.cell(row_id as int, target_id as int, 0) as usize,
                    (self.cell(row_id as int, target_id as int, 0) + self.ncl(target_id as int)) as usize,
                ),
            ),
            r matches Some(p) ==> row_id * self.cells() <= p.0 < p.1 <= (row_id + 1) * self.cells(),
    {
        let n = self.num_class_of(target_id);
        if n <= 0 {
            return None;
        }
        let start = self.idx(row_id, target_id, 0);
        let ghost t = target_id as int;
        let ghost mnc = self.max_num_class as int;
        assert(self.num_class@[t] <= mnc);
        assert(t * mnc + mnc <= self.num_target * mnc) by (nonlinear_arith)
            requires
                t < self.num_target,
                mnc >= 1,
        ;
        assert(row_id * self.cells() + self.cells() == (row_id + 1) * self.cells()) by (nonlinear_arith);
        Some((start, start + n as usize))
    }

    /// The route of tree `k`.
    fn route_of(&self, k: usize) -> (r: (i32, i32))
        ensures
            r == self.route(k as int),
    {
        let tid = if k < self.target_id.len() { self.target_id[k] } else { -1 };
        let cid = if k < self.class_id.len() { self.class_id[k] } else { -1 };
        (tid, cid)
    }

    /// Whether a tree with route `(tid, cid)` is averaged into cell `(t, c)`.
    fn covers_cell(&self, tid: i32, cid: i32, t: i32, c: i32) -> (b: bool)
        ensures
            b == self.covers(tid, cid, t as int, c as int),
    {
        if tid < 0 && cid < 0 {
            c < self.num_class_of(t)
        } else if tid < 0 {
            cid < self.max_num_class && c == cid
        } else if cid < 0 {
            tid < self.num_target && t == tid && c < self.num_class_of(tid)
        } else {
            tid < self.num_target && cid < self.max_num_class && t == tid && c == cid
        }
    }

    /// The averaging factor of every cell of a row: the number of the
    /// `num_tree` trees routed to it (cell `i` is `(i / max_num_class, i %
    /// max_num_class)`).
    pub fn average_factors(&self, num_tree: usize) -> (f: Vec<usize>)
        requires
            self.wf(),
        ensures
            f@.len() == self.cells(),
            forall|i: int| 0 <= i < f@.len() ==> #[trigger] f@[i] as int == self.coverage(
                num_tree as int,
                i / self.max_num_class as int,
                i % self.max_num_class as int,
            ),
    {
        let cells = self.cells_per_row();
        let mnc = self.max_num_class;
        let mut f: Vec<usize> = Vec::new();
        let mut i: usize = 0;
        while i < cells
            invariant
                self.wf(),
                i <= cells == self.cells(),
                mnc == self.max_num_class,
                f@.len() == i,
                forall|j: int| 0 <= j < i ==> #[trigger] f@[j] as int == self.coverage(num_tree as int, j / mnc as int, j % mnc as int),
            decreases cells - i,
        {
            assert(i / (mnc as usize) < self.num_target) by (nonlinear_arith)
                requires
                    i < self.num_target * mnc,
                    mnc >= 1,
            ;
            let t = (i / (mnc as usize)) as i32;
            let c = (i % (mnc as usize)) as i32;
            let mut count: usize = 0;
            let mut k: usize = 0;
            while k < num_tree
                invariant
                    k <= num_tree,
                    count <= k,
                    count as int == self.coverage(k as int, t as int, c as int),
                decreases num_tree - k,
            {
                let (tid, cid) = self.route_of(k);
                if self.covers_cell(tid, cid, t, c) {
                    count = count + 1;
                }
                k = k + 1;
            }
            f.push(count);
            i = i + 1;
        }
        f
    }

    /// The cell a scalar leaf of a tree with route `(target_id, class_id)` is
    /// added into in row `row_id`; both ids must name a target and a class.
    pub fn leaf_value_cell(&self, row_id: usize, target_id: i32, class_id: i32) -> (r: Result<usize, GtilError>)
        requires
            self.wf(),
            (row_id + 1) * self.cells() <= usize::MAX,
        ensures
            (target_id < 0 || class_id < 0 || target_id >= self.num_target || class_id >= self.max_num_class) ==> r == Err::<
                usize,
                GtilError,
            >(GtilError::OutputRouteOutOfBounds {
                target_id,
                class_id,
                num_target: self.num_target,
                max_num_class: self.max_num_class,
            }),
            !(target_id < 0 || class_id < 0 || target_id >= self.num_target || class_id >= self.max_num_class) ==> r == Ok::<
                usize,
                GtilError,
            >(self.cell(row_id as int, target_id as int, class_id as int) as usize),
    {
        if target_id < 0 || class_id < 0 || target_id >= self.num_target || class_id >= self.max_num_class {
            return Err(GtilError::OutputRouteOutOfBounds {
                target_id,
                class_id,
                num_target: self.num_target,
                max_num_class: self.max_num_class,
            });
        }
        Ok(self.idx(row_id, target_id, class_id))
    }
}

impl<'m> OutputLayout<'m> {
    /// The `(leaf index, cell)` pairs of target `t` when a leaf vector of
    /// shape `(num_target, max_num_class)` is spread over every cell of row
    /// `row`.
    pub open spec fn block(&self, row: int, t: int) -> Seq<(usize, usize)> {
        Seq::new(
            if self.ncl(t) > 0 { self.ncl(t) as nat } else { 0 },
            |c: int| ((t * self.max_num_class + c) as usize, self.cell(row, t, c) as usize),
        )
    }

    /// The pairs of the targets below `t`, target by target.
    pub open spec fn blocks(&self, row: int, t: int) -> Seq<(usize, usize)>
        decreases t,
    {
        if t <= 0 {
            Seq::empty()
        } else {
            self.blocks(row, t - 1) + self.block(row, t - 1)
        }
    }

    /// The `(leaf index, cell)` pairs a leaf vector of a tree with route
    /// `(tid, cid)` is added along in row `row`, in order: the whole
    /// `(num_target, max_num_class)` vector for `(-1, -1)`; a
    /// `(num_target, 1)` vector into class `cid` for `(-1, cid)`; a
    /// `(1, max_num_class)` vector into target `tid` for `(tid, -1)`; its
    /// first value into cell `(tid, cid)` otherwise.
    pub open spec fn vector_pairs(&self, row: int, tid: i32, cid: i32) -> Seq<(usize, usize)> {
        if tid == -1 && cid == -1 {
            self.blocks(row, self.num_target as int)
        } else if tid == -1 {
            Seq::new(self.num_target as nat, |t: int| (t as usize, self.cell(row, t, cid as int) as usize))
        } else if cid == -1 {
            Seq::new(
                if self.ncl(tid as int) > 0 { self.ncl(tid as int) as nat } else { 0 },
                |c: int| (c as usize, self.cell(row, tid as int, c) as usize),
            )
        } else {
            seq![(0usize, self.cell(row, tid as int, cid as int) as usize)]
        }
    }

    /// Whether the route `(tid, cid)` of a leaf vector leaves the buffer.
    pub open spec fn vector_route_bad(&self, tid: i32, cid: i32) -> bool {
        if tid == -1 && cid == -1 {
            false
        } else if tid == -1 {
            cid < 0 || cid >= self.max_num_class
        } else if cid == -1 {
            tid < 0 || tid >= self.num_target
        } else {
            tid >= self.num_target || cid >= self.max_num_class
        }
    }

    /// The pairs of a leaf vector of `leaf_len` values (see
    /// [`Self::vector_pairs`]); a route outside the buffer, or a pair whose
    /// leaf index is past the vector (the first in order), is an error.
    pub open spec fn vector_cells_spec(&self, row: int, tid: i32, cid: i32, leaf_len: usize) -> Result<Seq<(usize, usize)>, GtilError> {
        let pairs = self.vector_pairs(row, tid, cid);
        if self.vector_route_bad(tid, cid) {
            Err(GtilError::OutputRouteOutOfBounds {
                target_id: tid,
                class_id: cid,
                num_target: self.num_target,
                max_num_class: self.max_num_class,
            })
        } else {
            match first_failing(|i: int| pairs[i].0 >= leaf_len, 0, pairs.len() as int) {
                Some(i) => Err(GtilError::LeafVectorTooShort { needed: (pairs[i].0 + 1) as usize, got: leaf_len }),
                None => Ok(pairs),
            }
        }
    }

    proof fn lemma_blocks_prefix(&self, row: int, t: int, t2: int)
        requires
            0 <= t <= t2,
        ensures
            self.blocks(row, t).len() <= self.blocks(row, t2).len(),
            forall|i: int| 0 <= i < self.blocks(row, t).len() ==> #[trigger] self.blocks(row, t2)[i] == self.blocks(row, t)[i],
        decreases t2 - t,
    {
        if t < t2 {
            self.lemma_blocks_prefix(row, t, t2 - 1);
            assert forall|i: int| 0 <= i < self.blocks(row, t).len() implies #[trigger] self.blocks(row, t2)[i] == self.blocks(row, t)[i] by {
                assert(self.blocks(row, t2)[i] == self.blocks(row, t2 - 1)[i]);
            }
        }
    }

    /// The pairs of a leaf vector spread over every cell of row `row_id`.
    fn broadcast_cells(&self, row_id: usize, leaf_len: usize) -> (r: Result<Vec<(usize, usize)>, GtilError>)
        requires
            self.wf(),
            (row_id + 1) * self.cells() <= usize::MAX,
        ensures
            r matches Ok(v) ==> self.vector_cells_spec(row_id as int, -1i32, -1i32, leaf_len) == Ok::<Seq<(usize, usize)>, GtilError>(v@),
            r matches Err(e) ==> self.vector_cells_spec(row_id as int, -1i32, -1i32, leaf_len) == Err::<Seq<(usize, usize)>, GtilError>(e),
    {
        let ghost row = row_id as int;
        let ghost all = self.blocks(row, self.num_target as int);
        let ghost fails = |i: int| all[i].0 >= leaf_len;
        let mnc = self.max_num_class;
        let mut out: Vec<(usize, usize)> = Vec::new();
        let mut t: i32 = 0;
        while t < self.num_target
            invariant
                self.wf(),
                0 <= t <= self.num_target,
                mnc == self.max_num_class,
                (row_id + 1) * self.cells() <= usize::MAX,
                row == row_id as int,
                all == self.blocks(row, self.num_target as int),
                fails == (|i: int| all[i].0 >= leaf_len),
                out@ == self.blocks(row, t as int),
                forall|i: int| 0 <= i < out@.len() ==> (#[trigger] out@[i]).0 < leaf_len,
            decreases self.num_target - t,
        {
            let n = self.num_class_of(t);
            let mut c: i32 = 0;
            proof {
                self.lemma_blocks_prefix(row, t as int + 1, self.num_target as int);
            }
            while c < n
                invariant
                    self.wf(),
                    0 <= t < self.num_target,
                    n as int == self.ncl(t as int),
                    0 <= c,
                    c <= n || n < 0,
                    n < 0 ==> c == 0,
                    mnc == self.max_num_class,
                    (row_id + 1) * self.cells() <= usize::MAX,
                    row == row_id as int,
                    all == self.blocks(row, self.num_target as int),
                    fails == (|i: int| all[i].0 >= leaf_len),
                    out@ == self.blocks(row, t as int) + self.block(row, t as int).take(c as int),
                    self.blocks(row, t as int + 1).len() <= all.len(),
                    forall|i: int| 0 <= i < self.blocks(row, t as int + 1).len() ==> #[trigger] all[i] == self.blocks(row, t as int + 1)[i],
                    forall|i: int| 0 <= i < out@.len() ==> (#[trigger] out@[i]).0 < leaf_len,
                decreases n - c,
            {
                assert(n <= mnc);
                assert(t as int * mnc + c < self.cells()) by (nonlinear_arith)
                    requires
                        0 <= t < self.num_target,
                        0 <= c < mnc,
                        self.cells() == self.num_target * mnc,
                ;
                let li = (t as usize) * (mnc as usize) + (c as usize);
                let cell = self.idx(row_id, t, c);
                let ghost p = out@.len() as int;
                assert(self.blocks(row, t as int + 1)[p] == self.block(row, t as int)[c as int]);
                if li >= leaf_len {
                    proof {
                        assert forall|i: int| 0 <= i < p implies !#[trigger] fails(i) by {
                            assert(all[i] == self.blocks(row, t as int + 1)[i]);
                            assert(self.blocks(row, t as int + 1)[i] == out@[i]);
                        }
                        lemma_first_failing(fails, 0, p, all.len() as int);
                        assert(fails(p));
                    }
                    return Err(GtilError::LeafVectorTooShort { needed: li + 1, got: leaf_len });
                }
                out.push((li, cell));
                c = c + 1;
                assert(out@ =~= self.blocks(row, t as int) + self.block(row, t as int).take(c as int));
            }
            assert(self.block(row, t as int).take(c as int) =~= self.block(row, t as int));
            t = t + 1;
        }
        proof {
            assert forall|i: int| 0 <= i < all.len() implies !#[trigger] fails(i) by {
                assert(all[i] == out@[i]);
            }
            lemma_first_failing(fails, 0, all.len() as int, all.len() as int);
        }
        Ok(out)
    }

    /// The `(leaf index, cell)` pairs a leaf vector of `leaf_len` values of a
    /// tree with route `(target_id, class_id)` is added along in row `row_id`
    /// (see [`Self::vector_cells_spec`]).
    pub fn leaf_vector_cells(&self, row_id: usize, target_id: i32, class_id: i32, leaf_len: usize) -> (r: Result<
        Vec<(usize, usize)>,
        GtilError,
    >)
        requires
            self.wf(),
            (row_id + 1) * self.cells() <= usize::MAX,
            !(target_id != -1 && class_id != -1 && target_id < self.num_target && class_id < self.max_num_class && (target_id < 0
                || class_id < 0)),
        ensures
            r matches Ok(v) ==> self.vector_cells_spec(row_id as int, target_id, class_id, leaf_len) == Ok::<
                Seq<(usize, usize)>,
                GtilError,
            >(v@),
            r matches Err(e) ==> self.vector_cells_spec(row_id as int, target_id, class_id, leaf_len) == Err::<
                Seq<(usize, usize)>,
                GtilError,
            >(e),
    {
        let ghost row = row_id as int;
        let route_error = GtilError::OutputRouteOutOfBounds {
            target_id,
            class_id,
            num_target: self.num_target,
            max_num_class: self.max_num_class,
        };
        if target_id == -1 && class_id == -1 {
            return self.broadcast_cells(row_id, leaf_len);
        }
        let ghost all = self.vector_pairs(row, target_id, class_id);
        let ghost fails = |i: int| all[i].0 >= leaf_len;
        let mut out: Vec<(usize, usize)> = Vec::new();
        if target_id == -1 {
            if class_id < 0 || class_id >= self.max_num_class {
                return Err(route_error);
            }
            let mut t: i32 = 0;
            while t < self.num_target
                invariant
                    self.wf(),
                    0 <= t <= self.num_target,
                    0 <= class_id < self.max_num_class,
                    target_id == -1,
                    (row_id + 1) * self.cells() <= usize::MAX,
                    row == row_id as int,
                    all == self.vector_pairs(row, target_id, class_id),
                    fails == (|i: int| all[i].0 >= leaf_len),
                    out@ == all.take(t as int),
                    forall|i: int| 0 <= i < out@.len() ==> (#[trigger] out@[i]).0 < leaf_len,
                decreases self.num_target - t,
            {
                if t as usize >= leaf_len {
                    proof {
                        assert forall|i: int| 0 <= i < t implies !#[trigger] fails(i) by {
                            assert(all[i] == out@[i]);
                        }
                        lemma_first_failing(fails, 0, t as int, all.len() as int);
                        assert(fails(t as int));
                    }
                    return Err(GtilError::LeafVectorTooShort { needed: t as usize + 1, got: leaf_len });
                }
                let cell = self.idx(row_id, t, class_id);
                out.push((t as usize, cell));
                t = t + 1;
                assert(out@ =~= all.take(t as int));
            }
        } else if class_id == -1 {
            if target_id < 0 || target_id >= self.num_target {
                return Err(route_error);
            }
            let n = self.num_class_of(target_id);
            let mut c: i32 = 0;
            while c < n
                invariant
                    self.wf(),
                    0 <= target_id < self.num_target,
                    class_id == -1,
                    n as int == self.ncl(target_id as int),
                    0 <= c,
                    c <= n || n < 0,
                    n < 0 ==> c == 0,
                    (row_id + 1) * self.cells() <= usize::MAX,
                    row == row_id as int,
                    all == self.vector_pairs(row, target_id, class_id),
                    fails == (|i: int| all[i].0 >= leaf_len),
                    out@ == all.take(c as int),
                    forall|i: int| 0 <= i < out@.len() ==> (#[trigger] out@[i]).0 < leaf_len,
                decreases n - c,
            {
                assert(n <= self.max_num_class);
                if c as usize >= leaf_len {
                    proof {
                        assert forall|i: int| 0 <= i < c implies !#[trigger] fails(i) by {
                            assert(all[i] == out@[i]);
                        }
                        lemma_first_failing(fails, 0, c as int, all.len() as int);
                        assert(fails(c as int));
                    }
                    return Err(GtilError::LeafVectorTooShort { needed: c as usize + 1, got: leaf_len });
                }
                let cell = self.idx(row_id, target_id, c);
                out.push((c as usize, cell));
                c = c + 1;
                assert(out@ =~= all.take(c as int));
            }
        } else {
            if target_id >= self.num_target || class_id >= self.max_num_class {
                return Err(route_error);
            }
            if leaf_len == 0 {
                proof {
                    lemma_first_failing(fails, 0, 0, all.len() as int);
                    assert(fails(0));
                }
                return Err(GtilError::LeafVectorTooShort { needed: 1, got: leaf_len });
            }
            let cell = self.idx(row_id, target_id, class_id);
            out.push((0, cell));
        }
        proof {
            assert(out@ =~= all);
            assert forall|i: int| 0 <= i < all.len() implies !#[trigger] fails(i) by {
                assert(all[i] == out@[i]);
            }
            lemma_first_failing(fails, 0, all.len() as int, all.len() as int);
        }
        Ok(out)
    }
}


/// The number of the first `n` trees of layout `l` whose target is `t` or
/// all targets (`-1`), and whose class is `c`, or all classes (`-1`) when `c`
/// is a class of target `t`.
pub open spec fn routed_to(l: OutputLayout, n: int, t: int, c: int) -> nat
    decreases n,
{
    if n <= 0 {
        0
    } else {
        let (tid, cid) = l.route(n - 1);
        routed_to(l, n - 1, t, c) + if (tid < 0 || tid as int == t) && (cid as int == c || (cid < 0 && c < l.ncl(t))) {
            1nat
        } else {
            0nat
        }
    }
}

/// The number of the first `n` trees of layout `l` whose class is `c`.
pub open spec fn trees_of_class(l: OutputLayout, n: int, c: int) -> nat
    decreases n,
{
    if n <= 0 {
        0
    } else {
        trees_of_class(l, n - 1, c) + if l.route(n - 1).1 as int == c { 1nat } else { 0nat }
    }
}

/// The averaging factor of a cell `(t, c)` of the output row is the number
/// of trees whose target is `t` or all targets, and whose class is `c`, or
/// all classes when `c` is one of target `t`'s classes: a tree routed to
/// "all targets" is counted in the cell of every target, one routed to "all
/// classes" in every class of its target, and one routed outside the layout
/// in none.
pub proof fn lemma_average_counts_routed_trees(l: OutputLayout, n: int, t: int, c: int)
    requires
        l.wf(),
        0 <= t < l.num_target,
        0 <= c < l.max_num_class,
    ensures
        l.coverage(n, t, c) == routed_to(l, n, t, c),
    decreases n,
{
    if n > 0 {
        lemma_average_counts_routed_trees(l, n - 1, t, c);
        if 0 <= t < l.num_class@.len() {
            assert(l.num_class@[t] <= l.max_num_class);
        }
    }
}

/// When every tree names one class `0 <= c < max_num_class` of all targets
/// (target id `-1`), the averaging factor of cell `(t, c)` is the number of
/// trees of class `c`, the same for every target `t`.
pub proof fn lemma_all_target_routes_average_every_target(l: OutputLayout, n: int, t: int, c: int)
    requires
        l.wf(),
        0 <= t < l.num_target,
        0 <= c < l.max_num_class,
        forall|k: int| 0 <= k < n ==> #[trigger] l.route(k).0 < 0 && 0 <= l.route(k).1 < l.max_num_class,
    ensures
        l.coverage(n, t, c) == trees_of_class(l, n, c),
    decreases n,
{
    if n > 0 {
        assert(l.route(n - 1).0 < 0);
        lemma_all_target_routes_average_every_target(l, n - 1, t, c);
    }
}

} // verus!
