//! The node plan of a LightGBM tree: the negative-index leaf encoding of
//! LightGBM re-numbered into a fresh sequence of node ids, with every index
//! checked against the parsed arrays, the `default_left` rule of each
//! numerical split resolved from its decision-type bits, and the bitset of
//! each categorical split located in `cat_threshold`.
//!
//! A child index `c >= 0` names an internal node; `c < 0` names the leaf
//! `!c`. Nodes are visited from the root with a stack: both children of an
//! internal node are pushed, left then right, so the right child is visited
//! next. The root gets id 1, and each internal node gives its children the next
//! two unused ids.

use vstd::prelude::*;
use crate::lightgbm::error::{BitsetFault, DetailModel, ErrorModel, LgbError, ParseDetail, ParseLocation};
use crate::lightgbm::parse::{LGBTree, TreeModel, tree_wf};
use crate::text::{
    all_digits, all_digits_range, chars_of, digits_value, index_of, index_of_range, lemma_index_of_bounds,
    parse_int_range,
};

verus! {

/// Whether decision-type bit 0 (categorical split) is set.
pub open spec fn is_categorical(dt: i8) -> bool {
    (dt & 1i8) > 0
}

/// Whether decision-type bit 1 (missing values go left) is set.
pub open spec fn default_left_bit(dt: i8) -> bool {
    (dt & 2i8) > 0
}

/// The missing-value type in decision-type bits 2 and 3 (`2`: NaN).
pub open spec fn missing_type(dt: i8) -> i8 {
    (dt >> 2i8) & 3i8
}

/// `(decision_type & mask) > 0`.
fn get_decision_type(decision_type: i8, mask: i8) -> (b: bool)
    ensures
        b == ((decision_type & mask) > 0),
{
    (decision_type & mask) > 0
}

/// `(decision_type >> 2) & 3`.
fn get_missing_type(decision_type: i8) -> (m: i8)
    ensures
        m == missing_type(decision_type),
{
    (decision_type >> 2i8) & 3i8
}

/// Where missing values of a numerical split go.
#[derive(Debug, Clone, Copy, PartialEq, Eq)]
pub enum DefaultLeft {
    /// Missing values are NaN and go left exactly when the flag is set.
    Flag(bool),
    /// Missing values read as `0.0`, so they go left exactly when
    /// `0.0 <= threshold`.
    ZeroTestedAgainstThreshold,
}

/// One node of the plan, in the order the nodes are emitted.
#[derive(Debug, Clone, Copy, PartialEq, Eq)]
pub enum PlanNode {
    /// A leaf with output `leaf_value[leaf_index]`.
    Leaf { new_id: i32, leaf_index: usize, data_count: Option<u64> },
    /// A numerical `<=` split of parsed internal node `old_id` (its threshold
    /// is `threshold[old_id]`, its gain `split_gain[old_id]` when `has_gain`).
    Numerical {
        new_id: i32,
        old_id: usize,
        split_index: i32,
        default_left: DefaultLeft,
        left: i32,
        right: i32,
        data_count: Option<u64>,
        has_gain: bool,
    },
    /// A categorical split of parsed internal node `old_id`: the categories
    /// that go left are those of the bitset `cat_threshold[cat_begin..cat_end]`
    /// (see [`crate::lightgbm::bitset::bitset_categories`]); missing values go
    /// right.
    Categorical {
        new_id: i32,
        old_id: usize,
        split_index: i32,
        left: i32,
        right: i32,
        data_count: Option<u64>,
        has_gain: bool,
        cat_begin: usize,
        cat_end: usize,
    },
}

/// The error of tree `ti` at parse location `Tree(ti)`.
pub open spec fn tree_error(ti: int, detail: DetailModel) -> ErrorModel {
    ErrorModel::Parse { line: ParseLocation::Tree(ti as usize), detail }
}

/// The largest id an internal node may hand out to its right child.
pub open spec fn max_id() -> int {
    0x7fff_ffff
}

/// The node emitted for leaf `li` with id `new`.
pub open spec fn leaf_node(t: TreeModel, new: i32, li: int) -> PlanNode {
    PlanNode::Leaf {
        new_id: new,
        leaf_index: li as usize,
        data_count: if t.leaf_count.len() > 0 { Some(t.leaf_count[li] as u64) } else { None },
    }
}

/// The node emitted for internal node `oi` with id `new`, whose children get
/// ids `dfs` and `dfs + 1`.
pub open spec fn numerical_node(t: TreeModel, new: i32, oi: int, dfs: i32) -> PlanNode {
    let dt = t.decision_type[oi] as i8;
    PlanNode::Numerical {
        new_id: new,
        old_id: oi as usize,
        split_index: t.split_feature[oi] as i32,
        default_left: if missing_type(dt) == 2 {
            DefaultLeft::Flag(default_left_bit(dt))
        } else {
            DefaultLeft::ZeroTestedAgainstThreshold
        },
        left: dfs,
        right: (dfs + 1) as i32,
        data_count: if t.internal_count.len() > 0 { Some(t.internal_count[oi] as u64) } else { None },
        has_gain: t.split_gain.len() > 0,
    }
}

/// The literal without a leading `+`.
pub open spec fn unsigned_part(s: Seq<char>) -> Seq<char> {
    if s.len() > 0 && s[0] == '+' { s.drop_first() } else { s }
}

/// Every character is `0`.
pub open spec fn all_zeros(s: Seq<char>) -> bool {
    forall|j: int| 0 <= j < s.len() ==> s[j] == '0'
}

/// The categorical index a threshold literal names: the value of a
/// non-negative integer literal (an optional `+`, one or more digits, and
/// optionally a `.` followed only by zeros); `None` for any other literal.
pub open spec fn cat_index(s: Seq<char>) -> Option<int> {
    let u = unsigned_part(s);
    let d = index_of(u, '.');
    if d > 0 && all_digits(u.subrange(0, d)) && (d >= u.len() || all_zeros(u.subrange(d + 1, u.len() as int))) {
        Some(digits_value(u.subrange(0, d)) as int)
    } else {
        None
    }
}

/// The bitset of the categorical split at internal node `oi`: the range
/// `cat_boundaries[k]..cat_boundaries[k + 1]` of `cat_threshold`, where `k`
/// is the categorical index its threshold names; or why there is none.
pub open spec fn cat_split(t: TreeModel, oi: int) -> Result<(int, int), BitsetFault> {
    match cat_index(t.threshold[oi]) {
        None => Err(BitsetFault::IndexNotInteger),
        Some(k) => if k + 1 >= t.cat_boundaries.len() {
            Err(BitsetFault::IndexOutOfRange { num_boundaries: t.cat_boundaries.len() as usize })
        } else {
            let b = t.cat_boundaries[k];
            let e = t.cat_boundaries[k + 1];
            if b > e {
                Err(BitsetFault::BoundariesDecreasing { begin: b as u64, end: e as u64 })
            } else if e > t.cat_threshold.len() {
                Err(BitsetFault::PastThreshold { end: e as u64, len: t.cat_threshold.len() as usize })
            } else {
                Ok((b, e))
            }
        },
    }
}

/// The node emitted for internal node `oi` with id `new`, whose children get
/// ids `dfs` and `dfs + 1`: categorical or numerical by its decision type.
pub open spec fn split_node(t: TreeModel, new: i32, oi: int, dfs: i32) -> PlanNode {
    if is_categorical(t.decision_type[oi] as i8) {
        PlanNode::Categorical {
            new_id: new,
            old_id: oi as usize,
            split_index: t.split_feature[oi] as i32,
            left: dfs,
            right: (dfs + 1) as i32,
            data_count: if t.internal_count.len() > 0 { Some(t.internal_count[oi] as u64) } else { None },
            has_gain: t.split_gain.len() > 0,
            cat_begin: cat_split(t, oi)->Ok_0.0 as usize,
            cat_end: cat_split(t, oi)->Ok_0.1 as usize,
        }
    } else {
        numerical_node(t, new, oi, dfs)
    }
}

/// The plan of the rest of the traversal of tree `t` (index `ti`), with
/// `stack` still to visit (its last element next), `dfs` the next unused id
/// and `out` the nodes emitted so far; or the first error met.
pub open spec fn walk(t: TreeModel, ti: int, stack: Seq<(i32, i32)>, dfs: i32, out: Seq<PlanNode>) -> Result<Seq<PlanNode>, ErrorModel>
    decreases 3 * (max_id() - dfs as int) + stack.len(),
{
    if stack.len() == 0 {
        Ok(out)
    } else {
        let old = stack.last().0;
        let new = stack.last().1;
        let rest = stack.drop_last();
        if old < 0 {
            let li = -(old as int) - 1;
            if li >= t.num_leaves {
                Err(ErrorModel::LeafIndexOutOfRange { tree: ti, index: li, num_leaves: t.num_leaves })
            } else if t.leaf_count.len() > 0 && t.leaf_count[li] < 0 {
                Err(tree_error(ti, DetailModel::NegativeLeafCount { count: t.leaf_count[li] }))
            } else {
                walk(t, ti, rest, dfs, out.push(leaf_node(t, new, li)))
            }
        } else {
            let oi = old as int;
            if oi >= t.split_feature.len() || oi >= t.decision_type.len() || oi >= t.threshold.len()
                || oi >= t.left_child.len() || oi >= t.right_child.len() {
                Err(ErrorModel::NodeIndexOutOfRange {
                    tree: ti,
                    index: oi,
                    detail: "internal node index exceeds parsed array length",
                })
            } else if dfs as int + 2 > max_id() {
                Err(ErrorModel::NodeIndexOutOfRange { tree: ti, index: dfs as int, detail: "node id exceeds the i32 range" })
            } else if is_categorical(t.decision_type[oi] as i8) && cat_split(t, oi) is Err {
                Err(ErrorModel::Bitset { tree: ti, node: oi, fault: cat_split(t, oi)->Err_0 })
            } else if t.internal_count.len() > 0 && t.internal_count[oi] < 0 {
                Err(tree_error(ti, DetailModel::NegativeInternalCount { count: t.internal_count[oi] }))
            } else {
                walk(
                    t,
                    ti,
                    rest.push((t.left_child[oi] as i32, dfs)).push((t.right_child[oi] as i32, (dfs + 1) as i32)),
                    (dfs + 2) as i32,
                    out.push(split_node(t, new, oi, dfs)),
                )
            }
        }
    }
}

/// The plan of tree `t` with index `ti`: an empty tree is an error; a tree of
/// one leaf is that leaf (`leaf_value[0]`) with id 1; otherwise the traversal
/// starts at internal node 0 with id 1.
pub open spec fn plan_tree_spec(t: TreeModel, ti: int) -> Result<Seq<PlanNode>, ErrorModel> {
    if t.num_leaves == 0 {
        Err(tree_error(ti, DetailModel::EmptyTree))
    } else {
        let root: i32 = if t.num_leaves == 1 { -1i32 } else { 0i32 };
        walk(t, ti, seq![(root, 1i32)], 2, Seq::empty())
    }
}

/// Every index a plan node refers to lies within the arrays of `t`.
pub open spec fn node_in_bounds(t: LGBTree, n: PlanNode) -> bool {
    match n {
        PlanNode::Leaf { leaf_index, data_count, .. } => {
            &&& leaf_index < t.leaf_value@.len()
            &&& (data_count is Some <==> t.leaf_count@.len() > 0)
        },
        PlanNode::Numerical { old_id, has_gain, data_count, .. } => {
            &&& old_id < t.split_feature@.len()
            &&& old_id < t.threshold@.len()
            &&& old_id < t.decision_type@.len()
            &&& (has_gain ==> old_id < t.split_gain@.len())
            &&& (data_count is Some ==> old_id < t.internal_count@.len())
        },
        PlanNode::Categorical { old_id, has_gain, data_count, cat_begin, cat_end, .. } => {
            &&& old_id < t.split_feature@.len()
            &&& old_id < t.threshold@.len()
            &&& old_id < t.decision_type@.len()
            &&& (has_gain ==> old_id < t.split_gain@.len())
            &&& (data_count is Some ==> old_id < t.internal_count@.len())
            &&& cat_begin <= cat_end <= t.cat_threshold@.len()
        },
    }
}

proof fn lemma_walk_in_bounds(t: LGBTree, ti: int, stack: Seq<(i32, i32)>, dfs: i32, out: Seq<PlanNode>)
    requires
        tree_wf(t),
        t.cat_threshold@.len() <= usize::MAX,
        forall|i: int| 0 <= i < out.len() ==> node_in_bounds(t, #[trigger] out[i]),
    ensures
        walk(t.model(), ti, stack, dfs, out) matches Ok(p) ==> forall|i: int| 0 <= i < p.len() ==> node_in_bounds(t, #[trigger] p[i]),
    decreases 3 * (max_id() - dfs as int) + stack.len(),
{
    let m = t.model();
    if stack.len() > 0 {
        let old = stack.last().0;
        let new = stack.last().1;
        let rest = stack.drop_last();
        if old < 0 {
            let li = -(old as int) - 1;
            if li < m.num_leaves && !(m.leaf_count.len() > 0 && m.leaf_count[li] < 0) {
                let node = leaf_node(m, new, li);
                assert forall|i: int| 0 <= i < out.push(node).len() implies node_in_bounds(t, #[trigger] out.push(node)[i]) by {
                    if i < out.len() {
                        assert(out.push(node)[i] == out[i]);
                    }
                }
                lemma_walk_in_bounds(t, ti, rest, dfs, out.push(node));
            }
        } else {
            let oi = old as int;
            if !(oi >= m.split_feature.len() || oi >= m.decision_type.len() || oi >= m.threshold.len()
                || oi >= m.left_child.len() || oi >= m.right_child.len()) && dfs as int + 2 <= max_id()
                && !(is_categorical(m.decision_type[oi] as i8) && cat_split(m, oi) is Err)
                && !(m.internal_count.len() > 0 && m.internal_count[oi] < 0) {
                let node = split_node(m, new, oi, dfs);
                assert(m.cat_threshold.len() == t.cat_threshold@.len());
                if is_categorical(m.decision_type[oi] as i8) {
                    let k = cat_index(m.threshold[oi])->Some_0;
                    assert(m.cat_boundaries[k] == t.cat_boundaries@[k] as int);
                    assert(m.cat_boundaries[k + 1] == t.cat_boundaries@[k + 1] as int);
                    let r = cat_split(m, oi)->Ok_0;
                    assert(0 <= r.0 <= r.1 <= t.cat_threshold@.len());
                    assert(node is Categorical);
                    assert(node->Categorical_cat_begin as int == r.0);
                    assert(node->Categorical_cat_end as int == r.1);
                    assert(node_in_bounds(t, node));
                } else {
                    assert(node_in_bounds(t, node));
                }
                assert forall|i: int| 0 <= i < out.push(node).len() implies node_in_bounds(t, #[trigger] out.push(node)[i]) by {
                    if i < out.len() {
                        assert(out.push(node)[i] == out[i]);
                    }
                }
                lemma_walk_in_bounds(
                    t,
                    ti,
                    rest.push((m.left_child[oi] as i32, dfs)).push((m.right_child[oi] as i32, (dfs + 1) as i32)),
                    (dfs + 2) as i32,
                    out.push(node),
                );
            }
        }
    }
}

/// The categorical index the literal `cs` names (see [`cat_index`]): `None`
/// when it names none, `Some(None)` when the index exceeds `u64::MAX`.
fn parse_cat_index(cs: &[char]) -> (r: Option<Option<u64>>)
    ensures
        cat_index(cs@) is None ==> r is None,
        cat_index(cs@) matches Some(k) ==> (r matches Some(o) && (o matches Some(v) ==> v as int == k) && (o is None
            ==> k > 0xffff_ffff_ffff_ffff)),
{
    let n = cs.len();
    let start: usize = if n > 0 && cs[0] == '+' { 1 } else { 0 };
    let ghost u = unsigned_part(cs@);
    assert(u =~= cs@.subrange(start as int, n as int));
    let d = index_of_range(cs, start, n, '.');
    proof {
        lemma_index_of_bounds(u, '.');
    }
    assert(u.subrange(0, d - start) =~= cs@.subrange(start as int, d as int));
    if d == start || !all_digits_range(cs, start, d) {
        return None;
    }
    if d < n {
        assert(u.subrange(d - start + 1, u.len() as int) =~= cs@.subrange(d + 1, n as int));
        let mut j = d + 1;
        while j < n
            invariant
                d < j <= n == cs@.len(),
                start <= d,
                u == unsigned_part(cs@),
                index_of(u, '.') == d - start,
                u.len() == n - start,
                u.subrange(d - start + 1, u.len() as int) == cs@.subrange(d + 1, n as int),
                forall|i: int| d + 1 <= i < j ==> cs@[i] == '0',
            decreases n - j,
        {
            if cs[j] != '0' {
                assert(cs@.subrange(d + 1, n as int)[j - d - 1] == cs@[j as int]);
                assert(!all_zeros(cs@.subrange(d + 1, n as int)));
                return None;
            }
            j = j + 1;
        }
        assert(all_zeros(cs@.subrange(d + 1, n as int))) by {
            assert forall|i: int| 0 <= i < n - d - 1 implies #[trigger] cs@.subrange(d + 1, n as int)[i] == '0' by {
                assert(cs@.subrange(d + 1, n as int)[i] == cs@[d + 1 + i]);
            }
        }
    }
    assert(cs@[start as int] != '+');
    match parse_int_range(cs, start, d, false, 0, 0xffff_ffff_ffff_ffff) {
        Some(v) => Some(Some(v as u64)),
        None => Some(None),
    }
}

/// Locate the bitset of the categorical split at internal node `oi` (see
/// [`cat_split`]).
fn categorical_range(t: &LGBTree, oi: usize) -> (r: Result<(usize, usize), BitsetFault>)
    requires
        oi < t.threshold@.len(),
    ensures
        r matches Ok(p) ==> cat_split(t.model(), oi as int) == Ok::<(int, int), BitsetFault>((p.0 as int, p.1 as int)),
        r matches Err(f) ==> cat_split(t.model(), oi as int) == Err::<(int, int), BitsetFault>(f),
{
    let ghost m = t.model();
    let cs = chars_of(t.threshold[oi].as_str());
    assert(cs@ == m.threshold[oi as int]);
    let nb = t.cat_boundaries.len();
    let k = match parse_cat_index(cs.as_slice()) {
        None => {
            return Err(BitsetFault::IndexNotInteger);
        },
        Some(None) => {
            return Err(BitsetFault::IndexOutOfRange { num_boundaries: nb });
        },
        Some(Some(k)) => k,
    };
    if k >= nb as u64 || k + 1 >= nb as u64 {
        return Err(BitsetFault::IndexOutOfRange { num_boundaries: nb });
    }
    let k = k as usize;
    let b = t.cat_boundaries[k];
    let e = t.cat_boundaries[k + 1];
    assert(m.cat_boundaries[k as int] == b as int);
    assert(m.cat_boundaries[k + 1] == e as int);
    if b > e {
        return Err(BitsetFault::BoundariesDecreasing { begin: b, end: e });
    }
    let len = t.cat_threshold.len();
    if e > len as u64 {
        return Err(BitsetFault::PastThreshold { end: e, len });
    }
    Ok((b as usize, e as usize))
}

/// Plan tree `t` (index `ti` in the model): the nodes in emission order with
/// their fresh ids (see [`plan_tree_spec`]). An empty tree, a leaf or internal
/// index outside the parsed arrays, a categorical split whose bitset cannot be
/// located or a negative count is a typed error; every index of a returned plan lies within the tree's
/// arrays.
pub fn plan_tree(ti: usize, t: &LGBTree) -> (r: Result<Vec<PlanNode>, LgbError>)
    requires
        tree_wf(*t),
    ensures
        r matches Ok(p) ==> plan_tree_spec(t.model(), ti as int) == Ok::<Seq<PlanNode>, ErrorModel>(p@),
        r matches Err(e) ==> plan_tree_spec(t.model(), ti as int) == Err::<Seq<PlanNode>, ErrorModel>(e.model()),
        r matches Ok(p) ==> forall|i: int| 0 <= i < p@.len() ==> node_in_bounds(*t, #[trigger] p@[i]),
        r matches Ok(p) ==> ids_distinct(p@) && children_known(p@, Seq::empty()),
{
    proof {
        lemma_plan_ids(t.model(), ti as int);
    }
    if t.num_leaves == 0 {
        return Err(LgbError::Parse { line: ParseLocation::Tree(ti), detail: ParseDetail::EmptyTree });
    }
    let mut stack: Vec<(i32, i32)> = Vec::new();
    let mut dfs: i32 = 1;
    if t.num_leaves == 1 {
        stack.push((-1, dfs));
    } else {
        stack.push((0, dfs));
    }
    dfs = dfs + 1;
    let mut out: Vec<PlanNode> = Vec::new();
    let cat_len = t.cat_threshold.len();
    assert(cat_len == t.cat_threshold@.len());
    proof {
        lemma_walk_in_bounds(*t, ti as int, stack@, dfs, out@);
    }
    while stack.len() > 0
        invariant
            tree_wf(*t),
            walk(t.model(), ti as int, stack@, dfs, out@) == plan_tree_spec(t.model(), ti as int),
            plan_tree_spec(t.model(), ti as int) matches Ok(p) ==> forall|i: int| 0 <= i < p.len() ==> node_in_bounds(*t, #[trigger] p[i]),
        decreases 3 * (max_id() - dfs as int) + stack@.len(),
    {
        let ghost before = stack@;
        let (old, new) = stack.pop().unwrap();
        assert(stack@ == before.drop_last());
        if old < 0 {
            let li: i64 = -(old as i64) - 1;
            if li >= t.num_leaves as i64 {
                return Err(LgbError::LeafIndexOutOfRange { tree: ti, index: li as usize, num_leaves: t.num_leaves as usize });
            }
            let li = li as usize;
            let data_count = if t.leaf_count.len() > 0 {
                let dc = t.leaf_count[li];
                if dc < 0 {
                    return Err(LgbError::Parse {
                        line: ParseLocation::Tree(ti),
                        detail: ParseDetail::NegativeLeafCount { count: dc },
                    });
                }
                Some(dc as u64)
            } else {
                None
            };
            out.push(PlanNode::Leaf { new_id: new, leaf_index: li, data_count });
        } else {
            let oi = old as usize;
            if oi >= t.split_feature.len() || oi >= t.decision_type.len() || oi >= t.threshold.len()
                || oi >= t.left_child.len() || oi >= t.right_child.len() {
                return Err(LgbError::NodeIndexOutOfRange {
                    tree: ti,
                    index: old as i64,
                    detail: "internal node index exceeds parsed array length",
                });
            }
            if dfs > 0x7fff_fffd {
                return Err(LgbError::NodeIndexOutOfRange { tree: ti, index: dfs as i64, detail: "node id exceeds the i32 range" });
            }
            let split_index = t.split_feature[oi];
            let decision_type = t.decision_type[oi];
            let left_old = t.left_child[oi];
            let left_new = dfs;
            dfs = dfs + 1;
            let right_old = t.right_child[oi];
            let right_new = dfs;
            dfs = dfs + 1;
            let categorical = get_decision_type(decision_type, 1i8);
            let cat = if categorical {
                match categorical_range(t, oi) {
                    Ok(range) => Some(range),
                    Err(fault) => {
                        return Err(LgbError::Bitset { tree: ti, node: oi, fault });
                    },
                }
            } else {
                None
            };
            let default_left = if get_missing_type(decision_type) != 2i8 {
                DefaultLeft::ZeroTestedAgainstThreshold
            } else {
                DefaultLeft::Flag(get_decision_type(decision_type, 2i8))
            };
            let data_count = if t.internal_count.len() > 0 {
                let dc = t.internal_count[oi];
                if dc < 0 {
                    return Err(LgbError::Parse {
                        line: ParseLocation::Tree(ti),
                        detail: ParseDetail::NegativeInternalCount { count: dc },
                    });
                }
                Some(dc as u64)
            } else {
                None
            };
            match cat {
                Some((cat_begin, cat_end)) => out.push(PlanNode::Categorical {
                    new_id: new,
                    old_id: oi,
                    split_index,
                    left: left_new,
                    right: right_new,
                    data_count,
                    has_gain: t.split_gain.len() > 0,
                    cat_begin,
                    cat_end,
                }),
                None => out.push(PlanNode::Numerical {
                    new_id: new,
                    old_id: oi,
                    split_index,
                    default_left,
                    left: left_new,
                    right: right_new,
                    data_count,
                    has_gain: t.split_gain.len() > 0,
                }),
            }
            stack.push((left_old, left_new));
            stack.push((right_old, right_new));
        }
    }
    Ok(out)
}

/// The id of a plan node.
pub open spec fn node_id(n: PlanNode) -> i32 {
    match n {
        PlanNode::Leaf { new_id, .. } => new_id,
        PlanNode::Numerical { new_id, .. } => new_id,
        PlanNode::Categorical { new_id, .. } => new_id,
    }
}

/// The ids of the children of a split; `None` for a leaf.
pub open spec fn children_of(n: PlanNode) -> Option<(i32, i32)> {
    match n {
        PlanNode::Leaf { .. } => None,
        PlanNode::Numerical { left, right, .. } => Some((left, right)),
        PlanNode::Categorical { left, right, .. } => Some((left, right)),
    }
}

/// No two nodes share an id.
pub open spec fn ids_distinct(out: Seq<PlanNode>) -> bool {
    forall|i: int, j: int| 0 <= i < j < out.len() ==> node_id(#[trigger] out[i]) != node_id(#[trigger] out[j])
}

/// Some node has id `id`.
pub open spec fn emitted(out: Seq<PlanNode>, id: i32) -> bool {
    exists|i: int| 0 <= i < out.len() && node_id(#[trigger] out[i]) == id
}

/// Some pending stack entry has id `id`.
pub open spec fn pending(stack: Seq<(i32, i32)>, id: i32) -> bool {
    exists|k: int| 0 <= k < stack.len() && (#[trigger] stack[k]).1 == id
}

/// Every child id of a split is emitted or pending.
pub open spec fn children_known(out: Seq<PlanNode>, stack: Seq<(i32, i32)>) -> bool {
    forall|i: int| 0 <= i < out.len() ==> (children_of(#[trigger] out[i]) matches Some(c) ==> {
        &&& (emitted(out, c.0) || pending(stack, c.0))
        &&& (emitted(out, c.1) || pending(stack, c.1))
    })
}

/// The state of a traversal: ids of emitted nodes and pending entries are
/// all distinct and in `1..dfs`, and every child id is emitted or pending.
pub open spec fn walk_state_ok(stack: Seq<(i32, i32)>, dfs: i32, out: Seq<PlanNode>) -> bool {
    &&& ids_distinct(out)
    &&& forall|i: int| 0 <= i < out.len() ==> 1 <= node_id(#[trigger] out[i]) < dfs
    &&& forall|k: int| 0 <= k < stack.len() ==> 1 <= (#[trigger] stack[k]).1 < dfs
    &&& forall|k: int, l: int| 0 <= k < l < stack.len() ==> (#[trigger] stack[k]).1 != (#[trigger] stack[l]).1
    &&& forall|i: int, k: int| 0 <= i < out.len() && 0 <= k < stack.len() ==> node_id(#[trigger] out[i]) != (#[trigger] stack[k]).1
    &&& children_known(out, stack)
}

proof fn lemma_walk_ids(t: TreeModel, ti: int, stack: Seq<(i32, i32)>, dfs: i32, out: Seq<PlanNode>)
    requires
        walk_state_ok(stack, dfs, out),
    ensures
        walk(t, ti, stack, dfs, out) matches Ok(p) ==> ids_distinct(p) && children_known(p, Seq::empty()),
    decreases 3 * (max_id() - dfs as int) + stack.len(),
{
    if stack.len() > 0 {
        let old = stack.last().0;
        let new = stack.last().1;
        let rest = stack.drop_last();
        if old < 0 {
            let li = -(old as int) - 1;
            if li < t.num_leaves && !(t.leaf_count.len() > 0 && t.leaf_count[li] < 0) {
                let node = leaf_node(t, new, li);
                let out2 = out.push(node);
                assert(node_id(node) == new);
                assert(stack[stack.len() - 1].1 == new);
                assert forall|i: int| 0 <= i < out2.len() implies (children_of(#[trigger] out2[i]) matches Some(c) ==> {
                    &&& (emitted(out2, c.0) || pending(rest, c.0))
                    &&& (emitted(out2, c.1) || pending(rest, c.1))
                }) by {
                    if i < out.len() {
                        assert(out2[i] == out[i]);
                        if let Some((left, right)) = children_of(out[i]) {
                            if emitted(out, left) {
                                let j = choose|j: int| 0 <= j < out.len() && node_id(#[trigger] out[j]) == left;
                                assert(out2[j] == out[j]);
                            } else {
                                let k = choose|k: int| 0 <= k < stack.len() && (#[trigger] stack[k]).1 == left;
                                if k == stack.len() - 1 {
                                    assert(out2[out.len() as int] == node);
                                } else {
                                    assert(rest[k] == stack[k]);
                                }
                            }
                            if emitted(out, right) {
                                let j = choose|j: int| 0 <= j < out.len() && node_id(#[trigger] out[j]) == right;
                                assert(out2[j] == out[j]);
                            } else {
                                let k = choose|k: int| 0 <= k < stack.len() && (#[trigger] stack[k]).1 == right;
                                if k == stack.len() - 1 {
                                    assert(out2[out.len() as int] == node);
                                } else {
                                    assert(rest[k] == stack[k]);
                                }
                            }
                        }
                    }
                }
                assert forall|i: int, j: int| 0 <= i < j < out2.len() implies node_id(#[trigger] out2[i]) != node_id(#[trigger] out2[j]) by {
                    if j == out.len() {
                        assert(out2[i] == out[i]);
                    } else {
                        assert(out2[i] == out[i] && out2[j] == out[j]);
                    }
                }
                assert forall|i: int, k: int| 0 <= i < out2.len() && 0 <= k < rest.len() implies node_id(#[trigger] out2[i]) != (#[trigger] rest[k]).1 by {
                    assert(rest[k] == stack[k]);
                    if i < out.len() {
                        assert(out2[i] == out[i]);
                    }
                }
                assert forall|i: int| 0 <= i < out2.len() implies 1 <= node_id(#[trigger] out2[i]) < dfs by {
                    if i < out.len() {
                        assert(out2[i] == out[i]);
                    }
                }
                assert forall|k: int, l: int| 0 <= k < l < rest.len() implies (#[trigger] rest[k]).1 != (#[trigger] rest[l]).1 by {
                    assert(rest[k] == stack[k] && rest[l] == stack[l]);
                }
                lemma_walk_ids(t, ti, rest, dfs, out2);
            }
        } else {
            let oi = old as int;
            if !(oi >= t.split_feature.len() || oi >= t.decision_type.len() || oi >= t.threshold.len()
                || oi >= t.left_child.len() || oi >= t.right_child.len()) && dfs as int + 2 <= max_id()
                && !(is_categorical(t.decision_type[oi] as i8) && cat_split(t, oi) is Err)
                && !(t.internal_count.len() > 0 && t.internal_count[oi] < 0) {
                let node = split_node(t, new, oi, dfs);
                let out2 = out.push(node);
                let d1 = (dfs + 1) as i32;
                let d2 = (dfs + 2) as i32;
                let stack2 = rest.push((t.left_child[oi] as i32, dfs)).push((t.right_child[oi] as i32, d1));
                assert(node_id(node) == new);
                assert(stack[stack.len() - 1].1 == new);
                assert(stack2[rest.len() as int].1 == dfs);
                assert(stack2[rest.len() as int + 1].1 == d1);
                assert forall|k: int| 0 <= k < rest.len() implies #[trigger] stack2[k] == stack[k] by {
                    assert(stack2[k] == rest[k]);
                }
                assert forall|i: int| 0 <= i < out2.len() implies (children_of(#[trigger] out2[i]) matches Some(c) ==> {
                    &&& (emitted(out2, c.0) || pending(stack2, c.0))
                    &&& (emitted(out2, c.1) || pending(stack2, c.1))
                }) by {
                    if i < out.len() {
                        assert(out2[i] == out[i]);
                        if let Some((left, right)) = children_of(out[i]) {
                            if emitted(out, left) {
                                let j = choose|j: int| 0 <= j < out.len() && node_id(#[trigger] out[j]) == left;
                                assert(out2[j] == out[j]);
                            } else {
                                let k = choose|k: int| 0 <= k < stack.len() && (#[trigger] stack[k]).1 == left;
                                if k == stack.len() - 1 {
                                    assert(out2[out.len() as int] == node);
                                } else {
                                    assert(stack2[k] == stack[k]);
                                }
                            }
                            if emitted(out, right) {
                                let j = choose|j: int| 0 <= j < out.len() && node_id(#[trigger] out[j]) == right;
                                assert(out2[j] == out[j]);
                            } else {
                                let k = choose|k: int| 0 <= k < stack.len() && (#[trigger] stack[k]).1 == right;
                                if k == stack.len() - 1 {
                                    assert(out2[out.len() as int] == node);
                                } else {
                                    assert(stack2[k] == stack[k]);
                                }
                            }
                        }
                    } else {
                        assert(out2[i] == node);
                        assert(pending(stack2, dfs));
                        assert(pending(stack2, d1));
                    }
                }
                assert forall|i: int, j: int| 0 <= i < j < out2.len() implies node_id(#[trigger] out2[i]) != node_id(#[trigger] out2[j]) by {
                    if j == out.len() {
                        assert(out2[i] == out[i]);
                    } else {
                        assert(out2[i] == out[i] && out2[j] == out[j]);
                    }
                }
                assert forall|i: int| 0 <= i < out2.len() implies 1 <= node_id(#[trigger] out2[i]) < d2 by {
                    if i < out.len() {
                        assert(out2[i] == out[i]);
                    }
                }
                assert forall|k: int| 0 <= k < stack2.len() implies 1 <= (#[trigger] stack2[k]).1 < d2 by {
                    if k < rest.len() {
                        assert(stack2[k] == stack[k]);
                    }
                }
                assert forall|k: int, l: int| 0 <= k < l < stack2.len() implies (#[trigger] stack2[k]).1 != (#[trigger] stack2[l]).1 by {
                    if l < rest.len() {
                        assert(stack2[k] == stack[k] && stack2[l] == stack[l]);
                    } else if k < rest.len() {
                        assert(stack2[k] == stack[k]);
                    }
                }
                assert forall|i: int, k: int| 0 <= i < out2.len() && 0 <= k < stack2.len() implies node_id(#[trigger] out2[i]) != (#[trigger] stack2[k]).1 by {
                    if i < out.len() {
                        assert(out2[i] == out[i]);
                    }
                    if k < rest.len() {
                        assert(stack2[k] == stack[k]);
                    }
                }
                lemma_walk_ids(t, ti, stack2, d2, out2);
            }
        }
    }
}

/// The renumbering gives every node of a plan its own id, and every child
/// id of a split is the id of a node of the plan.
pub proof fn lemma_plan_ids(t: TreeModel, ti: int)
    ensures
        plan_tree_spec(t, ti) matches Ok(p) ==> ids_distinct(p) && children_known(p, Seq::empty()),
{
    if t.num_leaves != 0 {
        let root: i32 = if t.num_leaves == 1 { -1i32 } else { 0i32 };
        let stack = seq![(root, 1i32)];
        assert(walk_state_ok(stack, 2, Seq::empty()));
        lemma_walk_ids(t, ti, stack, 2, Seq::empty());
    }
}


/// Whether plan node `n` carries what the parsed tree `t` says of the node it
/// comes from: a leaf names one of the tree's leaves, with its count when
/// the tree has leaf counts; a split names an internal node whose split
/// feature, count and gain it uses, numerical exactly when bit 0 of its
/// decision type is clear, and, when categorical, takes its bitset from
/// `cat_threshold` between the boundaries `k` and `k + 1` for the index `k`
/// its threshold names. A numerical split whose missing type
/// (bits 2 and 3) is `2` (NaN) sends missing values left exactly when bit 1
/// (default left) is set; with any other missing type, missing values read
/// as zero and follow the threshold test.
pub open spec fn follows_tree(t: TreeModel, n: PlanNode) -> bool {
    match n {
        PlanNode::Leaf { leaf_index, data_count, .. } => {
            &&& leaf_index < t.num_leaves
            &&& data_count == if t.leaf_count.len() > 0 { Some(t.leaf_count[leaf_index as int] as u64) } else { None }
        },
        PlanNode::Numerical { old_id, split_index, default_left, data_count, has_gain, .. } => {
            let dt = t.decision_type[old_id as int] as i8;
            &&& old_id < t.decision_type.len()
            &&& old_id < t.split_feature.len()
            &&& (dt & 1i8) == 0
            &&& split_index == t.split_feature[old_id as int] as i32
            &&& default_left == if (dt >> 2i8) & 3i8 == 2 {
                DefaultLeft::Flag((dt & 2i8) != 0)
            } else {
                DefaultLeft::ZeroTestedAgainstThreshold
            }
            &&& data_count == if t.internal_count.len() > 0 { Some(t.internal_count[old_id as int] as u64) } else { None }
            &&& has_gain == (t.split_gain.len() > 0)
        },
        PlanNode::Categorical { old_id, split_index, data_count, has_gain, cat_begin, cat_end, .. } => {
            &&& old_id < t.decision_type.len()
            &&& old_id < t.split_feature.len()
            &&& (t.decision_type[old_id as int] as i8 & 1i8) != 0
            &&& split_index == t.split_feature[old_id as int] as i32
            &&& data_count == if t.internal_count.len() > 0 { Some(t.internal_count[old_id as int] as u64) } else { None }
            &&& has_gain == (t.split_gain.len() > 0)
            &&& cat_index(t.threshold[old_id as int]) matches Some(k)
            &&& k + 1 < t.cat_boundaries.len()
            &&& cat_begin == t.cat_boundaries[k] as usize
            &&& cat_end == t.cat_boundaries[k + 1] as usize
        },
    }
}

proof fn lemma_decision_bits(dt: i8)
    ensures
        (dt & 1i8) > 0 <==> (dt & 1i8) != 0,
        (dt & 2i8) > 0 <==> (dt & 2i8) != 0,
{
    assert((dt & 1i8) >= 0 && (dt & 2i8) >= 0) by (bit_vector);
}

proof fn lemma_walk_follows(t: TreeModel, ti: int, stack: Seq<(i32, i32)>, dfs: i32, out: Seq<PlanNode>)
    requires
        forall|i: int| 0 <= i < out.len() ==> follows_tree(t, #[trigger] out[i]),
    ensures
        walk(t, ti, stack, dfs, out) matches Ok(p) ==> forall|i: int| 0 <= i < p.len() ==> follows_tree(t, #[trigger] p[i]),
    decreases 3 * (max_id() - dfs as int) + stack.len(),
{
    if stack.len() > 0 {
        let old = stack.last().0;
        let new = stack.last().1;
        let rest = stack.drop_last();
        if old < 0 {
            let li = -(old as int) - 1;
            if li < t.num_leaves && !(t.leaf_count.len() > 0 && t.leaf_count[li] < 0) {
                let node = leaf_node(t, new, li);
                assert forall|i: int| 0 <= i < out.push(node).len() implies follows_tree(t, #[trigger] out.push(node)[i]) by {
                    if i < out.len() {
                        assert(out.push(node)[i] == out[i]);
                    }
                }
                lemma_walk_follows(t, ti, rest, dfs, out.push(node));
            }
        } else {
            let oi = old as int;
            if !(oi >= t.split_feature.len() || oi >= t.decision_type.len() || oi >= t.threshold.len()
                || oi >= t.left_child.len() || oi >= t.right_child.len()) && dfs as int + 2 <= max_id()
                && !(is_categorical(t.decision_type[oi] as i8) && cat_split(t, oi) is Err)
                && !(t.internal_count.len() > 0 && t.internal_count[oi] < 0) {
                let node = split_node(t, new, oi, dfs);
                lemma_decision_bits(t.decision_type[oi] as i8);
                assert(follows_tree(t, node));
                assert forall|i: int| 0 <= i < out.push(node).len() implies follows_tree(t, #[trigger] out.push(node)[i]) by {
                    if i < out.len() {
                        assert(out.push(node)[i] == out[i]);
                    }
                }
                lemma_walk_follows(
                    t,
                    ti,
                    rest.push((t.left_child[oi] as i32, dfs)).push((t.right_child[oi] as i32, (dfs + 1) as i32)),
                    (dfs + 2) as i32,
                    out.push(node),
                );
            }
        }
    }
}

/// Every node of a planned tree carries what the parsed tree says of it
/// (see [`follows_tree`]): leaves name leaves of the tree; a split uses its
/// node's split feature, is numerical exactly when the categorical bit of
/// its decision type is clear, and a numerical split with NaN as its missing
/// type sends missing values left exactly when the default-left bit (bit 1)
/// is set.
pub proof fn lemma_plan_follows_tree(t: TreeModel, ti: int)
    ensures
        plan_tree_spec(t, ti) matches Ok(p) ==> forall|i: int| 0 <= i < p.len() ==> follows_tree(t, #[trigger] p[i]),
{
    if t.num_leaves != 0 {
        let root: i32 = if t.num_leaves == 1 { -1i32 } else { 0i32 };
        lemma_walk_follows(t, ti, seq![(root, 1i32)], 2, Seq::empty());
    }
}

} // verus!
