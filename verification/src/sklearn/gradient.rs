//! GradientBoosting and IsolationForest models, built node by node: every
//! tree's arrays are validated, each node is classified as a leaf
//! (`children_left == -1`) or a `<=` split, and the metadata of each
//! estimator kind is set.

use vstd::prelude::*;
use crate::search::{first_failing, lemma_first_failing};
use crate::sklearn::arrays::{lemma_no_mismatch, node_ok, positive_spec, require_positive, tree_check_spec, validate_tree};
use crate::sklearn::error::SklError;
use crate::sklearn::forest::{check_tree_count, outer_dims, TreeArrays};
use crate::sklearn::arrays::outer_spec;
use crate::sklearn::meta::{filled, round_robin, BaseScores, ModelMeta};
use crate::task::TaskType;

verus! {

/// One node of a tree built node by node.
#[derive(Debug, Clone, Copy, PartialEq, Eq, Structural)]
pub enum SplitNode {
    /// A leaf with output `value[node]`.
    Leaf,
    /// A `<=` split on input feature `split_index` (missing values go left).
    Split { split_index: i32, left: i32, right: i32 },
}

/// A validated tree: its nodes in order and its total sample count
/// (`n_node_samples[0]`, or 0 for an empty tree).
#[derive(Debug)]
pub struct NodeTree {
    pub total_sample_cnt: i64,
    pub nodes: Vec<SplitNode>,
}

/// The arrays of tree `t` other than the child arrays, in checking order.
pub open spec fn node_dims<F>(a: TreeArrays<F>, t: int) -> Seq<(&'static str, usize)> {
    seq![
        ("feature", a.feature@[t]@.len() as usize),
        ("threshold", a.threshold@[t]@.len() as usize),
        ("value", a.value@[t]@.len() as usize),
        ("n_node_samples", a.n_node_samples@[t]@.len() as usize),
        ("weighted_n_node_samples", a.weighted_n_node_samples@[t]@.len() as usize),
        ("impurity", a.impurity@[t]@.len() as usize),
    ]
}

/// Node `k` of tree `t`: a leaf when its left child is `-1`, otherwise a
/// split on `feature[k]` with children `children_left[k]` and
/// `children_right[k]`.
pub open spec fn node_spec<F>(a: TreeArrays<F>, t: int, k: int) -> SplitNode {
    if a.children_left@[t]@[k] == -1 {
        SplitNode::Leaf
    } else {
        SplitNode::Split {
            split_index: a.feature@[t]@[k] as i32,
            left: a.children_left@[t]@[k] as i32,
            right: a.children_right@[t]@[k] as i32,
        }
    }
}

/// The check of tree `t`.
pub open spec fn node_tree_check<F>(a: TreeArrays<F>, t: int) -> Result<usize, SklError> {
    tree_check_spec(t as usize, a.node_count@[t], node_dims(a, t), a.children_left@[t]@, a.children_right@[t]@)
}

/// The total sample count of tree `t` with `n` nodes.
pub open spec fn total_samples<F>(a: TreeArrays<F>, t: int, n: int) -> i64 {
    if n > 0 { a.n_node_samples@[t]@[0] } else { 0 }
}

/// The nodes of tree `t` with `n` nodes.
pub open spec fn tree_nodes<F>(a: TreeArrays<F>, t: int, n: int) -> Seq<SplitNode> {
    Seq::new(n as nat, |k: int| node_spec(a, t, k))
}

/// All trees: the tree count check, then each tree's check in order.
pub open spec fn node_trees_spec<F>(a: TreeArrays<F>, n_trees: usize) -> Result<(), SklError> {
    match outer_spec(outer_dims(a), n_trees) {
        Err(e) => Err(e),
        Ok(_) => match first_failing(|t: int| node_tree_check(a, t) is Err, 0, n_trees as int) {
            Some(t) => Err(node_tree_check(a, t)->Err_0),
            None => Ok(()),
        },
    }
}

/// `v` holds tree `t` of `a`, which has `n` nodes.
pub open spec fn tree_matches<F>(a: TreeArrays<F>, t: int, v: NodeTree) -> bool {
    &&& node_tree_check(a, t) is Ok
    &&& v.total_sample_cnt == total_samples(a, t, node_tree_check(a, t)->Ok_0 as int)
    &&& v.nodes@ == tree_nodes(a, t, node_tree_check(a, t)->Ok_0 as int)
}

/// Validate and classify the nodes of every tree (see [`node_trees_spec`]).
/// Every split of a returned tree has children within the tree.
pub fn build_node_trees<F>(n_trees: usize, a: &TreeArrays<F>) -> (r: Result<Vec<NodeTree>, SklError>)
    ensures
        r matches Err(e) ==> node_trees_spec(*a, n_trees) == Err::<(), SklError>(e),
        r matches Ok(v) ==> {
            &&& node_trees_spec(*a, n_trees) is Ok
            &&& v@.len() == n_trees
            &&& forall|t: int| 0 <= t < n_trees ==> tree_matches(*a, t, #[trigger] v@[t])
        },
        r matches Ok(v) ==> forall|t: int, k: int| 0 <= t < v@.len() && 0 <= k < v@[t].nodes@.len() ==>
            (#[trigger] v@[t].nodes@[k] matches SplitNode::Split { left, right, .. }
                ==> 0 <= left < v@[t].nodes@.len() && -1 <= right < v@[t].nodes@.len()),
{
    check_tree_count(a, n_trees)?;
    let ghost fails = |t: int| node_tree_check(*a, t) is Err;
    let mut out: Vec<NodeTree> = Vec::new();
    let mut t: usize = 0;
    while t < n_trees
        invariant
            t <= n_trees,
            outer_spec(outer_dims(*a), n_trees) is Ok,
            a.node_count@.len() == n_trees,
            a.children_left@.len() == n_trees,
            a.children_right@.len() == n_trees,
            a.feature@.len() == n_trees,
            a.threshold@.len() == n_trees,
            a.value@.len() == n_trees,
            a.n_node_samples@.len() == n_trees,
            a.weighted_n_node_samples@.len() == n_trees,
            a.impurity@.len() == n_trees,
            fails == (|t: int| node_tree_check(*a, t) is Err),
            out@.len() == t,
            forall|k: int| 0 <= k < t ==> tree_matches(*a, k, #[trigger] out@[k]),
            forall|j: int, k: int| 0 <= j < out@.len() && 0 <= k < out@[j].nodes@.len() ==>
                (#[trigger] out@[j].nodes@[k] matches SplitNode::Split { left, right, .. }
                    ==> 0 <= left < out@[j].nodes@.len() && -1 <= right < out@[j].nodes@.len()),
        decreases n_trees - t,
    {
        let dims = [
            ("feature", a.feature[t].len()),
            ("threshold", a.threshold[t].len()),
            ("value", a.value[t].len()),
            ("n_node_samples", a.n_node_samples[t].len()),
            ("weighted_n_node_samples", a.weighted_n_node_samples[t].len()),
            ("impurity", a.impurity[t].len()),
        ];
        assert(dims@ =~= node_dims(*a, t as int));
        let checked = validate_tree(t, a.node_count[t], &dims, a.children_left[t], a.children_right[t]);
        let n = match checked {
            Ok(n) => n,
            Err(e) => {
                proof {
                    assert forall|k: int| 0 <= k < t implies !#[trigger] fails(k) by {
                        assert(tree_matches(*a, k, out@[k]));
                    }
                    lemma_first_failing(fails, 0, t as int, n_trees as int);
                }
                return Err(e);
            },
        };
        assert(dims@[0].1 == n && dims@[3].1 == n);
        let left = a.children_left[t];
        let right = a.children_right[t];
        let feature = a.feature[t];
        let mut nodes: Vec<SplitNode> = Vec::new();
        let mut k: usize = 0;
        while k < n
            invariant
                k <= n <= 0x7fff_ffff,
                t < n_trees,
                left@ == a.children_left@[t as int]@,
                right@ == a.children_right@[t as int]@,
                feature@ == a.feature@[t as int]@,
                left@.len() == n,
                right@.len() == n,
                feature@.len() == n,
                forall|j: int| 0 <= j < n ==> #[trigger] node_ok(left@, right@, n as int, j),
                nodes@ == tree_nodes(*a, t as int, k as int),
            decreases n - k,
        {
            let node = if left[k] == -1 {
                SplitNode::Leaf
            } else {
                SplitNode::Split { split_index: feature[k] as i32, left: left[k] as i32, right: right[k] as i32 }
            };
            nodes.push(node);
            k = k + 1;
            assert(nodes@ =~= tree_nodes(*a, t as int, k as int));
        }
        let total_sample_cnt = if n > 0 { a.n_node_samples[t][0] } else { 0 };
        proof {
            assert forall|j: int| 0 <= j < nodes@.len() implies (#[trigger] nodes@[j] matches SplitNode::Split { left: l, right: r, .. }
                ==> 0 <= l < nodes@.len() && -1 <= r < nodes@.len()) by {
                assert(node_ok(left@, right@, n as int, j));
                assert(nodes@[j] == node_spec(*a, t as int, j));
                if left@[j] != -1 {
                    assert(0 <= left@[j] < n);
                    assert(-1 <= right@[j] < n);
                    assert(left@[j] as i32 == left@[j]);
                    assert(right@[j] as i32 == right@[j]);
                }
            }
        }
        out.push(NodeTree { total_sample_cnt, nodes });
        t = t + 1;
    }
    proof {
        assert forall|k: int| 0 <= k < n_trees implies !#[trigger] fails(k) by {
            assert(tree_matches(*a, k, out@[k]));
        }
        lemma_first_failing(fails, 0, n_trees as int, n_trees as int);
    }
    Ok(out)
}

/// A vector holding just `x`.
fn single(x: i32) -> (v: Vec<i32>)
    ensures
        v@ == seq![x],
{
    let v = filled(1, x);
    assert(v@ =~= seq![x]);
    v
}

/// `v` holds the `n` trees of `a`.
pub open spec fn trees_match<F>(a: TreeArrays<F>, n: usize, v: Seq<NodeTree>) -> bool {
    &&& v.len() == n
    &&& forall|t: int| 0 <= t < n ==> tree_matches(a, t, #[trigger] v[t])
}

/// A validated GradientBoosting or IsolationForest model: its metadata and
/// trees.
#[derive(Debug)]
pub struct NodePlan {
    pub meta: ModelMeta,
    pub trees: Vec<NodeTree>,
}

/// `m` holds one-target, one-output metadata with `n` trees of class and
/// target 0.
pub open spec fn scalar_meta(m: ModelMeta, n_features: i32, n: int) -> bool {
    &&& m.num_feature == n_features
    &&& m.num_target == 1
    &&& m.num_class@ == seq![1i32]
    &&& m.leaf_vector_shape == (1i32, 1i32)
    &&& m.target_id@ == Seq::new(n as nat, |i: int| 0i32)
    &&& m.class_id@ == Seq::new(n as nat, |i: int| 0i32)
}

/// The checks of an IsolationForest: `n_estimators` and `n_features` at
/// least 1, a usable `ratio_c` (non-zero and finite, as decided by the
/// caller), then the trees.
pub open spec fn isolation_forest_spec<F>(n_estimators: i32, n_features: i32, ratio_c_valid: bool, a: TreeArrays<F>) -> Result<(), SklError> {
    if positive_spec("n_estimators", n_estimators) is Err {
        Err(positive_spec("n_estimators", n_estimators)->Err_0)
    } else if positive_spec("n_features", n_features) is Err {
        Err(positive_spec("n_features", n_features)->Err_0)
    } else if !ratio_c_valid {
        Err(SklError::InvalidScalar {
            field: "ratio_c",
            value: 0,
            reason: "must be non-zero and finite (exponential_standard_ratio divides by it)",
        })
    } else {
        node_trees_spec(a, n_estimators as usize)
    }
}

/// Validate an `IsolationForest` (see [`isolation_forest_spec`]); its leaves
/// hold precomputed isolation depths. Metadata: the isolation-forest task,
/// averaged trees, one target and class, the `exponential_standard_ratio`
/// postprocessor and one zero base score.
pub fn plan_isolation_forest<F>(n_estimators: i32, n_features: i32, ratio_c_valid: bool, a: &TreeArrays<F>) -> (r: Result<NodePlan, SklError>)
    ensures
        r matches Err(e) ==> isolation_forest_spec(n_estimators, n_features, ratio_c_valid, *a) == Err::<(), SklError>(e),
        r matches Ok(p) ==> {
            &&& isolation_forest_spec(n_estimators, n_features, ratio_c_valid, *a) is Ok
            &&& trees_match(*a, n_estimators as usize, p.trees@)
            &&& scalar_meta(p.meta, n_features, n_estimators as int)
            &&& p.meta.task_type == TaskType::IsolationForest
            &&& p.meta.average_tree_output
            &&& p.meta.postprocessor == "exponential_standard_ratio"
            &&& p.meta.base_scores == BaseScores::Zeros(1)
        },
{
    require_positive("n_estimators", n_estimators)?;
    require_positive("n_features", n_features)?;
    if !ratio_c_valid {
        return Err(SklError::InvalidScalar {
            field: "ratio_c",
            value: 0,
            reason: "must be non-zero and finite (exponential_standard_ratio divides by it)",
        });
    }
    let trees = build_node_trees(n_estimators as usize, a)?;
    let meta = ModelMeta {
        num_feature: n_features,
        task_type: TaskType::IsolationForest,
        average_tree_output: true,
        num_target: 1,
        num_class: single(1),
        leaf_vector_shape: (1, 1),
        target_id: filled(n_estimators as usize, 0),
        class_id: filled(n_estimators as usize, 0),
        postprocessor: "exponential_standard_ratio",
        base_scores: BaseScores::Zeros(1),
    };
    Ok(NodePlan { meta, trees })
}

/// The checks of a GradientBoosting regressor: `n_iter` and `n_features` at
/// least 1, then the trees.
pub open spec fn gb_regressor_spec<F>(n_iter: i32, n_features: i32, a: TreeArrays<F>) -> Result<(), SklError> {
    if positive_spec("n_iter", n_iter) is Err {
        Err(positive_spec("n_iter", n_iter)->Err_0)
    } else if positive_spec("n_features", n_features) is Err {
        Err(positive_spec("n_features", n_features)->Err_0)
    } else {
        node_trees_spec(a, n_iter as usize)
    }
}

/// Validate a `GradientBoostingRegressor` (see [`gb_regressor_spec`]); its
/// leaf values are used as given (already scaled by the learning rate).
/// Metadata: a regressor summing its trees, the `identity` postprocessor
/// and the supplied base score.
pub fn plan_gradient_boosting_regressor<F>(n_iter: i32, n_features: i32, a: &TreeArrays<F>) -> (r: Result<NodePlan, SklError>)
    ensures
        r matches Err(e) ==> gb_regressor_spec(n_iter, n_features, *a) == Err::<(), SklError>(e),
        r matches Ok(p) ==> {
            &&& gb_regressor_spec(n_iter, n_features, *a) is Ok
            &&& trees_match(*a, n_iter as usize, p.trees@)
            &&& scalar_meta(p.meta, n_features, n_iter as int)
            &&& p.meta.task_type == TaskType::Regressor
            &&& !p.meta.average_tree_output
            &&& p.meta.postprocessor == "identity"
            &&& p.meta.base_scores == BaseScores::Given(1)
        },
{
    require_positive("n_iter", n_iter)?;
    require_positive("n_features", n_features)?;
    let trees = build_node_trees(n_iter as usize, a)?;
    let meta = ModelMeta {
        num_feature: n_features,
        task_type: TaskType::Regressor,
        average_tree_output: false,
        num_target: 1,
        num_class: single(1),
        leaf_vector_shape: (1, 1),
        target_id: filled(n_iter as usize, 0),
        class_id: filled(n_iter as usize, 0),
        postprocessor: "identity",
        base_scores: BaseScores::Given(1),
    };
    Ok(NodePlan { meta, trees })
}

/// The number of trees of a classifier with `n_iter` boosting rounds and
/// `n_classes` classes: one per round for two classes, one per round and
/// class otherwise.
pub open spec fn classifier_tree_count(n_iter: i32, n_classes: i32) -> int {
    if n_classes > 2 { n_iter * n_classes } else { n_iter as int }
}

/// The checks of a classifier with `n_iter` rounds, `n_classes` classes and
/// `n_base` supplied base scores: `n_iter` and `n_features` at least 1,
/// `n_classes` at least 2, the tree count within `usize`, one base score per
/// class (one for two classes).
pub open spec fn classifier_header_spec(n_iter: i32, n_features: i32, n_classes: i32, n_base: usize, base_field: &'static str) -> Result<(), SklError> {
    if positive_spec("n_iter", n_iter) is Err {
        Err(positive_spec("n_iter", n_iter)->Err_0)
    } else if positive_spec("n_features", n_features) is Err {
        Err(positive_spec("n_features", n_features)->Err_0)
    } else if n_classes < 2 {
        Err(SklError::InvalidScalar { field: "n_classes", value: n_classes as i64, reason: "must be at least 2" })
    } else if n_classes > 2 {
        if n_iter * n_classes > usize::MAX {
            Err(SklError::InvalidScalar { field: "n_iter*n_classes", value: (n_iter * n_classes) as i64, reason: "exceeds usize" })
        } else if n_base < n_classes {
            Err(SklError::DimensionMismatch { tree: 0, field: base_field, expected: n_classes as usize, got: n_base })
        } else {
            Ok(())
        }
    } else if n_base == 0 {
        Err(SklError::DimensionMismatch { tree: 0, field: base_field, expected: 1, got: 0 })
    } else {
        Ok(())
    }
}

/// `m` is the metadata of a classifier with `n_features` features,
/// `n_iter` rounds and `n_classes` classes: binary (`sigmoid`, one output,
/// every tree of class 0, the first base score) or multi-class (`softmax`,
/// tree `t` of class `t % n_classes`, the first `n_classes` base scores).
pub open spec fn classifier_meta(m: ModelMeta, n_features: i32, n_iter: i32, n_classes: i32) -> bool {
    let n = classifier_tree_count(n_iter, n_classes);
    &&& m.num_feature == n_features
    &&& !m.average_tree_output
    &&& m.num_target == 1
    &&& m.leaf_vector_shape == (1i32, 1i32)
    &&& m.target_id@ == Seq::new(n as nat, |i: int| 0i32)
    &&& if n_classes > 2 {
        &&& m.task_type == TaskType::MultiClf
        &&& m.num_class@ == seq![n_classes]
        &&& m.class_id@ == Seq::new(n as nat, |t: int| (t % (n_classes as int)) as i32)
        &&& m.postprocessor == "softmax"
        &&& m.base_scores == BaseScores::Given(n_classes as usize)
    } else {
        &&& m.task_type == TaskType::BinaryClf
        &&& m.num_class@ == seq![1i32]
        &&& m.class_id@ == Seq::new(n as nat, |t: int| 0i32)
        &&& m.postprocessor == "sigmoid"
        &&& m.base_scores == BaseScores::Given(1)
    }
}

/// Check the header of a classifier (see [`classifier_header_spec`]) and
/// return its tree count.
pub fn classifier_header(n_iter: i32, n_features: i32, n_classes: i32, n_base: usize, base_field: &'static str) -> (r: Result<usize, SklError>)
    ensures
        r matches Err(e) ==> classifier_header_spec(n_iter, n_features, n_classes, n_base, base_field) == Err::<(), SklError>(e),
        r matches Ok(n) ==> classifier_header_spec(n_iter, n_features, n_classes, n_base, base_field) is Ok
            && n as int == classifier_tree_count(n_iter, n_classes),
{
    require_positive("n_iter", n_iter)?;
    require_positive("n_features", n_features)?;
    if n_classes < 2 {
        return Err(SklError::InvalidScalar { field: "n_classes", value: n_classes as i64, reason: "must be at least 2" });
    }
    if n_classes > 2 {
        assert((n_iter as u64) * (n_classes as u64) <= 0x7fff_ffff * 0x7fff_ffff) by (nonlinear_arith)
            requires
                1 <= n_iter <= 0x7fff_ffff,
                1 <= n_classes <= 0x7fff_ffff,
        ;
        let n_trees: u64 = (n_iter as u64) * (n_classes as u64);
        if n_trees > usize::MAX as u64 {
            return Err(SklError::InvalidScalar { field: "n_iter*n_classes", value: n_trees as i64, reason: "exceeds usize" });
        }
        if n_base < n_classes as usize {
            return Err(SklError::DimensionMismatch { tree: 0, field: base_field, expected: n_classes as usize, got: n_base });
        }
        Ok(n_trees as usize)
    } else {
        if n_base == 0 {
            return Err(SklError::DimensionMismatch { tree: 0, field: base_field, expected: 1, got: 0 });
        }
        Ok(n_iter as usize)
    }
}

/// The metadata of a classifier whose header was checked (see
/// [`classifier_meta`]).
pub fn classifier_metadata(n_iter: i32, n_features: i32, n_classes: i32, n_trees: usize) -> (m: ModelMeta)
    requires
        n_classes >= 2,
        n_trees as int == classifier_tree_count(n_iter, n_classes),
    ensures
        classifier_meta(m, n_features, n_iter, n_classes),
{
    if n_classes > 2 {
        ModelMeta {
            num_feature: n_features,
            task_type: TaskType::MultiClf,
            average_tree_output: false,
            num_target: 1,
            num_class: single(n_classes),
            leaf_vector_shape: (1, 1),
            target_id: filled(n_trees, 0),
            class_id: round_robin(n_trees, n_classes),
            postprocessor: "softmax",
            base_scores: BaseScores::Given(n_classes as usize),
        }
    } else {
        ModelMeta {
            num_feature: n_features,
            task_type: TaskType::BinaryClf,
            average_tree_output: false,
            num_target: 1,
            num_class: single(1),
            leaf_vector_shape: (1, 1),
            target_id: filled(n_trees, 0),
            class_id: filled(n_trees, 0),
            postprocessor: "sigmoid",
            base_scores: BaseScores::Given(1),
        }
    }
}

/// Validate a `GradientBoostingClassifier`: the header (see
/// [`classifier_header_spec`], base scores under `base_scores`), then the
/// trees, laid out round by round with one tree per class. Leaf values are
/// used as given. See [`classifier_meta`] for the metadata.
pub fn plan_gradient_boosting_classifier<F>(n_iter: i32, n_features: i32, n_classes: i32, a: &TreeArrays<F>, base_scores: &[F]) -> (r: Result<NodePlan, SklError>)
    ensures
        r matches Err(e) ==> match classifier_header_spec(n_iter, n_features, n_classes, base_scores@.len() as usize, "base_scores") {
            Err(he) => e == he,
            Ok(_) => node_trees_spec(*a, classifier_tree_count(n_iter, n_classes) as usize) == Err::<(), SklError>(e),
        },
        r matches Ok(p) ==> {
            &&& classifier_header_spec(n_iter, n_features, n_classes, base_scores@.len() as usize, "base_scores") is Ok
            &&& node_trees_spec(*a, classifier_tree_count(n_iter, n_classes) as usize) is Ok
            &&& trees_match(*a, classifier_tree_count(n_iter, n_classes) as usize, p.trees@)
            &&& classifier_meta(p.meta, n_features, n_iter, n_classes)
        },
{
    let n_trees = classifier_header(n_iter, n_features, n_classes, base_scores.len(), "base_scores")?;
    let trees = build_node_trees(n_trees, a)?;
    let meta = classifier_metadata(n_iter, n_features, n_classes, n_trees);
    Ok(NodePlan { meta, trees })
}

} // verus!
