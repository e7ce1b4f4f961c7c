//! RandomForest / ExtraTrees models: every tree's arrays are validated before
//! the trees are assembled in bulk, and the metadata is set by hand.

use vstd::prelude::*;
use crate::search::{first_failing, lemma_first_failing, lemma_seq_max, max_of, seq_max};
use crate::sklearn::arrays::{check_outers, lemma_no_mismatch, outer_spec, positive_spec, require_positive, tree_check_spec, validate_tree, node_ok};
use crate::sklearn::error::SklError;
use crate::sklearn::meta::{filled, BaseScores, ModelMeta};
use crate::task::TaskType;

verus! {

/// The per-tree parallel arrays of a scikit-learn tree ensemble, one slice of
/// each kind per tree. `F` is the floating-point type of the value arrays,
/// which are only counted here.
pub struct TreeArrays<'a, F> {
    pub node_count: &'a [i64],
    pub children_left: &'a [&'a [i64]],
    pub children_right: &'a [&'a [i64]],
    pub feature: &'a [&'a [i64]],
    pub threshold: &'a [&'a [F]],
    pub value: &'a [&'a [F]],
    pub n_node_samples: &'a [&'a [i64]],
    pub weighted_n_node_samples: &'a [&'a [F]],
    pub impurity: &'a [&'a [F]],
}

/// The number of per-tree arrays of each kind, in checking order.
pub open spec fn outer_dims<F>(a: TreeArrays<F>) -> Seq<(&'static str, usize)> {
    seq![
        ("node_count", a.node_count@.len() as usize),
        ("children_left", a.children_left@.len() as usize),
        ("children_right", a.children_right@.len() as usize),
        ("feature", a.feature@.len() as usize),
        ("threshold", a.threshold@.len() as usize),
        ("value", a.value@.len() as usize),
        ("n_node_samples", a.n_node_samples@.len() as usize),
        ("weighted_n_node_samples", a.weighted_n_node_samples@.len() as usize),
        ("impurity", a.impurity@.len() as usize),
    ]
}

/// Check that there is one array of each kind per tree.
pub fn check_tree_count<F>(a: &TreeArrays<F>, n_trees: usize) -> (r: Result<(), SklError>)
    ensures
        r == outer_spec(outer_dims(*a), n_trees),
        r is Ok ==> {
            &&& a.node_count@.len() == n_trees
            &&& a.children_left@.len() == n_trees
            &&& a.children_right@.len() == n_trees
            &&& a.feature@.len() == n_trees
            &&& a.threshold@.len() == n_trees
            &&& a.value@.len() == n_trees
            &&& a.n_node_samples@.len() == n_trees
            &&& a.weighted_n_node_samples@.len() == n_trees
            &&& a.impurity@.len() == n_trees
        },
{
    let dims = [
        ("node_count", a.node_count.len()),
        ("children_left", a.children_left.len()),
        ("children_right", a.children_right.len()),
        ("feature", a.feature.len()),
        ("threshold", a.threshold.len()),
        ("value", a.value.len()),
        ("n_node_samples", a.n_node_samples.len()),
        ("weighted_n_node_samples", a.weighted_n_node_samples.len()),
        ("impurity", a.impurity.len()),
    ];
    assert(dims@ =~= outer_dims(*a));
    let r = check_outers(&dims, n_trees);
    proof {
        if r is Ok {
            lemma_no_mismatch(dims@, n_trees as int, 0);
            assert(dims@[0].1 == n_trees);
            assert(dims@[1].1 == n_trees);
            assert(dims@[2].1 == n_trees);
            assert(dims@[3].1 == n_trees);
            assert(dims@[4].1 == n_trees);
            assert(dims@[5].1 == n_trees);
            assert(dims@[6].1 == n_trees);
            assert(dims@[7].1 == n_trees);
            assert(dims@[8].1 == n_trees);
        }
    }
    r
}

/// A validated tree of the bulk path: its node count and its total sample
/// count (`n_node_samples[0]`, or 0 for an empty tree).
#[derive(Debug, Clone, Copy, PartialEq, Eq, Structural)]
pub struct BulkTree {
    pub node_count: usize,
    pub total_sample_cnt: i64,
}

/// The arrays of tree `t` other than the child arrays, in checking order.
pub open spec fn bulk_dims<F>(a: TreeArrays<F>, t: int) -> Seq<(&'static str, usize)> {
    seq![
        ("feature", a.feature@[t]@.len() as usize),
        ("threshold", a.threshold@[t]@.len() as usize),
        ("n_node_samples", a.n_node_samples@[t]@.len() as usize),
        ("weighted_n_node_samples", a.weighted_n_node_samples@[t]@.len() as usize),
        ("impurity", a.impurity@[t]@.len() as usize),
    ]
}

/// Tree `t` of the bulk path: the tree check, then a `value` buffer of at
/// least `n * leaf_vector_size` entries (`n` for scalar leaves).
pub open spec fn bulk_tree_spec<F>(a: TreeArrays<F>, t: int, leaf_vector_size: int) -> Result<BulkTree, SklError> {
    match tree_check_spec(t as usize, a.node_count@[t], bulk_dims(a, t), a.children_left@[t]@, a.children_right@[t]@) {
        Err(e) => Err(e),
        Ok(n) => {
            let required = if leaf_vector_size > 1 { n * leaf_vector_size } else { n as int };
            if a.value@[t]@.len() < required {
                Err(SklError::ValueBufferTooShort { tree: t as usize, expected: required as usize, got: a.value@[t]@.len() as usize })
            } else {
                Ok(BulkTree { node_count: n, total_sample_cnt: if n > 0 { a.n_node_samples@[t]@[0] } else { 0 } })
            }
        },
    }
}

/// All trees of the bulk path: the tree count check, then each tree in order.
pub open spec fn bulk_trees_spec<F>(a: TreeArrays<F>, n_trees: usize, leaf_vector_size: int) -> Result<Seq<BulkTree>, SklError> {
    match outer_spec(outer_dims(a), n_trees) {
        Err(e) => Err(e),
        Ok(_) => match first_failing(|t: int| bulk_tree_spec(a, t, leaf_vector_size) is Err, 0, n_trees as int) {
            Some(t) => Err(bulk_tree_spec(a, t, leaf_vector_size)->Err_0),
            None => Ok(Seq::new(n_trees as nat, |t: int| bulk_tree_spec(a, t, leaf_vector_size)->Ok_0)),
        },
    }
}

/// Validate every tree of the bulk path (see [`bulk_trees_spec`]).
pub fn build_trees<F>(n_trees: usize, a: &TreeArrays<F>, leaf_vector_size: usize) -> (r: Result<Vec<BulkTree>, SklError>)
    requires
        leaf_vector_size <= 0x7fff_ffff,
    ensures
        r matches Ok(v) ==> bulk_trees_spec(*a, n_trees, leaf_vector_size as int) == Ok::<Seq<BulkTree>, SklError>(v@),
        r matches Err(e) ==> bulk_trees_spec(*a, n_trees, leaf_vector_size as int) == Err::<Seq<BulkTree>, SklError>(e),
{
    check_tree_count(a, n_trees)?;
    let ghost fails = |t: int| bulk_tree_spec(*a, t, leaf_vector_size as int) is Err;
    let mut out: Vec<BulkTree> = Vec::new();
    let mut t: usize = 0;
    while t < n_trees
        invariant
            t <= n_trees,
            leaf_vector_size <= 0x7fff_ffff,
            outer_spec(outer_dims(*a), n_trees) is Ok,
            a.node_count@.len() == n_trees,
            a.children_left@.len() == n_trees,
            a.children_right@.len() == n_trees,
            a.feature@.len() == n_trees,
            a.threshold@.len() == n_trees,
            a.value@.len() == n_trees,
            a.n_node_samples@.len() == n_trees,
            a.weighted_n_node_samples@.len() == n_trees,
            a.impurity@.len() == n_trees,
            fails == (|t: int| bulk_tree_spec(*a, t, leaf_vector_size as int) is Err),
            out@.len() == t,
            forall|k: int| 0 <= k < t ==> bulk_tree_spec(*a, k, leaf_vector_size as int) == Ok::<BulkTree, SklError>(#[trigger] out@[k]),
        decreases n_trees - t,
    {
        let dims = [
            ("feature", a.feature[t].len()),
            ("threshold", a.threshold[t].len()),
            ("n_node_samples", a.n_node_samples[t].len()),
            ("weighted_n_node_samples", a.weighted_n_node_samples[t].len()),
            ("impurity", a.impurity[t].len()),
        ];
        assert(dims@ =~= bulk_dims(*a, t as int));
        let checked = validate_tree(t, a.node_count[t], &dims, a.children_left[t], a.children_right[t]);
        let n = match checked {
            Ok(n) => n,
            Err(e) => {
                proof {
                    assert forall|k: int| 0 <= k < t implies !#[trigger] fails(k) by {
                        assert(bulk_tree_spec(*a, k, leaf_vector_size as int) == Ok::<BulkTree, SklError>(out@[k]));
                    }
                    lemma_first_failing(fails, 0, t as int, n_trees as int);
                }
                return Err(e);
            },
        };
        assert(dims@[2].1 == n);
        let required: u64 = if leaf_vector_size > 1 {
            assert((n as u64) * (leaf_vector_size as u64) <= 0x7fff_ffff * 0x7fff_ffff) by (nonlinear_arith)
                requires
                    n <= 0x7fff_ffff,
                    leaf_vector_size <= 0x7fff_ffff,
            ;
            (n as u64) * (leaf_vector_size as u64)
        } else {
            n as u64
        };
        if (a.value[t].len() as u64) < required {
            proof {
                assert forall|k: int| 0 <= k < t implies !#[trigger] fails(k) by {
                    assert(bulk_tree_spec(*a, k, leaf_vector_size as int) == Ok::<BulkTree, SklError>(out@[k]));
                }
                lemma_first_failing(fails, 0, t as int, n_trees as int);
            }
            return Err(SklError::ValueBufferTooShort { tree: t, expected: required as usize, got: a.value[t].len() });
        }
        let total_sample_cnt = if n > 0 { a.n_node_samples[t][0] } else { 0 };
        out.push(BulkTree { node_count: n, total_sample_cnt });
        t = t + 1;
    }
    proof {
        assert forall|k: int| 0 <= k < n_trees implies !#[trigger] fails(k) by {
            assert(bulk_tree_spec(*a, k, leaf_vector_size as int) == Ok::<BulkTree, SklError>(out@[k]));
        }
        lemma_first_failing(fails, 0, n_trees as int, n_trees as int);
    }
    assert(out@ =~= Seq::new(n_trees as nat, |t: int| bulk_tree_spec(*a, t, leaf_vector_size as int)->Ok_0));
    Ok(out)
}

/// A validated RandomForest / ExtraTrees model: its metadata and trees.
#[derive(Debug)]
pub struct ForestPlan {
    pub meta: ModelMeta,
    pub trees: Vec<BulkTree>,
}

/// The checks of a RandomForest / ExtraTrees regressor: `n_estimators`,
/// `n_features` and `n_targets` at least 1, then the trees (leaf vectors of
/// `n_targets` entries).
pub open spec fn rf_regressor_spec<F>(n_estimators: i32, n_features: i32, n_targets: i32, a: TreeArrays<F>) -> Result<Seq<BulkTree>, SklError> {
    if positive_spec("n_estimators", n_estimators) is Err {
        Err(positive_spec("n_estimators", n_estimators)->Err_0)
    } else if positive_spec("n_features", n_features) is Err {
        Err(positive_spec("n_features", n_features)->Err_0)
    } else if positive_spec("n_targets", n_targets) is Err {
        Err(positive_spec("n_targets", n_targets)->Err_0)
    } else {
        bulk_trees_spec(a, n_estimators as usize, n_targets as int)
    }
}

/// Validate a `RandomForestRegressor` / `ExtraTreesRegressor` (see
/// [`rf_regressor_spec`]) and set its metadata: a regressor averaging its
/// trees, `n_targets` targets of one class each, target id `-1` (all
/// targets) when there are several targets and `0` otherwise, the
/// `identity` postprocessor and `n_targets` zero base scores.
pub fn plan_random_forest_regressor<F>(n_estimators: i32, n_features: i32, n_targets: i32, a: &TreeArrays<F>) -> (r: Result<ForestPlan, SklError>)
    ensures
        r matches Err(e) ==> rf_regressor_spec(n_estimators, n_features, n_targets, *a) == Err::<Seq<BulkTree>, SklError>(e),
        r matches Ok(p) ==> {
            &&& rf_regressor_spec(n_estimators, n_features, n_targets, *a) == Ok::<Seq<BulkTree>, SklError>(p.trees@)
            &&& p.meta.num_feature == n_features
            &&& p.meta.task_type == TaskType::Regressor
            &&& p.meta.average_tree_output
            &&& p.meta.num_target == n_targets
            &&& p.meta.num_class@ == Seq::new(n_targets as nat, |i: int| 1i32)
            &&& p.meta.leaf_vector_shape == (n_targets, 1i32)
            &&& p.meta.target_id@ == Seq::new(n_estimators as nat, |i: int| if n_targets > 1 { -1i32 } else { 0i32 })
            &&& p.meta.class_id@ == Seq::new(n_estimators as nat, |i: int| 0i32)
            &&& p.meta.postprocessor == "identity"
            &&& p.meta.base_scores == BaseScores::Zeros(n_targets as usize)
        },
{
    require_positive("n_estimators", n_estimators)?;
    require_positive("n_features", n_features)?;
    require_positive("n_targets", n_targets)?;
    let trees = build_trees(n_estimators as usize, a, n_targets as usize)?;
    let meta = ModelMeta {
        num_feature: n_features,
        task_type: TaskType::Regressor,
        average_tree_output: true,
        num_target: n_targets,
        num_class: filled(n_targets as usize, 1),
        leaf_vector_shape: (n_targets, 1),
        target_id: filled(n_estimators as usize, if n_targets > 1 { -1 } else { 0 }),
        class_id: filled(n_estimators as usize, 0),
        postprocessor: "identity",
        base_scores: BaseScores::Zeros(n_targets as usize),
    };
    Ok(ForestPlan { meta, trees })
}

/// The number of classes of each target: one entry per target, each at
/// least 1.
pub open spec fn classes_spec(n_targets: i32, n_classes: Seq<i32>) -> Result<(), SklError> {
    if n_classes.len() != n_targets as int {
        Err(SklError::DimensionMismatch { tree: 0, field: "n_classes", expected: n_targets as usize, got: n_classes.len() as usize })
    } else {
        match first_failing(|i: int| n_classes[i] < 1, 0, n_classes.len() as int) {
            Some(i) => Err(SklError::InvalidScalar { field: "n_classes", value: n_classes[i] as i64, reason: "must be at least 1" }),
            None => Ok(()),
        }
    }
}

/// The checks of a RandomForest / ExtraTrees classifier: `n_estimators`,
/// `n_features` and `n_targets` at least 1, the class counts, then the trees
/// (leaf vectors of `n_targets * max(n_classes)` entries).
pub open spec fn rf_classifier_spec<F>(n_estimators: i32, n_features: i32, n_targets: i32, n_classes: Seq<i32>, a: TreeArrays<F>) -> Result<Seq<BulkTree>, SklError> {
    if positive_spec("n_estimators", n_estimators) is Err {
        Err(positive_spec("n_estimators", n_estimators)->Err_0)
    } else if positive_spec("n_features", n_features) is Err {
        Err(positive_spec("n_features", n_features)->Err_0)
    } else if positive_spec("n_targets", n_targets) is Err {
        Err(positive_spec("n_targets", n_targets)->Err_0)
    } else if classes_spec(n_targets, n_classes) is Err {
        Err(classes_spec(n_targets, n_classes)->Err_0)
    } else {
        bulk_trees_spec(a, n_estimators as usize, n_targets * seq_max(n_classes))
    }
}

/// Validate a `RandomForestClassifier` / `ExtraTreesClassifier` (see
/// [`rf_classifier_spec`]) and set its metadata: a multi-class classifier
/// averaging its trees, whose leaves hold a vector of `n_targets x
/// max(n_classes)` class scores broadcast to every target and class (target
/// and class id `-1`), with the `identity_multiclass` postprocessor and that
/// many zero base scores. A binary classifier is a multi-class one with two
/// classes.
pub fn plan_random_forest_classifier<F>(n_estimators: i32, n_features: i32, n_targets: i32, n_classes: &[i32], a: &TreeArrays<F>) -> (r: Result<ForestPlan, SklError>)
    requires
        n_classes@.len() == n_targets && n_targets >= 1 && (forall|i: int| 0 <= i < n_classes@.len() ==> n_classes@[i] >= 1)
            ==> n_targets * seq_max(n_classes@) <= 0x7fff_ffff,
    ensures
        r matches Err(e) ==> rf_classifier_spec(n_estimators, n_features, n_targets, n_classes@, *a) == Err::<Seq<BulkTree>, SklError>(e),
        r matches Ok(p) ==> {
            &&& rf_classifier_spec(n_estimators, n_features, n_targets, n_classes@, *a) == Ok::<Seq<BulkTree>, SklError>(p.trees@)
            &&& p.meta.num_feature == n_features
            &&& p.meta.task_type == TaskType::MultiClf
            &&& p.meta.average_tree_output
            &&& p.meta.num_target == n_targets
            &&& p.meta.num_class@ == n_classes@
            &&& p.meta.leaf_vector_shape == (n_targets, seq_max(n_classes@) as i32)
            &&& p.meta.target_id@ == Seq::new(n_estimators as nat, |i: int| -1i32)
            &&& p.meta.class_id@ == Seq::new(n_estimators as nat, |i: int| -1i32)
            &&& p.meta.postprocessor == "identity_multiclass"
            &&& p.meta.base_scores == BaseScores::Zeros((n_targets * seq_max(n_classes@)) as usize)
        },
{
    require_positive("n_estimators", n_estimators)?;
    require_positive("n_features", n_features)?;
    require_positive("n_targets", n_targets)?;
    if n_classes.len() != n_targets as usize {
        return Err(SklError::DimensionMismatch { tree: 0, field: "n_classes", expected: n_targets as usize, got: n_classes.len() });
    }
    let ghost fails = |i: int| n_classes@[i] < 1;
    let mut i: usize = 0;
    while i < n_classes.len()
        invariant
            i <= n_classes@.len(),
            fails == (|i: int| n_classes@[i] < 1),
            forall|k: int| 0 <= k < i ==> n_classes@[k] >= 1,
            n_estimators >= 1,
            n_features >= 1,
            n_targets >= 1,
            n_classes@.len() == n_targets,
        decreases n_classes@.len() - i,
    {
        let nc = n_classes[i];
        if nc < 1 {
            proof {
                lemma_first_failing(fails, 0, i as int, n_classes@.len() as int);
            }
            return Err(SklError::InvalidScalar { field: "n_classes", value: nc as i64, reason: "must be at least 1" });
        }
        i = i + 1;
    }
    proof {
        lemma_first_failing(fails, 0, n_classes@.len() as int, n_classes@.len() as int);
        lemma_seq_max(n_classes@);
    }
    let max_num_class = max_of(n_classes);
    let leaf_vector_size = n_targets * max_num_class;
    let trees = build_trees(n_estimators as usize, a, leaf_vector_size as usize)?;
    let mut num_class: Vec<i32> = Vec::new();
    let mut j: usize = 0;
    while j < n_classes.len()
        invariant
            j <= n_classes@.len(),
            num_class@ == n_classes@.subrange(0, j as int),
        decreases n_classes@.len() - j,
    {
        num_class.push(n_classes[j]);
        j = j + 1;
        assert(num_class@ =~= n_classes@.subrange(0, j as int));
    }
    assert(num_class@ =~= n_classes@);
    let meta = ModelMeta {
        num_feature: n_features,
        task_type: TaskType::MultiClf,
        average_tree_output: true,
        num_target: n_targets,
        num_class,
        leaf_vector_shape: (n_targets, max_num_class),
        target_id: filled(n_estimators as usize, -1),
        class_id: filled(n_estimators as usize, -1),
        postprocessor: "identity_multiclass",
        base_scores: BaseScores::Zeros(leaf_vector_size as usize),
    };
    Ok(ForestPlan { meta, trees })
}

} // verus!
