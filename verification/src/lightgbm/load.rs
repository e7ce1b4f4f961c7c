//! Everything `load_lightgbm` decides before a model is built: the header
//! scalars checked, the objective canonicalized and mapped to its
//! postprocessor, the task type derived, the per-tree class ids assigned round
//! robin, and the node plan of every tree.

use vstd::prelude::*;
use crate::lightgbm::error::{DetailModel, ErrorModel, LgbError, ParseDetail, ParseLocation};
use crate::lightgbm::objective::{alpha_rejected, canonical_objective, canonical_objective_spec, map_objective, postprocessor_for, sigmoid_param, ObjectivePostproc, SigmoidAlpha};
use crate::lightgbm::parse::{parse_lightgbm, parse_model_spec, tree_wf, LGBModel, ModelSpec, TreeModel};
use crate::lightgbm::plan::{plan_tree, plan_tree_spec, PlanNode, node_in_bounds};
use crate::task::TaskType;
use crate::text::{opt_view, str_eq};

verus! {

/// A global scalar that must not be negative.
fn require_non_negative(field: &'static str, value: i32) -> (r: Result<i32, LgbError>)
    ensures
        value >= 0 ==> r == Ok::<i32, LgbError>(value),
        value < 0 ==> r == Err::<i32, LgbError>(LgbError::Parse {
            line: ParseLocation::Global,
            detail: ParseDetail::NegativeScalar { field, value },
        }),
{
    if value < 0 {
        return Err(LgbError::Parse { line: ParseLocation::Global, detail: ParseDetail::NegativeScalar { field, value } });
    }
    Ok(value)
}

/// The task type of a model with `num_class` classes and the canonical
/// objective `canonical`: more than one class needs a multiclass objective;
/// otherwise `binary`/`cross_entropy`/`cross_entropy_lambda` classify,
/// `lambdarank`/`rank_xendcg` rank, and anything else regresses.
pub open spec fn task_type_spec(num_class: int, canonical: Seq<char>) -> Option<TaskType> {
    if num_class > 1 {
        if canonical == "multiclass"@ || canonical == "multiclassova"@ {
            Some(TaskType::MultiClf)
        } else {
            None
        }
    } else if canonical == "binary"@ || canonical == "cross_entropy"@ || canonical == "cross_entropy_lambda"@ {
        Some(TaskType::BinaryClf)
    } else if canonical == "lambdarank"@ || canonical == "rank_xendcg"@ {
        Some(TaskType::LearningToRank)
    } else {
        Some(TaskType::Regressor)
    }
}

/// Derive the task type (see [`task_type_spec`]); a non-multiclass objective
/// with more than one class is an error.
fn task_type_for(num_class: i32, canonical: &'static str) -> (r: Result<TaskType, LgbError>)
    ensures
        r matches Ok(t) ==> task_type_spec(num_class as int, canonical@) == Some(t),
        r matches Err(e) ==> task_type_spec(num_class as int, canonical@) is None && e == (LgbError::Parse {
            line: ParseLocation::Global,
            detail: ParseDetail::NotMulticlass { objective: canonical, num_class },
        }),
{
    if num_class > 1 {
        if !str_eq(canonical, "multiclass") && !str_eq(canonical, "multiclassova") {
            return Err(LgbError::Parse {
                line: ParseLocation::Global,
                detail: ParseDetail::NotMulticlass { objective: canonical, num_class },
            });
        }
        Ok(TaskType::MultiClf)
    } else if str_eq(canonical, "binary") || str_eq(canonical, "cross_entropy") || str_eq(canonical, "cross_entropy_lambda") {
        Ok(TaskType::BinaryClf)
    } else if str_eq(canonical, "lambdarank") || str_eq(canonical, "rank_xendcg") {
        Ok(TaskType::LearningToRank)
    } else {
        Ok(TaskType::Regressor)
    }
}

/// The decisions on the header of a parsed model.
pub struct HeaderSpec {
    pub num_class: int,
    pub num_feature: int,
    pub canonical: Seq<char>,
    pub postprocessor: Seq<char>,
    pub sigmoid_from_param: bool,
    pub task_type: TaskType,
}

/// The header decisions of the parsed model `m`, or the first error: a
/// negative `num_class`; `max_feature_idx + 1` overflowing `i32`; a negative
/// feature count; an objective name LightGBM does not define; a canonical
/// objective with no postprocessor; `binary` or `multiclassova` whose
/// `sigmoid:<a>` parameter is missing or reads as non-positive (see
/// [`alpha_rejected`]); more than one class with an objective that is not
/// multiclass.
pub open spec fn header_decisions(m: ModelSpec) -> Result<HeaderSpec, ErrorModel> {
    let nc = m.num_class;
    let nf = m.max_feature_idx + 1;
    if nc < 0 {
        Err(ErrorModel::Parse {
            line: ParseLocation::Global,
            detail: DetailModel::NegativeScalar { field: "num_class", value: nc },
        })
    } else if nf > 0x7fff_ffff {
        Err(ErrorModel::Parse {
            line: ParseLocation::Global,
            detail: DetailModel::FeatureCountOverflow { max_feature_idx: m.max_feature_idx },
        })
    } else if nf < 0 {
        Err(ErrorModel::Parse {
            line: ParseLocation::Global,
            detail: DetailModel::NegativeScalar { field: "num_feature", value: nf },
        })
    } else {
        match canonical_objective_spec(m.objective_name) {
            None => Err(ErrorModel::UnrecognizedObjective(m.objective_name)),
            Some(c) => match postprocessor_for(c, m.objective_params) {
                None => Err(ErrorModel::UnrecognizedObjective(c)),
                Some(pp) => if pp.1 && alpha_rejected(sigmoid_param(m.objective_params)) {
                    Err(ErrorModel::InvalidSigmoidAlpha { objective: c, alpha: sigmoid_param(m.objective_params) })
                } else {
                    match task_type_spec(nc, c) {
                        None => Err(ErrorModel::Parse {
                            line: ParseLocation::Global,
                            detail: DetailModel::NotMulticlass { objective: c, num_class: nc },
                        }),
                        Some(tt) => Ok(HeaderSpec {
                            num_class: nc,
                            num_feature: nf,
                            canonical: c,
                            postprocessor: pp.0,
                            sigmoid_from_param: pp.1,
                            task_type: tt,
                        }),
                    }
                },
            },
        }
    }
}

/// The first tree from index `i` on whose plan fails.
pub open spec fn first_bad_plan(ts: Seq<TreeModel>, i: int) -> Option<int>
    decreases ts.len() - i,
{
    if i >= ts.len() {
        None
    } else if plan_tree_spec(ts[i], i) is Err {
        Some(i)
    } else {
        first_bad_plan(ts, i + 1)
    }
}

/// The plans of all trees, or the error of the first tree that fails.
pub open spec fn tree_plans_spec(ts: Seq<TreeModel>) -> Result<Seq<Seq<PlanNode>>, ErrorModel> {
    match first_bad_plan(ts, 0) {
        Some(i) => Err(plan_tree_spec(ts[i], i)->Err_0),
        None => Ok(Seq::new(ts.len(), |i: int| plan_tree_spec(ts[i], i)->Ok_0)),
    }
}

proof fn lemma_first_bad_plan(ts: Seq<TreeModel>, i: int, j: int)
    requires
        0 <= i <= j <= ts.len(),
        forall|m: int| i <= m < j ==> plan_tree_spec(#[trigger] ts[m], m) is Ok,
    ensures
        first_bad_plan(ts, i) == first_bad_plan(ts, j),
    decreases j - i,
{
    if i < j {
        lemma_first_bad_plan(ts, i + 1, j);
    }
}

/// Everything needed to build a LightGBM model: the parsed model, the
/// metadata of the builder and the node plan of every tree.
#[derive(Debug)]
pub struct LoadPlan {
    /// The parsed model (leaf values, thresholds and gains are read from it).
    pub model: LGBModel,
    /// `max_feature_idx + 1`.
    pub num_feature: i32,
    /// `num_class`.
    pub num_class: i32,
    /// The task type.
    pub task_type: TaskType,
    /// Whether tree outputs are averaged (the `average_output` key is present).
    pub average_tree_output: bool,
    /// The number of targets (always 1).
    pub num_target: i32,
    /// The shape of each leaf output (always `(1, 1)`).
    pub leaf_vector_shape: (i32, i32),
    /// The target of each tree (always 0).
    pub target_id: Vec<i32>,
    /// The class of each tree: tree `i` belongs to class `i % max(num_class, 1)`.
    pub class_id: Vec<i32>,
    /// The postprocessor name.
    pub postprocessor: &'static str,
    /// Where `sigmoid_alpha` comes from.
    pub sigmoid_alpha: SigmoidAlpha,
    /// The number of base scores, all zero: `max(num_class, 1)`.
    pub base_score_count: usize,
    /// The node plan of each tree.
    pub trees: Vec<Vec<PlanNode>>,
}

/// `max(num_class, 1)`.
pub open spec fn class_modulus(num_class: int) -> int {
    if num_class > 1 { num_class } else { 1 }
}

/// `p` holds the decisions `h` and the plans `ps` for the parsed model `m`.
pub open spec fn plan_matches(p: LoadPlan, m: ModelSpec, h: HeaderSpec, ps: Seq<Seq<PlanNode>>) -> bool {
    let n = m.trees.len();
    &&& p.model.model() == m
    &&& p.num_feature as int == h.num_feature
    &&& p.num_class as int == h.num_class
    &&& p.task_type == h.task_type
    &&& p.average_tree_output == m.average_output
    &&& p.num_target == 1
    &&& p.leaf_vector_shape == (1i32, 1i32)
    &&& p.target_id@ == Seq::new(n, |i: int| 0i32)
    &&& p.class_id@.len() == n
    &&& (forall|i: int| 0 <= i < n ==> #[trigger] p.class_id@[i] as int == i % class_modulus(h.num_class))
    &&& p.postprocessor@ == h.postprocessor
    &&& (if h.sigmoid_from_param {
        p.sigmoid_alpha matches SigmoidAlpha::FromParam(a) && sigmoid_param(m.objective_params) == Some(a@)
    } else {
        p.sigmoid_alpha == SigmoidAlpha::One
    })
    &&& p.base_score_count as int == class_modulus(h.num_class)
    &&& p.trees@.len() == n
    &&& (forall|i: int| 0 <= i < n ==> (#[trigger] p.trees@[i])@ == ps[i])
}

/// Decide everything `load_lightgbm` needs before building: parse the text
/// (see [`parse_model_spec`]), check the header and resolve the objective (see
/// [`header_decisions`]), then plan every tree in order (see
/// [`crate::lightgbm::plan::plan_tree_spec`]). The first failing stage gives
/// the error. In a returned plan every tree has the shape the parser
/// guarantees and every node refers only to indices within its tree's arrays.
pub fn plan_lightgbm(model_str: &str) -> (r: Result<LoadPlan, LgbError>)
    ensures
        match parse_model_spec(model_str@) {
            Err(pe) => r matches Err(e) && e.model() == (ErrorModel::Parse { line: pe.0, detail: pe.1 }),
            Ok(m) => match header_decisions(m) {
                Err(he) => r matches Err(e) && e.model() == he,
                Ok(h) => match tree_plans_spec(m.trees) {
                    Err(te) => r matches Err(e) && e.model() == te,
                    Ok(ps) => r matches Ok(p) && plan_matches(p, m, h, ps),
                },
            },
        },
        r matches Ok(p) ==> forall|i: int| 0 <= i < p.model.trees@.len() ==> tree_wf(#[trigger] p.model.trees@[i]),
        r matches Ok(p) ==> forall|i: int, j: int|
            0 <= i < p.trees@.len() && 0 <= j < p.trees@[i]@.len() ==> node_in_bounds(p.model.trees@[i], #[trigger] p.trees@[i]@[j]),
{
    let parsed = parse_lightgbm(model_str)?;
    let ghost m = parsed.model();
    let num_class = require_non_negative("num_class", parsed.num_class)?;
    let max_feature_idx = parsed.max_feature_idx;
    if max_feature_idx == 0x7fff_ffff {
        return Err(LgbError::Parse {
            line: ParseLocation::Global,
            detail: ParseDetail::FeatureCountOverflow { max_feature_idx },
        });
    }
    let num_feature = require_non_negative("num_feature", max_feature_idx + 1)?;
    let canonical = canonical_objective(parsed.objective_name.as_str())?;
    let postproc = map_objective(canonical, parsed.objective_params.as_slice())?;
    let task_type = task_type_for(num_class, canonical)?;
    let ghost h = header_decisions(m)->Ok_0;
    let num_tree = parsed.trees.len();
    let modulus: i32 = if num_class > 1 { num_class } else { 1 };
    let mut class_id: Vec<i32> = Vec::new();
    let mut target_id: Vec<i32> = Vec::new();
    let mut plans: Vec<Vec<PlanNode>> = Vec::new();
    let mut i: usize = 0;
    while i < num_tree
        invariant
            i <= num_tree == parsed.trees@.len(),
            m == parsed.model(),
            parse_model_spec(model_str@) == Ok::<ModelSpec, (ParseLocation, DetailModel)>(m),
            header_decisions(m) == Ok::<HeaderSpec, ErrorModel>(h),
            1 <= modulus,
            modulus as int == class_modulus(num_class as int),
            class_id@.len() == i,
            target_id@.len() == i,
            plans@.len() == i,
            forall|j: int| 0 <= j < i ==> #[trigger] class_id@[j] as int == j % (modulus as int),
            forall|j: int| 0 <= j < i ==> #[trigger] target_id@[j] == 0i32,
            forall|j: int| 0 <= j < parsed.trees@.len() ==> tree_wf(#[trigger] parsed.trees@[j]),
            forall|j: int| 0 <= j < i ==> plan_tree_spec(#[trigger] m.trees[j], j) == Ok::<Seq<PlanNode>, ErrorModel>(plans@[j]@),
            forall|j: int, k: int|
                0 <= j < i && 0 <= k < plans@[j]@.len() ==> node_in_bounds(parsed.trees@[j], #[trigger] plans@[j]@[k]),
        decreases num_tree - i,
    {
        assert(m.trees[i as int] == parsed.trees@[i as int].model());
        let plan = match plan_tree(i, &parsed.trees[i]) {
            Ok(p) => p,
            Err(e) => {
                proof {
                    lemma_first_bad_plan(m.trees, 0, i as int);
                    assert(first_bad_plan(m.trees, i as int) == Some(i as int));
                }
                return Err(e);
            },
        };
        plans.push(plan);
        class_id.push((i % (modulus as usize)) as i32);
        target_id.push(0);
        i = i + 1;
    }
    proof {
        lemma_first_bad_plan(m.trees, 0, m.trees.len() as int);
    }
    let p = LoadPlan {
        num_feature,
        num_class,
        task_type,
        average_tree_output: parsed.average_output,
        num_target: 1,
        leaf_vector_shape: (1, 1),
        target_id,
        class_id,
        postprocessor: postproc.postprocessor,
        sigmoid_alpha: postproc.sigmoid_alpha,
        base_score_count: modulus as usize,
        trees: plans,
        model: parsed,
    };
    assert(p.target_id@ =~= Seq::new(num_tree as nat, |i: int| 0i32));
    Ok(p)
}

} // verus!
