use treelite_rs::lightgbm::bitset::bitset_to_list;
use treelite_rs::lightgbm::error::{BitsetFault, LgbError, ParseDetail, ParseLocation};
use treelite_rs::lightgbm::load::plan_lightgbm;
use treelite_rs::lightgbm::objective::{canonical_objective, map_objective, SigmoidAlpha};
use treelite_rs::lightgbm::parse::parse_lightgbm;
use treelite_rs::lightgbm::plan::{plan_tree, DefaultLeft, PlanNode};
use treelite_rs::task::TaskType;

fn params(s: &[&str]) -> Vec<String> {
    s.iter().map(|x| x.to_string()).collect()
}

#[test]
fn empty_bitset_yields_no_categories() {
    assert_eq!(bitset_to_list(&[]), Vec::<u32>::new());
}

#[test]
fn single_word_lsb_first_order() {
    assert_eq!(bitset_to_list(&[0b1011]), vec![0, 1, 3]);
}

#[test]
fn high_bit_of_first_word() {
    assert_eq!(bitset_to_list(&[1u32 << 31]), vec![31]);
}

#[test]
fn second_word_offsets_by_32() {
    assert_eq!(bitset_to_list(&[0, 0b1]), vec![32]);
    assert_eq!(bitset_to_list(&[0, 1u32 << 5]), vec![37]);
}

#[test]
fn reference_two_word_bitset_exact() {
    let bits = [(1u32 << 2) | (1u32 << 4), 0b11];
    assert_eq!(bitset_to_list(&bits), vec![2, 4, 32, 33]);
}

#[test]
fn all_bits_set_single_word() {
    let got = bitset_to_list(&[u32::MAX]);
    let expected: Vec<u32> = (0..32).collect();
    assert_eq!(got, expected);
}

#[test]
fn canonical_collapses_aliases() {
    assert_eq!(canonical_objective("l2_root").unwrap(), "regression");
    assert_eq!(canonical_objective("mse").unwrap(), "regression");
    assert_eq!(canonical_objective("softmax").unwrap(), "multiclass");
    assert_eq!(canonical_objective("xentropy").unwrap(), "cross_entropy");
    assert_eq!(canonical_objective("binary").unwrap(), "binary");
}

#[test]
fn canonical_rejects_unknown() {
    assert!(matches!(canonical_objective("not_an_objective"), Err(LgbError::UnrecognizedObjective(_))));
}

#[test]
fn canonical_is_idempotent_on_every_alias() {
    for name in [
        "regression", "regression_l2", "l2", "mean_squared_error", "mse", "l2_root", "root_mean_squared_error", "rmse",
        "regression_l1", "l1", "mean_absolute_error", "mae", "mape", "mean_absolute_percentage_error", "multiclass",
        "softmax", "multiclassova", "multiclass_ova", "ova", "ovr", "cross_entropy", "xentropy", "cross_entropy_lambda",
        "xentlambda", "rank_xendcg", "xendcg", "xe_ndcg", "xe_ndcg_mart", "xendcg_mart", "huber", "fair", "poisson",
        "quantile", "gamma", "tweedie", "binary", "lambdarank", "custom",
    ] {
        let c = canonical_objective(name).unwrap();
        assert_eq!(canonical_objective(c).unwrap(), c);
        assert!(map_objective(c, &params(&["sigmoid:1"])).is_ok(), "{c} has a postprocessor");
    }
}

#[test]
fn multiclass_maps_to_softmax() {
    let p = map_objective("multiclass", &[]).unwrap();
    assert_eq!(p.postprocessor, "softmax");
}

#[test]
fn binary_maps_to_sigmoid_with_alpha() {
    let p = map_objective("binary", &params(&["sigmoid:1.5"])).unwrap();
    assert_eq!(p.postprocessor, "sigmoid");
    match p.sigmoid_alpha {
        SigmoidAlpha::FromParam(a) => assert_eq!(a.parse::<f64>().unwrap(), 1.5),
        other => panic!("expected a sigmoid parameter, got {other:?}"),
    }
}

#[test]
fn binary_without_sigmoid_param_is_rejected() {
    assert_eq!(
        map_objective("binary", &[]).unwrap_err(),
        LgbError::InvalidSigmoidAlpha { objective: "binary".to_string(), alpha: None }
    );
    assert_eq!(
        map_objective("multiclassova", &params(&["sigmoid:abc"])).unwrap_err(),
        LgbError::InvalidSigmoidAlpha { objective: "multiclassova".to_string(), alpha: None }
    );
    let p = map_objective("multiclassova", &params(&["num_class:3", "sigmoid:2"])).unwrap();
    assert_eq!(p.postprocessor, "multiclass_ova");
    assert_eq!(p.sigmoid_alpha, SigmoidAlpha::FromParam("2".to_string()));
}

#[test]
fn binary_rejects_nonpositive_alpha() {
    assert!(matches!(
        map_objective("binary", &params(&["sigmoid:0"])),
        Err(LgbError::InvalidSigmoidAlpha { .. })
    ));
    assert!(matches!(map_objective("binary", &[]), Err(LgbError::InvalidSigmoidAlpha { .. })));
}

#[test]
fn sigmoid_alpha_sign_zero_nan_and_underflow() {
    let rejected = |a: &str| match map_objective("binary", &params(&[&format!("sigmoid:{a}")])) {
        Err(LgbError::InvalidSigmoidAlpha { objective, alpha }) => {
            assert_eq!(objective, "binary");
            assert_eq!(alpha.as_deref(), Some(a));
            true
        }
        Ok(p) => {
            assert_eq!(p.sigmoid_alpha, SigmoidAlpha::FromParam(a.to_string()));
            false
        }
        Err(e) => panic!("unexpected error {e:?}"),
    };
    for a in ["0", "-0", "+0.000", ".0e5", "-1.5", "-inf", "NaN", "-nan", "1e-400", "0.0001e-321", "9e-325"] {
        assert!(rejected(a), "{a} should be rejected");
    }
    for a in ["1", "+2.5", "inf", "Infinity", "1e-323", "0.01e-321", "1e400", "000.5"] {
        assert!(!rejected(a), "{a} should be accepted");
    }
    // In [1e-324, 1e-323) only the floating-point reading decides; the library passes it on.
    assert!(!rejected("3e-324"));
    // Every rejected text reads as a value that is not positive, and every accepted one
    // outside that band as a positive value.
    for a in ["0", "-0", "-1.5", "NaN", "1e-400", "9e-325"] {
        assert!(!(a.parse::<f64>().unwrap() > 0.0));
    }
    for a in ["1", "inf", "1e-323", "0.01e-321", "000.5"] {
        assert!(a.parse::<f64>().unwrap() > 0.0);
    }
}

#[test]
fn binary_model_without_sigmoid_param_is_rejected_before_trees() {
    let text = TWO_LEAF.replace("objective=binary sigmoid:1", "objective=binary").replace("num_leaves=2", "num_leaves=0");
    assert_eq!(
        plan_lightgbm(&text).unwrap_err(),
        LgbError::InvalidSigmoidAlpha { objective: "binary".to_string(), alpha: None }
    );
    let text = TWO_LEAF.replace("objective=binary sigmoid:1", "objective=binary sigmoid:-2");
    assert_eq!(
        plan_lightgbm(&text).unwrap_err(),
        LgbError::InvalidSigmoidAlpha { objective: "binary".to_string(), alpha: Some("-2".to_string()) }
    );
}

#[test]
fn cross_entropy_maps_to_sigmoid_alpha_one() {
    let p = map_objective("cross_entropy", &[]).unwrap();
    assert_eq!(p.postprocessor, "sigmoid");
    assert_eq!(p.sigmoid_alpha, SigmoidAlpha::One);
}

#[test]
fn count_family_maps_to_exponential() {
    for obj in ["poisson", "gamma", "tweedie"] {
        assert_eq!(map_objective(obj, &[]).unwrap().postprocessor, "exponential");
    }
}

#[test]
fn regression_maps_to_identity_or_signed_square() {
    assert_eq!(map_objective("regression", &[]).unwrap().postprocessor, "identity");
    assert_eq!(map_objective("regression", &params(&["sqrt"])).unwrap().postprocessor, "signed_square");
}

#[test]
fn unknown_canonical_name_is_unrecognized() {
    assert!(matches!(map_objective("l2", &[]), Err(LgbError::UnrecognizedObjective(s)) if s == "l2"));
}

const TWO_LEAF: &str = "version=v4\nnum_class=1\nmax_feature_idx=2\nobjective=binary sigmoid:1\naverage_output\n\nTree=0\nnum_leaves=2\nnum_cat=0\nsplit_feature=1\nthreshold=0.5\ndecision_type=2\nleft_child=-1\nright_child=-2\nleaf_value=-0.25 0.75\nleaf_count=3 4\ninternal_count=7\nsplit_gain=1.5\n\nend of trees\n";

#[test]
fn parses_header_objective_and_tree_fields() {
    let m = parse_lightgbm(TWO_LEAF).unwrap();
    assert_eq!(m.max_feature_idx, 2);
    assert_eq!(m.num_class, 1);
    assert!(m.average_output);
    assert_eq!(m.objective_name, "binary");
    assert_eq!(m.objective_params, vec!["sigmoid:1".to_string()]);
    assert_eq!(m.trees.len(), 1);
    let t = &m.trees[0];
    assert_eq!(t.num_leaves, 2);
    assert_eq!(t.leaf_value, vec!["-0.25".to_string(), "0.75".to_string()]);
    assert_eq!(t.threshold, vec!["0.5".to_string()]);
    assert_eq!(t.split_feature, vec![1]);
    assert_eq!(t.decision_type, vec![2]);
    assert_eq!(t.left_child, vec![-1]);
    assert_eq!(t.right_child, vec![-2]);
    assert_eq!(t.leaf_count, vec![3, 4]);
    assert_eq!(t.internal_count, vec![7]);
    assert_eq!(t.split_gain, vec!["1.5".to_string()]);
}

#[test]
fn absent_objective_is_custom_and_value_keeps_later_equals() {
    let m = parse_lightgbm("num_class=1\nmax_feature_idx=0\nfeature_infos=[0:100]=x\n").unwrap();
    assert_eq!(m.objective_name, "custom");
    assert!(m.objective_params.is_empty());
    assert!(!m.average_output);
    assert!(m.trees.is_empty());
}

#[test]
fn later_duplicate_key_wins() {
    let m = parse_lightgbm("num_class=1\nnum_class=3\nmax_feature_idx=0\n").unwrap();
    assert_eq!(m.num_class, 3);
}

#[test]
fn malformed_count_returns_typed_error_not_oob() {
    let bad = "num_class=1\nmax_feature_idx=0\nobjective=regression\nTree=0\nnum_leaves=4\nnum_cat=0\nleaf_value=1 2\n";
    let err = parse_lightgbm(bad).unwrap_err();
    assert!(matches!(err, LgbError::Parse { .. }), "got {err:?}");
    assert_eq!(
        err,
        LgbError::Parse {
            line: ParseLocation::Tree(0),
            detail: ParseDetail::TooFewEntries { field: "leaf_value", expected: 4, found: 2 },
        }
    );
}

#[test]
fn missing_required_global_key_errors() {
    let bad = "num_class=1\nobjective=regression\n";
    assert!(matches!(parse_lightgbm(bad), Err(LgbError::Parse { .. })));
    assert_eq!(
        parse_lightgbm(bad).unwrap_err(),
        LgbError::Parse { line: ParseLocation::Global, detail: ParseDetail::MissingKey { key: "max_feature_idx" } }
    );
}

#[test]
fn bad_number_names_field_and_token() {
    let bad = "num_class=one\nmax_feature_idx=0\n";
    assert_eq!(
        parse_lightgbm(bad).unwrap_err(),
        LgbError::Parse {
            line: ParseLocation::Global,
            detail: ParseDetail::CannotParseNumber { field: "num_class", token: "one".to_string() },
        }
    );
}

#[test]
fn negative_num_leaves_is_rejected() {
    let bad = "num_class=1\nmax_feature_idx=0\nTree=0\nnum_leaves=-1\nnum_cat=0\n";
    assert_eq!(
        parse_lightgbm(bad).unwrap_err(),
        LgbError::Parse { line: ParseLocation::Tree(0), detail: ParseDetail::NegativeNumLeaves { num_leaves: -1 } }
    );
}

#[test]
fn unknown_objective_is_typed_error_not_panic() {
    let bad = "num_class=1\nmax_feature_idx=0\nobjective=not_real\nTree=0\nnum_leaves=1\nnum_cat=0\nleaf_value=1\n";
    assert!(matches!(plan_lightgbm(bad), Err(LgbError::UnrecognizedObjective(_))));
}

#[test]
fn single_leaf_constant_tree_loads() {
    let m = "num_class=1\nmax_feature_idx=0\nobjective=regression\nTree=0\nnum_leaves=1\nnum_cat=0\nleaf_value=7.5\n";
    let plan = plan_lightgbm(m).expect("load single-leaf tree");
    assert_eq!(plan.trees.len(), 1);
    assert_eq!(plan.trees[0], vec![PlanNode::Leaf { new_id: 1, leaf_index: 0, data_count: None }]);
    assert_eq!(plan.model.trees[0].leaf_value[0].parse::<f64>().unwrap(), 7.5);
    assert_eq!(plan.task_type, TaskType::Regressor);
    assert_eq!(plan.postprocessor, "identity");
    assert_eq!(plan.num_feature, 1);
    assert_eq!(plan.class_id, vec![0]);
}

#[test]
fn two_leaf_tree_is_renumbered_right_child_first() {
    let plan = plan_lightgbm(TWO_LEAF).unwrap();
    assert_eq!(plan.task_type, TaskType::BinaryClf);
    assert_eq!(plan.postprocessor, "sigmoid");
    assert!(plan.average_tree_output);
    assert_eq!(plan.num_feature, 3);
    assert_eq!(plan.base_score_count, 1);
    assert_eq!(
        plan.trees[0],
        vec![
            PlanNode::Numerical {
                new_id: 1,
                old_id: 0,
                split_index: 1,
                default_left: DefaultLeft::ZeroTestedAgainstThreshold,
                left: 2,
                right: 3,
                data_count: Some(7),
                has_gain: true,
            },
            PlanNode::Leaf { new_id: 3, leaf_index: 1, data_count: Some(4) },
            PlanNode::Leaf { new_id: 2, leaf_index: 0, data_count: Some(3) },
        ]
    );
}

#[test]
fn nan_missing_type_keeps_default_left_flag() {
    // decision_type 10 = missing type NaN (8) | default-left (2).
    let text = TWO_LEAF.replace("decision_type=2", "decision_type=10");
    let plan = plan_lightgbm(&text).unwrap();
    match plan.trees[0][0] {
        PlanNode::Numerical { default_left, .. } => assert_eq!(default_left, DefaultLeft::Flag(true)),
        other => panic!("expected a split, got {other:?}"),
    }
}

fn categorical(threshold: &str, boundaries: &str, bitsets: &str) -> String {
    TWO_LEAF
        .replace("num_cat=0", &format!("num_cat=2\ncat_boundaries={boundaries}\ncat_threshold={bitsets}"))
        .replace("decision_type=2", "decision_type=1")
        .replace("threshold=0.5", &format!("threshold={threshold}"))
}

#[test]
fn categorical_split_locates_its_bitset() {
    let text = categorical("1", "0 1 3", "5 9 2");
    let plan = plan_lightgbm(&text).unwrap();
    let node = plan.trees[0][0];
    assert_eq!(
        node,
        PlanNode::Categorical {
            new_id: 1,
            old_id: 0,
            split_index: 1,
            left: 2,
            right: 3,
            data_count: Some(7),
            has_gain: true,
            cat_begin: 1,
            cat_end: 3,
        }
    );
    let tree = &plan.model.trees[0];
    assert_eq!(bitset_to_list(&tree.cat_threshold[1..3]), vec![0, 3, 33]);
    let plan = plan_lightgbm(&categorical("0.000", "0 1 3", "5 9 2")).unwrap();
    assert!(matches!(plan.trees[0][0], PlanNode::Categorical { cat_begin: 0, cat_end: 1, .. }));
}

#[test]
fn malformed_categorical_splits_are_typed_errors() {
    let err = |t: &str, b: &str, c: &str| plan_lightgbm(&categorical(t, b, c)).unwrap_err();
    assert_eq!(err("0.5", "0 1 3", "5 9 2"), LgbError::Bitset { tree: 0, node: 0, fault: BitsetFault::IndexNotInteger });
    assert_eq!(err("-1", "0 1 3", "5 9 2"), LgbError::Bitset { tree: 0, node: 0, fault: BitsetFault::IndexNotInteger });
    assert_eq!(
        err("2", "0 1 3", "5 9 2"),
        LgbError::Bitset { tree: 0, node: 0, fault: BitsetFault::IndexOutOfRange { num_boundaries: 3 } }
    );
    assert_eq!(
        err("99999999999999999999999", "0 1 3", "5 9 2"),
        LgbError::Bitset { tree: 0, node: 0, fault: BitsetFault::IndexOutOfRange { num_boundaries: 3 } }
    );
    assert_eq!(
        err("0", "2 1 3", "5 9 2"),
        LgbError::Bitset { tree: 0, node: 0, fault: BitsetFault::BoundariesDecreasing { begin: 2, end: 1 } }
    );
    assert_eq!(
        err("0", "0 4 3", "5 9 2"),
        LgbError::Bitset { tree: 0, node: 0, fault: BitsetFault::PastThreshold { end: 4, len: 3 } }
    );
}

#[test]
fn leaf_index_past_leaf_values_is_typed_error() {
    let text = TWO_LEAF.replace("right_child=-2", "right_child=-5");
    assert_eq!(plan_lightgbm(&text).unwrap_err(), LgbError::LeafIndexOutOfRange { tree: 0, index: 4, num_leaves: 2 });
}

#[test]
fn multiclass_round_robin_class_ids() {
    let mut text = String::from("num_class=3\nmax_feature_idx=0\nobjective=multiclass num_class:3\n");
    for i in 0..5 {
        text.push_str(&format!("Tree={i}\nnum_leaves=1\nnum_cat=0\nleaf_value=0.5\n"));
    }
    let plan = plan_lightgbm(&text).unwrap();
    assert_eq!(plan.task_type, TaskType::MultiClf);
    assert_eq!(plan.postprocessor, "softmax");
    assert_eq!(plan.class_id, vec![0, 1, 2, 0, 1]);
    assert_eq!(plan.target_id, vec![0, 0, 0, 0, 0]);
    assert_eq!(plan.base_score_count, 3);
}

#[test]
fn several_classes_need_multiclass_objective() {
    let text = "num_class=3\nmax_feature_idx=0\nobjective=regression\n";
    assert_eq!(
        plan_lightgbm(text).unwrap_err(),
        LgbError::Parse { line: ParseLocation::Global, detail: ParseDetail::NotMulticlass { objective: "regression", num_class: 3 } }
    );
}

#[test]
fn empty_tree_is_rejected_by_the_plan() {
    let m = parse_lightgbm("num_class=1\nmax_feature_idx=0\nTree=0\nnum_leaves=0\nnum_cat=0\nleaf_value=\n").unwrap();
    assert_eq!(
        plan_tree(0, &m.trees[0]).unwrap_err(),
        LgbError::Parse { line: ParseLocation::Tree(0), detail: ParseDetail::EmptyTree }
    );
}

#[test]
fn bitsets_laid_end_to_end_decode_as_shifted_pieces() {
    let a = [0b101_u32, 0];
    let b = [1u32 << 7, 1];
    let joined: Vec<u32> = a.iter().chain(b.iter()).copied().collect();
    let mut expected = bitset_to_list(&a);
    expected.extend(bitset_to_list(&b).into_iter().map(|x| x + 32 * a.len() as u32));
    assert_eq!(bitset_to_list(&joined), expected);
    assert_eq!(bitset_to_list(&joined), vec![0, 2, 71, 96]);
}
