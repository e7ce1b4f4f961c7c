use treelite_rs::sklearn::error::{DecodeFault, SklError};
use treelite_rs::sklearn::forest::{plan_random_forest_classifier, plan_random_forest_regressor, BulkTree, TreeArrays};
use treelite_rs::sklearn::gradient::{
    plan_gradient_boosting_classifier, plan_gradient_boosting_regressor, plan_isolation_forest, SplitNode,
};
use treelite_rs::sklearn::histgb::{
    check_bit, decode_categorical, decode_node, plan_hist_gradient_boosting_classifier,
    plan_hist_gradient_boosting_regressor, plan_trees, HistNode, NodeLayout,
};
use treelite_rs::sklearn::meta::BaseScores;
use treelite_rs::task::TaskType;

#[allow(clippy::too_many_arguments)]
fn pack_node_56(
    value: f64,
    count: u32,
    feature_idx: i64,
    num_threshold: f64,
    missing_go_to_left: u8,
    left: u32,
    right: u32,
    gain: f64,
    depth: u32,
    is_leaf: u8,
    bin_threshold: u8,
    is_categorical: u8,
    bitset_idx: u32,
) -> [u8; 56] {
    let mut b = [0u8; 56];
    b[0..8].copy_from_slice(&value.to_le_bytes());
    b[8..12].copy_from_slice(&count.to_le_bytes());
    b[12..20].copy_from_slice(&feature_idx.to_le_bytes());
    b[20..28].copy_from_slice(&num_threshold.to_le_bytes());
    b[28] = missing_go_to_left;
    b[29..33].copy_from_slice(&left.to_le_bytes());
    b[33..37].copy_from_slice(&right.to_le_bytes());
    b[37..45].copy_from_slice(&gain.to_le_bytes());
    b[45..49].copy_from_slice(&depth.to_le_bytes());
    b[49] = is_leaf;
    b[50] = bin_threshold;
    b[51] = is_categorical;
    b[52..56].copy_from_slice(&bitset_idx.to_le_bytes());
    b
}

#[allow(clippy::too_many_arguments)]
fn pack_node_52(
    value: f64,
    count: u32,
    feature_idx: i32,
    num_threshold: f64,
    missing_go_to_left: u8,
    left: u32,
    right: u32,
    gain: f64,
    depth: u32,
    is_leaf: u8,
    bin_threshold: u8,
    is_categorical: u8,
    bitset_idx: u32,
) -> [u8; 52] {
    let mut b = [0u8; 52];
    b[0..8].copy_from_slice(&value.to_le_bytes());
    b[8..12].copy_from_slice(&count.to_le_bytes());
    b[12..16].copy_from_slice(&feature_idx.to_le_bytes());
    b[16..24].copy_from_slice(&num_threshold.to_le_bytes());
    b[24] = missing_go_to_left;
    b[25..29].copy_from_slice(&left.to_le_bytes());
    b[29..33].copy_from_slice(&right.to_le_bytes());
    b[33..41].copy_from_slice(&gain.to_le_bytes());
    b[41..45].copy_from_slice(&depth.to_le_bytes());
    b[45] = is_leaf;
    b[46] = bin_threshold;
    b[47] = is_categorical;
    b[48..52].copy_from_slice(&bitset_idx.to_le_bytes());
    b
}

#[test]
fn histgb_decode_52byte_fields_at_documented_offsets() {
    let rec = pack_node_52(1.5, 42, 7, 0.625, 1, 3, 4, 2.25, 9, 0, 35, 1, 6);
    let layout = NodeLayout::for_itemsize(52).unwrap();
    let n = decode_node(&rec, &layout).unwrap();
    assert_eq!(f64::from_bits(n.value_bits), 1.5);
    assert_eq!(n.count, 42);
    assert_eq!(n.feature_idx, 7);
    assert_eq!(f64::from_bits(n.num_threshold_bits), 0.625);
    assert_eq!(n.missing_go_to_left, 1);
    assert_eq!(n.left, 3);
    assert_eq!(n.right, 4);
    assert_eq!(f64::from_bits(n.gain_bits), 2.25);
    assert_eq!(n.is_categorical, 1);
    assert_eq!(n.bitset_idx, 6);
}

#[test]
fn histgb_decode_56byte_fields_at_shifted_offsets() {
    let rec = pack_node_56(-2.0, 100, 0x1_0000_0001, 0.5, 0, 11, 12, 0.0, 3, 0, 1, 0, 0);
    let layout = NodeLayout::for_itemsize(56).unwrap();
    let n = decode_node(&rec, &layout).unwrap();
    assert_eq!(f64::from_bits(n.value_bits), -2.0);
    assert_eq!(n.count, 100);
    assert_eq!(n.feature_idx, 0x1_0000_0001);
    assert_eq!(f64::from_bits(n.num_threshold_bits), 0.5);
    assert_eq!(n.missing_go_to_left, 0);
    assert_eq!(n.left, 11);
    assert_eq!(n.right, 12);
    assert_eq!(n.is_categorical, 0);
}

#[test]
fn histgb_decode_negative_feature_idx_in_both_widths() {
    let rec = pack_node_52(0.0, 0, -3, 0.0, 0, 0, 0, 0.0, 0, 0, 0, 0, 0);
    assert_eq!(decode_node(&rec, &NodeLayout::for_itemsize(52).unwrap()).unwrap().feature_idx, -3);
    let rec = pack_node_56(0.0, 0, -3, 0.0, 0, 0, 0, 0.0, 0, 0, 0, 0, 0);
    assert_eq!(decode_node(&rec, &NodeLayout::for_itemsize(56).unwrap()).unwrap().feature_idx, -3);
}

#[test]
fn histgb_decode_short_record_is_typed_error() {
    let rec = pack_node_56(0.0, 0, 0, 0.0, 0, 0, 0, 0.0, 0, 0, 0, 0, 0);
    let layout = NodeLayout::for_itemsize(56).unwrap();
    assert_eq!(
        decode_node(&rec[..30], &layout),
        Err(SklError::HistGbDecode { offset: 29, fault: DecodeFault::ShortRecord })
    );
    assert_eq!(
        decode_node(&rec[..10], &layout),
        Err(SklError::HistGbDecode { offset: 12, fault: DecodeFault::ShortRecord })
    );
}

#[test]
fn histgb_decode_rejects_bad_itemsize() {
    let err = NodeLayout::for_itemsize(53).unwrap_err();
    assert!(matches!(err, SklError::HistGbDecode { .. }));
    let err = NodeLayout::for_itemsize(48).unwrap_err();
    assert!(matches!(err, SklError::HistGbDecode { .. }));
    assert!(NodeLayout::for_itemsize(52).is_ok());
    assert!(NodeLayout::for_itemsize(56).is_ok());
}

#[test]
fn histgb_decode_rejects_short_buffer_before_field_read() {
    let one = pack_node_56(0.0, 1, 0, 0.0, 0, 0, 0, 0.0, 0, 1, 0, 0, 0);
    let res = plan_trees(1, 56, &[2], &[&one[..]], &[&[][..]], &[0], None);
    assert!(matches!(res, Err(SklError::HistGbDecode { .. })));
    assert_eq!(
        res.unwrap_err(),
        SklError::HistGbDecode { offset: 0, fault: DecodeFault::ShortNodesBuffer { tree: 0, got: 56, need: 112 } }
    );
}

#[test]
fn histgb_leaf_detection_uses_le_zero_not_minus_one() {
    let leaf = pack_node_56(3.5, 10, 0, 0.0, 0, 0, 0, 0.0, 0, 1, 0, 0, 0);
    let plan = plan_hist_gradient_boosting_regressor(1, 1, 56, &[1], &[&leaf[..]], &[&[][..]], &[0], None)
        .expect("single-leaf histgb loads");
    assert_eq!(plan.trees[0], vec![HistNode::Leaf { value_bits: 3.5_f64.to_bits(), count: 10 }]);
    // A left child id in [2^31, 2^32) reads as a negative id: also a leaf.
    let high = pack_node_56(1.0, 1, 9, 0.0, 0, 0x8000_0000, 2, 0.0, 0, 0, 0, 0, 0);
    let plan = plan_trees(1, 56, &[1], &[&high[..]], &[&[][..]], &[0], None).unwrap();
    assert!(matches!(plan[0][0], HistNode::Leaf { .. }));
}

#[test]
fn histgb_features_map_remaps_split_index() {
    let root = pack_node_56(0.0, 10, 0, 0.5, 0, 1, 2, 1.0, 0, 0, 0, 0, 0);
    let left = pack_node_56(10.0, 6, 0, 0.0, 0, 0, 0, 0.0, 1, 1, 0, 0, 0);
    let right = pack_node_56(20.0, 4, 0, 0.0, 0, 0, 0, 0.0, 1, 1, 0, 0, 0);
    let mut buf = Vec::new();
    buf.extend_from_slice(&root);
    buf.extend_from_slice(&left);
    buf.extend_from_slice(&right);
    let plan = plan_hist_gradient_boosting_regressor(1, 2, 56, &[3], &[&buf[..]], &[&[][..]], &[1, 0], None)
        .expect("histgb loads");
    assert_eq!(
        plan.trees[0][0],
        HistNode::Numerical {
            split_index: 1,
            threshold_bits: 0.5_f64.to_bits(),
            default_left: false,
            left: 1,
            right: 2,
            gain_bits: 1.0_f64.to_bits(),
            count: 10,
        }
    );
    assert_eq!(plan.trees[0][1], HistNode::Leaf { value_bits: 10.0_f64.to_bits(), count: 6 });
    assert_eq!(plan.meta.task_type, TaskType::Regressor);
    assert_eq!(plan.meta.postprocessor, "identity");
}

#[test]
fn histgb_check_bit_matches_8row_stride_reference() {
    let bitmap: [u32; 16] = [12, 0, 0, 0, 0, 0, 0, 0, 2, 0, 0, 0, 0, 0, 0, 0];
    assert!(!check_bit(&bitmap, 0, 0));
    assert!(!check_bit(&bitmap, 1, 0));
    assert!(check_bit(&bitmap, 2, 0));
    assert!(check_bit(&bitmap, 3, 0));
    assert!(!check_bit(&bitmap, 4, 0));
    assert!(!check_bit(&bitmap, 0, 1));
    assert!(check_bit(&bitmap, 1, 1));
    assert!(!check_bit(&bitmap, 2, 1));
    let mut bm2 = [0u32; 8];
    bm2[1] = 1 << (33 % 32);
    assert!(check_bit(&bm2, 33, 0));
    assert!(!check_bit(&bm2, 32, 0));
}

#[test]
fn histgb_decode_categorical_identity_when_no_categories_map() {
    let bitmap: [u32; 8] = [12, 0, 0, 0, 0, 0, 0, 0];
    let cats = decode_categorical(0, 0, &bitmap, None).unwrap();
    assert_eq!(cats, vec![2, 3]);
}

#[test]
fn histgb_decode_categorical_applies_categories_map_remap() {
    let bitmap: [u32; 8] = [0b11, 0, 0, 0, 0, 0, 0, 0];
    let cm = vec![vec![10_i64, 20, 30, 40]];
    let cats = decode_categorical(0, 0, &bitmap, Some(&cm)).unwrap();
    assert_eq!(cats, vec![10, 20]);
}

#[test]
fn histgb_decode_categorical_rejects_out_of_range_bitset_idx() {
    let bitmap: [u32; 8] = [1, 0, 0, 0, 0, 0, 0, 0];
    let res = decode_categorical(0, 1, &bitmap, None);
    assert!(matches!(res, Err(SklError::HistGbDecode { .. })));
}

#[test]
fn histgb_decode_categorical_remap_errors() {
    let bitmap: [u32; 8] = [0b10000, 0, 0, 0, 0, 0, 0, 0];
    let cm = vec![vec![10_i64, 20, 30, 40]];
    assert_eq!(
        decode_categorical(0, 0, &bitmap, Some(&cm)),
        Err(SklError::HistGbDecode { offset: 0, fault: DecodeFault::CategoryOutOfRange { category: 4, len: 4 } })
    );
    assert_eq!(
        decode_categorical(1, 0, &bitmap, Some(&cm)),
        Err(SklError::HistGbDecode { offset: 0, fault: DecodeFault::CategoryFeatureOutOfRange { feature_idx: 1, len: 1 } })
    );
    let neg = vec![vec![0_i64, -1]];
    let bm = [0b10u32, 0, 0, 0, 0, 0, 0, 0];
    assert_eq!(
        decode_categorical(0, 0, &bm, Some(&neg)),
        Err(SklError::HistGbDecode { offset: 0, fault: DecodeFault::CategoryNotU32 { value: -1 } })
    );
}

#[test]
fn histgb_categorical_node_routes_by_category_membership() {
    let root = pack_node_56(0.0, 10, 0, 0.0, 0, 1, 2, 1.0, 0, 0, 0, 1, 0);
    let left = pack_node_56(10.0, 6, 0, 0.0, 0, 0, 0, 0.0, 1, 1, 0, 0, 0);
    let right = pack_node_56(20.0, 4, 0, 0.0, 0, 0, 0, 0.0, 1, 1, 0, 0, 0);
    let mut buf = Vec::new();
    buf.extend_from_slice(&root);
    buf.extend_from_slice(&left);
    buf.extend_from_slice(&right);
    let bitmap: Vec<u32> = vec![0b110, 0, 0, 0, 0, 0, 0, 0];
    let plan = plan_hist_gradient_boosting_regressor(1, 1, 56, &[3], &[&buf[..]], &[&bitmap[..]], &[0], None)
        .expect("categorical histgb loads");
    match &plan.trees[0][0] {
        HistNode::Categorical { left_categories, left, right, .. } => {
            assert_eq!(left_categories, &vec![1, 2]);
            assert_eq!((*left, *right), (1, 2));
        },
        other => panic!("expected a categorical split, got {other:?}"),
    }
}

#[test]
fn histgb_categorical_malformed_bitmap_is_typed_error_not_panic() {
    let root = pack_node_56(0.0, 10, 0, 0.0, 0, 1, 2, 1.0, 0, 0, 0, 1, 5);
    let left = pack_node_56(1.0, 6, 0, 0.0, 0, 0, 0, 0.0, 1, 1, 0, 0, 0);
    let right = pack_node_56(2.0, 4, 0, 0.0, 0, 0, 0, 0.0, 1, 1, 0, 0, 0);
    let mut buf = Vec::new();
    buf.extend_from_slice(&root);
    buf.extend_from_slice(&left);
    buf.extend_from_slice(&right);
    let bitmap: Vec<u32> = vec![0u32; 8];
    let res = plan_hist_gradient_boosting_regressor(1, 1, 56, &[3], &[&buf[..]], &[&bitmap[..]], &[0], None);
    assert!(matches!(res, Err(SklError::HistGbDecode { .. })));
}

#[test]
fn histgb_feature_idx_out_of_range_is_typed_error() {
    let root = pack_node_56(0.0, 10, 5, 0.5, 0, 1, 2, 1.0, 0, 0, 0, 0, 0);
    let left = pack_node_56(1.0, 6, 0, 0.0, 0, 0, 0, 0.0, 1, 1, 0, 0, 0);
    let right = pack_node_56(2.0, 4, 0, 0.0, 0, 0, 0, 0.0, 1, 1, 0, 0, 0);
    let mut buf = Vec::new();
    buf.extend_from_slice(&root);
    buf.extend_from_slice(&left);
    buf.extend_from_slice(&right);
    let res = plan_hist_gradient_boosting_regressor(1, 1, 56, &[3], &[&buf[..]], &[&[][..]], &[0], None);
    assert!(matches!(res, Err(SklError::HistGbDecode { .. })));
}

#[test]
fn histgb_classifier_metadata() {
    let leaf = pack_node_56(0.5, 1, 0, 0.0, 0, 0, 0, 0.0, 0, 1, 0, 0, 0);
    let nodes: Vec<&[u8]> = vec![&leaf[..]; 6];
    let bitmaps: Vec<&[u32]> = vec![&[][..]; 6];
    let plan =
        plan_hist_gradient_boosting_classifier(2, 1, 3, 56, &[1; 6], &nodes, &bitmaps, &[0], None, &[0.1, 0.2, 0.3])
            .unwrap();
    assert_eq!(plan.meta.task_type, TaskType::MultiClf);
    assert_eq!(plan.meta.postprocessor, "softmax");
    assert_eq!(plan.meta.class_id, vec![0, 1, 2, 0, 1, 2]);
    assert_eq!(plan.meta.base_scores, BaseScores::Given(3));
    let err = plan_hist_gradient_boosting_classifier(2, 1, 3, 56, &[1; 6], &nodes, &bitmaps, &[0], None, &[0.1]);
    assert_eq!(
        err.unwrap_err(),
        SklError::DimensionMismatch { tree: 0, field: "baseline_prediction", expected: 3, got: 1 }
    );
}

fn stump<'a>(
    node_count: &'a [i64],
    left: &'a [&'a [i64]],
    right: &'a [&'a [i64]],
    feature: &'a [&'a [i64]],
    floats: &'a [&'a [f64]],
    samples: &'a [&'a [i64]],
) -> TreeArrays<'a, f64> {
    TreeArrays {
        node_count,
        children_left: left,
        children_right: right,
        feature,
        threshold: floats,
        value: floats,
        n_node_samples: samples,
        weighted_n_node_samples: floats,
        impurity: floats,
    }
}

#[test]
fn rf_regressor_sets_identity_regressor_metadata() {
    let l: &[i64] = &[1, -1, -1];
    let r: &[i64] = &[2, -1, -1];
    let f: &[i64] = &[0, -2, -2];
    let x: &[f64] = &[0.5, 1.0, 2.0];
    let s: &[i64] = &[10, 4, 6];
    let nc = [3, 3]; let ls = [l, l]; let rs = [r, r]; let fs = [f, f]; let xs = [x, x]; let ss = [s, s];
    let a = stump(&nc, &ls, &rs, &fs, &xs, &ss);
    let plan = plan_random_forest_regressor(2, 1, 1, &a).unwrap();
    assert_eq!(plan.meta.task_type, TaskType::Regressor);
    assert!(plan.meta.average_tree_output);
    assert_eq!(plan.meta.postprocessor, "identity");
    assert_eq!(plan.meta.target_id, vec![0, 0]);
    assert_eq!(plan.meta.class_id, vec![0, 0]);
    assert_eq!(plan.meta.num_class, vec![1]);
    assert_eq!(plan.meta.base_scores, BaseScores::Zeros(1));
    assert_eq!(plan.trees, vec![BulkTree { node_count: 3, total_sample_cnt: 10 }; 2]);
}

#[test]
fn rf_classifier_sets_identity_multiclass_metadata_with_broadcast_ids() {
    let l: &[i64] = &[1, -1, -1];
    let r: &[i64] = &[2, -1, -1];
    let f: &[i64] = &[0, -2, -2];
    let x: &[f64] = &[0.5, 1.0, 2.0];
    let v: &[f64] = &[0.0; 9];
    let s: &[i64] = &[10, 4, 6];
    let a = TreeArrays {
        node_count: &[3],
        children_left: &[l],
        children_right: &[r],
        feature: &[f],
        threshold: &[x],
        value: &[v],
        n_node_samples: &[s],
        weighted_n_node_samples: &[x],
        impurity: &[x],
    };
    let plan = plan_random_forest_classifier(1, 1, 1, &[3], &a).unwrap();
    assert_eq!(plan.meta.task_type, TaskType::MultiClf);
    assert_eq!(plan.meta.postprocessor, "identity_multiclass");
    assert_eq!(plan.meta.target_id, vec![-1]);
    assert_eq!(plan.meta.class_id, vec![-1]);
    assert_eq!(plan.meta.leaf_vector_shape, (1, 3));
    assert_eq!(plan.meta.base_scores, BaseScores::Zeros(3));
    let short = TreeArrays { value: &[x], ..a };
    assert_eq!(
        plan_random_forest_classifier(1, 1, 1, &[3], &short).unwrap_err(),
        SklError::ValueBufferTooShort { tree: 0, expected: 9, got: 3 }
    );
    assert_eq!(
        plan_random_forest_classifier(1, 1, 1, &[0], &a).unwrap_err(),
        SklError::InvalidScalar { field: "n_classes", value: 0, reason: "must be at least 1" }
    );
}

#[test]
fn out_of_range_child_index_is_typed_error_not_panic() {
    let l: &[i64] = &[7, -1, -1];
    let r: &[i64] = &[2, -1, -1];
    let f: &[i64] = &[0, -2, -2];
    let x: &[f64] = &[0.5, 1.0, 2.0];
    let s: &[i64] = &[10, 4, 6];
    let nc = [3]; let ls = [l]; let rs = [r]; let fs = [f]; let xs = [x]; let ss = [s];
    let a = stump(&nc, &ls, &rs, &fs, &xs, &ss);
    assert_eq!(
        plan_random_forest_regressor(1, 1, 1, &a).unwrap_err(),
        SklError::ChildIndexOutOfRange { tree: 0, node: 0, child: 7, node_count: 3 }
    );
}

#[test]
fn tree_count_and_dimension_mismatches_are_typed() {
    let l: &[i64] = &[1, -1, -1];
    let r: &[i64] = &[2, -1, -1];
    let f: &[i64] = &[0, -2];
    let x: &[f64] = &[0.5, 1.0, 2.0];
    let s: &[i64] = &[10, 4, 6];
    let nc = [3]; let ls = [l]; let rs = [r]; let fs = [f]; let xs = [x]; let ss = [s];
    let a = stump(&nc, &ls, &rs, &fs, &xs, &ss);
    assert_eq!(
        plan_random_forest_regressor(2, 1, 1, &a).unwrap_err(),
        SklError::TreeCountMismatch { field: "node_count", expected: 2, got: 1 }
    );
    assert_eq!(
        plan_random_forest_regressor(1, 1, 1, &a).unwrap_err(),
        SklError::DimensionMismatch { tree: 0, field: "feature", expected: 3, got: 2 }
    );
    assert_eq!(
        plan_random_forest_regressor(0, 1, 1, &a).unwrap_err(),
        SklError::InvalidScalar { field: "n_estimators", value: 0, reason: "must be at least 1" }
    );
}

#[test]
fn leaf_detection_uses_minus_one_not_le_zero() {
    let l: &[i64] = &[1, -1, -1];
    let r: &[i64] = &[2, -1, -1];
    let f: &[i64] = &[4, -2, -2];
    let x: &[f64] = &[0.5, 1.0, 2.0];
    let s: &[i64] = &[10, 4, 6];
    let nc = [3]; let ls = [l]; let rs = [r]; let fs = [f]; let xs = [x]; let ss = [s];
    let a = stump(&nc, &ls, &rs, &fs, &xs, &ss);
    let plan = plan_gradient_boosting_regressor(1, 5, &a).unwrap();
    assert_eq!(plan.trees[0].nodes, vec![SplitNode::Split { split_index: 4, left: 1, right: 2 }, SplitNode::Leaf, SplitNode::Leaf]);
    assert_eq!(plan.trees[0].total_sample_cnt, 10);
    assert_eq!(plan.meta.base_scores, BaseScores::Given(1));
}

#[test]
fn gb_binary_classifier_sets_sigmoid_binaryclf() {
    let l: &[i64] = &[-1];
    let x: &[f64] = &[0.5];
    let s: &[i64] = &[1];
    let nc = [1, 1]; let ls = [l, l]; let rs = [l, l]; let fs = [l, l]; let xs = [x, x]; let ss = [s, s];
    let a = stump(&nc, &ls, &rs, &fs, &xs, &ss);
    let plan = plan_gradient_boosting_classifier(2, 1, 2, &a, &[0.3]).unwrap();
    assert_eq!(plan.meta.task_type, TaskType::BinaryClf);
    assert_eq!(plan.meta.postprocessor, "sigmoid");
    assert_eq!(plan.meta.class_id, vec![0, 0]);
    assert_eq!(plan.meta.num_class, vec![1]);
    assert_eq!(
        plan_gradient_boosting_classifier(2, 1, 2, &a, &[]).unwrap_err(),
        SklError::DimensionMismatch { tree: 0, field: "base_scores", expected: 1, got: 0 }
    );
    assert_eq!(
        plan_gradient_boosting_classifier(2, 1, 1, &a, &[0.3]).unwrap_err(),
        SklError::InvalidScalar { field: "n_classes", value: 1, reason: "must be at least 2" }
    );
}

#[test]
fn gb_multiclass_classifier_sets_softmax_roundrobin() {
    let l: &[i64] = &[-1];
    let x: &[f64] = &[0.5];
    let s: &[i64] = &[1];
    let nc = [1; 6]; let ls = [l; 6]; let rs = [l; 6]; let fs = [l; 6]; let xs = [x; 6]; let ss = [s; 6];
    let a = stump(&nc, &ls, &rs, &fs, &xs, &ss);
    let plan = plan_gradient_boosting_classifier(2, 1, 3, &a, &[0.1, 0.2, 0.3]).unwrap();
    assert_eq!(plan.meta.task_type, TaskType::MultiClf);
    assert_eq!(plan.meta.postprocessor, "softmax");
    assert_eq!(plan.meta.class_id, vec![0, 1, 2, 0, 1, 2]);
    assert_eq!(plan.meta.num_class, vec![3]);
    assert_eq!(plan.meta.base_scores, BaseScores::Given(3));
}

#[test]
fn iforest_sets_exponential_standard_ratio_metadata() {
    let l: &[i64] = &[-1];
    let x: &[f64] = &[0.5];
    let s: &[i64] = &[1];
    let nc = [1, 1]; let ls = [l, l]; let rs = [l, l]; let fs = [l, l]; let xs = [x, x]; let ss = [s, s];
    let a = stump(&nc, &ls, &rs, &fs, &xs, &ss);
    let plan = plan_isolation_forest(2, 3, true, &a).unwrap();
    assert_eq!(plan.meta.task_type, TaskType::IsolationForest);
    assert!(plan.meta.average_tree_output);
    assert_eq!(plan.meta.postprocessor, "exponential_standard_ratio");
    assert_eq!(plan.meta.num_feature, 3);
    assert_eq!(plan.meta.base_scores, BaseScores::Zeros(1));
}

#[test]
fn iforest_rejects_zero_ratio_c() {
    let l: &[i64] = &[-1];
    let x: &[f64] = &[0.5];
    let s: &[i64] = &[1];
    let nc = [1]; let ls = [l]; let rs = [l]; let fs = [l]; let xs = [x]; let ss = [s];
    let a = stump(&nc, &ls, &rs, &fs, &xs, &ss);
    let ratio_c = 0.0_f64;
    let res = plan_isolation_forest(1, 1, ratio_c != 0.0 && ratio_c.is_finite(), &a);
    assert!(matches!(res, Err(SklError::InvalidScalar { field: "ratio_c", .. })));
}
