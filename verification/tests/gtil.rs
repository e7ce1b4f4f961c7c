use treelite_rs::binding::{check_feature_count, make_config, FeatureCountError};
use treelite_rs::gtil::accessor::{check_dense_input, check_sparse_input, RowSource, SparseCsr};
use treelite_rs::gtil::config::{Config, PredictKind};
use treelite_rs::gtil::error::GtilError;
use treelite_rs::gtil::layout::OutputLayout;
use treelite_rs::gtil::postprocess::{postprocessor_kind, Postprocessor};
use treelite_rs::gtil::shape::{output_shape, ModelShape};
use treelite_rs::gtil::tree::{
    category_list_range, category_listed, checked_child, checked_feature, has_leaf_vector, route_categorical,
};

fn binary_model() -> ModelShape {
    ModelShape { num_target: 1, num_class: vec![1], num_tree: 3, leaf_vector_shape: vec![1, 1] }
}

#[test]
fn config_default_matches_upstream() {
    let cfg = Config::default();
    assert_eq!(cfg.kind, PredictKind::Default, "default kind is kPredictDefault");
    assert_eq!(cfg.nthread, 0);
    assert_eq!(PredictKind::default(), PredictKind::Default);
}

#[test]
fn output_shape_default_collapses_binary_to_one() {
    let m = binary_model();
    let shape = output_shape(&m, 10, &Config { kind: PredictKind::Default, nthread: 0 });
    assert_eq!(shape.dims, vec![10, 1, 1]);
}

#[test]
fn output_shape_raw_same_as_default() {
    let m = binary_model();
    let shape = output_shape(&m, 7, &Config { kind: PredictKind::Raw, nthread: 0 });
    assert_eq!(shape.dims, vec![7, 1, 1]);
}

#[test]
fn output_shape_leaf_id_is_row_by_num_tree() {
    let m = binary_model();
    let shape = output_shape(&m, 10, &Config { kind: PredictKind::LeafId, nthread: 0 });
    assert_eq!(shape.dims, vec![10, m.num_tree]);
}

#[test]
fn output_shape_score_per_tree_uses_leaf_vector_shape_product() {
    let mut m = binary_model();
    m.leaf_vector_shape = vec![2, 3];
    let shape = output_shape(&m, 4, &Config { kind: PredictKind::ScorePerTree, nthread: 0 });
    assert_eq!(shape.dims, vec![4, m.num_tree, 6]);
}

#[test]
fn output_shape_multi_target_and_degenerate_classes() {
    let m = ModelShape { num_target: 2, num_class: vec![3, 5], num_tree: 1, leaf_vector_shape: vec![] };
    assert_eq!(output_shape(&m, 2, &Config::default()).dims, vec![2, 2, 5]);
    assert_eq!(output_shape(&m, 2, &Config { kind: PredictKind::ScorePerTree, nthread: 0 }).dims, vec![2, 1, 0]);
    let empty = ModelShape { num_target: 0, num_class: vec![], num_tree: 0, leaf_vector_shape: vec![] };
    assert_eq!(output_shape(&empty, 1, &Config::default()).dims, vec![1, 1, 1]);
}

fn csr<'a>(data: &'a [f32], col_ind: &'a [u64], row_ptr: &'a [u64]) -> SparseCsr<'a, f32> {
    SparseCsr { data, col_ind, row_ptr }
}

#[test]
fn absent_csr_entries_materialize_as_nan_not_zero() {
    let data = [7.0_f32, 9.0_f32];
    let col_ind = [0_u64, 3_u64];
    let row_ptr = [0_u64, 2_u64];
    let c = csr(&data, &col_ind, &row_ptr);
    assert_eq!(check_sparse_input(&c, 1, 5), Ok(5));
    let mut scratch = [0.0_f32; 5];
    c.get_row(0, &mut scratch, f32::NAN);
    assert_eq!(scratch[0], 7.0);
    assert_eq!(scratch[3], 9.0);
    assert!(scratch[1].is_nan() && scratch[2].is_nan() && scratch[4].is_nan());
}

#[test]
fn dense_and_sparse_rows_materialize_alike() {
    let nan = f32::NAN;
    let dense = [1.0_f32, nan, 2.0, nan, nan, 3.0];
    let data = [1.0_f32, 2.0, 3.0];
    let col_ind = [0_u64, 2, 2];
    let row_ptr = [0_u64, 2, 3];
    let sparse = RowSource::Sparse(csr(&data, &col_ind, &row_ptr));
    let dense_src = RowSource::Dense { data: &dense, num_feature: 3 };
    for r in 0..2 {
        let mut a = [0.0_f32; 3];
        let mut b = [0.0_f32; 3];
        dense_src.materialize(r, &mut a, nan);
        sparse.materialize(r, &mut b, nan);
        for j in 0..3 {
            assert!(a[j] == b[j] || (a[j].is_nan() && b[j].is_nan()), "row {r} col {j}");
        }
    }
}

#[test]
fn col_ind_out_of_bounds_is_typed_error() {
    let data = [1.0_f32, 2.0_f32];
    let col_ind = [0_u64, 5_u64];
    let row_ptr = [0_u64, 2_u64];
    let err = check_sparse_input(&csr(&data, &col_ind, &row_ptr), 1, 3).unwrap_err();
    match err {
        GtilError::SparseColumnOutOfBounds { col, num_feature } => {
            assert_eq!(col, 5);
            assert_eq!(num_feature, 3);
        },
        other => panic!("expected SparseColumnOutOfBounds, got {other:?}"),
    }
}

#[test]
fn non_monotonic_row_ptr_is_typed_error() {
    let data = [1.0_f32, 2.0_f32, 3.0_f32];
    let col_ind = [0_u64, 1_u64, 2_u64];
    let row_ptr = [0_u64, 2_u64, 1_u64];
    let err = check_sparse_input(&csr(&data, &col_ind, &row_ptr), 2, 3).unwrap_err();
    assert!(matches!(err, GtilError::SparseRowPtrInvalid { .. }), "expected SparseRowPtrInvalid, got {err:?}");
    assert_eq!(err, GtilError::SparseRowPtrInvalid { index: 2, value: 1, limit: 2 });
}

#[test]
fn row_ptr_past_data_len_is_typed_error() {
    let data = [1.0_f32, 2.0_f32];
    let col_ind = [0_u64, 1_u64];
    let row_ptr = [0_u64, 5_u64];
    let err = check_sparse_input(&csr(&data, &col_ind, &row_ptr), 1, 3).unwrap_err();
    assert!(matches!(err, GtilError::SparseRowPtrInvalid { .. }), "expected SparseRowPtrInvalid, got {err:?}");
    assert_eq!(err, GtilError::SparseRowPtrInvalid { index: 1, value: 5, limit: 2 });
}

#[test]
fn wrong_row_ptr_length_is_typed_error() {
    let data = [1.0_f32];
    let col_ind = [0_u64];
    let row_ptr = [0_u64, 1_u64];
    let err = check_sparse_input(&csr(&data, &col_ind, &row_ptr), 2, 3).unwrap_err();
    assert!(matches!(err, GtilError::SparseRowPtrInvalid { .. }), "expected SparseRowPtrInvalid, got {err:?}");
    assert_eq!(err, GtilError::SparseRowPtrInvalid { index: 2, value: 2, limit: 3 });
}

#[test]
fn input_buffer_too_small_is_typed_error() {
    assert_eq!(
        check_dense_input(2, 2, 3),
        Err(GtilError::InvalidInputShape { num_row: 2, num_feature: 2, required: 4, got: 3 })
    );
    assert_eq!(check_dense_input(2, 2, 4), Ok(2));
}

#[test]
fn negative_num_feature_is_typed_error() {
    assert!(matches!(check_dense_input(1, -1, 10), Err(GtilError::InvalidInputShape { required: usize::MAX, .. })));
    let data = [1.0_f32];
    let col_ind = [0_u64];
    let row_ptr = [0_u64, 1_u64];
    assert!(matches!(
        check_sparse_input(&csr(&data, &col_ind, &row_ptr), 1, -1),
        Err(GtilError::InvalidInputShape { num_feature: 0, .. })
    ));
}

#[test]
fn out_of_range_class_route_is_typed_error() {
    let num_class = [2_i32];
    let target_id = [0_i32];
    let class_id = [5_i32];
    let l = OutputLayout::new(1, &num_class, &target_id, &class_id, false);
    assert_eq!(
        l.leaf_value_cell(0, 0, 5),
        Err(GtilError::OutputRouteOutOfBounds { target_id: 0, class_id: 5, num_target: 1, max_num_class: 2 })
    );
    assert_eq!(l.leaf_value_cell(3, 0, 1), Ok(7));
}

#[test]
fn round_robin_class_routing_places_trees_in_distinct_columns() {
    let num_class = [3_i32];
    let target_id = [0_i32, 0, 0];
    let class_id = [0_i32, 1, 2];
    let l = OutputLayout::new(1, &num_class, &target_id, &class_id, false);
    assert_eq!(l.cells_per_row(), 3);
    let cells: Vec<usize> = (0..3).map(|k| l.leaf_value_cell(1, target_id[k], class_id[k]).unwrap()).collect();
    assert_eq!(cells, vec![3, 4, 5]);
}

#[test]
fn leaf_vector_broadcast_fills_full_shape() {
    let num_class = [2_i32, 3];
    let target_id = [-1_i32];
    let class_id = [-1_i32];
    let l = OutputLayout::new(2, &num_class, &target_id, &class_id, true);
    assert_eq!(l.max_num_class, 3);
    assert_eq!(l.leaf_vector_cells(1, -1, -1, 6).unwrap(), vec![(0, 6), (1, 7), (3, 9), (4, 10), (5, 11)]);
    assert_eq!(l.leaf_vector_cells(0, -1, -1, 4), Err(GtilError::LeafVectorTooShort { needed: 5, got: 4 }));
    assert_eq!(l.leaf_vector_cells(0, -1, 1, 2).unwrap(), vec![(0, 1), (1, 4)]);
    assert_eq!(l.leaf_vector_cells(0, 1, -1, 3).unwrap(), vec![(0, 3), (1, 4), (2, 5)]);
    assert_eq!(l.leaf_vector_cells(0, 1, 2, 1).unwrap(), vec![(0, 5)]);
    assert!(matches!(l.leaf_vector_cells(0, 2, -1, 3), Err(GtilError::OutputRouteOutOfBounds { .. })));
}

#[test]
fn average_tree_output_counts_trees_per_cell() {
    let num_class = [2_i32];
    let target_id = [0_i32, 0, -1];
    let class_id = [0_i32, 1, -1];
    let l = OutputLayout::new(1, &num_class, &target_id, &class_id, true);
    assert_eq!(l.average_factors(3), vec![2, 2]);
    assert_eq!(l.average_factors(1), vec![1, 0]);
}

#[test]
fn python_arguments_are_checked() {
    assert_eq!(make_config(4, true), Config { kind: PredictKind::Raw, nthread: 4 });
    assert_eq!(make_config(-1, false), Config { kind: PredictKind::Default, nthread: -1 });
    assert_eq!(check_feature_count(3, 3), Ok(()));
    assert_eq!(check_feature_count(4, 3), Err(FeatureCountError::ColumnMismatch { num_col: 4, num_feature: 3 }));
    assert_eq!(check_feature_count(0, -1), Err(FeatureCountError::NegativeFeatureCount { num_feature: -1 }));
}

#[test]
fn categorical_polarity_routes_by_membership() {
    let list: [u32; 1] = [3];
    let (left, right) = (1_i32, 2_i32);
    assert!(category_listed(&list, 3));
    assert!(!category_listed(&list, 9));
    assert!(!category_listed(&[], 0));
    assert_eq!(route_categorical(category_listed(&list, 3), true, left, right), right);
    assert_eq!(route_categorical(category_listed(&list, 9), true, left, right), left);
    assert_eq!(route_categorical(category_listed(&list, 3), false, left, right), left);
    assert_eq!(route_categorical(category_listed(&list, 9), false, left, right), right);
}

#[test]
fn split_feature_must_index_the_row() {
    assert_eq!(checked_feature(4, 2, 3), Ok(2));
    assert_eq!(
        checked_feature(4, 3, 3),
        Err(GtilError::FeatureIndexOutOfBounds { node: 4, feature: 3, num_feature: 3 })
    );
    assert_eq!(
        checked_feature(0, -1, 3),
        Err(GtilError::FeatureIndexOutOfBounds { node: 0, feature: -1, num_feature: 3 })
    );
}

#[test]
fn category_list_offsets_are_checked() {
    let begin = [0u64, 2, 2, 3];
    let end = [2u64, 2, 1, 9];
    assert_eq!(category_list_range(&begin, &end, 4, 0), Ok((0, 2)));
    assert_eq!(category_list_range(&begin, &end, 4, 1), Ok((2, 2)));
    assert_eq!(category_list_range(&begin, &end, 4, 2), Err(GtilError::MalformedCategoryList { node: 2 }));
    assert_eq!(category_list_range(&begin, &end, 4, 3), Err(GtilError::MalformedCategoryList { node: 3 }));
    assert_eq!(category_list_range(&begin, &end, 4, 7), Err(GtilError::MalformedCategoryList { node: 7 }));
}

#[test]
fn leaf_vector_presence_is_checked() {
    let begin = [0u64, 2, 3, 1];
    let end = [2u64, 2, 9, 0];
    assert_eq!(has_leaf_vector(&begin, &end, 4, 0), Ok(true));
    assert_eq!(has_leaf_vector(&begin, &end, 4, 1), Ok(false));
    assert_eq!(has_leaf_vector(&begin, &end, 4, 2), Err(GtilError::MalformedLeafVector { node: 2 }));
    assert_eq!(has_leaf_vector(&begin, &end, 4, 3), Err(GtilError::MalformedLeafVector { node: 3 }));
    assert_eq!(has_leaf_vector(&begin, &end, 4, 5), Ok(false));
}

#[test]
fn child_ids_must_name_a_node() {
    assert_eq!(checked_child(2, 3), Ok(2));
    assert_eq!(checked_child(3, 3), Err(GtilError::NodeIndexOutOfBounds { node: 3 }));
    assert_eq!(checked_child(-2, 3), Err(GtilError::NodeIndexOutOfBounds { node: (-2i32) as usize }));
}

#[test]
fn postprocessor_names_resolve() {
    assert_eq!(postprocessor_kind("identity"), Some(Postprocessor::Identity));
    assert_eq!(postprocessor_kind("identity_multiclass"), Some(Postprocessor::IdentityMulticlass));
    assert_eq!(postprocessor_kind("sigmoid"), Some(Postprocessor::Sigmoid));
    assert_eq!(postprocessor_kind("signed_square"), Some(Postprocessor::SignedSquare));
    assert_eq!(postprocessor_kind("hinge"), Some(Postprocessor::Hinge));
    assert_eq!(postprocessor_kind("exponential"), Some(Postprocessor::Exponential));
    assert_eq!(postprocessor_kind("exponential_standard_ratio"), Some(Postprocessor::ExponentialStandardRatio));
    assert_eq!(postprocessor_kind("logarithm_one_plus_exp"), Some(Postprocessor::LogarithmOnePlusExp));
    assert_eq!(postprocessor_kind("softmax"), Some(Postprocessor::Softmax));
    assert_eq!(postprocessor_kind("multiclass_ova"), Some(Postprocessor::MulticlassOva));
    assert_eq!(postprocessor_kind("Softmax"), None);
    assert_eq!(postprocessor_kind(""), None);
    assert!(Postprocessor::Softmax.is_row_wise());
    assert!(Postprocessor::MulticlassOva.is_row_wise());
    assert!(!Postprocessor::Sigmoid.is_row_wise());
}

#[test]
fn class_segments_cover_each_targets_classes() {
    let num_class = [3_i32, 1, 0];
    let target_id = [0_i32];
    let class_id = [0_i32];
    let l = OutputLayout::new(3, &num_class, &target_id, &class_id, false);
    assert_eq!(l.cells_per_row(), 9);
    assert_eq!(l.class_segment(0, 0), Some((0, 3)));
    assert_eq!(l.class_segment(1, 1), Some((12, 13)));
    assert_eq!(l.class_segment(2, 2), None);
}

#[test]
fn csr_with_the_largest_row_count_is_a_typed_error() {
    let data = [1.0_f32];
    let col_ind = [0_u64];
    let row_ptr = [0_u64, 1_u64];
    let c = csr(&data, &col_ind, &row_ptr);
    let r = check_sparse_input(&c, usize::MAX, 1);
    let limit = (usize::MAX as u64).checked_add(1).unwrap_or(u64::MAX);
    assert_eq!(r, Err(GtilError::SparseRowPtrInvalid { index: usize::MAX, value: 2, limit }));
}
