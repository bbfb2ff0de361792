use utah::combinators::interact::{InnerJoin, OuterJoin};
use utah::combinators::process::{Remove, Select};
use utah::dataframe::DataFrame;
use utah::matrix::{Matrix, SliceView};
use utah::util::error::UtahError;
use utah::util::traits::WindowStream;
use utah::util::types::{ImputeStrategy, UtahAxis, EMPTY};

fn frame(nrows: usize, ncols: usize, cells: Vec<i64>, columns: &[&str], index: &[&str]) -> DataFrame {
    let m = Matrix::from_shape_vec(nrows, ncols, cells).unwrap();
    DataFrame::new(m).columns(columns).unwrap().index(index).unwrap()
}

fn texts(labels: &Vec<String>) -> Vec<&str> {
    labels.iter().map(|l| l.as_str()).collect()
}

fn rows_of(m: &Matrix) -> Vec<Vec<i64>> {
    let (nrows, _) = m.dim();
    (0..nrows).map(|i| m.row(i).to_vec()).collect()
}

fn sample() -> DataFrame {
    frame(3, 2, vec![1, 2, 3, 4, 5, 6], &["a", "b"], &["x", "y", "z"])
}

#[test]
fn select_keeps_the_named_rows_in_order() {
    let df = sample();
    let out = df.select(&["z", "x"], UtahAxis::Row).as_df().unwrap();
    assert_eq!(texts(out.row_labels()), vec!["x", "z"]);
    assert_eq!(texts(out.column_labels()), vec!["a", "b"]);
    assert_eq!(out.to_rows(), vec![vec![1, 2], vec![5, 6]]);
}

#[test]
fn select_keeps_the_named_columns() {
    let df = sample();
    let out = df.select(&["b"], UtahAxis::Column).as_df().unwrap();
    assert_eq!(texts(out.column_labels()), vec!["b"]);
    assert_eq!(texts(out.row_labels()), vec!["x", "y", "z"]);
    assert_eq!(out.to_rows(), vec![vec![2], vec![4], vec![6]]);
}

#[test]
fn select_ignores_unknown_names() {
    let df = sample();
    let out = df.select(&["nope", "y"], UtahAxis::Row).as_df().unwrap();
    assert_eq!(texts(out.row_labels()), vec!["y"]);
    assert_eq!(out.to_rows(), vec![vec![3, 4]]);
}

#[test]
fn select_nothing_yields_nothing() {
    let df = sample();
    let mut it = df.select(&[], UtahAxis::Row);
    assert!(it.next().is_none());
    let out = df.select(&[], UtahAxis::Row).as_df().unwrap();
    assert_eq!(out.shape(), (0, 2));
    assert_eq!(df.select(&[], UtahAxis::Column).as_array().unwrap(), Vec::<i64>::new());
}

#[test]
fn remove_drops_the_named_rows() {
    let df = sample();
    let out = df.remove(&["y"], UtahAxis::Row).as_df().unwrap();
    assert_eq!(texts(out.row_labels()), vec!["x", "z"]);
    assert_eq!(out.to_rows(), vec![vec![1, 2], vec![5, 6]]);
    let out = df.remove(&["a"], UtahAxis::Column).as_matrix().unwrap();
    assert_eq!(rows_of(&out), vec![vec![2], vec![4], vec![6]]);
}

#[test]
fn remove_nothing_yields_everything() {
    let df = sample();
    let out = df.remove(&[], UtahAxis::Row).as_df().unwrap();
    assert_eq!(texts(out.row_labels()), vec!["x", "y", "z"]);
    assert_eq!(out.to_rows(), df.to_rows());
}

#[test]
fn select_all_then_remove_all_is_empty() {
    let df = sample();
    for axis in [UtahAxis::Row, UtahAxis::Column] {
        let names: Vec<String> = match axis {
            UtahAxis::Row => df.row_labels().clone(),
            UtahAxis::Column => df.column_labels().clone(),
        };
        let selected = Select::new(df.df_iter(axis), names.clone(), df.other_labels(axis), axis);
        let mut removed = Remove::new(selected, names, df.other_labels(axis), axis);
        assert!(removed.next().is_none());
    }
}

#[test]
fn append_adds_a_row_at_the_end() {
    let df = sample();
    let extra = [7i64, 8];
    let out = df.append("w", SliceView::from_slice(&extra), UtahAxis::Row).as_df().unwrap();
    assert_eq!(texts(out.row_labels()), vec!["x", "y", "z", "w"]);
    assert_eq!(out.to_rows(), vec![vec![1, 2], vec![3, 4], vec![5, 6], vec![7, 8]]);
}

#[test]
fn append_adds_a_column_at_the_end() {
    let df = sample();
    let extra = [7i64, 8, 9];
    let out = df.append("c", SliceView::from_slice(&extra), UtahAxis::Column).as_df().unwrap();
    assert_eq!(texts(out.column_labels()), vec!["a", "b", "c"]);
    assert_eq!(out.to_rows(), vec![vec![1, 2, 7], vec![3, 4, 8], vec![5, 6, 9]]);
}

#[test]
fn append_of_a_wrong_length_fails_at_materialization() {
    let df = sample();
    let extra = [7i64, 8, 9];
    let r = df.append("w", SliceView::from_slice(&extra), UtahAxis::Row).as_df();
    assert!(matches!(r, Err(UtahError::ShapeMismatch)));
    let r = df.append("w", SliceView::from_slice(&extra), UtahAxis::Row).as_matrix();
    assert!(matches!(r, Err(UtahError::ShapeMismatch)));
    let flat = df.append("w", SliceView::from_slice(&extra), UtahAxis::Row).as_array().unwrap();
    assert_eq!(flat, vec![1, 2, 3, 4, 5, 6, 7, 8, 9]);
}

#[test]
fn append_of_a_known_label_is_a_conflict() {
    let df = sample();
    let extra = [7i64, 8];
    let r = df.append("x", SliceView::from_slice(&extra), UtahAxis::Row).as_df();
    assert!(matches!(r, Err(UtahError::LabelConflict)));
}

#[test]
fn append_then_select_returns_the_appended_window() {
    let df = sample();
    let extra = [7i64, 8];
    let appended = df.append("w", SliceView::from_slice(&extra), UtahAxis::Row);
    let mut selected =
        Select::new(appended, vec!["w".to_string()], df.other_labels(UtahAxis::Row), UtahAxis::Row);
    let (label, cells) = selected.next().unwrap();
    assert_eq!(label, "w");
    assert_eq!(cells.to_vec(), vec![7, 8]);
    assert!(selected.next().is_none());
}

#[test]
fn round_trip_along_both_axes() {
    let df = sample();
    for axis in [UtahAxis::Row, UtahAxis::Column] {
        let back = df.df_iter(axis).as_df().unwrap();
        assert_eq!(back.to_rows(), df.to_rows());
        assert_eq!(back.row_labels(), df.row_labels());
        assert_eq!(back.column_labels(), df.column_labels());
    }
}

#[test]
fn round_trip_of_a_frame_without_cells() {
    let none = frame(0, 2, vec![], &["a", "b"], &[]);
    for axis in [UtahAxis::Row, UtahAxis::Column] {
        let back = none.df_iter(axis).as_df().unwrap();
        assert_eq!(back.shape(), (0, 2));
        assert_eq!(back.column_labels(), none.column_labels());
    }
}

#[test]
fn a_traversal_under_way_materializes_what_is_left() {
    let df = sample();
    let mut it = df.df_iter(UtahAxis::Row);
    it.next();
    let rest = it.as_df().unwrap();
    assert_eq!(texts(rest.row_labels()), vec!["y", "z"]);
    assert_eq!(rest.to_rows(), vec![vec![3, 4], vec![5, 6]]);
}

#[test]
fn matrix_of_a_traversal() {
    let df = sample();
    for axis in [UtahAxis::Row, UtahAxis::Column] {
        let m = df.df_iter(axis).as_matrix().unwrap();
        assert_eq!(m.dim(), (3, 2));
        assert_eq!(rows_of(&m), df.to_rows());
    }
}

#[test]
fn flat_vector_follows_the_traversal() {
    let df = sample();
    assert_eq!(df.df_iter(UtahAxis::Row).as_array().unwrap(), vec![1, 2, 3, 4, 5, 6]);
    assert_eq!(df.df_iter(UtahAxis::Column).as_array().unwrap(), vec![1, 3, 5, 2, 4, 6]);
    assert_eq!(
        utah::materialize::collect_array(df.df_iter(UtahAxis::Column)),
        vec![1, 3, 5, 2, 4, 6]
    );
}

#[test]
fn concat_stacks_rows() {
    let top = frame(1, 2, vec![1, 2], &["a", "b"], &["x"]);
    let bottom = frame(2, 2, vec![3, 4, 5, 6], &["c", "d"], &["y", "z"]);
    let out = top.concat(&bottom, UtahAxis::Row).as_df().unwrap();
    assert_eq!(texts(out.column_labels()), vec!["a", "b"]);
    assert_eq!(texts(out.row_labels()), vec!["x", "y", "z"]);
    assert_eq!(out.to_rows(), vec![vec![1, 2], vec![3, 4], vec![5, 6]]);
}

#[test]
fn concat_puts_columns_side_by_side() {
    let left = frame(2, 1, vec![1, 2], &["a"], &["x", "y"]);
    let right = frame(2, 2, vec![3, 4, 5, 6], &["b", "c"], &["p", "q"]);
    let out = left.concat(&right, UtahAxis::Column).as_df().unwrap();
    assert_eq!(texts(out.column_labels()), vec!["a", "b", "c"]);
    assert_eq!(texts(out.row_labels()), vec!["x", "y"]);
    assert_eq!(out.to_rows(), vec![vec![1, 3, 4], vec![2, 5, 6]]);
    let m = left.concat(&right, UtahAxis::Column).as_matrix().unwrap();
    assert_eq!(rows_of(&m), vec![vec![1, 3, 4], vec![2, 5, 6]]);
    let flat = left.concat(&right, UtahAxis::Column).as_array().unwrap();
    assert_eq!(flat, vec![1, 2, 3, 5, 4, 6]);
}

#[test]
fn concat_with_itself_doubles_the_rows() {
    let df = sample();
    let m = df.concat(&df, UtahAxis::Row).as_matrix().unwrap();
    assert_eq!(m.dim(), (6, 2));
    assert_eq!(
        rows_of(&m),
        vec![vec![1, 2], vec![3, 4], vec![5, 6], vec![1, 2], vec![3, 4], vec![5, 6]]
    );
    let r = df.concat(&df, UtahAxis::Row).as_df();
    assert!(matches!(r, Err(UtahError::LabelConflict)));
    let none = frame(0, 2, vec![], &["a", "b"], &[]);
    let out = none.concat(&none, UtahAxis::Row).as_df().unwrap();
    assert_eq!(out.shape(), (0, 2));
    assert_eq!(texts(out.column_labels()), vec!["a", "b"]);
}

#[test]
fn concat_of_different_widths_is_a_shape_mismatch() {
    let top = frame(1, 2, vec![1, 2], &["a", "b"], &["x"]);
    let bottom = frame(1, 3, vec![3, 4, 5], &["a", "b", "c"], &["y"]);
    assert!(matches!(top.concat(&bottom, UtahAxis::Row).as_df(), Err(UtahError::ShapeMismatch)));
}

#[test]
fn inner_join_pairs_rows_by_label() {
    let left = frame(3, 1, vec![1, 2, 3], &["a"], &["x", "y", "z"]);
    let right = frame(2, 2, vec![10, 11, 30, 31], &["b", "c"], &["z", "x"]);
    let mut join = left.inner_left_join(&right);
    let (label, l, r) = join.next().unwrap();
    assert_eq!(label, "x");
    assert_eq!(l.to_vec(), vec![1]);
    assert_eq!(r.to_vec(), vec![30, 31]);
    let (label, l, r) = join.next().unwrap();
    assert_eq!(label, "z");
    assert_eq!(l.to_vec(), vec![3]);
    assert_eq!(r.to_vec(), vec![10, 11]);
    assert!(join.next().is_none());
    let out = left.inner_left_join(&right).as_df().unwrap();
    assert_eq!(texts(out.column_labels()), vec!["a", "b", "c"]);
    assert_eq!(texts(out.row_labels()), vec!["x", "z"]);
    assert_eq!(out.to_rows(), vec![vec![1, 30, 31], vec![3, 10, 11]]);
    let m = left.inner_left_join(&right).as_matrix().unwrap();
    assert_eq!(rows_of(&m), vec![vec![1, 30, 31], vec![3, 10, 11]]);
    let flat = left.inner_left_join(&right).as_array().unwrap();
    assert_eq!(flat, vec![1, 30, 31, 3, 10, 11]);
}

#[test]
fn inner_right_join_starts_from_the_other_frame() {
    let left = frame(3, 1, vec![1, 2, 3], &["a"], &["x", "y", "z"]);
    let right = frame(2, 2, vec![10, 11, 30, 31], &["b", "c"], &["z", "x"]);
    let out = left.inner_right_join(&right).as_df().unwrap();
    assert_eq!(texts(out.column_labels()), vec!["b", "c", "a"]);
    assert_eq!(texts(out.row_labels()), vec!["z", "x"]);
    assert_eq!(out.to_rows(), vec![vec![10, 11, 3], vec![30, 31, 1]]);
}

#[test]
fn inner_join_with_itself_pairs_every_row_with_itself() {
    let df = sample();
    let mut join = df.inner_left_join(&df);
    let mut count = 0;
    while let Some((_, l, r)) = join.next() {
        assert_eq!(l.to_vec(), r.to_vec());
        count += 1;
    }
    assert_eq!(count, 3);
    let m = df.inner_left_join(&df).as_matrix().unwrap();
    assert_eq!(rows_of(&m), vec![vec![1, 2, 1, 2], vec![3, 4, 3, 4], vec![5, 6, 5, 6]]);
    assert!(matches!(df.inner_left_join(&df).as_df(), Err(UtahError::LabelConflict)));
}

#[test]
fn inner_join_without_common_labels_is_empty() {
    let left = frame(1, 1, vec![1], &["a"], &["x"]);
    let right = frame(1, 1, vec![2], &["b"], &["y"]);
    assert!(left.inner_left_join(&right).next().is_none());
    let out = left.inner_left_join(&right).as_df().unwrap();
    assert_eq!(out.shape(), (0, 2));
}

#[test]
fn outer_join_fills_missing_partners() {
    let left = frame(3, 1, vec![1, 2, 3], &["a"], &["x", "y", "z"]);
    let right = frame(2, 2, vec![10, 11, 30, 31], &["b", "c"], &["z", "x"]);
    let mut join = left.outer_left_join(&right);
    let (label, l, r) = join.next().unwrap();
    assert_eq!(label, "x");
    assert_eq!(l.to_vec(), vec![1]);
    assert_eq!(r.unwrap().to_vec(), vec![30, 31]);
    let (label, l, r) = join.next().unwrap();
    assert_eq!(label, "y");
    assert_eq!(l.to_vec(), vec![2]);
    assert!(r.is_none());
    let (label, _, r) = join.next().unwrap();
    assert_eq!(label, "z");
    assert_eq!(r.unwrap().to_vec(), vec![10, 11]);
    assert!(join.next().is_none());
    let out = left.outer_left_join(&right).as_df().unwrap();
    assert_eq!(texts(out.column_labels()), vec!["a", "b", "c"]);
    assert_eq!(texts(out.row_labels()), vec!["x", "y", "z"]);
    assert_eq!(
        out.to_rows(),
        vec![vec![1, 30, 31], vec![2, EMPTY, EMPTY], vec![3, 10, 11]]
    );
    let m = left.outer_left_join(&right).as_matrix().unwrap();
    assert_eq!(m.dim(), (3, 3));
    let flat = left.outer_left_join(&right).as_array().unwrap();
    assert_eq!(flat, vec![1, 30, 31, 2, EMPTY, EMPTY, 3, 10, 11]);
}

#[test]
fn outer_right_join_starts_from_the_other_frame() {
    let left = frame(3, 1, vec![1, 2, 3], &["a"], &["x", "y", "z"]);
    let right = frame(2, 2, vec![10, 11, 30, 31], &["b", "c"], &["w", "x"]);
    let out = left.outer_right_join(&right).as_df().unwrap();
    assert_eq!(texts(out.column_labels()), vec!["b", "c", "a"]);
    assert_eq!(texts(out.row_labels()), vec!["w", "x"]);
    assert_eq!(out.to_rows(), vec![vec![10, 11, EMPTY], vec![30, 31, 1]]);
}

#[test]
fn join_keeps_the_last_of_two_right_windows_with_one_label() {
    let left = frame(1, 1, vec![1], &["a"], &["x"]);
    let right = frame(1, 1, vec![2], &["b"], &["x"]);
    let later = [9i64];
    let doubled = right.append("x", SliceView::from_slice(&later), UtahAxis::Row);
    let mut join = InnerJoin::new(
        left.df_iter(UtahAxis::Row),
        doubled,
        vec!["a".to_string()],
        vec!["b".to_string()],
    );
    let (_, l, r) = join.next().unwrap();
    assert_eq!(l.to_vec(), vec![1]);
    assert_eq!(r.to_vec(), vec![9]);
    let doubled = right.append("x", SliceView::from_slice(&later), UtahAxis::Row);
    let outer = OuterJoin::new(
        left.df_iter(UtahAxis::Row),
        doubled,
        vec!["a".to_string()],
        vec!["b".to_string()],
    );
    assert_eq!(outer.as_array().unwrap(), vec![1, 9]);
}

#[test]
fn aggregates_of_two_four_six() {
    let df = frame(1, 3, vec![2, 4, 6], &["a", "b", "c"], &["x"]);
    let (label, total) = df.sumdf(UtahAxis::Row).next().unwrap();
    assert_eq!(label, "x");
    assert_eq!(total, Ok(12));
    assert_eq!(df.mean(UtahAxis::Row).next().unwrap().1, Ok(4));
    assert_eq!(df.maxdf(UtahAxis::Row).next().unwrap().1, Ok(6));
    assert_eq!(df.mindf(UtahAxis::Row).next().unwrap().1, Ok(2));
}

#[test]
fn aggregates_follow_the_window_order() {
    let df = sample();
    assert_eq!(df.sumdf(UtahAxis::Row).as_array().unwrap(), vec![3, 7, 11]);
    assert_eq!(df.sumdf(UtahAxis::Column).as_array().unwrap(), vec![9, 12]);
    assert_eq!(df.mean(UtahAxis::Column).as_array().unwrap(), vec![3, 4]);
    assert_eq!(df.maxdf(UtahAxis::Column).as_array().unwrap(), vec![5, 6]);
    assert_eq!(df.mindf(UtahAxis::Row).as_array().unwrap(), vec![1, 3, 5]);
    let mut it = df.maxdf(UtahAxis::Row);
    assert_eq!(it.next().unwrap(), ("x".to_string(), Ok(2)));
    assert_eq!(it.next().unwrap(), ("y".to_string(), Ok(4)));
    assert_eq!(it.next().unwrap(), ("z".to_string(), Ok(6)));
    assert!(it.next().is_none());
}

#[test]
fn aggregates_materialize_to_one_lane() {
    let df = sample();
    let out = df.sumdf(UtahAxis::Row).as_df().unwrap();
    assert_eq!(texts(out.row_labels()), vec!["x", "y", "z"]);
    assert_eq!(texts(out.column_labels()), vec!["0"]);
    assert_eq!(out.to_rows(), vec![vec![3], vec![7], vec![11]]);
    let out = df.mean(UtahAxis::Column).as_df().unwrap();
    assert_eq!(texts(out.column_labels()), vec!["a", "b"]);
    assert_eq!(texts(out.row_labels()), vec!["0"]);
    assert_eq!(out.to_rows(), vec![vec![3, 4]]);
    let m = df.mindf(UtahAxis::Column).as_matrix().unwrap();
    assert_eq!(m.dim(), (1, 2));
    assert_eq!(rows_of(&m), vec![vec![1, 2]]);
    let m = df.maxdf(UtahAxis::Row).as_matrix().unwrap();
    assert_eq!(rows_of(&m), vec![vec![2], vec![4], vec![6]]);
}

#[test]
fn standard_deviation_is_the_root_of_the_population_variance() {
    let df = frame(
        5,
        8,
        vec![
            2, 4, 4, 4, 5, 5, 7, 9, //
            1, 2, 3, 4, 1, 2, 3, 4, //
            5, 5, 5, 5, 5, 5, 5, 5, //
            0, 10, 0, 10, 0, 10, 0, 10, //
            -3, 3, -3, 3, -3, 3, -3, 3,
        ],
        &["a", "b", "c", "d", "e", "f", "g", "h"],
        &["v", "w", "x", "y", "z"],
    );
    assert_eq!(df.stdev(UtahAxis::Row).as_array().unwrap(), vec![2, 1, 0, 5, 3]);
    let df = frame(1, 2, vec![1, 2], &["a", "b"], &["x"]);
    assert_eq!(df.stdev(UtahAxis::Row).next().unwrap(), ("x".to_string(), Ok(0)));
    let df = frame(1, 2, vec![-1_000_000_000_000, 1_000_000_000_000], &["a", "b"], &["x"]);
    assert_eq!(df.stdev(UtahAxis::Row).as_array().unwrap(), vec![1_000_000_000_000]);
    let out = df.stdev(UtahAxis::Column).as_df().unwrap();
    assert_eq!(out.to_rows(), vec![vec![0, 0]]);
}

#[test]
fn standard_deviation_at_the_limits() {
    let df = frame(1, 0, vec![], &[], &["x"]);
    assert!(matches!(df.stdev(UtahAxis::Row).as_array(), Err(UtahError::EmptyReduction)));
    let df = frame(1, 2, vec![i64::MIN, i64::MAX], &["a", "b"], &["x"]);
    assert!(matches!(df.stdev(UtahAxis::Row).as_array(), Err(UtahError::Overflow)));
    let df = frame(1, 1, vec![i64::MIN], &["a"], &["x"]);
    assert_eq!(df.stdev(UtahAxis::Row).as_array().unwrap(), vec![0]);
}

#[test]
fn mean_rounds_towards_zero() {
    let df = frame(2, 2, vec![-3, -4, 3, 4], &["a", "b"], &["x", "y"]);
    assert_eq!(df.mean(UtahAxis::Row).as_array().unwrap(), vec![-3, 3]);
    let df = frame(1, 2, vec![i64::MIN, i64::MIN], &["a", "b"], &["x"]);
    assert_eq!(df.mean(UtahAxis::Row).as_array().unwrap(), vec![i64::MIN]);
    let df = frame(1, 2, vec![i64::MAX, i64::MAX], &["a", "b"], &["x"]);
    assert_eq!(df.mean(UtahAxis::Row).as_array().unwrap(), vec![i64::MAX]);
}

#[test]
fn sum_counts_the_missing_value_as_it_is() {
    let df = frame(1, 2, vec![EMPTY, 1], &["a", "b"], &["x"]);
    assert_eq!(df.sumdf(UtahAxis::Row).as_array().unwrap(), vec![i64::MIN + 1]);
}

#[test]
fn sum_reports_overflow() {
    let df = frame(2, 2, vec![i64::MAX, 1, 1, 2], &["a", "b"], &["x", "y"]);
    let mut it = df.sumdf(UtahAxis::Row);
    assert_eq!(it.next().unwrap().1, Err(UtahError::Overflow));
    assert_eq!(it.next().unwrap().1, Ok(3));
    assert!(matches!(df.sumdf(UtahAxis::Row).as_df(), Err(UtahError::Overflow)));
    assert!(matches!(df.sumdf(UtahAxis::Row).as_array(), Err(UtahError::Overflow)));
    let df = frame(1, 2, vec![i64::MIN, -1], &["a", "b"], &["x"]);
    assert!(matches!(df.sumdf(UtahAxis::Row).as_matrix(), Err(UtahError::Overflow)));
}

#[test]
fn reductions_of_empty_windows() {
    let df = frame(2, 0, vec![], &[], &["x", "y"]);
    assert_eq!(df.sumdf(UtahAxis::Row).as_array().unwrap(), vec![0, 0]);
    assert!(matches!(df.mean(UtahAxis::Row).as_array(), Err(UtahError::EmptyReduction)));
    assert!(matches!(df.maxdf(UtahAxis::Row).as_df(), Err(UtahError::EmptyReduction)));
    assert!(matches!(df.mindf(UtahAxis::Row).as_matrix(), Err(UtahError::EmptyReduction)));
    assert_eq!(df.mean(UtahAxis::Row).next().unwrap().1, Err(UtahError::EmptyReduction));
    assert_eq!(df.mean(UtahAxis::Column).as_array().unwrap(), Vec::<i64>::new());
}

#[test]
fn mapdf_rewrites_the_frame_in_place() {
    let mut df = sample();
    let out = df.mapdf(|x| x * 10, UtahAxis::Row).as_df().unwrap();
    assert_eq!(out.to_rows(), vec![vec![10, 20], vec![30, 40], vec![50, 60]]);
    assert_eq!(texts(out.row_labels()), vec!["x", "y", "z"]);
    assert_eq!(texts(out.column_labels()), vec!["a", "b"]);
    assert_eq!(df.to_rows(), vec![vec![10, 20], vec![30, 40], vec![50, 60]]);
    let out = df.map(|x| x + 1, UtahAxis::Column).as_df().unwrap();
    assert_eq!(out.to_rows(), vec![vec![11, 21], vec![31, 41], vec![51, 61]]);
    assert_eq!(df.to_rows(), vec![vec![11, 21], vec![31, 41], vec![51, 61]]);
}

#[test]
fn mapdf_is_lazy() {
    let mut df = sample();
    {
        let mut it = df.mapdf(|x| -x, UtahAxis::Row);
        let (label, cells) = it.next().unwrap();
        assert_eq!(label, "x");
        assert_eq!(cells, vec![-1, -2]);
    }
    assert_eq!(df.to_rows(), vec![vec![-1, -2], vec![3, 4], vec![5, 6]]);
    {
        let _untouched = df.mapdf(|x| x * 100, UtahAxis::Column);
    }
    assert_eq!(df.to_rows(), vec![vec![-1, -2], vec![3, 4], vec![5, 6]]);
    let flat = df.mapdf(|x| x * 2, UtahAxis::Column).as_array().unwrap();
    assert_eq!(flat, vec![-2, 6, 10, -4, 8, 12]);
    let m = df.mapdf(|x| x / 2, UtahAxis::Column).as_matrix().unwrap();
    assert_eq!(rows_of(&m), vec![vec![-1, -2], vec![3, 4], vec![5, 6]]);
}

#[test]
fn impute_fills_missing_cells_with_the_mean_of_the_others() {
    let mut df = frame(1, 3, vec![EMPTY, 2, 4], &["a", "b", "c"], &["x"]);
    let out = df.impute(ImputeStrategy::Mean, UtahAxis::Row).as_df().unwrap();
    assert_eq!(out.to_rows(), vec![vec![3, 2, 4]]);
    assert_eq!(df.to_rows(), vec![vec![3, 2, 4]]);
}

#[test]
fn impute_along_columns() {
    let mut df = frame(3, 2, vec![1, EMPTY, EMPTY, 10, 4, 20], &["a", "b"], &["x", "y", "z"]);
    let out = df.impute(ImputeStrategy::Mean, UtahAxis::Column).as_df().unwrap();
    assert_eq!(out.to_rows(), vec![vec![1, 15], vec![2, 10], vec![4, 20]]);
    assert_eq!(texts(out.column_labels()), vec!["a", "b"]);
    assert_eq!(texts(out.row_labels()), vec!["x", "y", "z"]);
    assert_eq!(df.to_rows(), vec![vec![1, 15], vec![2, 10], vec![4, 20]]);
}

#[test]
fn impute_leaves_complete_windows_alone() {
    let mut df = sample();
    let flat = df.impute(ImputeStrategy::Mean, UtahAxis::Row).as_array().unwrap();
    assert_eq!(flat, vec![1, 2, 3, 4, 5, 6]);
    let m = df.impute(ImputeStrategy::Mean, UtahAxis::Row).as_matrix().unwrap();
    assert_eq!(rows_of(&m), vec![vec![1, 2], vec![3, 4], vec![5, 6]]);
}

#[test]
fn impute_of_a_window_without_values_fails() {
    let mut df = frame(3, 2, vec![EMPTY, 1, EMPTY, EMPTY, EMPTY, 5], &["a", "b"], &["x", "y", "z"]);
    {
        let mut it = df.impute(ImputeStrategy::Mean, UtahAxis::Row);
        assert_eq!(it.next().unwrap(), ("x".to_string(), Ok(vec![1, 1])));
        assert_eq!(it.next().unwrap(), ("y".to_string(), Err(UtahError::EmptyReduction)));
        assert_eq!(it.next().unwrap(), ("z".to_string(), Ok(vec![5, 5])));
        assert!(it.next().is_none());
    }
    assert_eq!(df.to_rows(), vec![vec![1, 1], vec![EMPTY, EMPTY], vec![5, 5]]);
    let mut df = frame(3, 2, vec![EMPTY, 1, EMPTY, EMPTY, EMPTY, 5], &["a", "b"], &["x", "y", "z"]);
    let r = df.impute(ImputeStrategy::Mean, UtahAxis::Row).as_df();
    assert!(matches!(r, Err(UtahError::EmptyReduction)));
    assert_eq!(df.to_rows(), vec![vec![1, 1], vec![EMPTY, EMPTY], vec![EMPTY, 5]]);
}
