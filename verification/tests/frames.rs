use utah::dataframe::DataFrame;
use utah::matrix::{Matrix, SliceView};
use utah::util::error::UtahError;
use utah::util::labels::{all_distinct, contains_label, decimal_label, make_default_labels};
use utah::util::traits::WindowStream;
use utah::util::types::UtahAxis;

fn frame(nrows: usize, ncols: usize, cells: Vec<i64>, columns: &[&str], index: &[&str]) -> DataFrame {
    let m = Matrix::from_shape_vec(nrows, ncols, cells).unwrap();
    DataFrame::new(m).columns(columns).unwrap().index(index).unwrap()
}

fn texts(labels: &Vec<String>) -> Vec<&str> {
    labels.iter().map(|l| l.as_str()).collect()
}

#[test]
fn it_works() {
    assert_eq!(2 + 2, 4);
}

#[test]
fn matrix_is_row_major() {
    let m = Matrix::from_shape_vec(2, 3, vec![1, 2, 3, 4, 5, 6]).unwrap();
    assert_eq!(m.dim(), (2, 3));
    assert_eq!(m.row(0).to_vec(), vec![1, 2, 3]);
    assert_eq!(m.row(1).to_vec(), vec![4, 5, 6]);
    assert_eq!(m.column(0).to_vec(), vec![1, 4]);
    assert_eq!(m.column(2).to_vec(), vec![3, 6]);
}

#[test]
fn matrix_rejects_a_wrong_cell_count() {
    assert!(matches!(
        Matrix::from_shape_vec(2, 3, vec![1, 2, 3, 4, 5]),
        Err(UtahError::ShapeMismatch)
    ));
    assert!(matches!(Matrix::from_shape_vec(0, 3, vec![1]), Err(UtahError::ShapeMismatch)));
}

#[test]
fn matrix_without_rows_keeps_its_width() {
    let m = Matrix::from_shape_vec(0, 3, vec![]).unwrap();
    assert_eq!(m.dim(), (0, 3));
    let t = m.transposed();
    assert_eq!(t.dim(), (3, 0));
}

#[test]
fn matrix_set_changes_one_cell() {
    let mut m = Matrix::from_shape_vec(2, 2, vec![1, 2, 3, 4]).unwrap();
    m.set(1, 0, 9);
    assert_eq!(m.row(0).to_vec(), vec![1, 2]);
    assert_eq!(m.row(1).to_vec(), vec![9, 4]);
}

#[test]
fn matrix_transposed_swaps_rows_and_columns() {
    let m = Matrix::from_shape_vec(2, 3, vec![1, 2, 3, 4, 5, 6]).unwrap();
    let t = m.transposed();
    assert_eq!(t.dim(), (3, 2));
    assert_eq!(t.row(0).to_vec(), vec![1, 4]);
    assert_eq!(t.row(1).to_vec(), vec![2, 5]);
    assert_eq!(t.row(2).to_vec(), vec![3, 6]);
    assert_eq!(t.column(1).to_vec(), vec![4, 5, 6]);
}

#[test]
fn slice_view_shows_the_slice() {
    let cells = [5i64, 6, 7];
    let v = SliceView::from_slice(&cells);
    assert_eq!(v.len(), 3);
    assert_eq!(v.get(0), 5);
    assert_eq!(v.get(2), 7);
    assert_eq!(v.to_vec(), vec![5, 6, 7]);
    let copy = v.duplicate();
    assert_eq!(copy.to_vec(), vec![5, 6, 7]);
    let empty: [i64; 0] = [];
    assert_eq!(SliceView::from_slice(&empty).len(), 0);
}

#[test]
fn default_labels_are_numerals() {
    assert_eq!(decimal_label(0), "0");
    assert_eq!(decimal_label(7), "7");
    assert_eq!(decimal_label(10), "10");
    assert_eq!(decimal_label(905), "905");
    assert_eq!(decimal_label(1234567890), "1234567890");
    assert_eq!(make_default_labels(3), vec!["0", "1", "2"]);
    assert!(make_default_labels(0).is_empty());
}

#[test]
fn label_tests() {
    let labels = vec!["a".to_string(), "b".to_string(), "c".to_string()];
    assert!(all_distinct(&labels));
    assert!(contains_label(&labels, &"b".to_string()));
    assert!(!contains_label(&labels, &"d".to_string()));
    let twice = vec!["a".to_string(), "b".to_string(), "a".to_string()];
    assert!(!all_distinct(&twice));
    assert!(all_distinct(&Vec::new()));
}

#[test]
fn new_frame_has_default_labels() {
    let m = Matrix::from_shape_vec(2, 3, vec![1, 2, 3, 4, 5, 6]).unwrap();
    let df = DataFrame::new(m);
    assert_eq!(df.shape(), (2, 3));
    assert_eq!(texts(df.column_labels()), vec!["0", "1", "2"]);
    assert_eq!(texts(df.row_labels()), vec!["0", "1"]);
    assert_eq!(df.to_rows(), vec![vec![1, 2, 3], vec![4, 5, 6]]);
    assert_eq!(df.matrix().dim(), (2, 3));
}

#[test]
fn labels_can_be_set() {
    let df = frame(2, 2, vec![1, 2, 3, 4], &["a", "b"], &["x", "y"]);
    assert_eq!(texts(df.column_labels()), vec!["a", "b"]);
    assert_eq!(texts(df.row_labels()), vec!["x", "y"]);
    assert_eq!(texts(&df.other_labels(UtahAxis::Row)), vec!["a", "b"]);
    assert_eq!(texts(&df.other_labels(UtahAxis::Column)), vec!["x", "y"]);
}

#[test]
fn labels_must_match_the_shape() {
    let m = Matrix::from_shape_vec(2, 2, vec![1, 2, 3, 4]).unwrap();
    assert!(matches!(DataFrame::new(m).columns(&["a"]), Err(UtahError::ShapeMismatch)));
    let m = Matrix::from_shape_vec(2, 2, vec![1, 2, 3, 4]).unwrap();
    assert!(matches!(DataFrame::new(m).index(&["x", "y", "z"]), Err(UtahError::ShapeMismatch)));
}

#[test]
fn labels_must_be_unique() {
    let m = Matrix::from_shape_vec(2, 2, vec![1, 2, 3, 4]).unwrap();
    assert!(matches!(DataFrame::new(m).columns(&["a", "a"]), Err(UtahError::LabelConflict)));
    let m = Matrix::from_shape_vec(2, 2, vec![1, 2, 3, 4]).unwrap();
    assert!(matches!(DataFrame::new(m).index(&["x", "x"]), Err(UtahError::LabelConflict)));
}

#[test]
fn shape_comes_before_labels() {
    let m = Matrix::from_shape_vec(1, 2, vec![1, 2]).unwrap();
    let r = DataFrame::from_parts(
        m,
        vec!["a".to_string(), "a".to_string(), "a".to_string()],
        vec!["x".to_string()],
    );
    assert!(matches!(r, Err(UtahError::ShapeMismatch)));
}

#[test]
fn traversal_by_rows() {
    let df = frame(2, 3, vec![1, 2, 3, 4, 5, 6], &["a", "b", "c"], &["x", "y"]);
    let mut it = df.df_iter(UtahAxis::Row);
    let (label, cells) = it.next().unwrap();
    assert_eq!(label, "x");
    assert_eq!(cells.to_vec(), vec![1, 2, 3]);
    let (label, cells) = it.next().unwrap();
    assert_eq!(label, "y");
    assert_eq!(cells.to_vec(), vec![4, 5, 6]);
    assert!(it.next().is_none());
    assert!(it.next().is_none());
}

#[test]
fn traversal_by_columns() {
    let df = frame(2, 3, vec![1, 2, 3, 4, 5, 6], &["a", "b", "c"], &["x", "y"]);
    let mut it = df.df_iter(UtahAxis::Column);
    let (label, cells) = it.next().unwrap();
    assert_eq!(label, "a");
    assert_eq!(cells.to_vec(), vec![1, 4]);
    let (label, cells) = it.next().unwrap();
    assert_eq!(label, "b");
    assert_eq!(cells.to_vec(), vec![2, 5]);
    let (label, cells) = it.next().unwrap();
    assert_eq!(label, "c");
    assert_eq!(cells.to_vec(), vec![3, 6]);
    assert!(it.next().is_none());
}

#[test]
fn traversal_restarts_from_the_frame() {
    let df = frame(1, 1, vec![8], &["a"], &["x"]);
    let mut first = df.df_iter(UtahAxis::Row);
    assert!(first.next().is_some());
    assert!(first.next().is_none());
    let mut second = df.df_iter(UtahAxis::Row);
    assert_eq!(second.next().unwrap().1.to_vec(), vec![8]);
}

#[test]
fn mutable_traversal_rewrites_in_place() {
    let mut df = frame(2, 2, vec![1, 2, 3, 4], &["a", "b"], &["x", "y"]);
    {
        let mut it = df.df_iter_mut(UtahAxis::Column);
        let (label, cells) = it.current().unwrap();
        assert_eq!(label, "a");
        assert_eq!(cells, vec![1, 3]);
        it.replace(&vec![10, 30]);
        it.skip();
        assert!(it.current().is_none());
    }
    assert_eq!(df.to_rows(), vec![vec![10, 2], vec![30, 4]]);
    {
        let mut it = df.df_iter_mut(UtahAxis::Row);
        it.skip();
        let (label, cells) = it.current().unwrap();
        assert_eq!(label, "y");
        assert_eq!(cells, vec![30, 4]);
        it.replace(&vec![7, 8]);
    }
    assert_eq!(df.to_rows(), vec![vec![10, 2], vec![7, 8]]);
}
