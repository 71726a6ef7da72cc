use dense_matrix::matrix::Matrix;

fn sample() -> Matrix<i32> {
    // 1 2 3
    // 4 5 6
    Matrix::from_vec(vec![1, 2, 3, 4, 5, 6], 3)
}

fn empty() -> Matrix<i32> {
    Matrix::from_vec(vec![], 0)
}

#[test]
fn push_row_adds_the_row_at_the_end_of_the_buffer() {
    let mut m = sample();
    m.push_row(vec![7, 8, 9]);
    assert_eq!(m.rows(), 3);
    assert_eq!(m.cols(), 3);
    assert_eq!(m.flatten(), &vec![1, 2, 3, 4, 5, 6, 7, 8, 9]);
    assert_eq!(&m[2], &[7, 8, 9]);
}

#[test]
fn push_row_on_the_empty_matrix_sets_the_number_of_columns() {
    let mut m = empty();
    m.push_row(vec![1, 2, 3, 4]);
    assert_eq!(m.rows(), 1);
    assert_eq!(m.cols(), 4);
    assert_eq!(&m[0], &[1, 2, 3, 4]);
}

#[test]
fn push_col_puts_one_value_behind_each_row() {
    let mut m = sample();
    m.push_col(vec![10, 20]);
    assert_eq!(m.rows(), 2);
    assert_eq!(m.cols(), 4);
    assert_eq!(m.flatten(), &vec![1, 2, 3, 10, 4, 5, 6, 20]);
    assert_eq!(m.get(0, 3), Some(&10));
    assert_eq!(m.get(1, 3), Some(&20));
}

#[test]
fn push_col_on_the_empty_matrix_sets_the_number_of_rows() {
    let mut m = empty();
    m.push_col(vec![1, 2, 3]);
    assert_eq!(m.rows(), 3);
    assert_eq!(m.cols(), 1);
    assert_eq!(m.flatten(), &vec![1, 2, 3]);
    m.push_col(vec![4, 5, 6]);
    assert_eq!(m.cols(), 2);
    assert_eq!(m.flatten(), &vec![1, 4, 2, 5, 3, 6]);
}

#[test]
fn pop_row_takes_the_last_row() {
    let mut m = sample();
    assert_eq!(m.pop_row(), Some(vec![4, 5, 6]));
    assert_eq!(m.rows(), 1);
    assert_eq!(m.cols(), 3);
    assert_eq!(m.flatten(), &vec![1, 2, 3]);
}

#[test]
fn pop_row_of_the_only_row_leaves_the_empty_matrix() {
    let mut m = Matrix::from_vec(vec![1, 2, 3], 3);
    assert_eq!(m.pop_row(), Some(vec![1, 2, 3]));
    assert_eq!(m.rows(), 0);
    assert_eq!(m.cols(), 0);
    assert_eq!(m.pop_row(), None);
    assert_eq!(m.rows(), 0);
    assert_eq!(m.cols(), 0);
}

#[test]
fn pop_col_takes_the_last_column() {
    let mut m = sample();
    assert_eq!(m.pop_col(), Some(vec![3, 6]));
    assert_eq!(m.rows(), 2);
    assert_eq!(m.cols(), 2);
    assert_eq!(m.flatten(), &vec![1, 2, 4, 5]);
}

#[test]
fn pop_col_of_the_only_column_leaves_the_empty_matrix() {
    let mut m = Matrix::from_vec(vec![1, 2, 3], 1);
    assert_eq!(m.pop_col(), Some(vec![1, 2, 3]));
    assert_eq!(m.rows(), 0);
    assert_eq!(m.cols(), 0);
    assert_eq!(m.pop_col(), None);
    assert_eq!(m.rows(), 0);
    assert_eq!(m.cols(), 0);
}

#[test]
fn pop_on_the_empty_matrix_is_none() {
    let mut m = empty();
    assert_eq!(m.pop_row(), None);
    assert_eq!(m.pop_col(), None);
    assert_eq!(m.flatten().len(), 0);
}

#[test]
fn push_row_then_pop_row_gives_back_the_row_and_the_matrix() {
    let mut m = sample();
    m.push_row(vec![7, 8, 9]);
    assert_eq!(m.pop_row(), Some(vec![7, 8, 9]));
    assert!(m == sample());
    assert_eq!((m.rows(), m.cols()), (2, 3));
}

#[test]
fn push_row_then_pop_row_on_the_empty_matrix_gives_back_the_empty_matrix() {
    let mut m = empty();
    m.push_row(vec![7, 8]);
    assert_eq!(m.pop_row(), Some(vec![7, 8]));
    assert!(m == empty());
    assert_eq!((m.rows(), m.cols()), (0, 0));
}

#[test]
fn push_col_then_pop_col_gives_back_the_column_and_the_matrix() {
    let mut m = sample();
    m.push_col(vec![7, 8]);
    assert_eq!(m.pop_col(), Some(vec![7, 8]));
    assert!(m == sample());
    assert_eq!((m.rows(), m.cols()), (2, 3));
}

#[test]
fn push_col_then_pop_col_on_the_empty_matrix_gives_back_the_empty_matrix() {
    let mut m = empty();
    m.push_col(vec![7, 8]);
    assert_eq!(m.pop_col(), Some(vec![7, 8]));
    assert!(m == empty());
    assert_eq!((m.rows(), m.cols()), (0, 0));
}

#[test]
fn insert_row_at_the_front_is_read_back_unchanged() {
    let mut m = Matrix::from_vec(vec![4, 5, 6], 3);
    let v = vec![1, 2, 3];
    m.insert_row(0, v.clone());
    assert_eq!(&m[0], v.as_slice());
    assert_eq!(&m[1], &[4, 5, 6]);
    assert_eq!(m.rows(), 2);
}

#[test]
fn a_first_row_given_to_the_empty_matrix_is_read_back_unchanged() {
    let mut m = empty();
    let v = vec![3, 1, 2];
    m.push_row(v.clone());
    assert_eq!(&m[0], v.as_slice());
}

#[test]
fn insert_row_in_the_middle_moves_the_later_rows_down() {
    let mut m = sample();
    m.insert_row(1, vec![7, 8, 9]);
    assert_eq!(m.rows(), 3);
    assert_eq!(m.cols(), 3);
    assert_eq!(m.flatten(), &vec![1, 2, 3, 7, 8, 9, 4, 5, 6]);
}

#[test]
fn insert_row_behind_the_last_row_is_push_row() {
    let mut a = sample();
    let mut b = sample();
    a.insert_row(2, vec![7, 8, 9]);
    b.push_row(vec![7, 8, 9]);
    assert!(a == b);
}

#[test]
fn insert_col_at_the_front_moves_every_column_right() {
    let mut m = sample();
    m.insert_col(0, vec![10, 20]);
    assert_eq!(m.rows(), 2);
    assert_eq!(m.cols(), 4);
    assert_eq!(m.flatten(), &vec![10, 1, 2, 3, 20, 4, 5, 6]);
}

#[test]
fn insert_col_in_the_middle_keeps_the_columns_before_it() {
    let mut m = sample();
    m.insert_col(2, vec![10, 20]);
    assert_eq!(m.flatten(), &vec![1, 2, 10, 3, 4, 5, 20, 6]);
    let col: Vec<i32> = m.iter_col(2).copied().collect();
    assert_eq!(col, vec![10, 20]);
}

#[test]
fn insert_col_behind_the_last_column_is_push_col() {
    let mut a = sample();
    let mut b = sample();
    a.insert_col(3, vec![10, 20]);
    b.push_col(vec![10, 20]);
    assert!(a == b);
}

#[test]
fn edits_move_values_that_are_not_copy() {
    let s = |t: &str| String::from(t);
    let mut m = Matrix::from_vec(vec![s("a"), s("b")], 2);
    m.push_row(vec![s("c"), s("d")]);
    m.push_col(vec![s("e"), s("f")]);
    m.insert_col(1, vec![s("g"), s("h")]);
    m.insert_row(1, vec![s("i"), s("j"), s("k"), s("l")]);
    let cells: Vec<&str> = m.iter().map(|x| x.as_str()).collect();
    assert_eq!(cells, vec!["a", "g", "b", "e", "i", "j", "k", "l", "c", "h", "d", "f"]);
    assert_eq!(m.pop_col(), Some(vec![s("e"), s("l"), s("f")]));
    assert_eq!(m.pop_row(), Some(vec![s("c"), s("h"), s("d")]));
}

#[test]
fn transpose_exchanges_rows_and_columns() {
    let m = sample();
    let t = m.transpose();
    assert_eq!(t.rows(), 3);
    assert_eq!(t.cols(), 2);
    assert_eq!(t.flatten(), &vec![1, 4, 2, 5, 3, 6]);
    for r in 0..2 {
        for c in 0..3 {
            assert_eq!(t.get(c, r), m.get(r, c));
        }
    }
    assert!(m == sample());
}

#[test]
fn transpose_twice_gives_back_the_matrix() {
    let m = sample();
    assert!(m.transpose().transpose() == m);
    let row = Matrix::from_vec(vec![1, 2, 3], 3);
    assert!(row.transpose().transpose() == row);
    let col = Matrix::from_vec(vec![1, 2, 3], 1);
    assert!(col.transpose().transpose() == col);
}

#[test]
fn transpose_of_the_empty_matrix_is_empty() {
    let t = empty().transpose();
    assert_eq!((t.rows(), t.cols()), (0, 0));
}
