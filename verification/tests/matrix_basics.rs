use dense_matrix::matrix::Matrix;
use dense_matrix::render::bracket_groups;
use dense_matrix::render::list_cells;

fn sample() -> Matrix<i32> {
    // 1 2 3
    // 4 5 6
    Matrix::from_vec(vec![1, 2, 3, 4, 5, 6], 3)
}

#[test]
fn from_vec_reads_rows_of_the_given_width() {
    let m = sample();
    assert_eq!(m.rows(), 2);
    assert_eq!(m.cols(), 3);
    assert_eq!(m.flatten(), &vec![1, 2, 3, 4, 5, 6]);
}

#[test]
fn from_vec_of_nothing_with_no_columns_is_the_empty_matrix() {
    let m: Matrix<i32> = Matrix::from_vec(vec![], 0);
    assert_eq!(m.rows(), 0);
    assert_eq!(m.cols(), 0);
    assert_eq!(m.flatten().len(), 0);
    assert_eq!(m.get(0, 0), None);
    assert_eq!(m.iter().count(), 0);
}

#[test]
fn from_vec_with_one_column_makes_one_row_per_value() {
    let m = Matrix::from_vec(vec![7, 8, 9], 1);
    assert_eq!(m.rows(), 3);
    assert_eq!(m.cols(), 1);
    assert_eq!(m.get(2, 0), Some(&9));
}

#[test]
fn new_fills_every_cell_with_the_default_value() {
    let m: Matrix<i32> = Matrix::new(2, 3);
    assert_eq!(m.rows(), 2);
    assert_eq!(m.cols(), 3);
    assert_eq!(m.flatten(), &vec![0; 6]);
    for r in 0..2 {
        for c in 0..3 {
            assert_eq!(m.get(r, c), Some(&i32::default()));
        }
    }
}

#[test]
fn new_works_for_values_that_are_not_copy() {
    let m: Matrix<String> = Matrix::new(1, 2);
    assert_eq!(m.get(0, 1), Some(&String::new()));
}

#[test]
fn init_fills_every_cell_with_the_given_value() {
    let m = Matrix::init(3, 2, String::from("x"));
    assert_eq!(m.rows(), 3);
    assert_eq!(m.cols(), 2);
    assert_eq!(m.flatten().len(), 6);
    assert!(m.iter().all(|s| s == "x"));
}

#[test]
fn the_buffer_always_holds_rows_times_cols_cells() {
    let mut m = sample();
    assert_eq!(m.flatten().len(), m.rows() * m.cols());
    m.push_row(vec![7, 8, 9]);
    assert_eq!(m.flatten().len(), m.rows() * m.cols());
    m.push_col(vec![0, 0, 0]);
    assert_eq!(m.flatten().len(), m.rows() * m.cols());
    m.insert_row(1, vec![1, 1, 1, 1]);
    assert_eq!(m.flatten().len(), m.rows() * m.cols());
    m.insert_col(2, vec![2, 2, 2, 2]);
    assert_eq!(m.flatten().len(), m.rows() * m.cols());
    m.pop_row();
    assert_eq!(m.flatten().len(), m.rows() * m.cols());
    m.pop_col();
    assert_eq!(m.flatten().len(), m.rows() * m.cols());
    let t = m.transpose();
    assert_eq!(t.flatten().len(), t.rows() * t.cols());
    assert_eq!((m.rows(), m.cols()), (3, 4));
}

#[test]
fn get_finds_the_cell_at_row_times_cols_plus_col() {
    let m = sample();
    for r in 0..2 {
        for c in 0..3 {
            assert_eq!(m.get(r, c), Some(&m.flatten()[r * 3 + c]));
        }
    }
    assert_eq!(m.get(0, 0), Some(&1));
    assert_eq!(m.get(0, 2), Some(&3));
    assert_eq!(m.get(1, 0), Some(&4));
    assert_eq!(m.get(1, 2), Some(&6));
}

#[test]
fn get_outside_the_matrix_is_none() {
    let m = sample();
    assert_eq!(m.get(2, 0), None);
    assert_eq!(m.get(0, 3), None);
    assert_eq!(m.get(2, 3), None);
    assert_eq!(m.get(usize::MAX, usize::MAX), None);
}

#[test]
fn get_mut_writes_one_cell_and_no_other() {
    let mut m = sample();
    *m.get_mut(1, 1).unwrap() = 50;
    assert_eq!(m.flatten(), &vec![1, 2, 3, 4, 50, 6]);
    assert!(m.get_mut(2, 0).is_none());
    assert!(m.get_mut(0, 3).is_none());
    assert_eq!(m.flatten(), &vec![1, 2, 3, 4, 50, 6]);
}

#[test]
fn unchecked_reads_and_writes_the_cell_inside_the_matrix() {
    let mut m = sample();
    assert_eq!(*m.unchecked(1, 2), 6);
    assert_eq!(*m.unchecked(0, 1), 2);
    *m.unchecked_mut(0, 1) = 20;
    assert_eq!(m.flatten(), &vec![1, 20, 3, 4, 5, 6]);
}

#[test]
fn indexing_by_a_row_agrees_with_get() {
    let m = sample();
    assert_eq!(&m[0], &[1, 2, 3]);
    assert_eq!(&m[1], &[4, 5, 6]);
    for r in 0..m.rows() {
        assert_eq!(m[r].len(), m.cols());
        for c in 0..m.cols() {
            assert_eq!(Some(&m[r][c]), m.get(r, c));
        }
    }
}

#[test]
fn into_vec_gives_the_cells_row_after_row() {
    let m = sample();
    assert_eq!(m.into_vec(), vec![1, 2, 3, 4, 5, 6]);
}

#[test]
fn clone_has_the_same_shape_and_cells() {
    let m = Matrix::from_vec(vec![String::from("a"), String::from("b")], 2);
    let c = m.clone();
    assert_eq!(c.rows(), 1);
    assert_eq!(c.cols(), 2);
    assert_eq!(c.flatten(), m.flatten());
    assert!(c == m);
}

#[test]
fn equality_holds_of_a_matrix_and_itself() {
    let m = sample();
    assert!(m == m);
    let e: Matrix<i32> = Matrix::from_vec(vec![], 0);
    assert!(e == e);
}

#[test]
fn equality_does_not_depend_on_the_side() {
    let a = sample();
    let b = sample();
    let c = Matrix::from_vec(vec![1, 2, 3, 4, 5, 7], 3);
    assert!(a == b);
    assert!(b == a);
    assert!(a != c);
    assert!(c != a);
}

#[test]
fn equality_sees_one_differing_cell() {
    let a = sample();
    for i in 0..6 {
        let mut cells = vec![1, 2, 3, 4, 5, 6];
        cells[i] = 0;
        let b = Matrix::from_vec(cells, 3);
        assert!(a != b);
    }
}

#[test]
fn equality_sees_a_different_shape_over_the_same_cells() {
    let a = Matrix::from_vec(vec![1, 2, 3, 4, 5, 6], 3);
    let b = Matrix::from_vec(vec![1, 2, 3, 4, 5, 6], 2);
    let c = Matrix::from_vec(vec![1, 2, 3, 4, 5, 6], 6);
    assert!(a != b);
    assert!(a != c);
    assert!(b != c);
}

#[test]
fn the_debug_text_has_one_group_for_each_row() {
    let m = sample();
    assert_eq!(m.to_debug_string(), "[[1, 2, 3][4, 5, 6]]");
    let one = Matrix::from_vec(vec!["a"], 1);
    assert_eq!(one.to_debug_string(), "[[\"a\"]]");
}

#[test]
fn the_debug_text_separates_the_cells_of_a_row_by_a_comma_and_a_blank() {
    let row = Matrix::from_vec(vec![7, 8, 9, 10], 4);
    assert_eq!(row.to_debug_string(), "[[7, 8, 9, 10]]");
    let col = Matrix::from_vec(vec![7, 8, 9], 1);
    assert_eq!(col.to_debug_string(), "[[7][8][9]]");
    let single = Matrix::from_vec(vec![-1], 1);
    assert_eq!(single.to_debug_string(), "[[-1]]");
}

#[test]
fn the_debug_text_agrees_with_the_debug_text_of_the_rows_as_slices() {
    let m = Matrix::from_vec(vec![Some("a"), None, Some("b\n"), None, None, Some("")], 2);
    let mut want = String::from("[");
    for r in 0..m.rows() {
        want.push_str(&format!("{:?}", &m[r]));
    }
    want.push(']');
    assert_eq!(m.to_debug_string(), want);
    assert_eq!(m.to_debug_string(), "[[Some(\"a\"), None][Some(\"b\\n\"), None][None, Some(\"\")]]");
}

#[test]
fn list_cells_and_bracket_groups_lay_the_brackets_and_commas() {
    let cells = vec![String::from("x"), String::from("yy"), String::from("")];
    assert_eq!(list_cells(&cells), "[x, yy, ]");
    assert_eq!(list_cells(&vec![String::from("x")]), "[x]");
    assert_eq!(list_cells(&Vec::new()), "[]");
    let groups = vec![String::from("[a]"), String::from("[b]")];
    assert_eq!(bracket_groups(&groups), "[[a][b]]");
    assert_eq!(bracket_groups(&Vec::new()), "[]");
}

#[test]
fn the_debug_text_of_the_empty_matrix_is_a_pair_of_brackets() {
    let e: Matrix<u8> = Matrix::from_vec(vec![], 0);
    assert_eq!(e.to_debug_string(), "[]");
}
