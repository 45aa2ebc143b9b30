use generic_matrix::matrix::Matrix;
use generic_matrix::matrixbuilder::MatrixBuilder;
use generic_matrix::matrixerror::MatrixError;
use generic_matrix::matrixtraits::MatrixExec;
use generic_matrix::matrixtraits::MatrixSearch;
use generic_matrix::matrixtraits::MatrixSlice;
use generic_matrix::matrixtraits::MatrixTransform;

fn three_by_three() -> Matrix<i32> {
    MatrixBuilder::new()
        .row(vec![1, 2, 3])
        .row(vec![4, 5, 6])
        .row(vec![7, 8, 9])
        .build()
        .unwrap()
}

fn cells(m: Matrix<i32>) -> Vec<i32> {
    m.into_iter().collect::<Vec<i32>>()
}

#[test]
fn set_then_get_every_place() {
    let mut m = Matrix::new(3, 4, 0i64).unwrap();
    for r in 0..3 {
        for c in 0..4 {
            let v = (r * 10 + c) as i64;
            m.set(r, c, v).unwrap();
            assert_eq!(m.get(r, c).unwrap(), v);
        }
    }
    assert_eq!(*m.get_ref(2, 3).unwrap(), 23);
}

#[test]
fn builder_scenario_get_and_set() {
    let mut m = MatrixBuilder::new().row(vec![1, 2]).row(vec![3, 4]).build().unwrap();
    assert_eq!(m.get(1, 1).unwrap(), 4);
    m.set(1, 1, 5).unwrap();
    assert_eq!(m.get(1, 1).unwrap(), 5);
}

#[test]
fn accessors_outside_fail_and_change_nothing() {
    let mut m = three_by_three();
    let before = m.clone();
    assert_eq!(m.get(3, 0), Err(MatrixError::IndexOOB));
    assert_eq!(m.get(0, 3), Err(MatrixError::IndexOOB));
    assert_eq!(m.get_ref(5, 5), Err(MatrixError::IndexOOB));
    assert_eq!(m.set(3, 1, 0), Err(MatrixError::IndexOOB));
    assert_eq!(m.set(1, 3, 0), Err(MatrixError::IndexOOB));
    assert!(m.get_mut_ref(0, 7).is_err());
    assert_eq!(m.get_row(3), Err(MatrixError::IndexOOB));
    assert_eq!(m.get_col(3), Err(MatrixError::IndexOOB));
    assert!(!m.is_valid_index(3, 0));
    assert!(m.is_valid_index(2, 2));
    assert!(m == before);
}

#[test]
fn get_mut_ref_writes_through() {
    let mut m = three_by_three();
    *m.get_mut_ref(1, 2).unwrap() = 60;
    assert_eq!(m.get(1, 2).unwrap(), 60);
}

#[test]
fn swap_with_bad_place_changes_nothing() {
    let mut m = three_by_three();
    assert_eq!(m.swap(0, 0, 3, 0), Err(MatrixError::IndexOOB));
    assert_eq!(m.swap(0, 9, 1, 1), Err(MatrixError::IndexOOB));
    assert_eq!(cells(m), vec![1, 2, 3, 4, 5, 6, 7, 8, 9]);
}

#[test]
fn swap_same_place_and_two_places() {
    let mut m = three_by_three();
    m.swap(1, 1, 1, 1).unwrap();
    assert_eq!(m.get(1, 1).unwrap(), 5);
    m.swap(0, 2, 2, 0).unwrap();
    assert_eq!(cells(m), vec![1, 2, 7, 4, 5, 6, 3, 8, 9]);
}

#[test]
fn reshape_keeps_cells_in_order() {
    let m = three_by_three();
    let r = m.reshape(1, 9).unwrap();
    assert_eq!(r.get_size(), (1, 9));
    assert_eq!(r.get(0, 5).unwrap(), 6);
    assert_eq!(cells(r), vec![1, 2, 3, 4, 5, 6, 7, 8, 9]);
}

#[test]
fn reshape_to_other_count_fails() {
    let m = three_by_three();
    assert_eq!(m.reshape(2, 4), Err(MatrixError::ReshapeNotPossible));
    let m = three_by_three();
    assert_eq!(m.reshape(0, 9), Err(MatrixError::ReshapeNotPossible));
    let m = three_by_three();
    assert_eq!(m.reshape(usize::MAX, 2), Err(MatrixError::ReshapeNotPossible));
}

#[test]
fn transpose_twice_gives_back() {
    let m = MatrixBuilder::new().row(vec![1, 2, 3, 4]).row(vec![5, 6, 7, 8]).build().unwrap();
    let t = m.clone().transpose();
    assert_eq!(t.get_size(), (4, 2));
    assert_eq!(t.get(3, 1).unwrap(), 8);
    assert_eq!(t.transpose(), m);
}

#[test]
fn flips_twice_give_back() {
    let m = MatrixBuilder::new()
        .row(vec![1, 2, 3])
        .row(vec![4, 5, 6])
        .row(vec![7, 8, 9])
        .row(vec![10, 11, 12])
        .row(vec![13, 14, 15])
        .build()
        .unwrap();
    let mut h = m.clone();
    h.flip_hor();
    assert_eq!(h.get_row(0).unwrap(), vec![13, 14, 15]);
    assert_eq!(h.get_row(2).unwrap(), vec![7, 8, 9]);
    h.flip_hor();
    assert_eq!(h, m);
    let mut v = m.clone();
    v.flip_vert();
    assert_eq!(v.get_col(0).unwrap(), vec![3, 6, 9, 12, 15]);
    assert_eq!(v.get_col(1).unwrap(), vec![2, 5, 8, 11, 14]);
    v.flip_vert();
    assert_eq!(v, m);
}

#[test]
fn flip_single_row_and_column() {
    let mut m = MatrixBuilder::new().row(vec![1, 2, 3]).build().unwrap();
    m.flip_hor();
    assert_eq!(cells(m.clone()), vec![1, 2, 3]);
    m.flip_vert();
    assert_eq!(cells(m), vec![3, 2, 1]);
}

#[test]
fn area_written_back_changes_nothing() {
    let mut m = three_by_three();
    let area = m.get_area(0, 1, 2, 2).unwrap();
    assert_eq!(area.get_size(), (3, 2));
    m.replace_area(0, 1, 2, 2, area).unwrap();
    assert_eq!(m, three_by_three());
    let whole = m.get_area(0, 0, 2, 2).unwrap();
    assert_eq!(whole, three_by_three());
}

#[test]
fn area_scenario() {
    let m = three_by_three();
    let a = m.get_area(1, 1, 2, 2).unwrap();
    assert_eq!(cells(a), vec![5, 6, 8, 9]);
    let single = m.get_area(2, 0, 2, 0).unwrap();
    assert_eq!(cells(single), vec![7]);
}

#[test]
fn replace_area_scenario() {
    let mut m = three_by_three();
    let rep = MatrixBuilder::new().row(vec![5, 6]).row(vec![8, 9]).build().unwrap();
    m.replace_area(0, 0, 1, 1, rep).unwrap();
    assert_eq!(cells(m), vec![5, 6, 3, 8, 9, 6, 7, 8, 9]);
}

#[test]
fn area_errors() {
    let m = three_by_three();
    assert_eq!(m.get_area(1, 1, 3, 2), Err(MatrixError::IndexOOB));
    assert_eq!(m.get_area(1, 1, 2, 5), Err(MatrixError::IndexOOB));
    assert_eq!(m.get_area(2, 0, 1, 1), Err(MatrixError::InvalidSize));
    assert_eq!(m.get_area(0, 2, 1, 1), Err(MatrixError::InvalidSize));
}

#[test]
fn replace_area_errors_change_nothing() {
    let mut m = three_by_three();
    let rep = MatrixBuilder::new().row(vec![0, 0]).row(vec![0, 0]).build().unwrap();
    assert_eq!(m.replace_area(0, 0, 1, 2, rep.clone()), Err(MatrixError::ReplacementMismatch));
    assert_eq!(m.replace_area(1, 1, 0, 0, rep.clone()), Err(MatrixError::ReplacementMismatch));
    assert_eq!(m.replace_area(2, 2, 3, 3, rep), Err(MatrixError::IndexOOB));
    assert_eq!(m, three_by_three());
}

#[test]
fn flip_hor_scenario() {
    let mut m = MatrixBuilder::new().row(vec![1, 2]).row(vec![3, 4]).row(vec![5, 6]).build().unwrap();
    m.flip_hor();
    assert_eq!(cells(m), vec![5, 6, 3, 4, 1, 2]);
}

#[test]
fn indices_in_row_major_order() {
    let m = MatrixBuilder::new().row(vec![1, 2]).row(vec![1, 3]).build().unwrap();
    assert_eq!(m.get_indices_of(1), vec![(0, 0), (1, 0)]);
    assert_eq!(m.get_indices_of(7), Vec::<(usize, usize)>::new());
    let n = MatrixBuilder::new().row(vec![4, 4, 0]).row(vec![0, 4, 4]).build().unwrap();
    assert_eq!(n.get_indices_of(4), vec![(0, 0), (0, 1), (1, 1), (1, 2)]);
    assert_eq!(n.count(4), 4);
    assert!(n.has(0));
    assert!(!n.has(5));
}

#[test]
fn zero_dimension_always_fails() {
    assert_eq!(Matrix::new(0, 3, 1u8), Err(MatrixError::InvalidSize));
    assert_eq!(Matrix::new(4, 0, 1u8), Err(MatrixError::InvalidSize));
    assert_eq!(Matrix::new(0, 0, 1u8), Err(MatrixError::InvalidSize));
    assert_eq!(Matrix::<u8>::from_vec(vec![], 0, 5), Err(MatrixError::InvalidSize));
    assert_eq!(Matrix::<u8>::from_vec(vec![], 2, 0), Err(MatrixError::InvalidSize));
}

#[test]
fn new_fills_with_default() {
    let m = Matrix::new(2, 3, 'z').unwrap();
    assert_eq!(m.get_element_count(), 6);
    assert_eq!(m.count('z'), 6);
}

#[test]
fn from_vec_size_errors() {
    assert_eq!(Matrix::from_vec(vec![1, 2, 3], 2, 2), Err(MatrixError::InvalidVecSize));
    assert_eq!(Matrix::from_vec(vec![1], 0, 1), Err(MatrixError::InvalidVecSize));
    assert_eq!(Matrix::from_vec(vec![1], usize::MAX, 2), Err(MatrixError::InvalidVecSize));
    let m = Matrix::from_vec(vec![1, 2, 3, 4, 5, 6], 2, 3).unwrap();
    assert_eq!(m.get(1, 0).unwrap(), 4);
}

#[test]
fn builder_with_unequal_rows_fails() {
    let b = MatrixBuilder::new().row(vec![1, 2, 3]).row(vec![4, 5]);
    assert_eq!(b.build(), Err(MatrixError::InvalidVecSize));
    let empty: MatrixBuilder<i32> = MatrixBuilder::new();
    assert_eq!(empty.build(), Err(MatrixError::InvalidSize));
    let blank = MatrixBuilder::<i32>::new().row(vec![]).row(vec![]);
    assert_eq!(blank.build(), Err(MatrixError::InvalidSize));
}

#[test]
fn builder_takes_last_row_width() {
    // Three values in two rows whose last is three wide: 2 * 3 != 5.
    let b = MatrixBuilder::new().row(vec![1, 2]).row(vec![3, 4, 5]);
    assert_eq!(b.build(), Err(MatrixError::InvalidVecSize));
    // Widths 3 and 1 and 2, last 2, three rows: 3 * 2 == 6 cells.
    let c = MatrixBuilder::new().row(vec![1, 2, 3]).row(vec![4]).row(vec![5, 6]).build().unwrap();
    assert_eq!(c.get_size(), (3, 2));
    assert_eq!(cells(c), vec![1, 2, 3, 4, 5, 6]);
}

#[test]
fn sizes_and_counts() {
    let m = MatrixBuilder::new().row(vec![1, 2, 3]).row(vec![4, 5, 6]).build().unwrap();
    assert_eq!(m.get_size(), (2, 3));
    assert_eq!(m.get_element_count(), 6);
    let n = Matrix::new(2, 3, 0).unwrap();
    assert!(m.has_same_size(&n));
    let t = Matrix::new(3, 2, 0).unwrap();
    assert!(!m.has_same_size(&t));
}

#[test]
fn apply_each_cell() {
    let mut m = three_by_three();
    m.apply(|x| x * 10);
    assert_eq!(cells(m), vec![10, 20, 30, 40, 50, 60, 70, 80, 90]);
}

#[test]
fn apply_with_pairs_cells() {
    let mut m = three_by_three();
    let other = Matrix::new(3, 3, 100).unwrap();
    m.apply_with(&other, |a, b| b - a).unwrap();
    assert_eq!(cells(m), vec![99, 98, 97, 96, 95, 94, 93, 92, 91]);
}

#[test]
fn apply_with_other_size_fails() {
    let mut m = three_by_three();
    let other = Matrix::new(3, 2, 100).unwrap();
    assert_eq!(m.apply_with(&other, |a, b| a + b), Err(MatrixError::NonMatchingSizes));
    assert_eq!(m.ref_apply_with(&other, |a, b| *a + *b), Err(MatrixError::NonMatchingSizes));
    assert_eq!(m, three_by_three());
}

#[test]
fn ref_apply_writes_result() {
    let mut m = three_by_three();
    m.ref_apply(|x| {
        *x += 1;
        *x * 2
    });
    assert_eq!(cells(m), vec![4, 6, 8, 10, 12, 14, 16, 18, 20]);
}

#[test]
fn ref_apply_with_pairs_cells() {
    let mut m = three_by_three();
    let other = three_by_three();
    m.ref_apply_with(&other, |a, b| *a * *b).unwrap();
    assert_eq!(cells(m), vec![1, 4, 9, 16, 25, 36, 49, 64, 81]);
}

#[test]
fn display_text() {
    let m = MatrixBuilder::new().row(vec![1, 2]).row(vec![3, 4]).build().unwrap();
    assert_eq!(m.to_display_string(), "[[1, 2]\n[3, 4]]");
    let one = Matrix::new(1, 1, 7).unwrap();
    assert_eq!(one.to_display_string(), "[[7]]");
    let wide = Matrix::new(1, 3, 0).unwrap();
    assert_eq!(wide.to_display_string(), "[[0, 0, 0]]");
}

#[test]
fn debug_text() {
    let m = MatrixBuilder::new().row(vec!["a", "b"]).build().unwrap();
    assert_eq!(m.to_debug_string(), "1 x 2\n[[\"a\", \"b\"]]");
    let big = Matrix::new(12, 105, 0u8).unwrap();
    assert!(big.to_debug_string().starts_with("12 x 105\n[[0, 0"));
}

#[test]
fn clone_is_equal_and_independent() {
    let m = three_by_three();
    let mut c = m.clone();
    assert!(c == m);
    c.set(0, 0, -1).unwrap();
    assert!(c != m);
    assert_eq!(m.get(0, 0).unwrap(), 1);
}

#[test]
fn strings_move_through_transforms() {
    let m = MatrixBuilder::new()
        .row(vec![String::from("a"), String::from("b")])
        .row(vec![String::from("c"), String::from("d")])
        .build()
        .unwrap();
    let t = m.transpose();
    assert_eq!(t.get_row(0).unwrap(), vec![String::from("a"), String::from("c")]);
    let mut t = t;
    t.flip_vert();
    assert_eq!(t.get(0, 0).unwrap(), "c");
}
