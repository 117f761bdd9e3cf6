use matmul::{dot_product, multiply, Matrix, MatrixError, Vector};
use matmul::matrix::{assemble, compute_cell, make_tasks, MsgInput, MsgOutput};
use matmul::display::int_to_string;

#[test]
fn test_matrix_multiply() {
    let a = Matrix::new(2, 3, vec![1, 2, 3, 4, 5, 6]);
    let b = Matrix::new(3, 2, vec![1, 2, 3, 4, 5, 6]);
    let c = multiply(&a, &b).expect("Matrix multiplication failed");
    assert_eq!(c.rows, 2);
    assert_eq!(c.cols, 2);
    assert_eq!(c.data, vec![22, 28, 49, 64]);
    assert_eq!(c.display(), "{22 28, 49 64}");
}

#[test]
fn test_matrix_display() {
    let a = Matrix::new(2, 2, vec![1, 2, 3, 4]);
    let b = Matrix::new(2, 2, vec![1, 2, 3, 4]);
    let c = multiply(&a, &b).unwrap();
    assert_eq!(c.data, vec![7, 10, 15, 22]);
    assert_eq!(c.display(), "{7 10, 15 22}");
}

#[test]
fn multiply_dimension_mismatch() {
    let a = Matrix::new(2, 3, vec![1, 2, 3, 4, 5, 6]);
    let b = Matrix::new(2, 2, vec![1, 2, 3, 4]);
    match multiply(&a, &b) {
        Err(e) => assert_eq!(e, MatrixError::DimensionMismatch),
        Ok(_) => panic!("expected a dimension mismatch"),
    }
}

#[test]
fn multiply_is_deterministic() {
    let a = Matrix::new(2, 3, vec![7, -2, 0, 5, 5, 1]);
    let b = Matrix::new(3, 2, vec![-1, 3, 8, 2, 4, 4]);
    let c1 = multiply(&a, &b).unwrap();
    let a2 = Matrix::new(2, 3, vec![7, -2, 0, 5, 5, 1]);
    let b2 = Matrix::new(3, 2, vec![-1, 3, 8, 2, 4, 4]);
    let c2 = multiply(&a2, &b2).unwrap();
    assert_eq!(c1.data, c2.data);
    assert_eq!(c1.display(), c2.display());
}

#[test]
fn multiply_with_empty_inner_dimension() {
    let a = Matrix::new(2, 0, vec![]);
    let b = Matrix::new(0, 3, vec![]);
    let c = multiply(&a, &b).unwrap();
    assert_eq!(c.rows, 2);
    assert_eq!(c.cols, 3);
    assert_eq!(c.data, vec![0, 0, 0, 0, 0, 0]);
}

#[test]
fn dot_product_matches_hand_computation() {
    let a = Vector::new(vec![1, 2, 3]);
    let b = Vector::new(vec![4, 5, 6]);
    assert_eq!(dot_product(a, b), Ok(32));
}

#[test]
fn dot_product_length_mismatch() {
    let a = Vector::new(vec![1, 2, 3]);
    let b = Vector::new(vec![4, 5]);
    assert_eq!(dot_product(a, b), Err(MatrixError::DimensionMismatch));
}

#[test]
fn dot_product_of_zero_vectors_is_zero() {
    let a = Vector::new(vec![0, 0, 0, 0]);
    let b = Vector::new(vec![0, 0, 0, 0]);
    assert_eq!(dot_product(a, b), Ok(0));
}

#[test]
fn compute_cell_tags_reply_with_task_index() {
    let task = MsgInput::new(5, Vector::new(vec![2, 3]), Vector::new(vec![10, -1]));
    let out = compute_cell(task).unwrap();
    assert_eq!(out.idx, 5);
    assert_eq!(out.value, 17);
}

#[test]
fn compute_cell_rejects_length_mismatch() {
    let task = MsgInput::new(0, Vector::new(vec![2, 3]), Vector::new(vec![10]));
    assert!(compute_cell(task).is_none());
}

#[test]
fn compute_cell_rejects_overflow() {
    let task = MsgInput::new(0, Vector::new(vec![i64::MAX, i64::MAX]), Vector::new(vec![2, 2]));
    assert!(compute_cell(task).is_none());
}

#[test]
fn make_tasks_covers_cells_in_row_major_order() {
    let a = Matrix::new(2, 2, vec![1, 2, 3, 4]);
    let b = Matrix::new(2, 2, vec![5, 6, 7, 8]);
    let tasks = make_tasks(&a, &b);
    assert_eq!(tasks.len(), 4);
    for (k, task) in tasks.iter().enumerate() {
        assert_eq!(task.idx, k);
    }
    assert_eq!(tasks[0].row.data, vec![1, 2]);
    assert_eq!(tasks[0].col.data, vec![5, 7]);
    assert_eq!(tasks[3].row.data, vec![3, 4]);
    assert_eq!(tasks[3].col.data, vec![6, 8]);
}

#[test]
fn assemble_places_replies_by_their_own_index() {
    let outputs = vec![
        MsgOutput { idx: 3, value: 30 },
        MsgOutput { idx: 0, value: 5 },
        MsgOutput { idx: 2, value: -7 },
        MsgOutput { idx: 1, value: 11 },
    ];
    let m = assemble(2, 2, &outputs);
    assert_eq!(m.data, vec![5, 11, -7, 30]);
}

#[test]
fn assemble_ignores_reply_order() {
    let forward = vec![
        MsgOutput { idx: 0, value: 1 },
        MsgOutput { idx: 1, value: 2 },
        MsgOutput { idx: 2, value: 3 },
    ];
    let backward = vec![
        MsgOutput { idx: 2, value: 3 },
        MsgOutput { idx: 1, value: 2 },
        MsgOutput { idx: 0, value: 1 },
    ];
    let m1 = assemble(1, 3, &forward);
    let m2 = assemble(1, 3, &backward);
    assert_eq!(m1.data, m2.data);
}

#[test]
fn display_two_by_three() {
    let m = Matrix::new(2, 3, vec![1, 2, 3, 4, 5, 6]);
    assert_eq!(m.display(), "{1 2 3, 4 5 6}");
}

#[test]
fn display_three_by_two() {
    let m = Matrix::new(3, 2, vec![1, 2, 3, 4, 5, 6]);
    assert_eq!(m.display(), "{1 2, 3 4, 5 6}");
}

#[test]
fn display_negative_and_single_cells() {
    let m = Matrix::new(1, 2, vec![-5, 10]);
    assert_eq!(m.display(), "{-5 10}");
    let one = Matrix::new(1, 1, vec![0]);
    assert_eq!(one.display(), "{0}");
}

#[test]
fn display_empty_matrix() {
    let m = Matrix::new(0, 0, vec![]);
    assert_eq!(m.display(), "{}");
}

#[test]
fn int_rendering_covers_extremes() {
    assert_eq!(int_to_string(0), "0");
    assert_eq!(int_to_string(-1), "-1");
    assert_eq!(int_to_string(1234567890), "1234567890");
    assert_eq!(int_to_string(i64::MIN), "-9223372036854775808");
    assert_eq!(int_to_string(i64::MAX), "9223372036854775807");
}
