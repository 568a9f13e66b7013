use tetris_core::board::{move_shape_down_board, rationalise_rows};
use tetris_core::row::Row;
use tetris_core::shape::create_shape;

#[test]
fn create_q() {
    let q = create_shape('Q', 0);

    let mut q_test: Vec<Row> = Vec::new();
    let mut row1: Row = Row::new();
    let mut row2: Row = Row::new();
    row1.insert(0);
    row1.insert(1);
    row2.insert(0);
    row2.insert(1);

    q_test.push(row1);
    q_test.push(row2);

    assert!(q == q_test);
}

#[test]
fn create_s() {
    let s = create_shape('S', 0);

    let mut s_test: Vec<Row> = Vec::new();
    let mut row1: Row = Row::new();
    let mut row2: Row = Row::new();
    row1.insert(0);
    row1.insert(1);
    row2.insert(1);
    row2.insert(2);

    s_test.push(row1);
    s_test.push(row2);

    assert!(s == s_test);
}

#[test]
fn create_z() {
    let z = create_shape('Z', 0);

    let mut z_test: Vec<Row> = Vec::new();
    let mut row1: Row = Row::new();
    let mut row2: Row = Row::new();
    row1.insert(1);
    row1.insert(2);
    row2.insert(0);
    row2.insert(1);

    z_test.push(row1);
    z_test.push(row2);

    assert!(z == z_test);
}

#[test]
fn create_t() {
    let t = create_shape('T', 0);

    let mut t_test: Vec<Row> = Vec::new();
    let mut row1: Row = Row::new();
    let mut row2: Row = Row::new();
    row1.insert(1);
    row2.insert(0);
    row2.insert(1);
    row2.insert(2);

    t_test.push(row1);
    t_test.push(row2);

    assert!(t == t_test);
}

#[test]
fn create_i() {
    let i = create_shape('I', 0);

    let mut i_test: Vec<Row> = Vec::new();
    let mut row1: Row = Row::new();
    row1.insert(0);
    row1.insert(1);
    row1.insert(2);
    row1.insert(3);

    i_test.push(row1);

    assert!(i == i_test);
}

#[test]
fn create_l() {
    let l = create_shape('L', 0);

    let mut l_test: Vec<Row> = Vec::new();
    let mut row1: Row = Row::new();
    let mut row2: Row = Row::new();
    let mut row3: Row = Row::new();
    row1.insert(0);
    row1.insert(1);
    row2.insert(0);
    row3.insert(0);

    l_test.push(row1);
    l_test.push(row2);
    l_test.push(row3);

    assert!(l == l_test);
}

#[test]
fn create_j() {
    let j = create_shape('J', 0);

    let mut j_test: Vec<Row> = Vec::new();
    let mut row1: Row = Row::new();
    let mut row2: Row = Row::new();
    let mut row3: Row = Row::new();
    row1.insert(0);
    row1.insert(1);
    row2.insert(1);
    row3.insert(1);

    j_test.push(row1);
    j_test.push(row2);
    j_test.push(row3);

    assert!(j == j_test);
}

#[test]
fn put_shape_in_board() {
    let q = create_shape('Q', 0);
    let mut board: Vec<Row> = Vec::with_capacity(103);
    move_shape_down_board(&mut board, q);
    assert!(board.len() == 2);
}

#[test]
fn put_two_shapes_in_board_stacked() {
    let q = create_shape('Q', 0);
    let mut board: Vec<Row> = Vec::with_capacity(103);
    move_shape_down_board(&mut board, q);
    rationalise_rows(&mut board);
    assert!(board.len() == 2);
    let q2 = create_shape('Q', 0);
    move_shape_down_board(&mut board, q2);
    rationalise_rows(&mut board);
    assert!(board.len() == 4);
}

#[test]
fn put_shapes_in_board_remove_base() {
    let q = create_shape('Q', 0);
    let mut board: Vec<Row> = Vec::with_capacity(103);
    move_shape_down_board(&mut board, q);
    assert!(board.len() == 2);
    let q2 = create_shape('Q', 2);
    move_shape_down_board(&mut board, q2);
    rationalise_rows(&mut board);
    assert!(board.len() == 2);
    let q3 = create_shape('Q', 4);
    move_shape_down_board(&mut board, q3);
    rationalise_rows(&mut board);
    assert!(board.len() == 2);
    let i = create_shape('I', 6);
    move_shape_down_board(&mut board, i);
    let highest_row = rationalise_rows(&mut board);
    assert!(highest_row == 1);
}

#[test]
fn put_two_shapes_in_board_side_by_side() {
    let q = create_shape('Q', 0);
    let mut board: Vec<Row> = Vec::with_capacity(103);
    move_shape_down_board(&mut board, q);
    assert!(board.len() == 2);
    let q2 = create_shape('Q', 3);
    move_shape_down_board(&mut board, q2);
    rationalise_rows(&mut board);
    assert!(board.len() == 2);
}

#[test]
fn fill_a_row() {
    let mut board: Vec<Row> = Vec::with_capacity(103);

    let i1 = create_shape('I', 0);
    move_shape_down_board(&mut board, i1);
    assert!(board.len() == 1);

    let i2 = create_shape('I', 5);
    move_shape_down_board(&mut board, i2);
    rationalise_rows(&mut board);
    assert!(board.len() == 1);

    let q = create_shape('Q', 9);
    move_shape_down_board(&mut board, q);
    rationalise_rows(&mut board);
    assert!(board.len() == 1);

    let highest_row = rationalise_rows(&mut board);
    assert!(highest_row == 1);
    assert!(board.len() == 1);
}

#[test]
fn fill_column() {
    let mut board: Vec<Row> = Vec::with_capacity(103);
    for i in 0usize..50 {
        let q = create_shape('Q', 0);
        move_shape_down_board(&mut board, q);
        rationalise_rows(&mut board);
        assert!(board.len() == (i + 1) * 2);
    }

    assert!(board.len() == 100);
    assert!(board.len() == rationalise_rows(&mut board));
    assert!(100 == rationalise_rows(&mut board));
}

#[test]
fn form_an_orderly_q() {
    let mut board: Vec<Row> = Vec::with_capacity(103);
    let q = create_shape('Q', 0);
    move_shape_down_board(&mut board, q);
    assert!(board.len() == 2);
    let q2 = create_shape('Q', 2);
    move_shape_down_board(&mut board, q2);
    rationalise_rows(&mut board);
    assert!(board.len() == 2);
    let q3 = create_shape('Q', 4);
    move_shape_down_board(&mut board, q3);
    rationalise_rows(&mut board);
    assert!(board.len() == 2);
    let q4 = create_shape('Q', 6);
    move_shape_down_board(&mut board, q4);
    rationalise_rows(&mut board);
    assert!(board.len() == 2);
    let q5 = create_shape('Q', 8);
    move_shape_down_board(&mut board, q5);
    rationalise_rows(&mut board);
    assert!(board.len() == 0);
}

#[test]
fn make_staircase() {
    let s = create_shape('S', 0);
    let mut board: Vec<Row> = Vec::with_capacity(103);
    move_shape_down_board(&mut board, s);
    assert!(board.len() == 2);
    let s2 = create_shape('S', 2);
    move_shape_down_board(&mut board, s2);
    rationalise_rows(&mut board);
    assert!(board.len() == 4);
    let s3 = create_shape('S', 4);
    move_shape_down_board(&mut board, s3);
    rationalise_rows(&mut board);
    assert!(board.len() == 6);
    let s4 = create_shape('S', 6);
    move_shape_down_board(&mut board, s4);
    rationalise_rows(&mut board);
    assert!(board.len() == 8);
}

#[test]
fn make_intricate_pattern() {
    let mut board: Vec<Row> = Vec::with_capacity(103);
    let s = create_shape('S', 0);
    move_shape_down_board(&mut board, s);
    assert!(board.len() == 2);
    let s2 = create_shape('S', 2);
    move_shape_down_board(&mut board, s2);
    rationalise_rows(&mut board);
    assert!(board.len() == 4);
    let s3 = create_shape('S', 4);
    move_shape_down_board(&mut board, s3);
    rationalise_rows(&mut board);
    assert!(board.len() == 6);
    let s4 = create_shape('S', 5);
    move_shape_down_board(&mut board, s4);
    rationalise_rows(&mut board);
    assert!(board.len() == 8);
    let q = create_shape('Q', 8);
    move_shape_down_board(&mut board, q);
    rationalise_rows(&mut board);
    assert!(board.len() == 8);
    let q2 = create_shape('Q', 8);
    move_shape_down_board(&mut board, q2);
    rationalise_rows(&mut board);
    assert!(board.len() == 8);
    let q3 = create_shape('Q', 8);
    move_shape_down_board(&mut board, q3);
    rationalise_rows(&mut board);
    assert!(board.len() == 8);
    let q4 = create_shape('Q', 8);
    move_shape_down_board(&mut board, q4);
    rationalise_rows(&mut board);
    assert!(board.len() == 8);
    let t = create_shape('T', 1);
    move_shape_down_board(&mut board, t);
    rationalise_rows(&mut board);
    assert!(board.len() == 8);
    let q5 = create_shape('Q', 1);
    move_shape_down_board(&mut board, q5);
    rationalise_rows(&mut board);
    assert!(board.len() == 8);
    let i = create_shape('I', 0);
    move_shape_down_board(&mut board, i);
    rationalise_rows(&mut board);
    assert!(board.len() == 8);
    let q6 = create_shape('Q', 4);
    move_shape_down_board(&mut board, q6);
    rationalise_rows(&mut board);
    assert!(board.len() == 8);
}

#[test]
fn make_jlq_pattern() {
    let mut board: Vec<Row> = Vec::with_capacity(103);
    let l = create_shape('L', 0);
    let j = create_shape('J', 2);
    let l2 = create_shape('L', 4);
    let j2 = create_shape('J', 6);
    let q = create_shape('Q', 8);
    move_shape_down_board(&mut board, l);
    rationalise_rows(&mut board);
    move_shape_down_board(&mut board, j);
    rationalise_rows(&mut board);
    move_shape_down_board(&mut board, l2);
    rationalise_rows(&mut board);
    move_shape_down_board(&mut board, j2);
    rationalise_rows(&mut board);
    move_shape_down_board(&mut board, q);
    rationalise_rows(&mut board);
    assert!(board.len() == 2);
}
