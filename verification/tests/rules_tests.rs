use chess_cli::fen::fen_to_matrix;
use chess_cli::rules::check_piece;

#[test]
fn pawns_step_forward_and_take_diagonally() {
    let mut m = fen_to_matrix("8/pp6/8/8/8/8/P7/8");
    let before = m;
    // white pawn on a2 (row 6, column 0): one or two rows up onto empty squares
    assert!(check_piece(&mut m, 10, 0, -1, 6, 0, 0));
    assert!(check_piece(&mut m, 10, 0, -2, 6, 0, 0));
    assert!(!check_piece(&mut m, 10, 0, 1, 6, 0, 0));
    assert!(!check_piece(&mut m, 10, 1, -1, 6, 0, 0));
    // a diagonal step forward needs a piece on the end square
    assert!(check_piece(&mut m, 10, 1, -1, 6, 0, 11));
    assert!(!check_piece(&mut m, 10, 0, -1, 6, 0, 11));
    // black pawn on a7 (row 1) moves down the board
    assert!(check_piece(&mut m, 11, 0, 2, 1, 0, 0));
    assert!(!check_piece(&mut m, 11, 0, -1, 1, 0, 0));
    // the board is left as it was
    assert_eq!(m, before);
}

#[test]
fn double_step_needs_the_starting_row_and_a_free_square() {
    let mut blocked = fen_to_matrix("8/8/8/8/8/n7/P7/8");
    assert!(!check_piece(&mut blocked, 10, 0, -2, 6, 0, 0));
    let mut later = fen_to_matrix("8/8/8/8/8/P7/8/8");
    assert!(!check_piece(&mut later, 10, 0, -2, 5, 0, 0));
    assert!(check_piece(&mut later, 10, 0, -1, 5, 0, 0));
}

#[test]
fn bishops_rooks_and_queens_need_a_free_path() {
    // bishop on c1 (row 7, column 2), a pawn on d2 blocks the long diagonal
    let mut m = fen_to_matrix("8/8/8/8/8/8/3P4/2B5");
    assert!(!check_piece(&mut m, 20, 3, -3, 7, 2, 0));
    assert!(check_piece(&mut m, 20, 1, -1, 7, 2, 10));
    assert!(check_piece(&mut m, 20, -2, -2, 7, 2, 0));
    assert!(!check_piece(&mut m, 20, 1, -2, 7, 2, 0));
    // rook on a1 with a piece on a4
    let mut r = fen_to_matrix("8/8/8/8/p7/8/8/R7");
    assert!(check_piece(&mut r, 40, 0, -3, 7, 0, 11));
    assert!(!check_piece(&mut r, 40, 0, -5, 7, 0, 0));
    assert!(check_piece(&mut r, 40, 7, 0, 7, 0, 0));
    assert!(!check_piece(&mut r, 40, 1, -1, 7, 0, 0));
    // queen on d4 (row 4, column 3)
    let mut q = fen_to_matrix("8/8/8/8/3Q4/8/5p2/8");
    assert!(check_piece(&mut q, 50, 0, -4, 4, 3, 0));
    assert!(check_piece(&mut q, 50, 2, 2, 4, 3, 11));
    assert!(!check_piece(&mut q, 50, 3, 3, 4, 3, 0));
    assert!(!check_piece(&mut q, 50, 1, 2, 4, 3, 0));
}

#[test]
fn knights_jump_and_kings_step() {
    let mut m = fen_to_matrix("8/8/8/8/3N4/8/8/4K3");
    assert!(check_piece(&mut m, 30, 1, 2, 4, 3, 0));
    assert!(check_piece(&mut m, 30, -2, -1, 4, 3, 0));
    assert!(!check_piece(&mut m, 30, 2, 2, 4, 3, 0));
    assert!(check_piece(&mut m, 60, 1, -1, 7, 4, 0));
    assert!(check_piece(&mut m, 60, 2, 0, 7, 4, 0));
    assert!(!check_piece(&mut m, 60, 0, -2, 7, 4, 0));
    // an empty square or an unknown code does not move
    assert!(!check_piece(&mut m, 0, 0, -1, 7, 4, 0));
    assert!(!check_piece(&mut m, 70, 0, -1, 7, 4, 0));
}

#[test]
fn bishop_staying_put_is_refused() {
    // the walk up and to the left meets the pawn on b2 before the edge
    let mut m = fen_to_matrix("8/8/8/8/8/8/1P6/2B5");
    assert!(!check_piece(&mut m, 20, 0, 0, 7, 2, 0));
}

#[test]
fn knights_kings_and_pawns_need_no_square_on_the_board() {
    let mut m = [[0i32; 8]; 8];
    // the board is not read for these pieces, wherever they are said to stand
    assert!(check_piece(&mut m, 61, 2, 0, -5, 20, 0));
    assert!(check_piece(&mut m, 60, -1, 1, 100, -100, 31));
    assert!(!check_piece(&mut m, 60, 3, 0, 100, -100, 0));
    assert!(check_piece(&mut m, 31, -1, 2, -30, 40, 0));
    assert!(!check_piece(&mut m, 31, 1000, 2, -30, 40, 0));
    assert!(check_piece(&mut m, 11, 0, 1, 40, -3, 0));
    assert!(check_piece(&mut m, 10, -1, -1, 40, 9, 11));
    // a bishop, rook or queen off its lines is refused without a walk
    assert!(!check_piece(&mut m, 21, 1, 2, -9, 9, 0));
    assert!(!check_piece(&mut m, 41, 1, 2, -9, 9, 0));
    assert!(!check_piece(&mut m, 51, 1, 2, -9, 9, 0));
    assert_eq!(m, [[0i32; 8]; 8]);
}
