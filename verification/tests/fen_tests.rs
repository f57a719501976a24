use chess_cli::board::reset_word;
use chess_cli::fen::{fen_fits, fen_to_matrix, matrix_to_fen};

const START: &str = "rnbqkbnr/pppppppp/8/8/8/8/PPPPPPPP/RNBQKBNR";

fn start_board() -> [[i32; 8]; 8] {
    let mut m = [[0i32; 8]; 8];
    reset_word(&mut m);
    m
}

#[test]
fn start_position_fen() {
    assert_eq!(matrix_to_fen(&start_board()), START);
}

#[test]
fn empty_board_fen() {
    assert_eq!(matrix_to_fen(&[[0; 8]; 8]), "8/8/8/8/8/8/8/8");
}

#[test]
fn unknown_codes_are_left_out() {
    let mut m = [[0i32; 8]; 8];
    m[0][0] = 99;
    m[0][1] = 60;
    m[7][7] = 61;
    assert_eq!(matrix_to_fen(&m), "K6/8/8/8/8/8/8/7k");
}

#[test]
fn fen_import_reads_pieces_and_gaps() {
    let m = fen_to_matrix(START);
    assert_eq!(m, start_board());
    let m = fen_to_matrix("4k3/8/8/3Pp3/8/8/8/R3K2R");
    assert_eq!(m[0][4], 61);
    assert_eq!(m[3][3], 10);
    assert_eq!(m[3][4], 11);
    assert_eq!(m[7], [40, 0, 0, 0, 60, 0, 0, 40]);
}

#[test]
fn fen_import_unknown_letter_is_empty() {
    let m = fen_to_matrix("x7/8");
    assert_eq!(m[0][0], 0);
    assert_eq!(m, [[0; 8]; 8]);
}

#[test]
fn fen_round_trip_on_boards() {
    let mut m = start_board();
    m[6][4] = 0;
    m[4][4] = 10;
    m[1][3] = 0;
    m[3][3] = 11;
    let fen = matrix_to_fen(&m);
    assert_eq!(fen, "rnbqkbnr/ppp1pppp/8/3p4/4P3/8/PPPP1PPP/RNBQKBNR");
    assert_eq!(fen_to_matrix(&fen), m);
    let mut n = [[0i32; 8]; 8];
    n[2][5] = 51;
    n[5][2] = 20;
    assert_eq!(fen_to_matrix(&matrix_to_fen(&n)), n);
}

#[test]
fn fen_fits_detects_pieces_off_the_board() {
    assert!(fen_fits(START));
    assert!(fen_fits("8/8/8/8/8/8/8/8/8"));
    assert!(!fen_fits("9k"));
    assert!(!fen_fits("8/8/8/8/8/8/8/8/k"));
    assert!(fen_fits("8/8/8/8/8/8/8/8/9"));
}

#[test]
fn canonical_placements_are_written_back_unchanged() {
    for text in [
        "rnbqkbnr/pppppppp/8/8/4P3/8/PPPP1PPP/RNBQKBNR",
        "8/8/8/8/8/8/8/8",
        "r3k2r/1p3p1p/2n5/q7/7Q/5N2/P1P1P1P1/R3K2R",
        "7k/8/8/3pP3/8/8/8/K7",
    ] {
        let m = fen_to_matrix(text);
        assert_eq!(matrix_to_fen(&m), text);
    }
}
