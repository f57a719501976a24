use chess_cli::board::reset_word;
use chess_cli::fen::fen_to_matrix;
use chess_cli::rules::check_king;
use chess_cli::status::{check_stalemate_checkmate, game_state_returns, search_move, verdict_of, Scan, Verdict};

fn start_board() -> [[i32; 8]; 8] {
    let mut m = [[0i32; 8]; 8];
    reset_word(&mut m);
    m
}

#[test]
fn start_position_has_no_check() {
    let m = start_board();
    assert!(check_king(-1, -1, -1, -1, 0, &m));
    assert!(check_king(-1, -1, -1, -1, 1, &m));
    assert!(check_king(6, 4, 4, 4, 0, &m));
}

#[test]
fn sliders_check_along_open_lines() {
    let m = fen_to_matrix("4r3/8/8/8/8/8/8/4K3");
    assert!(!check_king(-1, -1, -1, -1, 0, &m));
    // moving the king aside leaves the file
    assert!(check_king(7, 4, 7, 3, 0, &m));
    let blocked = fen_to_matrix("4r3/8/8/8/4N3/8/8/4K3");
    assert!(check_king(-1, -1, -1, -1, 0, &blocked));
    let diagonal = fen_to_matrix("8/8/8/b7/8/8/8/4K3");
    assert!(!check_king(-1, -1, -1, -1, 0, &diagonal));
    let queen = fen_to_matrix("4k3/8/8/8/8/8/8/q3K3");
    assert!(!check_king(-1, -1, -1, -1, 0, &queen));
}

#[test]
fn knights_and_pawns_check() {
    let knight = fen_to_matrix("8/8/8/8/8/3n4/8/4K3");
    assert!(!check_king(-1, -1, -1, -1, 0, &knight));
    // a black pawn beside the white king counts as a threat
    let beside = fen_to_matrix("8/8/8/8/8/8/8/3pK3");
    assert!(!check_king(-1, -1, -1, -1, 0, &beside));
    let ahead = fen_to_matrix("8/8/8/8/8/8/3p4/4K3");
    assert!(check_king(-1, -1, -1, -1, 0, &ahead));
    // a white pawn straight below the black king counts as a threat
    let below = fen_to_matrix("4k3/4P3/8/8/8/8/8/4K3");
    assert!(!check_king(-1, -1, -1, -1, 1, &below));
}

#[test]
fn ongoing_after_an_opening_move() {
    let mut m = start_board();
    m[6][4] = 0;
    m[4][4] = 10;
    assert!(game_state_returns(&m, 1));
    assert_eq!(check_stalemate_checkmate(&m, 1), "Ongoing");
}

#[test]
fn checkmate_when_checked_and_no_move() {
    // white to move (round 0) is in check from a knight; the black king
    // (the side that has just moved) has no square out of the queens' reach
    let mut m = [[0i32; 8]; 8];
    m[0][7] = 61;
    m[1][6] = 50;
    m[2][5] = 50;
    m[7][0] = 60;
    m[5][1] = 31;
    assert!(game_state_returns(&m, 0));
    assert!(matches!(search_move(&m, 0), Scan::NotFound));
    assert_eq!(check_stalemate_checkmate(&m, 0), "Checkmate");
}

#[test]
fn stalemate_when_not_checked_and_no_move() {
    let mut m = [[0i32; 8]; 8];
    m[0][7] = 61;
    m[1][6] = 50;
    m[2][5] = 50;
    m[7][0] = 60;
    assert_eq!(check_stalemate_checkmate(&m, 0), "Stalemate");
}

#[test]
fn check_after_fools_mate() {
    // 1. f3 e5 2. g4 Qh4: white to move is in check; the search looks at
    // the black pieces, which have moves
    let m = fen_to_matrix("rnb1kbnr/pppp1ppp/8/4p3/6Pq/5P2/PPPPP2P/RNBQKBNR");
    assert!(!check_king(-1, -1, -1, -1, 4, &m));
    assert!(matches!(search_move(&m, 4), Scan::Found));
    assert_eq!(check_stalemate_checkmate(&m, 4), "Check");
}

#[test]
fn inputs_on_which_the_state_stops() {
    // black to move without a black king
    let m = fen_to_matrix("8/8/8/8/8/8/8/4K3");
    assert!(!game_state_returns(&m, 1));
    // a white bishop in the corner walks off the board when tested on its own
    // square, the first square the search tries for it
    let corner = fen_to_matrix("B3k3/8/8/8/8/8/8/4K3");
    assert!(matches!(search_move(&corner, 1), Scan::Fails));
    assert!(!game_state_returns(&corner, 1));
}

#[test]
fn verdicts_of_the_named_states() {
    assert!(verdict_of("Checkmate") == Verdict::Checkmate);
    assert!(verdict_of("Stalemate") == Verdict::Stalemate);
    assert!(verdict_of("Check") == Verdict::Check);
    assert!(verdict_of("Ongoing") == Verdict::Ongoing);
    assert!(verdict_of("checkmate") == Verdict::Ongoing);
    let m = start_board();
    assert!(verdict_of(&check_stalemate_checkmate(&m, 0)) == Verdict::Ongoing);
}
