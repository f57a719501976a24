use chess_cli::board::reset_word;
use chess_cli::display::{
    captured_codes, captured_kind, end_screen_message, result_message, spacex_count, spacey_count, square_look,
    turn_label, winner_name, Shade, SquareLook,
};
use chess_cli::fen::fen_to_matrix;

#[test]
fn board_squares_look() {
    let mut m = [[0i32; 8]; 8];
    reset_word(&mut m);
    assert!(square_look(&m, 0, 0, 0) == SquareLook { shade: Shade::Light, kind: Some(4), light_piece: false });
    assert!(square_look(&m, 0, 7, 4) == SquareLook { shade: Shade::Dark, kind: Some(6), light_piece: true });
    assert!(square_look(&m, 0, 3, 0) == SquareLook { shade: Shade::Dark, kind: None, light_piece: true });
}

#[test]
fn king_in_check_is_marked() {
    let m = fen_to_matrix("4k3/8/8/8/8/8/8/r3K3");
    assert!(square_look(&m, 0, 7, 4).shade == Shade::Alert);
    // only the king of the side to move is marked
    assert!(square_look(&m, 1, 7, 4).shade == Shade::Dark);
}

#[test]
fn padding_counts() {
    assert_eq!(spacex_count(80, None), 31);
    assert_eq!(spacex_count(80, Some(2)), 33);
    assert_eq!(spacex_count(10, Some(-4)), -8);
    assert_eq!(spacey_count(40), 15);
    assert_eq!(spacey_count(10), 0);
}

#[test]
fn captured_pieces_shown() {
    assert_eq!(captured_kind(0), None);
    assert_eq!(captured_kind(31), Some(3));
    assert_eq!(captured_kind(-31), Some(-3));
    let mut p = [0i32; 16];
    p[0] = 11;
    p[1] = 40;
    assert_eq!(captured_codes(&p), vec![11, 40]);
}

#[test]
fn turn_and_result_texts() {
    assert_eq!(turn_label(0), (1, true));
    assert_eq!(turn_label(5), (6, false));
    assert_eq!(winner_name(3), "bianco");
    assert_eq!(winner_name(4), "nero");
    assert_eq!(winner_name(-3), "nero");
    assert_eq!(end_screen_message("Checkmate"), "Scacco Matto!");
    assert_eq!(end_screen_message("Stalemate"), "Stallo!");
    assert_eq!(end_screen_message("Check"), "");
    assert_eq!(result_message("Checkmate", "nero"), "Scacco Matto! nero ha vinto.");
    assert_eq!(result_message("Stalemate", "nessuno"), "Stallo! Il gioco \u{e8} finito in parit\u{e0}.");
    assert_eq!(result_message("Resign", "bianco"), "bianco si \u{e8} arreso! nero ha vinto.");
    assert_eq!(result_message("Resign", "nero"), "nero si \u{e8} arreso! bianco ha vinto.");
    assert_eq!(result_message("Draw", "nero"), "");
}
