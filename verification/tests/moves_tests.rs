use chess_cli::board::reset_word;
use chess_cli::fen::fen_to_matrix;
use chess_cli::text::normalize_input;
use chess_cli::moves::{
    castling_check, king_trick, pz_move, pz_move_returns, touchdown, CastlingReport, MoveReport, PromotionReport,
};

struct Game {
    gm: i32,
    m: [[i32; 8]; 8],
    black: [i32; 16],
    white: [i32; 16],
    ep_r: i32,
    ep_c: i32,
}

impl Game {
    fn start() -> Game {
        let mut m = [[0i32; 8]; 8];
        reset_word(&mut m);
        Game { gm: 0, m, black: [0; 16], white: [0; 16], ep_r: -1, ep_c: -1 }
    }

    fn from_fen(fen: &str, gm: i32) -> Game {
        Game { gm, m: fen_to_matrix(fen), black: [0; 16], white: [0; 16], ep_r: -1, ep_c: -1 }
    }

    fn play(&mut self, text: &str) -> MoveReport {
        assert!(pz_move_returns(text, self.gm, &self.m, &self.black, &self.white, self.ep_r, self.ep_c));
        pz_move(
            text,
            &mut self.gm,
            &mut self.m,
            &mut self.black,
            &mut self.white,
            &mut self.ep_r,
            &mut self.ep_c,
        )
    }
}

#[test]
fn pawn_double_step_opens_en_passant() {
    let mut g = Game::start();
    match g.play("e2e4") {
        MoveReport::Moved { from_col, from_row, to_col, to_row, en_passant_capture, en_passant_opened, promotion_due, round } => {
            assert_eq!((from_col, from_row, to_col, to_row), (4, 6, 4, 4));
            assert!(!en_passant_capture);
            assert!(en_passant_opened);
            assert!(!promotion_due);
            assert_eq!(round, 0);
        }
        _ => panic!("e2e4 should be played"),
    }
    assert_eq!(g.m[4][4], 10);
    assert_eq!(g.m[6][4], 0);
    assert_eq!(g.gm, 1);
    assert_eq!((g.ep_r, g.ep_c), (5, 4));
}

#[test]
fn dashes_and_white_space_are_ignored() {
    let mut g = Game::start();
    assert!(g.play("  g1-f3 ").accepted());
    assert_eq!(g.m[5][5], 30);
    assert_eq!((g.ep_r, g.ep_c), (-1, -1));
}

#[test]
fn wrong_format_and_unknown_square() {
    let mut g = Game::start();
    assert!(matches!(g.play("e2e"), MoveReport::WrongFormat));
    assert!(matches!(g.play("e2e4q"), MoveReport::WrongFormat));
    assert!(matches!(g.play(""), MoveReport::WrongFormat));
    assert!(matches!(g.play("z2e4"), MoveReport::UnknownSquare));
    assert!(matches!(g.play("e2e0"), MoveReport::UnknownSquare));
    assert_eq!(g.gm, 0);
}

#[test]
fn refused_moves_change_nothing() {
    let mut g = Game::start();
    let before = g.m;
    match g.play("e2e5") {
        MoveReport::Refused { from_col, from_row, to_col, to_row } => {
            assert_eq!((from_col, from_row, to_col, to_row), (4, 6, 4, 3));
        }
        _ => panic!("e2e5 should be refused"),
    }
    assert!(!g.play("e7e5").accepted());
    assert!(!g.play("a1a2").accepted());
    let mut corner = Game::from_fen("4k3/8/8/8/8/8/1P6/2B1K3", 0);
    // a bishop asked to stay on its square is refused
    assert!(!corner.play("c1c1").accepted());
    assert!(!g.play("f1c4").accepted());
    assert_eq!(g.m, before);
    assert_eq!(g.gm, 0);
    assert_eq!((g.ep_r, g.ep_c), (-1, -1));
}

#[test]
fn captures_go_to_the_captured_lists() {
    let mut g = Game::from_fen("4k3/8/8/3p4/4P3/8/8/4K3", 0);
    assert!(g.play("e4d5").accepted());
    assert_eq!(g.m[3][3], 10);
    assert_eq!(g.black[0], 11);
    assert_eq!(g.white, [0; 16]);
}

#[test]
fn en_passant_takes_the_pawn_beside() {
    let mut g = Game::from_fen("4k3/8/8/8/4p3/8/3P4/4K3", 0);
    assert!(g.play("d2d4").accepted());
    assert_eq!((g.ep_r, g.ep_c), (5, 3));
    match g.play("e4d3") {
        MoveReport::Moved { en_passant_capture, .. } => assert!(en_passant_capture),
        _ => panic!("en passant should be played"),
    }
    assert_eq!(g.m[4][3], 0);
    assert_eq!(g.m[4][4], 0);
    assert_eq!(g.m[5][3], 11);
    assert_eq!(g.white[0], 10);
    assert_eq!(g.gm, 2);
}

#[test]
fn king_two_columns_brings_the_rook() {
    let mut g = Game::from_fen("4k3/8/8/8/8/8/8/4K2R", 0);
    assert!(g.play("e1g1").accepted());
    assert_eq!(g.m[7], [0, 0, 0, 0, 0, 40, 60, 0]);
    let mut h = Game::from_fen("r3k3/8/8/8/8/8/8/4K3", 1);
    assert!(h.play("e8c8").accepted());
    assert_eq!(h.m[0], [0, 0, 61, 41, 0, 0, 0, 0]);
}

#[test]
fn move_into_check_is_refused() {
    let mut g = Game::from_fen("4r1k1/8/8/8/8/8/3P4/4K3", 0);
    // the white king stays on the open e-file of the black rook
    assert!(!g.play("d2d3").accepted());
    assert!(g.play("e1d1").accepted());
}

#[test]
fn promotion_is_due_on_the_last_row() {
    let mut g = Game::from_fen("4k3/P7/8/8/8/8/8/4K3", 0);
    match g.play("a7a8") {
        MoveReport::Moved { promotion_due, to_col, to_row, round, .. } => {
            assert!(promotion_due);
            assert!(matches!(touchdown(to_col, to_row, &mut g.m, round, "5"), PromotionReport::Promoted { clear: 5 }));
        }
        _ => panic!("a7a8 should be played"),
    }
    assert_eq!(g.m[0][0], 50);
}

#[test]
fn promotion_answers() {
    let mut m = [[0i32; 8]; 8];
    m[7][3] = 11;
    assert!(matches!(touchdown(3, 7, &mut m, 1, "  "), PromotionReport::NoInput));
    assert!(matches!(touchdown(3, 7, &mut m, 1, "q"), PromotionReport::NotADigit));
    assert_eq!(m[7][3], 11);
    assert!(matches!(touchdown(3, 7, &mut m, 1, " 3x"), PromotionReport::Promoted { clear: 3 }));
    assert_eq!(m[7][3], 31);
    assert!(matches!(touchdown(3, 7, &mut m, -2, "9"), PromotionReport::Promoted { clear: 9 }));
    assert_eq!(m[7][3], 90);
    assert!(matches!(touchdown(3, 7, &mut m, -3, "1"), PromotionReport::Promoted { clear: 1 }));
    assert_eq!(m[7][3], 11);
    // without a digit the square is not read, on the board or off it
    let before = m;
    assert!(matches!(touchdown(-4, 12, &mut m, 0, "x"), PromotionReport::NotADigit));
    assert!(matches!(touchdown(-4, 12, &mut m, 0, ""), PromotionReport::NoInput));
    assert_eq!(m, before);
}

#[test]
fn inputs_on_which_a_move_stops() {
    let g = Game::start();
    assert!(!pz_move_returns("i2i4", g.gm, &g.m, &g.black, &g.white, g.ep_r, g.ep_c));
    assert!(!pz_move_returns("e9e4", g.gm, &g.m, &g.black, &g.white, g.ep_r, g.ep_c));
    // four bytes but three characters
    assert!(!pz_move_returns("\u{e9}2e", g.gm, &g.m, &g.black, &g.white, g.ep_r, g.ep_c));
    // a bishop asked to stay where it is stops at the first piece up and to its left
    assert!(pz_move_returns("c1c1", g.gm, &g.m, &g.black, &g.white, g.ep_r, g.ep_c));
    // with nothing there it walks off the board
    let corner = fen_to_matrix("4k3/8/8/8/8/8/8/B3K3");
    assert!(!pz_move_returns("a1a1", 0, &corner, &[0; 16], &[0; 16], -1, -1));
    // black to move without a black king
    let m = fen_to_matrix("8/8/8/8/8/8/8/4K3");
    assert!(!pz_move_returns("e1e2", 1, &m, &[0; 16], &[0; 16], -1, -1));
    assert!(pz_move_returns("e1e2", 0, &m, &[0; 16], &[0; 16], -1, -1));
    // the round number cannot grow past i32::MAX
    assert!(!pz_move_returns("e7e5", i32::MAX, &g.m, &g.black, &g.white, g.ep_r, g.ep_c));
    assert!(pz_move_returns("e7e5", i32::MAX - 2, &g.m, &g.black, &g.white, g.ep_r, g.ep_c));
    // a refused move does not advance the round, so it returns
    assert!(pz_move_returns("e7e4", i32::MAX, &g.m, &g.black, &g.white, g.ep_r, g.ep_c));
}

#[test]
fn castling_both_ways() {
    let mut m = fen_to_matrix("r3k2r/8/8/8/8/8/8/R3K2R");
    let mut gm = 0;
    assert!(matches!(king_trick(&mut m, &mut gm, true), CastlingReport::Done { long: true, white: true }));
    assert_eq!(m[7], [0, 0, 60, 40, 0, 0, 0, 40]);
    assert_eq!(gm, 1);
    assert!(matches!(king_trick(&mut m, &mut gm, false), CastlingReport::Done { long: false, white: false }));
    assert_eq!(m[0], [41, 0, 0, 0, 0, 41, 61, 0]);
    assert_eq!(gm, 2);
}

#[test]
fn castling_refusals() {
    let mut start = [[0i32; 8]; 8];
    reset_word(&mut start);
    let mut gm = 0;
    assert!(matches!(king_trick(&mut start, &mut gm, false), CastlingReport::PathBlocked));
    assert_eq!(gm, 0);
    let mut empty = [[0i32; 8]; 8];
    assert!(matches!(king_trick(&mut empty, &mut gm, true), CastlingReport::KingNotReady));
    let mut no_rook = fen_to_matrix("4k3/8/8/8/8/8/8/4K3");
    assert!(matches!(king_trick(&mut no_rook, &mut gm, true), CastlingReport::RookNotReady));
    let mut attacked = fen_to_matrix("4k1r1/8/8/8/8/8/8/4K2R");
    let before = attacked;
    assert!(matches!(castling_check(&attacked, 0, false), CastlingReport::KingThreatened));
    assert!(matches!(king_trick(&mut attacked, &mut gm, false), CastlingReport::KingThreatened));
    assert_eq!(attacked, before);
    assert_eq!(gm, 0);
}

#[test]
fn short_and_dashed_forms_play_the_same_move() {
    let typed = normalize_input(" b1c3\n");
    assert_eq!(typed, "b1-c3");
    let mut short = Game::start();
    let mut dashed = Game::start();
    let mut read = Game::start();
    assert!(short.play("b1c3").accepted());
    assert!(dashed.play("b1-c3").accepted());
    assert!(read.play(&typed).accepted());
    assert_eq!(short.m, dashed.m);
    assert_eq!(short.m, read.m);
    assert_eq!(short.m[5][2], 30);
    assert_eq!((short.gm, dashed.gm, read.gm), (1, 1, 1));
}

#[test]
fn white_space_by_the_dash_leaves_both_forms_too_short() {
    let mut dashed = Game::start();
    let mut plain = Game::start();
    assert!(matches!(dashed.play("  - e"), MoveReport::WrongFormat));
    assert!(matches!(plain.play("   e"), MoveReport::WrongFormat));
    assert!(matches!(dashed.play("e2 - "), MoveReport::WrongFormat));
    assert!(matches!(plain.play("e2  "), MoveReport::WrongFormat));
    assert_eq!(dashed.m, plain.m);
    assert_eq!((dashed.gm, plain.gm), (0, 0));
}
