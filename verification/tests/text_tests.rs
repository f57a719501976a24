use chess_cli::commands::{import_fen_text, parse_command, Command, EnemyChoice, Session};
use chess_cli::engine::{best_move_line_complete, best_move_of, evaluation_line_complete, evaluation_of, fen_with_turn, is_ready_line};
use chess_cli::text::{dash_short_move, normalize_input, wants_new_game};

#[test]
fn short_moves_get_a_dash() {
    assert_eq!(normalize_input("  e2e4 \n"), "e2-e4");
    assert_eq!(normalize_input("e2-e4"), "e2-e4");
    assert_eq!(normalize_input("E2e4"), "E2e4");
    assert_eq!(normalize_input("help"), "help");
    assert_eq!(normalize_input("a1b!"), "a1b!");
    assert_eq!(normalize_input("e2\u{e9}"), "e2-\u{e9}");
    assert_eq!(normalize_input("\t 0-0 "), "0-0");
}

#[test]
fn new_game_answers() {
    assert!(wants_new_game("s"));
    assert!(wants_new_game(" S \n"));
    assert!(!wants_new_game("si"));
    assert!(!wants_new_game(""));
    assert!(!wants_new_game("n"));
}

#[test]
fn commands_are_recognised() {
    assert!(parse_command(" enemy on ") == Command::EnemyOn);
    assert!(parse_command("help") == Command::Help);
    assert!(parse_command("enemy off") == Command::EnemyOff);
    assert!(parse_command("enemy set white") == Command::EnemySet { choice: EnemyChoice::White });
    assert!(parse_command("enemy set black") == Command::EnemySet { choice: EnemyChoice::Black });
    assert!(parse_command("enemy set red") == Command::EnemySet { choice: EnemyChoice::Unknown });
    assert!(parse_command("enemy set white now") == Command::EnemySet { choice: EnemyChoice::Ignored });
    assert!(parse_command("set depth 12") == Command::SetDepth { value: Some(12) });
    assert!(parse_command("set depth -3") == Command::SetDepth { value: Some(-3) });
    assert!(parse_command("set depth deep") == Command::SetDepth { value: None });
    assert!(parse_command("set depth 99999999999") == Command::SetDepth { value: None });
    assert!(parse_command("set depth  7 8") == Command::SetDepth { value: Some(7) });
    assert!(parse_command("set aggressiveness +4") == Command::SetAggressiveness { value: Some(4) });
    assert!(parse_command("set aggressiveness -") == Command::SetAggressiveness { value: None });
    assert!(parse_command("exit") == Command::Exit);
    assert!(parse_command("0-0-0") == Command::CastleLong);
    assert!(parse_command("0-0") == Command::CastleShort);
    assert!(parse_command("show piece") == Command::ShowPiece);
    assert!(parse_command("show fen") == Command::ShowFen);
    assert!(parse_command("show suggested move") == Command::ShowSuggestedMove);
    assert!(parse_command("import fen 8/8/8/8/8/8/8/8") == Command::ImportFen);
    assert!(parse_command("e2-e4") == Command::Play);
    assert!(parse_command("set depth") == Command::Play);
}

#[test]
fn import_text_drops_the_prefix() {
    assert_eq!(import_fen_text(" import fen 4k3/8/8/8/8/8/8/4K3 "), "4k3/8/8/8/8/8/8/4K3");
    assert_eq!(import_fen_text("import fen import fen 8"), "8");
}

#[test]
fn settings_follow_commands() {
    let mut s = Session::new();
    assert_eq!(s.depth, 5);
    assert_eq!(s.aggressiveness, 1);
    assert!(!s.enemy_to_move(1));
    s.apply(Command::EnemyOn);
    assert!(s.enemy_to_move(1));
    assert!(!s.enemy_to_move(0));
    s.apply(Command::EnemySet { choice: EnemyChoice::White });
    assert!(s.enemy_to_move(0));
    s.apply(Command::SetDepth { value: Some(9) });
    s.apply(Command::SetDepth { value: None });
    assert_eq!(s.depth, 9);
    s.apply(Command::ShowFen);
    assert!(s.show_fen);
    s.apply(Command::ShowFen);
    assert!(!s.show_fen);
    s.apply(Command::EnemyOff);
    assert!(!s.enemy_active);
}

#[test]
fn engine_position_text() {
    assert_eq!(fen_with_turn("8/8/8/8/8/8/8/8", 0, 0), "8/8/8/8/8/8/8/8 w KQkq - 0 1");
    assert_eq!(fen_with_turn("x", 1, 3), "x b KQkq - 0 2");
    assert_eq!(fen_with_turn("x", 1, 25), "x b KQkq - 0 13");
    assert_eq!(fen_with_turn("x", 0, -3), "x w KQkq - 0 0");
    assert_eq!(fen_with_turn("x", 0, -40), "x w KQkq - 0 -19");
    assert_eq!(fen_with_turn("x", 7, i32::MAX), "x b KQkq - 0 1073741824");
}

#[test]
fn engine_lines() {
    assert!(is_ready_line("readyok"));
    assert!(is_ready_line("  readyok now"));
    assert!(!is_ready_line("ready ok"));
    assert_eq!(best_move_of("bestmove e2e4 ponder e7e5"), Some("e2e4".to_string()));
    assert_eq!(best_move_of("bestmove (none)"), Some("(none)".to_string()));
    assert_eq!(best_move_of("info depth 3"), None);
    assert!(best_move_line_complete("bestmove e2e4"));
    assert!(!best_move_line_complete("bestmove"));
    assert!(best_move_line_complete("info"));
    assert_eq!(evaluation_of("info score cp 25 depth 10"), Some("Valutazione in centipawn: 25".to_string()));
    assert_eq!(evaluation_of("info score cp x depth 10"), Some("Valutazione in centipawn: 10".to_string()));
    // "info score" must stand together in the line
    assert_eq!(evaluation_of("info depth 10 seldepth 12 score cp 25"), None);
    assert_eq!(evaluation_of("info score mate 3"), Some("Matto in 3 mosse".to_string()));
    assert_eq!(evaluation_of("info score lowerbound"), None);
    assert_eq!(evaluation_of("bestmove e2e4"), None);
    assert!(!evaluation_line_complete("info score cp"));
    assert!(evaluation_line_complete("info score cp -7"));
}

#[test]
fn show_commands_switch_back() {
    let mut s = Session::new();
    s.apply(Command::ShowPiece);
    s.apply(Command::ShowSuggestedMove);
    assert!(s.show_piece && s.show_suggested_move);
    s.apply(Command::ShowPiece);
    s.apply(Command::ShowSuggestedMove);
    assert!(!s.show_piece && !s.show_suggested_move);
    assert!(!s.show_fen && !s.enemy_active);
    assert_eq!((s.depth, s.aggressiveness), (5, 1));
}

#[test]
fn dash_goes_in_only_with_the_shape_and_the_test() {
    assert_eq!(dash_short_move("e2e4", true), "e2-e4");
    assert_eq!(dash_short_move("e2e4", false), "e2e4");
    assert_eq!(dash_short_move("E2e4", true), "E2e4");
    assert_eq!(dash_short_move("e2e", true), "e2e");
    assert_eq!(dash_short_move("e2é", true), "e2-é");
    assert_eq!(normalize_input("e2é"), "e2-é");
    assert_eq!(normalize_input("e2e!"), "e2e!");
}
