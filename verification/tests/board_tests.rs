use chess_cli::board::{capture_piece, check_eat, col_to_number, is_valid_turn, reset_word, row_to_number};

#[test]
fn reset_word_sets_starting_rows() {
    let mut m = [[7i32; 8]; 8];
    reset_word(&mut m);
    assert_eq!(m[0], [41, 31, 21, 51, 61, 21, 31, 41]);
    assert_eq!(m[1], [11; 8]);
    assert_eq!(m[6], [10; 8]);
    assert_eq!(m[7], [40, 30, 20, 50, 60, 20, 30, 40]);
    for r in 2..6 {
        assert_eq!(m[r], [7; 8]);
    }
}

#[test]
fn file_letters_and_rank_digits() {
    assert_eq!(col_to_number('a'), Some(0));
    assert_eq!(col_to_number('h'), Some(7));
    assert_eq!(col_to_number('i'), Some(8));
    assert_eq!(col_to_number('j'), None);
    assert_eq!(col_to_number('A'), None);
    assert_eq!(row_to_number('1'), Some(0));
    assert_eq!(row_to_number('8'), Some(7));
    assert_eq!(row_to_number('9'), Some(8));
    assert_eq!(row_to_number('0'), None);
}

#[test]
fn turns_follow_colour_parity() {
    assert!(is_valid_turn(10, 0));
    assert!(!is_valid_turn(11, 0));
    assert!(is_valid_turn(61, 3));
    assert!(!is_valid_turn(40, 7));
    // Rust's remainder of a negative odd number is -1: neither side
    assert!(!is_valid_turn(-1, 1));
    assert!(!is_valid_turn(11, -1));
}

#[test]
fn own_pieces_cannot_be_taken() {
    let mut m = [[0i32; 8]; 8];
    m[4][4] = 40;
    m[4][6] = 30;
    m[2][4] = 31;
    assert!(!check_eat(&m, 4, 4, 4, 6));
    assert!(check_eat(&m, 4, 4, 2, 4));
    assert!(check_eat(&m, 4, 4, 0, 0));
}

#[test]
fn capture_keeps_the_list_in_order() {
    let mut p = [0i32; 16];
    capture_piece(&mut p, 31);
    capture_piece(&mut p, 11);
    capture_piece(&mut p, 51);
    capture_piece(&mut p, 11);
    capture_piece(&mut p, 0);
    assert_eq!(&p[..5], &[11, 11, 31, 51, 0]);
    assert!(p[4..].iter().all(|&x| x == 0));
}

#[test]
fn capture_into_a_full_list_drops_the_last_slot() {
    let mut p = [20i32; 16];
    p[15] = 60;
    capture_piece(&mut p, 30);
    assert_eq!(p[15], 30);
    assert_eq!(p[14], 20);
    let mut q = [50i32; 16];
    capture_piece(&mut q, 10);
    assert_eq!(q[0], 10);
    assert!(q[1..].iter().all(|&x| x == 50));
}
