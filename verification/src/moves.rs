//! Playing a move typed as text ("e2e4" or "e2-e4"), promoting a pawn, and
//! castling.
use vstd::prelude::*;

use crate::board::{
    capture_piece, insert_position, check_eat, col_to_number, grid, in_bounds, insert_pos, inserted, is_valid_turn, rem2,
    row_to_number, spec_check_eat, spec_col_to_number, spec_is_valid_turn, spec_row_to_number,
};
use crate::rules::{
    find_piece, ray_first, abs, bishop_walks_off, check_king, check_king_defined, check_piece, king_safe, last_row_upto, moved,
    spec_check_piece,
};
use crate::text::{
    chars_of, lemma_trim_end_concat, lemma_trim_end_last, lemma_trim_start_concat, lemma_trim_start_fixed, looks_like_short_move, normalized_input, not_dash,
    remove_dashes, spec_is_white_space, trim, trim_chars, trim_end, trim_start, utf8_len, utf8_len_is,
};

verus! {

/// `g` with square (r, c) set to `v`.
pub open spec fn set_cell(g: Seq<Seq<i32>>, r: int, c: int, v: i32) -> Seq<Seq<i32>> {
    g.update(r, g[r].update(c, v))
}

/// The text of a move with surrounding white space and all dashes taken out.
pub open spec fn move_text(s: Seq<char>) -> Seq<char> {
    trim(s).filter(|c: char| not_dash(c))
}

/// The squares (start column, start row, end column, end row) that a move
/// text of four characters names; row 0 is rank 8. None when a character is
/// not a file letter 'a'..'i' or a rank digit '1'..'9' where one is due.
pub open spec fn parse_squares(t: Seq<char>) -> Option<(int, int, int, int)> {
    match (spec_col_to_number(t[0]), spec_row_to_number(t[1]), spec_col_to_number(t[2]), spec_row_to_number(t[3])) {
        (Some(a), Some(b), Some(c), Some(d)) => Some((a as int, 7 - b as int, c as int, 7 - d as int)),
        _ => None,
    }
}

/// A pawn moving one column sideways onto the empty en-passant square.
pub open spec fn is_en_passant(g: Seq<Seq<i32>>, ep_r: int, ep_c: int, sc: int, sr: int, ec: int, er: int) -> bool {
    let id = g[sr][sc];
    (id == 10 || id == 11) && abs(ec - sc) == 1 && g[er][ec] == 0 && er == ep_r && ec == ep_c
}

/// Whether the move from (sr, sc) to (er, ec) is played: the mover's king is
/// out of check after it, it does not end on a piece of the mover's colour,
/// the piece belongs to the side to move, and the piece moves that way (or
/// the move takes en passant).
pub open spec fn move_accepted(g: Seq<Seq<i32>>, gm: int, ep_r: int, ep_c: int, sc: int, sr: int, ec: int, er: int) -> bool {
    let id = g[sr][sc] as int;
    let ep = is_en_passant(g, ep_r, ep_c, sc, sr, ec, er);
    king_safe(moved(g, sr, sc, er, ec), gm) && (spec_check_eat(g, sr, sc, er, ec) || ep) && spec_is_valid_turn(
        id,
        gm,
    ) && (spec_check_piece(g, id, ec - sc, er - sr, sr, sc, g[er][ec] as int) || ep)
}

/// The piece that the move takes (0 for none): the pawn beside the mover
/// for en passant, else what stands on the end square.
pub open spec fn taken_piece(g: Seq<Seq<i32>>, ep_r: int, ep_c: int, sc: int, sr: int, ec: int, er: int) -> i32 {
    if is_en_passant(g, ep_r, ep_c, sc, sr, ec, er) {
        g[sr][ec]
    } else {
        g[er][ec]
    }
}

/// A list of captured pieces after `p` is added (code 0 adds nothing).
pub open spec fn captured_with(list: Seq<i32>, p: i32) -> Seq<i32> {
    if p == 0 {
        list
    } else {
        inserted(list, insert_pos(list, p), p)
    }
}

/// Whether a list of captured pieces has room for `p` as `capture_piece` needs.
pub open spec fn room_for(list: Seq<i32>, p: i32) -> bool {
    p == 0 || insert_pos(list, p) < 16
}

/// The board after the move is played: the pawn taken en passant is removed,
/// the piece goes to the end square, and a king moving two columns to
/// column 6 or 2 brings the rook from column 7 to 5 or from 0 to 3.
pub open spec fn board_after(g: Seq<Seq<i32>>, ep: bool, sc: int, sr: int, ec: int, er: int) -> Seq<Seq<i32>> {
    let id = g[sr][sc];
    let g1 = if ep {
        set_cell(g, sr, ec, 0)
    } else {
        g
    };
    let g2 = set_cell(set_cell(g1, er, ec, g1[sr][sc]), sr, sc, 0);
    if (id == 60 || id == 61) && abs(ec - sc) == 2 {
        if ec == 6 {
            set_cell(set_cell(g2, er, 5, g2[er][7]), er, 7, 0)
        } else if ec == 2 {
            set_cell(set_cell(g2, er, 3, g2[er][0]), er, 0, 0)
        } else {
            g2
        }
    } else {
        g2
    }
}

/// A pawn moving two rows opens en passant on the square it passed.
pub open spec fn opens_en_passant(g: Seq<Seq<i32>>, sc: int, sr: int, er: int) -> bool {
    let id = g[sr][sc];
    (id == 10 || id == 11) && abs(sr - er) == 2
}

/// The en passant square after a played move: the square a pawn passed in
/// a two-row step, else none (-1, -1).
pub open spec fn en_passant_after(g: Seq<Seq<i32>>, sc: int, sr: int, er: int) -> (int, int) {
    if opens_en_passant(g, sc, sr, er) {
        ((sr + er) / 2, sc)
    } else {
        (-1, -1)
    }
}

/// A pawn reaching row 0 or row 7 is to be promoted.
pub open spec fn reaches_last_row(g: Seq<Seq<i32>>, sc: int, sr: int, er: int) -> bool {
    let id = g[sr][sc];
    (id == 10 || id == 11) && (er == 0 || er == 7)
}

/// What happened to a move typed as text.
pub enum MoveReport {
    /// The text, without white space around it and dashes, is not four bytes long.
    WrongFormat,
    /// One of the four characters is not a file letter or rank digit.
    UnknownSquare,
    /// The move is not allowed; nothing changed.
    Refused { from_col: i32, from_row: i32, to_col: i32, to_row: i32 },
    /// The move was played in round `round`.
    Moved {
        from_col: i32,
        from_row: i32,
        to_col: i32,
        to_row: i32,
        en_passant_capture: bool,
        en_passant_opened: bool,
        promotion_due: bool,
        round: i32,
    },
}

impl MoveReport {
    /// Whether the move was played.
    pub fn accepted(&self) -> (r: bool)
        ensures
            r == (*self is Moved),
    {
        match self {
            MoveReport::Moved { .. } => true,
            _ => false,
        }
    }
}

/// The report for squares (sc, sr) to (ec, er) in round gm.
pub open spec fn squares_report(g: Seq<Seq<i32>>, gm: int, ep_r: int, ep_c: int, sc: int, sr: int, ec: int, er: int) -> MoveReport {
    if move_accepted(g, gm, ep_r, ep_c, sc, sr, ec, er) {
        MoveReport::Moved {
            from_col: sc as i32,
            from_row: sr as i32,
            to_col: ec as i32,
            to_row: er as i32,
            en_passant_capture: is_en_passant(g, ep_r, ep_c, sc, sr, ec, er),
            en_passant_opened: opens_en_passant(g, sc, sr, er),
            promotion_due: reaches_last_row(g, sc, sr, er),
            round: gm as i32,
        }
    } else {
        MoveReport::Refused { from_col: sc as i32, from_row: sr as i32, to_col: ec as i32, to_row: er as i32 }
    }
}

/// The report of `pz_move` for text `s`.
pub open spec fn move_report(s: Seq<char>, g: Seq<Seq<i32>>, gm: int, ep_r: int, ep_c: int) -> MoveReport {
    let t = move_text(s);
    if utf8_len(t) != 4 {
        MoveReport::WrongFormat
    } else {
        match parse_squares(t) {
            None => MoveReport::UnknownSquare,
            Some((sc, sr, ec, er)) => squares_report(g, gm, ep_r, ep_c, sc, sr, ec, er),
        }
    }
}

/// The inputs on which playing (sc, sr) to (ec, er) returns: both squares on
/// the board (file 'i' and rank '9' are not), no bishop walking off the
/// board, a king for `check_king` to find, and, when the move is played,
/// room for the taken piece and a round number below the top of `i32`.
pub open spec fn squares_defined(
    g: Seq<Seq<i32>>,
    gm: int,
    black: Seq<i32>,
    white: Seq<i32>,
    ep_r: int,
    ep_c: int,
    sc: int,
    sr: int,
    ec: int,
    er: int,
) -> bool {
    &&& in_bounds(sr, sc)
    &&& in_bounds(er, ec)
    &&& !bishop_walks_off(g, g[sr][sc] as int, ec - sc, er - sr, sr, sc)
    &&& check_king_defined(g, sr, sc, er, ec, gm)
    &&& move_accepted(g, gm, ep_r, ep_c, sc, sr, ec, er) ==> {
        &&& gm < i32::MAX
        &&& room_for(
            if rem2(g[sr][sc] as int) == 0 {
                black
            } else {
                white
            },
            taken_piece(g, ep_r, ep_c, sc, sr, ec, er),
        )
    }
}

/// The inputs on which `pz_move` returns: a text of four bytes has four
/// characters (they are read by index), and its squares are defined.
pub open spec fn pz_move_defined(
    s: Seq<char>,
    g: Seq<Seq<i32>>,
    gm: int,
    black: Seq<i32>,
    white: Seq<i32>,
    ep_r: int,
    ep_c: int,
) -> bool {
    let t = move_text(s);
    utf8_len(t) == 4 ==> t.len() >= 4 && (parse_squares(t) matches Some((sc, sr, ec, er)) ==> squares_defined(
        g,
        gm,
        black,
        white,
        ep_r,
        ep_c,
        sc,
        sr,
        ec,
        er,
    ))
}

/// Plays the move written in `string` ("e2e4", "e2-e4"; dashes and the
/// white space around it are ignored) for the side to move in round `gm`.
/// The report says whether the text was read and the move played; when it
/// was played, the board is `board_after`, the taken piece joins the
/// captured black pieces (a white mover) or white pieces (a black mover),
/// en passant is opened on the square a pawn passed or closed (-1, -1), and
/// the round advances by one. Otherwise nothing changes. A pawn reaching the
/// last row is promoted afterwards by `touchdown`.
pub fn pz_move(
    string: &str,
    gm: &mut i32,
    matrix: &mut [[i32; 8]; 8],
    black_piece: &mut [i32; 16],
    white_piece: &mut [i32; 16],
    en_passant_row: &mut i32,
    en_passant_col: &mut i32,
) -> (report: MoveReport)
    requires
        pz_move_defined(
            string@,
            grid(*old(matrix)),
            *old(gm) as int,
            old(black_piece)@,
            old(white_piece)@,
            *old(en_passant_row) as int,
            *old(en_passant_col) as int,
        ),
    ensures
        report == move_report(
            string@,
            grid(*old(matrix)),
            *old(gm) as int,
            *old(en_passant_row) as int,
            *old(en_passant_col) as int,
        ),
        !(report is Moved) ==> {
            &&& *final(gm) == *old(gm)
            &&& *final(matrix) == *old(matrix)
            &&& final(black_piece)@ == old(black_piece)@
            &&& final(white_piece)@ == old(white_piece)@
            &&& *final(en_passant_row) == *old(en_passant_row)
            &&& *final(en_passant_col) == *old(en_passant_col)
        },
        report matches MoveReport::Moved { from_col, from_row, to_col, to_row, en_passant_capture, .. } ==> {
            let g = grid(*old(matrix));
            let (sc, sr, ec, er) = (from_col as int, from_row as int, to_col as int, to_row as int);
            let taken = taken_piece(g, *old(en_passant_row) as int, *old(en_passant_col) as int, sc, sr, ec, er);
            &&& grid(*final(matrix)) == board_after(g, en_passant_capture, sc, sr, ec, er)
            &&& *final(gm) == *old(gm) + 1
            &&& rem2(g[sr][sc] as int) == 0 ==> final(black_piece)@ == captured_with(old(black_piece)@, taken)
                && final(white_piece)@ == old(white_piece)@
            &&& rem2(g[sr][sc] as int) != 0 ==> final(white_piece)@ == captured_with(old(white_piece)@, taken)
                && final(black_piece)@ == old(black_piece)@
            &&& *final(en_passant_row) == en_passant_after(g, sc, sr, er).0
            &&& *final(en_passant_col) == en_passant_after(g, sc, sr, er).1
        },
{
    let chars = chars_of(string);
    let trimmed = trim_chars(&chars);
    let clean = remove_dashes(&trimmed);
    if !utf8_len_is(&clean, 4) {
        return MoveReport::WrongFormat;
    }
    let a = col_to_number(clean[0]);
    let b = row_to_number(clean[1]);
    let c = col_to_number(clean[2]);
    let d = row_to_number(clean[3]);
    match (a, b, c, d) {
        (Some(a), Some(b), Some(c), Some(d)) => {
            let s_c = a as i32;
            let s_r = 7 - b as i32;
            let e_c = c as i32;
            let e_r = 7 - d as i32;
            play_squares(s_c, s_r, e_c, e_r, gm, matrix, black_piece, white_piece, en_passant_row, en_passant_col)
        },
        _ => MoveReport::UnknownSquare,
    }
}

/// Whether the move from (s_r, s_c) to (e_r, e_c) is played in round gm,
/// and whether it takes en passant; the board is not changed.
pub fn move_verdict(
    matrix: &[[i32; 8]; 8],
    gm: i32,
    en_passant_row: i32,
    en_passant_col: i32,
    s_c: i32,
    s_r: i32,
    e_c: i32,
    e_r: i32,
) -> (r: (bool, bool))
    requires
        in_bounds(s_r as int, s_c as int),
        in_bounds(e_r as int, e_c as int),
        !bishop_walks_off(grid(*matrix), grid(*matrix)[s_r as int][s_c as int] as int, e_c - s_c, e_r - s_r, s_r as int, s_c as int),
        check_king_defined(grid(*matrix), s_r as int, s_c as int, e_r as int, e_c as int, gm as int),
    ensures
        r.0 == move_accepted(grid(*matrix), gm as int, en_passant_row as int, en_passant_col as int, s_c as int, s_r as int, e_c as int, e_r as int),
        r.1 == is_en_passant(grid(*matrix), en_passant_row as int, en_passant_col as int, s_c as int, s_r as int, e_c as int, e_r as int),
{
    let m_c: i32 = e_c - s_c;
    let m_r: i32 = e_r - s_r;
    let id_piece: i32 = matrix[s_r as usize][s_c as usize];
    let id_enemy: i32 = matrix[e_r as usize][e_c as usize];
    let mut copy = *matrix;
    let mut check: bool = check_piece(&mut copy, id_piece, m_c, m_r, s_r, s_c, id_enemy);
    let amc: i32 = if m_c < 0 { -m_c } else { m_c };
    let is_en_passant = (id_piece == 10 || id_piece == 11) && amc == 1 && id_enemy == 0 && e_r == en_passant_row
        && e_c == en_passant_col;
    if is_en_passant {
        check = true;
    }
    let accepted = check_king(s_r, s_c, e_r, e_c, gm, matrix) && (check_eat(matrix, s_r, s_c, e_r, e_c)
        || is_en_passant) && is_valid_turn(id_piece, gm) && check;
    (accepted, is_en_passant)
}

/// Plays the move from (s_r, s_c) to (e_r, e_c) if it is allowed.
fn play_squares(
    s_c: i32,
    s_r: i32,
    e_c: i32,
    e_r: i32,
    gm: &mut i32,
    matrix: &mut [[i32; 8]; 8],
    black_piece: &mut [i32; 16],
    white_piece: &mut [i32; 16],
    en_passant_row: &mut i32,
    en_passant_col: &mut i32,
) -> (report: MoveReport)
    requires
        squares_defined(
            grid(*old(matrix)),
            *old(gm) as int,
            old(black_piece)@,
            old(white_piece)@,
            *old(en_passant_row) as int,
            *old(en_passant_col) as int,
            s_c as int,
            s_r as int,
            e_c as int,
            e_r as int,
        ),
    ensures
        report == squares_report(
            grid(*old(matrix)),
            *old(gm) as int,
            *old(en_passant_row) as int,
            *old(en_passant_col) as int,
            s_c as int,
            s_r as int,
            e_c as int,
            e_r as int,
        ),
        !(report is Moved) ==> {
            &&& *final(gm) == *old(gm)
            &&& *final(matrix) == *old(matrix)
            &&& final(black_piece)@ == old(black_piece)@
            &&& final(white_piece)@ == old(white_piece)@
            &&& *final(en_passant_row) == *old(en_passant_row)
            &&& *final(en_passant_col) == *old(en_passant_col)
        },
        report is Moved ==> {
            let g = grid(*old(matrix));
            let (sc, sr, ec, er) = (s_c as int, s_r as int, e_c as int, e_r as int);
            let ep = is_en_passant(g, *old(en_passant_row) as int, *old(en_passant_col) as int, sc, sr, ec, er);
            let taken = taken_piece(g, *old(en_passant_row) as int, *old(en_passant_col) as int, sc, sr, ec, er);
            &&& grid(*final(matrix)) == board_after(g, ep, sc, sr, ec, er)
            &&& *final(gm) == *old(gm) + 1
            &&& rem2(g[sr][sc] as int) == 0 ==> final(black_piece)@ == captured_with(old(black_piece)@, taken)
                && final(white_piece)@ == old(white_piece)@
            &&& rem2(g[sr][sc] as int) != 0 ==> final(white_piece)@ == captured_with(old(white_piece)@, taken)
                && final(black_piece)@ == old(black_piece)@
            &&& *final(en_passant_row) == en_passant_after(g, sc, sr, er).0
            &&& *final(en_passant_col) == en_passant_after(g, sc, sr, er).1
        },
{
    let id_piece: i32 = matrix[s_r as usize][s_c as usize];
    let id_enemy: i32 = matrix[e_r as usize][e_c as usize];
    let m_c: i32 = e_c - s_c;
    let amc: i32 = if m_c < 0 { -m_c } else { m_c };
    let (accepted, is_en_passant) = move_verdict(matrix, *gm, *en_passant_row, *en_passant_col, s_c, s_r, e_c, e_r);
    if accepted {
        let ghost g = grid(*matrix);
        if is_en_passant {
            let captured_pawn = matrix[s_r as usize][e_c as usize];
            matrix[s_r as usize][e_c as usize] = 0;
            if id_piece % 2 == 0 {
                capture_piece(black_piece, captured_pawn);
            } else {
                capture_piece(white_piece, captured_pawn);
            }
        } else if id_enemy != 0 {
            if id_piece % 2 == 0 {
                capture_piece(black_piece, id_enemy);
            } else {
                capture_piece(white_piece, id_enemy);
            }
        }
        let ghost g1 = grid(*matrix);
        assert(g1 =~~= (if is_en_passant { set_cell(g, s_r as int, e_c as int, 0) } else { g }));
        let v = matrix[s_r as usize][s_c as usize];
        matrix[e_r as usize][e_c as usize] = v;
        matrix[s_r as usize][s_c as usize] = 0;
        let ghost g2 = grid(*matrix);
        assert(g2 =~~= set_cell(set_cell(g1, e_r as int, e_c as int, g1[s_r as int][s_c as int]), s_r as int, s_c as int, 0));
        if (id_piece == 60 || id_piece == 61) && amc == 2 {
            let row = e_r as usize;
            if e_c == 6 {
                let rook = matrix[row][7];
                matrix[row][5] = rook;
                matrix[row][7] = 0;
            } else if e_c == 2 {
                let rook = matrix[row][0];
                matrix[row][3] = rook;
                matrix[row][0] = 0;
            }
        }
        assert(grid(*matrix) =~~= board_after(g, is_en_passant, s_c as int, s_r as int, e_c as int, e_r as int));
        let d_r: i32 = s_r - e_r;
        let en_passant_opened = (id_piece == 10 || id_piece == 11) && (d_r == 2 || d_r == -2);
        if en_passant_opened {
            *en_passant_row = (s_r + e_r) / 2;
            *en_passant_col = s_c;
        } else {
            *en_passant_row = -1;
            *en_passant_col = -1;
        }
        let promotion_due = (id_piece == 10 || id_piece == 11) && (e_r == 0 || e_r == 7);
        let round = *gm;
        *gm += 1;
        MoveReport::Moved {
            from_col: s_c,
            from_row: s_r,
            to_col: e_c,
            to_row: e_r,
            en_passant_capture: is_en_passant,
            en_passant_opened,
            promotion_due,
            round,
        }
    } else {
        MoveReport::Refused { from_col: s_c, from_row: s_r, to_col: e_c, to_row: e_r }
    }
}


/// What a promotion answer asked for.
pub enum PromotionReport {
    /// The answer starts with a digit '1'..'9'; `clear` is its value.
    Promoted { clear: u32 },
    /// The answer starts with something else.
    NotADigit,
    /// The answer is empty or white space.
    NoInput,
}

/// The promotion asked for by an answer: its first character after white
/// space, read as a digit from 1 to 9.
pub open spec fn promotion_choice(choice: Seq<char>) -> PromotionReport {
    let t = trim(choice);
    if t.len() == 0 {
        PromotionReport::NoInput
    } else {
        match spec_row_to_number(t[0]) {
            Some(n) => PromotionReport::Promoted { clear: (n + 1) as u32 },
            None => PromotionReport::NotADigit,
        }
    }
}

/// The piece a pawn becomes: kind `clear`, colour of the side moving in
/// round `gm` (the remainder of `gm as u32` by 2).
pub open spec fn promoted_piece(clear: u32, gm: int) -> i32 {
    (clear * 10 + gm % 2) as i32
}

/// Promotes the pawn on (e_s, e_c) to the kind that the answer `choice`
/// names by its first digit (1 pawn, 2 bishop, 3 knight, 4 rook, 5 queen,
/// 6 king; 7 to 9 give codes of no kind), in the colour of round `gm`.
/// Any other answer leaves the board as it is; the square is read only
/// when a digit is given, and must then be on the board.
pub fn touchdown(e_c: i32, e_s: i32, matrix: &mut [[i32; 8]; 8], gm: i32, choice: &str) -> (report: PromotionReport)
    requires
        promotion_choice(choice@) is Promoted ==> in_bounds(e_s as int, e_c as int),
    ensures
        report == promotion_choice(choice@),
        report matches PromotionReport::Promoted { clear } ==> grid(*final(matrix)) == set_cell(
            grid(*old(matrix)),
            e_s as int,
            e_c as int,
            promoted_piece(clear, gm as int),
        ),
        !(report is Promoted) ==> *final(matrix) == *old(matrix),
{
    let chars = chars_of(choice);
    let trimmed = trim_chars(&chars);
    if trimmed.len() == 0 {
        return PromotionReport::NoInput;
    }
    match row_to_number(trimmed[0]) {
        Some(n) => {
            let clear: u32 = n + 1;
            let colour: u32 = if gm % 2 == 0 { 0 } else { 1 };
            let newboss: u32 = clear * 10 + colour;
            matrix[e_s as usize][e_c as usize] = newboss as i32;
            assert(grid(*matrix) =~~= set_cell(grid(*old(matrix)), e_s as int, e_c as int, promoted_piece(clear, gm as int)));
            PromotionReport::Promoted { clear }
        },
        None => PromotionReport::NotADigit,
    }
}

/// What happened to a castling request.
pub enum CastlingReport {
    /// The side's king is not on its starting square.
    KingNotReady,
    /// The side's rook is not on its corner.
    RookNotReady,
    /// A square between them is taken.
    PathBlocked,
    /// The king would stand in check on its new square.
    KingThreatened,
    /// Castling was played.
    Done { long: bool, white: bool },
}

/// The row of the side's back rank: 7 for white (even round), 0 for black.
pub open spec fn castle_row(gm: int) -> int {
    if rem2(gm) == 0 {
        7
    } else {
        0
    }
}

pub open spec fn rook_col(long: bool) -> int {
    if long {
        0
    } else {
        7
    }
}

pub open spec fn king_target_col(long: bool) -> int {
    if long {
        2
    } else {
        6
    }
}

pub open spec fn rook_target_col(long: bool) -> int {
    if long {
        3
    } else {
        5
    }
}

/// The squares between king and rook that must be empty: columns 1 to 3
/// (long) or 5 to 6 (short).
pub open spec fn castling_path_clear(g: Seq<Seq<i32>>, row: int, long: bool) -> bool {
    let (lo, hi) = if long {
        (1int, 3int)
    } else {
        (5int, 6int)
    };
    forall|col: int| lo <= col <= hi ==> #[trigger] g[row][col] == 0
}

/// The outcome of castling (long or short) for the side to move in round gm.
pub open spec fn castling_report(g: Seq<Seq<i32>>, gm: int, long: bool) -> CastlingReport {
    let white = rem2(gm) == 0;
    let row = castle_row(gm);
    let king = g[row][4];
    let rook = g[row][rook_col(long)];
    if !((king == 60 && white) || (king == 61 && !white)) {
        CastlingReport::KingNotReady
    } else if !((rook == 40 && white) || (rook == 41 && !white)) {
        CastlingReport::RookNotReady
    } else if !castling_path_clear(g, row, long) {
        CastlingReport::PathBlocked
    } else if !king_safe(moved(g, row, 4, row, king_target_col(long)), gm) {
        CastlingReport::KingThreatened
    } else {
        CastlingReport::Done { long, white }
    }
}

/// The board after castling: king and rook on their new squares, their old
/// squares empty.
pub open spec fn castled(g: Seq<Seq<i32>>, gm: int, long: bool) -> Seq<Seq<i32>> {
    let row = castle_row(gm);
    let king = g[row][4];
    let rook = g[row][rook_col(long)];
    set_cell(
        set_cell(set_cell(set_cell(g, row, king_target_col(long), king), row, rook_target_col(long), rook), row, 4, 0),
        row,
        rook_col(long),
        0,
    )
}

proof fn lemma_first_col_found(g: Seq<Seq<i32>>, r: int, target: int, c: int, k: int)
    requires
        0 <= k <= c < 8,
        g[r][c] == target,
    ensures
        crate::rules::first_col_from(g, r, target, k) >= 0,
    decreases c - k,
{
    if g[r][k] != target {
        lemma_first_col_found(g, r, target, c, k + 1);
    }
}

pub(crate) proof fn lemma_row_found(g: Seq<Seq<i32>>, r: int, c: int, target: int, upto: int)
    requires
        in_bounds(r, c),
        r <= upto,
        g[r][c] == target,
    ensures
        last_row_upto(g, target, upto) >= 0,
    decreases upto - r,
{
    lemma_first_col_found(g, r, target, c, 0);
    if upto > r && crate::rules::first_col_from(g, upto, target, 0) < 0 {
        lemma_row_found(g, r, c, target, upto - 1);
    }
}

/// The outcome that castling long (`long_castling`) or short would have
/// for the side to move in round `gm_round`, without playing it.
pub fn castling_check(matrix: &[[i32; 8]; 8], gm_round: i32, long_castling: bool) -> (report: CastlingReport)
    ensures
        report == castling_report(grid(*matrix), gm_round as int, long_castling),
{
    let ghost g = grid(*matrix);
    let is_white_turn = gm_round % 2 == 0;
    let king_row: usize = if is_white_turn { 7 } else { 0 };
    let king_col: usize = 4;
    let rook_col: usize = if long_castling { 0 } else { 7 };
    let king_target_col: usize = if long_castling { 2 } else { 6 };
    let king = matrix[king_row][king_col];
    let rook = matrix[king_row][rook_col];
    if !((king == 60 && is_white_turn) || (king == 61 && !is_white_turn)) {
        return CastlingReport::KingNotReady;
    }
    if !((rook == 40 && is_white_turn) || (rook == 41 && !is_white_turn)) {
        return CastlingReport::RookNotReady;
    }
    let (start_col, end_col): (usize, usize) = if long_castling {
        (1, king_col - 1)
    } else {
        (king_col + 1, rook_col - 1)
    };
    let mut col = start_col;
    while col <= end_col
        invariant
            start_col <= col <= end_col + 1,
            end_col < 8,
            king_row < 8,
            g == grid(*matrix),
            long_castling ==> start_col == 1 && end_col == 3,
            !long_castling ==> start_col == 5 && end_col == 6,
            forall|k: int| start_col <= k < col ==> #[trigger] g[king_row as int][k] == 0,
            king_row == castle_row(gm_round as int),
            !(castling_report(g, gm_round as int, long_castling) is KingNotReady),
            !(castling_report(g, gm_round as int, long_castling) is RookNotReady),
        decreases end_col + 1 - col,
    {
        if matrix[king_row][col] != 0 {
            assert(g[king_row as int][col as int] != 0);
            return CastlingReport::PathBlocked;
        }
        col += 1;
    }
    proof {
        let m = moved(g, king_row as int, 4, king_row as int, king_target_col as int);
        if rem2(gm_round as int) == 1 {
            assert(m[king_row as int][king_target_col as int] == 61);
            lemma_row_found(m, king_row as int, king_target_col as int, 61, 7);
        }
    }
    if !check_king(king_row as i32, king_col as i32, king_row as i32, king_target_col as i32, gm_round, matrix) {
        return CastlingReport::KingThreatened;
    }
    CastlingReport::Done { long: long_castling, white: is_white_turn }
}

/// Castles long (`long_castling`) or short for the side to move in round
/// `gm_round`: the king must stand on column 4 and the rook on its corner of
/// the side's back rank, the squares between must be empty, and the king
/// must not be in check on its new square (column 2 or 6); then the rook
/// goes to column 3 or 5 and the round advances by one. Otherwise nothing
/// changes. Castling in round `i32::MAX` would overflow the round; that
/// input is left out.
pub fn king_trick(matrix: &mut [[i32; 8]; 8], gm_round: &mut i32, long_castling: bool) -> (report: CastlingReport)
    requires
        castling_report(grid(*old(matrix)), *old(gm_round) as int, long_castling) is Done ==> *old(gm_round)
            < i32::MAX,
    ensures
        report == castling_report(grid(*old(matrix)), *old(gm_round) as int, long_castling),
        report is Done ==> grid(*final(matrix)) == castled(grid(*old(matrix)), *old(gm_round) as int, long_castling)
            && *final(gm_round) == *old(gm_round) + 1,
        !(report is Done) ==> *final(matrix) == *old(matrix) && *final(gm_round) == *old(gm_round),
{
    let report = castling_check(matrix, *gm_round, long_castling);
    match report {
        CastlingReport::Done { .. } => {},
        _ => {
            return report;
        },
    }
    let ghost g = grid(*matrix);
    let king_row: usize = if *gm_round % 2 == 0 { 7 } else { 0 };
    let rook_col: usize = if long_castling { 0 } else { 7 };
    let king_target_col: usize = if long_castling { 2 } else { 6 };
    let rook_target_col: usize = if long_castling { 3 } else { 5 };
    let king = matrix[king_row][4];
    let rook = matrix[king_row][rook_col];
    matrix[king_row][king_target_col] = king;
    matrix[king_row][rook_target_col] = rook;
    matrix[king_row][4] = 0;
    matrix[king_row][rook_col] = 0;
    assert(grid(*matrix) =~~= castled(g, *old(gm_round) as int, long_castling));
    *gm_round += 1;
    report
}

/// A played move moves a piece of the side to move, and lands on an empty
/// square or an enemy piece unless it takes en passant.
pub proof fn lemma_played_move_respects_sides(
    g: Seq<Seq<i32>>,
    gm: int,
    ep_r: int,
    ep_c: int,
    sc: int,
    sr: int,
    ec: int,
    er: int,
)
    requires
        move_accepted(g, gm, ep_r, ep_c, sc, sr, ec, er),
    ensures
        spec_is_valid_turn(g[sr][sc] as int, gm),
        g[sr][sc] != 0,
        !is_en_passant(g, ep_r, ep_c, sc, sr, ec, er) ==> (g[er][ec] == 0 || rem2(g[er][ec] as int) != rem2(
            g[sr][sc] as int,
        )),
{
    if g[sr][sc] == 0 {
        assert(!is_en_passant(g, ep_r, ep_c, sc, sr, ec, er));
        assert(!spec_check_piece(g, 0, ec - sc, er - sr, sr, sc, g[er][ec] as int));
    }
}

/// A played move that neither takes en passant nor castles leaves exactly
/// the board that `check_king` judged, so the mover's king is not in check
/// after it (by the tests of `check_king`).
pub proof fn lemma_played_move_keeps_king_safe(
    g: Seq<Seq<i32>>,
    gm: int,
    ep_r: int,
    ep_c: int,
    sc: int,
    sr: int,
    ec: int,
    er: int,
)
    requires
        crate::board::is_grid(g),
        in_bounds(sr, sc),
        in_bounds(er, ec),
        move_accepted(g, gm, ep_r, ep_c, sc, sr, ec, er),
        !is_en_passant(g, ep_r, ep_c, sc, sr, ec, er),
        !((g[sr][sc] == 60 || g[sr][sc] == 61) && abs(ec - sc) == 2),
    ensures
        board_after(g, false, sc, sr, ec, er) == moved(g, sr, sc, er, ec),
        king_safe(board_after(g, false, sc, sr, ec, er), gm),
{
    lemma_played_move_respects_sides(g, gm, ep_r, ep_c, sc, sr, ec, er);
    if sr == er && sc == ec {
        assert(!spec_check_eat(g, sr, sc, er, ec));
    }
    assert(board_after(g, false, sc, sr, ec, er) =~~= moved(g, sr, sc, er, ec));
}


/// A move typed without its dash ("e2e4") plays as the same move typed with
/// it ("e2-e4"): the dash that the prompt puts into a short move is taken
/// out again, so the line as the prompt returns it and the line as typed
/// give the same move text and the same report.
pub proof fn lemma_short_form_plays_same_move(line: Seq<char>, g: Seq<Seq<i32>>, gm: int, ep_r: int, ep_c: int)
    ensures
        move_text(normalized_input(line)) == move_text(line),
        move_report(normalized_input(line), g, gm, ep_r, ep_c) == move_report(line, g, gm, ep_r, ep_c),
{
    let t = trim(line);
    lemma_trim_start_fixed(line);
    if looks_like_short_move(t) {
        lemma_trim_end_last(trim_start(line));
        if t.len() == 2 {
            assert(t.drop_last().drop_last() =~= Seq::<char>::empty());
            assert(t.drop_last().last() == t[0] && t.last() == t[1]);
            assert(utf8_len(t.drop_last().drop_last()) == 0);
            assert(utf8_len(t.drop_last()) == 1);
            assert(utf8_len(t) == 2);
        }
        let x = t.take(2) + seq!['-'] + t.skip(2);
        assert(!spec_is_white_space(x[0]));
        assert(!spec_is_white_space(x.last()));
        let nd = |c: char| not_dash(c);
        Seq::filter_distributes_over_add(t.take(2) + seq!['-'], t.skip(2), nd);
        Seq::filter_distributes_over_add(t.take(2), seq!['-'], nd);
        Seq::filter_distributes_over_add(t.take(2), t.skip(2), nd);
        assert(seq!['-'].filter(nd) =~= Seq::<char>::empty()) by {
            reveal_with_fuel(Seq::filter, 2);
            assert(seq!['-'].drop_last() =~= Seq::<char>::empty());
        }
        assert(t.take(2) + t.skip(2) =~= t);
        assert(move_text(normalized_input(line)) =~= move_text(line));
    }
}

/// A played move empties its start square and leaves the moved piece (never
/// an empty square) on its end square, en passant and castling included.
pub proof fn lemma_played_move_lands(
    g: Seq<Seq<i32>>,
    gm: int,
    ep_r: int,
    ep_c: int,
    sc: int,
    sr: int,
    ec: int,
    er: int,
)
    requires
        crate::board::is_grid(g),
        in_bounds(sr, sc),
        in_bounds(er, ec),
        move_accepted(g, gm, ep_r, ep_c, sc, sr, ec, er),
    ensures
        g[sr][sc] != 0,
        board_after(g, is_en_passant(g, ep_r, ep_c, sc, sr, ec, er), sc, sr, ec, er)[sr][sc] == 0,
        board_after(g, is_en_passant(g, ep_r, ep_c, sc, sr, ec, er), sc, sr, ec, er)[er][ec] == g[sr][sc],
{
    lemma_played_move_respects_sides(g, gm, ep_r, ep_c, sc, sr, ec, er);
    let ep = is_en_passant(g, ep_r, ep_c, sc, sr, ec, er);
    if sr == er && sc == ec {
        assert(!ep);
        assert(!spec_check_eat(g, sr, sc, er, ec));
    }
    let id = g[sr][sc];
    if (id == 60 || id == 61) && abs(ec - sc) == 2 {
        assert(!ep);
        assert(spec_check_piece(g, id as int, ec - sc, er - sr, sr, sc, g[er][ec] as int));
        assert(er == sr);
    }
}

/// A move typed as four characters "abcd" and as "ab-cd" is the same move:
/// the two texts read the same once the white space around them and the
/// dashes are taken out, unless white space next to the dash is kept by one
/// of them; then both are at most two characters, too short for a move.
/// So wherever `pz_move` returns on both, it reports the same for both (and
/// so leaves the same game), and with no white space at either end the two
/// texts read alike outright.
pub proof fn lemma_dash_names_same_move(
    a: char,
    b: char,
    c: char,
    d: char,
    g: Seq<Seq<i32>>,
    gm: int,
    black: Seq<i32>,
    white: Seq<i32>,
    ep_r: int,
    ep_c: int,
)
    ensures
        move_text(seq![a, b, '-', c, d]) == move_text(seq![a, b, c, d]) || (move_text(seq![a, b, '-', c, d]).len()
            <= 2 && move_text(seq![a, b, c, d]).len() <= 2),
        !spec_is_white_space(a) && !spec_is_white_space(d) ==> move_text(seq![a, b, '-', c, d]) == move_text(
            seq![a, b, c, d],
        ),
        pz_move_defined(seq![a, b, '-', c, d], g, gm, black, white, ep_r, ep_c) && pz_move_defined(
            seq![a, b, c, d],
            g,
            gm,
            black,
            white,
            ep_r,
            ep_c,
        ) ==> move_report(seq![a, b, '-', c, d], g, gm, ep_r, ep_c) == move_report(seq![a, b, c, d], g, gm, ep_r, ep_c),
{
    let u = seq![a, b];
    let v = seq![c, d];
    let dash = seq!['-'];
    let x = seq![a, b, '-', c, d];
    let y = seq![a, b, c, d];
    assert(x =~= u + (dash + v));
    assert(y =~= u + v);
    let p = trim_start(u);
    let q = trim_end(v);
    lemma_trim_start_concat(u, dash + v);
    lemma_trim_start_concat(u, v);
    assert((dash + v)[0] == '-');
    assert(trim_start(dash + v) == dash + v);
    let w = p + dash;
    assert(trim_start(x) =~= w + v);
    lemma_trim_end_concat(w, v);
    assert(w.len() > 0 && w.last() == '-');
    assert(trim_end(w) == w);
    assert(trim(x) =~= p + dash + q);
    let nd = |ch: char| not_dash(ch);
    Seq::filter_distributes_over_add(p + dash, q, nd);
    Seq::filter_distributes_over_add(p, dash, nd);
    assert(dash.filter(nd) =~= Seq::<char>::empty()) by {
        reveal_with_fuel(Seq::filter, 2);
        assert(dash.drop_last() =~= Seq::<char>::empty());
    }
    assert(move_text(x) =~= p.filter(nd) + q.filter(nd));
    p.lemma_filter_len(nd);
    q.lemma_filter_len(nd);
    if p.len() > 0 {
        lemma_trim_end_concat(p, v);
        if q.len() > 0 {
            Seq::filter_distributes_over_add(p, q, nd);
            assert(move_text(y) =~= move_text(x));
        } else {
            lemma_trim_end_concat(Seq::<char>::empty(), p);
            assert(Seq::<char>::empty() + p =~= p);
            trim_end(p).lemma_filter_len(nd);
        }
    } else {
        lemma_trim_end_concat(Seq::<char>::empty(), trim_start(v));
        lemma_trim_start_concat(v, Seq::<char>::empty());
        assert(v + Seq::<char>::empty() =~= v);
        assert(Seq::<char>::empty() + trim_start(v) =~= trim_start(v));
        trim(v).lemma_filter_len(nd);
    }
    if !spec_is_white_space(a) && !spec_is_white_space(d) {
        assert(u[0] == a);
        assert(p == u);
        assert(v.last() == d);
        assert(q == v);
    }
}

/// Whether `pz_move` returns on these inputs (see `pz_move_defined`); the
/// game tests it before a move and stops otherwise.
pub fn pz_move_returns(
    string: &str,
    gm: i32,
    matrix: &[[i32; 8]; 8],
    black_piece: &[i32; 16],
    white_piece: &[i32; 16],
    en_passant_row: i32,
    en_passant_col: i32,
) -> (r: bool)
    ensures
        r == pz_move_defined(
            string@,
            grid(*matrix),
            gm as int,
            black_piece@,
            white_piece@,
            en_passant_row as int,
            en_passant_col as int,
        ),
{
    let chars = chars_of(string);
    let trimmed = trim_chars(&chars);
    let clean = remove_dashes(&trimmed);
    if !utf8_len_is(&clean, 4) {
        return true;
    }
    if clean.len() < 4 {
        return false;
    }
    let a = col_to_number(clean[0]);
    let b = row_to_number(clean[1]);
    let c = col_to_number(clean[2]);
    let d = row_to_number(clean[3]);
    match (a, b, c, d) {
        (Some(a), Some(b), Some(c), Some(d)) => squares_returns(
            matrix,
            gm,
            black_piece,
            white_piece,
            en_passant_row,
            en_passant_col,
            a as i32,
            7 - b as i32,
            c as i32,
            7 - d as i32,
        ),
        _ => true,
    }
}

fn squares_returns(
    matrix: &[[i32; 8]; 8],
    gm: i32,
    black_piece: &[i32; 16],
    white_piece: &[i32; 16],
    en_passant_row: i32,
    en_passant_col: i32,
    s_c: i32,
    s_r: i32,
    e_c: i32,
    e_r: i32,
) -> (r: bool)
    requires
        0 <= s_c <= 8,
        -1 <= s_r <= 7,
        0 <= e_c <= 8,
        -1 <= e_r <= 7,
    ensures
        r == squares_defined(
            grid(*matrix),
            gm as int,
            black_piece@,
            white_piece@,
            en_passant_row as int,
            en_passant_col as int,
            s_c as int,
            s_r as int,
            e_c as int,
            e_r as int,
        ),
{
    let ghost g = grid(*matrix);
    if !(0 <= s_r && s_r < 8 && 0 <= s_c && s_c < 8 && 0 <= e_r && e_r < 8 && 0 <= e_c && e_c < 8) {
        return false;
    }
    let id = matrix[s_r as usize][s_c as usize];
    if (id == 20 || id == 21) && e_c == s_c && e_r == s_r && ray_first(matrix, s_r - 1, s_c - 1, -1, -1) == 0 {
        return false;
    }
    if gm % 2 == 1 {
        let mut copy = *matrix;
        let v = matrix[s_r as usize][s_c as usize];
        copy[s_r as usize][s_c as usize] = 0;
        copy[e_r as usize][e_c as usize] = v;
        assert(grid(copy) =~~= moved(g, s_r as int, s_c as int, e_r as int, e_c as int));
        let (king_row, _) = find_piece(&copy, 61);
        if king_row < 0 {
            return false;
        }
    }
    let (accepted, ep) = move_verdict(matrix, gm, en_passant_row, en_passant_col, s_c, s_r, e_c, e_r);
    if accepted {
        if gm == i32::MAX {
            return false;
        }
        let taken = if ep { matrix[s_r as usize][e_c as usize] } else { matrix[e_r as usize][e_c as usize] };
        let room = if id % 2 == 0 {
            taken == 0 || insert_position(black_piece, taken) < 16
        } else {
            taken == 0 || insert_position(white_piece, taken) < 16
        };
        return room;
    }
    true
}

} // verus!
