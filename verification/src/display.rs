//! What the terminal shows: where the board stands, how each square looks,
//! and the messages at the end of a game.
use vstd::prelude::*;
use vstd::string::*;

use crate::board::{grid, rem2};
use crate::engine::tdiv;
use crate::rules::{check_king, king_safe};
use crate::text::{chars_of, same_text};

verus! {

/// The number of spaces before a line of the board: half the terminal's
/// width, less 9, plus the offset (0 when none is given).
pub open spec fn spec_spacex_count(screenx: u16, offset: Option<i32>) -> int {
    screenx / 2 - 9 + match offset {
        Some(o) => o as int,
        None => 0,
    }
}

/// The count of spaces that `spacex_off` prints (none when it is not
/// positive). A sum outside `i32` would overflow; that is left out.
pub fn spacex_count(screenx: u16, offset: Option<i32>) -> (n: i32)
    requires
        i32::MIN <= spec_spacex_count(screenx, offset) <= i32::MAX,
    ensures
        n == spec_spacex_count(screenx, offset),
{
    let offset_value = match offset {
        Some(o) => o,
        None => 0,
    };
    (screenx / 2) as i32 - 9 + offset_value
}

/// The number of blank lines that `spacey` prints above the board: half the
/// terminal's height less 5. On a terminal lower than 10 lines the
/// subtraction would underflow; that is left out.
pub fn spacey_count(screeny: u16) -> (n: u16)
    requires
        screeny / 2 >= 5,
    ensures
        n == screeny / 2 - 5,
{
    (screeny / 2) - 5
}

/// The background of a square.
#[derive(PartialEq, Eq, Structural, Clone, Copy)]
pub enum Shade {
    /// The lighter colour, on squares whose coordinates add up to an even number.
    Light,
    /// The darker colour.
    Dark,
    /// The warning colour of the king of the side to move when in check.
    Alert,
}

/// How a square of the board is drawn.
#[derive(PartialEq, Eq, Structural, Clone, Copy)]
pub struct SquareLook {
    pub shade: Shade,
    /// The kind of piece drawn (code less colour, divided by 10), none for
    /// an empty square.
    pub kind: Option<i32>,
    /// Whether the piece is drawn in the white pieces' colour (even code).
    pub light_piece: bool,
}

/// The look of square (x, y) in round gm.
pub open spec fn spec_square_look(g: Seq<Seq<i32>>, gm: int, x: int, y: int) -> SquareLook {
    let num = g[x][y] as int;
    let alert = ((num == 60 && rem2(gm) == 0) || (num == 61 && rem2(gm) == 1)) && !king_safe(g, gm);
    SquareLook {
        shade: if alert {
            Shade::Alert
        } else if (x + y) % 2 == 0 {
            Shade::Light
        } else {
            Shade::Dark
        },
        kind: if num == 0 {
            None
        } else {
            Some(tdiv(num - rem2(num), 10) as i32)
        },
        light_piece: rem2(num) == 0,
    }
}

/// How `fx_stamp_word` draws square (x, y) in round `gm`: chequered
/// background, the warning colour under the king of the side to move when
/// `check_king` finds it in check, and the piece's kind and colour.
pub fn square_look(matrix: &[[i32; 8]; 8], gm: i32, x: usize, y: usize) -> (r: SquareLook)
    requires
        x < 8,
        y < 8,
    ensures
        r == spec_square_look(grid(*matrix), gm as int, x as int, y as int),
{
    let num: i32 = matrix[x][y];
    let mut shade = if (x + y) % 2 == 0 { Shade::Light } else { Shade::Dark };
    let king_to_move = num == 60 && gm % 2 == 0 || num == 61 && gm % 2 == 1;
    if king_to_move {
        proof {
            let g = grid(*matrix);
            if rem2(gm as int) == 1 {
                crate::moves::lemma_row_found(g, x as int, y as int, 61, 7);
            }
            assert(crate::rules::moved(g, -1, -1, -1, -1) == g);
        }
        if !check_king(-1, -1, -1, -1, gm, matrix) {
            shade = Shade::Alert;
        }
    }
    let kind = if num == 0 { None } else { Some((num - (num % 2)) / 10) };
    SquareLook { shade, kind, light_piece: num % 2 == 0 }
}

/// The kind shown for a captured piece (its code divided by 10), none for
/// an empty slot.
pub fn captured_kind(piece: i32) -> (r: Option<i32>)
    ensures
        r == (if piece == 0 { None } else { Some(tdiv(piece as int, 10) as i32) }),
{
    if piece == 0 {
        None
    } else {
        Some(piece / 10)
    }
}

/// The codes of the captured pieces, in slot order, without empty slots.
pub fn captured_codes(pieces: &[i32; 16]) -> (r: Vec<i32>)
    ensures
        r@ == pieces@.filter(|p: i32| p != 0),
{
    let mut r: Vec<i32> = Vec::new();
    let mut i: usize = 0;
    while i < 16
        invariant
            0 <= i <= 16,
            r@ == pieces@.take(i as int).filter(|p: i32| p != 0),
        decreases 16 - i,
    {
        proof {
            pieces@.take(i as int).lemma_filter_push(pieces@[i as int], |p: i32| p != 0);
            assert(pieces@.take(i + 1) =~= pieces@.take(i as int).push(pieces@[i as int]));
        }
        if pieces[i] != 0 {
            r.push(pieces[i]);
        }
        i += 1;
    }
    assert(pieces@.take(16) =~= pieces@);
    r
}

/// The turn line of `fastturn`: the number of the turn (round + 1) and
/// whether white is to move.
pub fn turn_label(gm: i32) -> (r: (i32, bool))
    requires
        gm < i32::MAX,
    ensures
        r.0 == gm + 1,
        r.1 == (rem2(gm as int) == 0),
{
    (gm + 1, gm % 2 == 0)
}

/// The side named the winner when the game ends in round `gm`: "bianco"
/// after an odd round, "nero" otherwise.
pub fn winner_name(gm: i32) -> (r: &'static str)
    ensures
        r@ == (if rem2(gm as int) == 1 { "bianco"@ } else { "nero"@ }),
{
    if gm % 2 == 1 {
        "bianco"
    } else {
        "nero"
    }
}

/// The message of `end_game_screen` for a result.
pub open spec fn spec_end_screen_message(result: Seq<char>) -> Seq<char> {
    if result == "Checkmate"@ {
        "Scacco Matto!"@
    } else if result == "Stalemate"@ {
        "Stallo!"@
    } else {
        Seq::empty()
    }
}

pub fn end_screen_message(result: &str) -> (m: String)
    ensures
        m@ == spec_end_screen_message(result@),
{
    let r = chars_of(result);
    if same_text(&r, "Checkmate") {
        String::from_str("Scacco Matto!")
    } else if same_text(&r, "Stalemate") {
        String::from_str("Stallo!")
    } else {
        String::new()
    }
}

/// The message of `display_game_result` for a result and the side named.
pub open spec fn spec_result_message(result: Seq<char>, winner: Seq<char>) -> Seq<char> {
    if result == "Checkmate"@ {
        "Scacco Matto! "@ + winner + " ha vinto."@
    } else if result == "Stalemate"@ {
        "Stallo! Il gioco è finito in parità."@
    } else if result == "Resign"@ {
        winner + " si è arreso! "@ + (if winner == "bianco"@ {
            "nero"@
        } else {
            "bianco"@
        }) + " ha vinto."@
    } else {
        Seq::empty()
    }
}

pub fn result_message(result: &str, winner: &str) -> (m: String)
    ensures
        m@ == spec_result_message(result@, winner@),
{
    let r = chars_of(result);
    if same_text(&r, "Checkmate") {
        let mut m = String::from_str("Scacco Matto! ");
        m.append(winner);
        m.append(" ha vinto.");
        assert(m@ =~= spec_result_message(result@, winner@));
        m
    } else if same_text(&r, "Stalemate") {
        String::from_str("Stallo! Il gioco è finito in parità.")
    } else if same_text(&r, "Resign") {
        let w = chars_of(winner);
        let mut m = String::from_str(winner);
        m.append(" si è arreso! ");
        if same_text(&w, "bianco") {
            m.append("nero");
        } else {
            m.append("bianco");
        }
        m.append(" ha vinto.");
        assert(m@ =~= spec_result_message(result@, winner@));
        m
    } else {
        String::new()
    }
}

} // verus!
