//! Laws of the game's rules, stated square by square: what an attack on the
//! king is, how each piece may move, when castling and en passant are
//! played, and how the named state of the game follows from check.
use vstd::prelude::*;

use crate::board::{in_bounds, is_grid, rem2};
use crate::board::spec_is_valid_turn;
use crate::moves::{
    parse_squares, promoted_piece, promotion_choice, PromotionReport,
    board_after, castle_row, castled, castling_report, en_passant_after, is_en_passant, move_accepted, opens_en_passant, taken_piece,
    CastlingReport,
};
use crate::rules::{abs, king_safe, moved, path_clear, piece_square, ray_hit, spec_check_piece, step_of};
use crate::status::{game_state, legal_move_at, lemma_search_finds_any_move, scan};
use crate::commands::{session_after, spec_command, Command, Session};
use crate::fen::{digit_char, fen_piece, piece_char};
use crate::text::{starts_with, trim};

verus! {

/// (dr, dc) is one of the eight jumps of a knight.
pub open spec fn knight_jump(dr: int, dc: int) -> bool {
    ||| (dr == 1 || dr == -1) && (dc == 2 || dc == -2)
    ||| (dr == 2 || dr == -2) && (dc == 1 || dc == -1)
}

/// The king of the side to move in round gm (code 60 + gm % 2) is in check
/// whenever a knight of the other side (code 31 - gm % 2) stands a knight's
/// jump away from it, whichever of the eight jumps that is.
pub proof fn lemma_knight_gives_check(g: Seq<Seq<i32>>, gm: int, dr: int, dc: int)
    requires
        knight_jump(dr, dc),
        in_bounds(piece_square(g, 60 + rem2(gm)).0 + dr, piece_square(g, 60 + rem2(gm)).1 + dc),
        g[piece_square(g, 60 + rem2(gm)).0 + dr][piece_square(g, 60 + rem2(gm)).1 + dc] == 31 - rem2(gm),
    ensures
        !king_safe(g, gm),
{
}

/// A knight (code 30 or 31) may make exactly the eight knight's jumps,
/// whatever the board, the squares and the end square hold.
pub proof fn lemma_knight_moves(g: Seq<Seq<i32>>, id: int, mc: int, mr: int, s_r: int, s_c: int, enemy: int)
    requires
        id == 30 || id == 31,
    ensures
        spec_check_piece(g, id, mc, mr, s_r, s_c, enemy) == knight_jump(mr, mc),
{
}

/// A king (code 60 or 61) may step to any of the eight squares around it,
/// or move two columns along its row (castling), and nothing else.
pub proof fn lemma_king_moves(g: Seq<Seq<i32>>, id: int, mc: int, mr: int, s_r: int, s_c: int, enemy: int)
    requires
        id == 60 || id == 61,
    ensures
        spec_check_piece(g, id, mc, mr, s_r, s_c, enemy) == ((-1 <= mc <= 1 && -1 <= mr <= 1) || (mr == 0 && (mc
            == 2 || mc == -2))),
{
}

/// Castling is played only with the side's king on column 4 and its rook
/// on its corner of the back rank (row 7 for white, 0 for black), and with
/// every square between them empty: columns 1, 2 and 3 for the long
/// castle, 5 and 6 for the short one. With the king and rook in place and a
/// piece between them, the answer is `PathBlocked`.
pub proof fn lemma_castling_needs_free_path(g: Seq<Seq<i32>>, gm: int, long: bool)
    ensures
        castling_report(g, gm, long) is Done ==> {
            let row = if rem2(gm) == 0 { 7int } else { 0int };
            &&& g[row][4] == (if rem2(gm) == 0 { 60int } else { 61int })
            &&& g[row][if long { 0int } else { 7int }] == (if rem2(gm) == 0 { 40int } else { 41int })
            &&& long ==> g[row][1] == 0 && g[row][2] == 0 && g[row][3] == 0
            &&& !long ==> g[row][5] == 0 && g[row][6] == 0
        },
        ({
            let row = if rem2(gm) == 0 { 7int } else { 0int };
            &&& g[row][4] == (if rem2(gm) == 0 { 60int } else { 61int })
            &&& g[row][if long { 0int } else { 7int }] == (if rem2(gm) == 0 { 40int } else { 41int })
            &&& if long {
                g[row][1] != 0 || g[row][2] != 0 || g[row][3] != 0
            } else {
                g[row][5] != 0 || g[row][6] != 0
            }
        }) ==> castling_report(g, gm, long) == CastlingReport::PathBlocked,
{
    let row = castle_row(gm);
    if castling_report(g, gm, long) is Done {
        if long {
            assert(g[row][1] == 0 && g[row][2] == 0 && g[row][3] == 0);
        } else {
            assert(g[row][5] == 0 && g[row][6] == 0);
        }
    }
}

/// After castling the back rank holds the king on column 2 (long) or 6
/// (short) and the rook beside it on column 3 or 5; the king's and the
/// rook's old squares are empty, and every other square is as it was.
pub proof fn lemma_castling_moves_king_and_rook(g: Seq<Seq<i32>>, gm: int, long: bool)
    requires
        is_grid(g),
        castling_report(g, gm, long) is Done,
    ensures
        ({
            let row = if rem2(gm) == 0 { 7int } else { 0int };
            let after = castled(g, gm, long);
            &&& is_grid(after)
            &&& long ==> after[row][2] == g[row][4] && after[row][3] == g[row][0] && after[row][0] == 0 && after[row][4] == 0
            &&& !long ==> after[row][6] == g[row][4] && after[row][5] == g[row][7] && after[row][7] == 0 && after[row][4] == 0
            &&& forall|r: int, c: int| in_bounds(r, c) && (r != row || (if long { !(c == 0 || c == 2 || c == 3 || c == 4) } else { !(c == 4 || c == 5 || c == 6 || c == 7) }))
                ==> #[trigger] after[r][c] == g[r][c]
        }),
{
}

/// The named state says "Check" or "Checkmate" exactly when the king of the
/// side to move in round gm (colour gm % 2: the black king in odd rounds)
/// is in check, and "Checkmate" or "Stalemate" exactly when the search finds
/// no move. In particular a knight of the other side a jump from that king
/// makes the state "Check" or "Checkmate".
pub proof fn lemma_state_follows_check(g: Seq<Seq<i32>>, gm: int)
    ensures
        (game_state(g, gm) == "Check"@ || game_state(g, gm) == "Checkmate"@) <==> !king_safe(g, gm),
        (game_state(g, gm) == "Checkmate"@ || game_state(g, gm) == "Stalemate"@) <==> !(scan(g, gm, 0, 0, 0, 0) is Found),
        forall|dr: int, dc: int|
            #![trigger knight_jump(dr, dc)]
            knight_jump(dr, dc) && in_bounds(piece_square(g, 60 + rem2(gm)).0 + dr, piece_square(g, 60 + rem2(gm)).1 + dc)
                && g[piece_square(g, 60 + rem2(gm)).0 + dr][piece_square(g, 60 + rem2(gm)).1 + dc] == 31 - rem2(gm)
                ==> (game_state(g, gm) == "Check"@ || game_state(g, gm) == "Checkmate"@),
{
    reveal_strlit("Check");
    reveal_strlit("Checkmate");
    reveal_strlit("Stalemate");
    reveal_strlit("Ongoing");
    assert("Check"@ != "Checkmate"@) by {
        assert("Check"@.len() != "Checkmate"@.len());
    }
    assert("Check"@ != "Stalemate"@) by {
        assert("Check"@.len() != "Stalemate"@.len());
    }
    assert("Check"@ != "Ongoing"@) by {
        assert("Check"@.len() != "Ongoing"@.len());
    }
    assert("Checkmate"@ != "Stalemate"@) by {
        assert("Checkmate"@[0] != "Stalemate"@[0]);
    }
    assert("Checkmate"@ != "Ongoing"@) by {
        assert("Checkmate"@.len() != "Ongoing"@.len());
    }
    assert("Stalemate"@ != "Ongoing"@) by {
        assert("Stalemate"@.len() != "Ongoing"@.len());
    }
    assert forall|dr: int, dc: int|
        #![trigger knight_jump(dr, dc)]
        knight_jump(dr, dc) && in_bounds(piece_square(g, 60 + rem2(gm)).0 + dr, piece_square(g, 60 + rem2(gm)).1 + dc)
            && g[piece_square(g, 60 + rem2(gm)).0 + dr][piece_square(g, 60 + rem2(gm)).1 + dc] == 31 - rem2(gm)
            implies (game_state(g, gm) == "Check"@ || game_state(g, gm) == "Checkmate"@) by {
        lemma_knight_gives_check(g, gm, dr, dc);
    }
}


/// After a played move the en passant square is the square that a pawn of
/// either colour (code 10 or 11) passed in a two-row step, row (sr + er) / 2
/// in its start column; after any other move there is none (-1, -1).
pub proof fn lemma_double_step_opens_en_passant(g: Seq<Seq<i32>>, sc: int, sr: int, er: int)
    ensures
        (g[sr][sc] == 10 || g[sr][sc] == 11) && (er == sr + 2 || er == sr - 2) ==> opens_en_passant(g, sc, sr, er)
            && en_passant_after(g, sc, sr, er) == ((sr + er) / 2, sc),
        !((g[sr][sc] == 10 || g[sr][sc] == 11) && (er == sr + 2 || er == sr - 2)) ==> en_passant_after(g, sc, sr, er)
            == (-1int, -1int),
{
}

/// After a pawn's straight two-row step from (sr, sc) to (er, sc), a pawn
/// beside it on row er (column sc - 1 or sc + 1) may take it en passant:
/// moving onto the passed square ((sr + er) / 2, sc) is an en passant move
/// that takes the pawn that stepped, removes it from (er, sc) and puts the
/// taker on the passed square; it is played exactly when it is the taker's
/// turn in the next round and its king is then out of check.
pub proof fn lemma_en_passant_answers_double_step(
    g: Seq<Seq<i32>>,
    gm: int,
    ep_r: int,
    ep_c: int,
    sc: int,
    sr: int,
    er: int,
    c2: int,
)
    requires
        is_grid(g),
        in_bounds(sr, sc),
        in_bounds(er, sc),
        move_accepted(g, gm, ep_r, ep_c, sc, sr, sc, er),
        g[sr][sc] == 10 || g[sr][sc] == 11,
        er == sr + 2 || er == sr - 2,
        c2 == sc + 1 || c2 == sc - 1,
        in_bounds(er, c2),
        board_after(g, false, sc, sr, sc, er)[er][c2] == 10 || board_after(g, false, sc, sr, sc, er)[er][c2] == 11,
    ensures
        ({
            let after = board_after(g, false, sc, sr, sc, er);
            let mid = (sr + er) / 2;
            let taker = after[er][c2];
            &&& !is_en_passant(g, ep_r, ep_c, sc, sr, sc, er)
            &&& is_en_passant(after, mid, sc, c2, er, sc, mid)
            &&& taken_piece(after, mid, sc, c2, er, sc, mid) == g[sr][sc]
            &&& board_after(after, true, c2, er, sc, mid)[er][sc] == 0
            &&& board_after(after, true, c2, er, sc, mid)[mid][sc] == taker
            &&& board_after(after, true, c2, er, sc, mid)[er][c2] == 0
            &&& move_accepted(after, gm + 1, mid, sc, c2, er, sc, mid) <==> (king_safe(
                moved(after, er, c2, mid, sc),
                gm + 1,
            ) && spec_is_valid_turn(taker as int, gm + 1))
        }),
{
    let mid = (sr + er) / 2;
    let id = g[sr][sc];
    assert(spec_check_piece(g, id as int, 0, er - sr, sr, sc, g[er][sc] as int));
    assert(g[mid][sc] == 0);
    assert(mid != sr && mid != er);
}


/// A white pawn (code 10) moves up the board (row - 1): one row onto an
/// empty square, two rows from its starting row 6 over an empty square on
/// row 5, or one row and one column onto a piece; nothing else.
pub proof fn lemma_white_pawn_moves(g: Seq<Seq<i32>>, mc: int, mr: int, s_r: int, s_c: int, enemy: int)
    ensures
        spec_check_piece(g, 10, mc, mr, s_r, s_c, enemy) == (if enemy == 0 {
            mc == 0 && (mr == -1 || (mr == -2 && s_r == 6 && g[5][s_c] == 0))
        } else {
            (mc == 1 || mc == -1) && mr == -1
        }),
{
}

/// A black pawn (code 11) moves down the board (row + 1): one row onto an
/// empty square, two rows from its starting row 1 over an empty square on
/// row 2, or one row and one column onto a piece; nothing else.
pub proof fn lemma_black_pawn_moves(g: Seq<Seq<i32>>, mc: int, mr: int, s_r: int, s_c: int, enemy: int)
    ensures
        spec_check_piece(g, 11, mc, mr, s_r, s_c, enemy) == (if enemy == 0 {
            mc == 0 && (mr == 1 || (mr == 2 && s_r == 1 && g[2][s_c] == 0))
        } else {
            (mc == 1 || mc == -1) && mr == 1
        }),
{
}

/// Bishops, knights, rooks, queens and kings move alike in both colours,
/// and a queen moves as a rook or as a bishop.
pub proof fn lemma_colours_move_alike(g: Seq<Seq<i32>>, kind: int, mc: int, mr: int, s_r: int, s_c: int, enemy: int)
    requires
        2 <= kind <= 6,
    ensures
        spec_check_piece(g, 10 * kind, mc, mr, s_r, s_c, enemy) == spec_check_piece(
            g,
            10 * kind + 1,
            mc,
            mr,
            s_r,
            s_c,
            enemy,
        ),
        spec_check_piece(g, 50, mc, mr, s_r, s_c, enemy) == (spec_check_piece(g, 40, mc, mr, s_r, s_c, enemy)
            || spec_check_piece(g, 20, mc, mr, s_r, s_c, enemy)),
{
}

/// The square k steps from x in the direction of `d` (1 up the index, -1
/// down, 0 staying).
pub open spec fn off(x: int, d: int, k: int) -> int {
    if d == 1 {
        x + k
    } else if d == -1 {
        x - k
    } else {
        x
    }
}

proof fn lemma_path_clear_all(g: Seq<Seq<i32>>, r: int, c: int, dr: int, dc: int, n: nat)
    requires
        dr == 1 || dr == -1 || dr == 0,
        dc == 1 || dc == -1 || dc == 0,
    ensures
        path_clear(g, r, c, dr, dc, n) <==> forall|k: int| 0 <= k < n ==> #[trigger] g[off(r, dr, k)][off(c, dc, k)] == 0,
    decreases n,
{
    if n > 0 {
        lemma_path_clear_all(g, r + dr, c + dc, dr, dc, (n - 1) as nat);
        assert(off(r, dr, 0) == r && off(c, dc, 0) == c);
        if path_clear(g, r, c, dr, dc, n) {
            assert forall|k: int| 0 <= k < n implies #[trigger] g[off(r, dr, k)][off(c, dc, k)] == 0 by {
                if k > 0 {
                    assert(off(r + dr, dr, k - 1) == off(r, dr, k));
                    assert(off(c + dc, dc, k - 1) == off(c, dc, k));
                    assert(g[off(r + dr, dr, k - 1)][off(c + dc, dc, k - 1)] == 0);
                }
            }
        }
        if forall|k: int| 0 <= k < n ==> #[trigger] g[off(r, dr, k)][off(c, dc, k)] == 0 {
            assert(g[off(r, dr, 0)][off(c, dc, 0)] == 0);
            assert forall|k: int| 0 <= k < n - 1 implies #[trigger] g[off(r + dr, dr, k)][off(c + dc, dc, k)] == 0 by {
                assert(off(r + dr, dr, k) == off(r, dr, k + 1));
                assert(off(c + dc, dc, k) == off(c, dc, k + 1));
                assert(g[off(r, dr, k + 1)][off(c, dc, k + 1)] == 0);
            }
        }
    }
}

/// A bishop (code 20 or 21) moves along a diagonal, as far as it likes,
/// when every square between its start and its end is empty; nothing
/// else (a move of no length included).
pub proof fn lemma_bishop_moves(g: Seq<Seq<i32>>, mc: int, mr: int, s_r: int, s_c: int, enemy: int)
    ensures
        spec_check_piece(g, 20, mc, mr, s_r, s_c, enemy) == ((mc == mr || mc == -mr) && mc != 0 && forall|k: int|
            0 < k < abs(mc) ==> #[trigger] g[off(s_r, step_of(mr), k)][off(s_c, step_of(mc), k)] == 0),
{
    let dr = step_of(mr);
    let dc = step_of(mc);
    if (mc == mr || mc == -mr) && mc != 0 {
        lemma_path_clear_all(g, s_r + dr, s_c + dc, dr, dc, (abs(mc) - 1) as nat);
        let p = forall|k: int| 0 <= k < abs(mc) - 1 ==> #[trigger] g[off(s_r + dr, dr, k)][off(s_c + dc, dc, k)] == 0;
        let q = forall|k: int| 0 < k < abs(mc) ==> #[trigger] g[off(s_r, dr, k)][off(s_c, dc, k)] == 0;
        if p {
            assert forall|k: int| 0 < k < abs(mc) implies #[trigger] g[off(s_r, dr, k)][off(s_c, dc, k)] == 0 by {
                assert(off(s_r + dr, dr, k - 1) == off(s_r, dr, k));
                assert(off(s_c + dc, dc, k - 1) == off(s_c, dc, k));
                assert(g[off(s_r + dr, dr, k - 1)][off(s_c + dc, dc, k - 1)] == 0);
            }
        }
        if q {
            assert forall|k: int| 0 <= k < abs(mc) - 1 implies #[trigger] g[off(s_r + dr, dr, k)][off(s_c + dc, dc, k)] == 0 by {
                assert(off(s_r + dr, dr, k) == off(s_r, dr, k + 1));
                assert(off(s_c + dc, dc, k) == off(s_c, dc, k + 1));
                assert(g[off(s_r, dr, k + 1)][off(s_c, dc, k + 1)] == 0);
            }
        }
    }
}

/// A rook (code 40 or 41) moves along its column or its row, as far as it
/// likes, when every square between its start and its end is empty;
/// nothing else.
pub proof fn lemma_rook_moves(g: Seq<Seq<i32>>, mc: int, mr: int, s_r: int, s_c: int, enemy: int)
    ensures
        spec_check_piece(g, 40, mc, mr, s_r, s_c, enemy) == ((mc == 0 && forall|i: int|
            (s_r < i < s_r + mr || s_r + mr < i < s_r) ==> #[trigger] g[i][s_c] == 0) || (mr == 0 && mc != 0
            && forall|i: int| (s_c < i < s_c + mc || s_c + mc < i < s_c) ==> #[trigger] g[s_r][i] == 0)),
{
}

/// A move text's four characters name the squares in chess notation: the
/// file letters 'a' to 'h' are columns 0 to 7 and the rank digit k is row
/// 8 - k (rank 8 is row 0); a character outside 'a'..'i' or '1'..'9'
/// names no square.
pub proof fn lemma_squares_named(a: char, b: char, c: char, d: char)
    ensures
        ('a' <= a <= 'h' && '1' <= b <= '8' && 'a' <= c <= 'h' && '1' <= d <= '8') ==> parse_squares(
            seq![a, b, c, d],
        ) == Some((a as int - 97, 56 - b as int, c as int - 97, 56 - d as int)),
        !('a' <= a <= 'i' && '1' <= b <= '9' && 'a' <= c <= 'i' && '1' <= d <= '9') ==> parse_squares(
            seq![a, b, c, d],
        ) is None,
{
}

/// A promotion answer names the new piece by its first digit k after white
/// space: the pawn becomes the piece of kind k (code 10 * k) of the colour
/// of the round's mover (1 added in odd rounds).
pub proof fn lemma_promotion_piece(choice: Seq<char>, gm: int)
    ensures
        trim(choice).len() > 0 && '1' <= trim(choice)[0] <= '9' ==> promotion_choice(choice) == (
        PromotionReport::Promoted { clear: (trim(choice)[0] as int - 48) as u32 }),
        trim(choice).len() > 0 && !('1' <= trim(choice)[0] <= '9') ==> promotion_choice(choice)
            == PromotionReport::NotADigit,
        trim(choice).len() == 0 ==> promotion_choice(choice) == PromotionReport::NoInput,
        forall|k: u32|
            1 <= k <= 9 ==> #[trigger] promoted_piece(k, gm) == 10 * k + (if gm % 2 == 0 { 0int } else { 1int }),
{
}


proof fn lemma_ray_meets(g: Seq<Seq<i32>>, r: int, c: int, dr: int, dc: int, m: int, fuel: nat)
    requires
        dr == 1 || dr == -1 || dr == 0,
        dc == 1 || dc == -1 || dc == 0,
        0 <= m < fuel,
        forall|k: int|
            #![trigger off(r, dr, k)]
            0 <= k < m ==> in_bounds(off(r, dr, k), off(c, dc, k)) && g[off(r, dr, k)][off(c, dc, k)] == 0,
        in_bounds(off(r, dr, m), off(c, dc, m)),
        g[off(r, dr, m)][off(c, dc, m)] != 0,
    ensures
        ray_hit(g, r, c, dr, dc, fuel) == g[off(r, dr, m)][off(c, dc, m)],
    decreases m,
{
    assert(off(r, dr, 0) == r && off(c, dc, 0) == c);
    if m > 0 {
        assert(in_bounds(off(r, dr, 0), off(c, dc, 0)) && g[off(r, dr, 0)][off(c, dc, 0)] == 0);
        assert forall|k: int|
            #![trigger off(r + dr, dr, k)]
            0 <= k < m - 1 implies in_bounds(off(r + dr, dr, k), off(c + dc, dc, k)) && g[off(r + dr, dr, k)][off(
                c + dc,
                dc,
                k,
            )] == 0 by {
            assert(off(r + dr, dr, k) == off(r, dr, k + 1));
            assert(off(c + dc, dc, k) == off(c, dc, k + 1));
            assert(off(r, dr, k + 1) == off(r, dr, k + 1));
        }
        assert(off(r + dr, dr, m - 1) == off(r, dr, m));
        assert(off(c + dc, dc, m - 1) == off(c, dc, m));
        lemma_ray_meets(g, r + dr, c + dc, dr, dc, m - 1, (fuel - 1) as nat);
    }
}

/// The king of the side to move in round gm (code 60 + gm % 2) is in check
/// when, in one of the eight directions from it, the first piece is an
/// enemy queen (51 - gm % 2), or an enemy rook (41 - gm % 2) along a row or
/// column, or an enemy bishop (21 - gm % 2) along a diagonal: the piece
/// stands n squares away and every square before it is empty.
pub proof fn lemma_line_gives_check(g: Seq<Seq<i32>>, gm: int, dr: int, dc: int, n: int)
    requires
        -1 <= dr <= 1,
        -1 <= dc <= 1,
        !(dr == 0 && dc == 0),
        in_bounds(piece_square(g, 60 + rem2(gm)).0, piece_square(g, 60 + rem2(gm)).1),
        1 <= n,
        forall|k: int|
            0 < k < n ==> #[trigger] g[off(piece_square(g, 60 + rem2(gm)).0, dr, k)][off(
                piece_square(g, 60 + rem2(gm)).1,
                dc,
                k,
            )] == 0,
        in_bounds(off(piece_square(g, 60 + rem2(gm)).0, dr, n), off(piece_square(g, 60 + rem2(gm)).1, dc, n)),
        ({
            let p = g[off(piece_square(g, 60 + rem2(gm)).0, dr, n)][off(piece_square(g, 60 + rem2(gm)).1, dc, n)];
            ||| p == 51 - rem2(gm)
            ||| (dr == 0 || dc == 0) && p == 41 - rem2(gm)
            ||| (dr != 0 && dc != 0) && p == 21 - rem2(gm)
        }),
    ensures
        !king_safe(g, gm),
{
    let (kr, kc) = piece_square(g, 60 + rem2(gm));
    let d = rem2(gm);
    assert forall|k: int|
        #![trigger off(kr + dr, dr, k)]
        0 <= k < n - 1 implies in_bounds(off(kr + dr, dr, k), off(kc + dc, dc, k)) && g[off(kr + dr, dr, k)][off(
            kc + dc,
            dc,
            k,
        )] == 0 by {
        assert(off(kr + dr, dr, k) == off(kr, dr, k + 1));
        assert(off(kc + dc, dc, k) == off(kc, dc, k + 1));
        assert(g[off(kr, dr, k + 1)][off(kc, dc, k + 1)] == 0);
    }
    assert(off(kr + dr, dr, n - 1) == off(kr, dr, n));
    assert(off(kc + dc, dc, n - 1) == off(kc, dc, n));
    assert(n - 1 < 8);
    lemma_ray_meets(g, kr + dr, kc + dc, dr, dc, n - 1, 8);
}

/// An enemy pawn (11 - gm % 2) on row kr + gm % 2, in a column beside the
/// king of the side to move, puts it in check: below the black king (the
/// square a white pawn takes from), and for the white king along its own
/// row.
pub proof fn lemma_pawn_gives_check(g: Seq<Seq<i32>>, gm: int, dc: int)
    requires
        gm >= 0,
        dc == 1 || dc == -1,
        in_bounds(piece_square(g, 60 + rem2(gm)).0 + rem2(gm), piece_square(g, 60 + rem2(gm)).1 + dc),
        g[piece_square(g, 60 + rem2(gm)).0 + rem2(gm)][piece_square(g, 60 + rem2(gm)).1 + dc] == 11 - rem2(gm),
    ensures
        !king_safe(g, gm),
{
}

proof fn lemma_ray_is_on_board(g: Seq<Seq<i32>>, r: int, c: int, dr: int, dc: int, fuel: nat)
    ensures
        ray_hit(g, r, c, dr, dc, fuel) != 0 ==> exists|a: int, b: int| in_bounds(a, b) && #[trigger] g[a][b] == ray_hit(
            g,
            r,
            c,
            dr,
            dc,
            fuel,
        ),
    decreases fuel,
{
    if fuel > 0 && in_bounds(r, c) && g[r][c] == 0 {
        lemma_ray_is_on_board(g, r + dr, c + dc, dr, dc, (fuel - 1) as nat);
    }
}

/// Only the other side's pieces give check: with the king of the side to
/// move on the board and no piece of the other colour anywhere, that king
/// is out of check.
pub proof fn lemma_own_pieces_never_check(g: Seq<Seq<i32>>, gm: int)
    requires
        gm >= 0,
        in_bounds(piece_square(g, 60 + rem2(gm)).0, piece_square(g, 60 + rem2(gm)).1),
        forall|r: int, c: int| in_bounds(r, c) ==> #[trigger] g[r][c] == 0 || rem2(g[r][c] as int) == rem2(gm),
    ensures
        king_safe(g, gm),
{
    let (kr, kc) = piece_square(g, 60 + rem2(gm));
    let d = rem2(gm);
    assert forall|dr: int, dc: int| #![trigger ray_hit(g, kr + dr, kc + dc, dr, dc, 8)]
        true implies ray_hit(g, kr + dr, kc + dc, dr, dc, 8) == 0 || rem2(ray_hit(g, kr + dr, kc + dc, dr, dc, 8)) == d by {
        lemma_ray_is_on_board(g, kr + dr, kc + dc, dr, dc, 8);
        if ray_hit(g, kr + dr, kc + dc, dr, dc, 8) != 0 {
            let (a, b) = choose|a: int, b: int| in_bounds(a, b) && #[trigger] g[a][b] == ray_hit(g, kr + dr, kc + dc, dr, dc, 8);
            assert(g[a][b] == 0 || rem2(g[a][b] as int) == d);
        }
    }
    if d == 0 {
        assert(0 <= kr < 8 ==> g[kr][kc] == 0 || rem2(g[kr][kc] as int) == 0);
    } else {
        if kr + 1 < 8 {
            assert(g[kr + 1][kc] == 0 || rem2(g[kr + 1][kc] as int) == 1);
        }
    }
    if kc - 1 >= 0 && 0 <= kr + d < 8 {
        assert(g[kr + d][kc - 1] == 0 || rem2(g[kr + d][kc - 1] as int) == d);
    }
    if kc + 1 < 8 && 0 <= kr + d < 8 {
        assert(g[kr + d][kc + 1] == 0 || rem2(g[kr + d][kc + 1] as int) == d);
    }
}


/// In rounds counted from 0, white pieces (even codes) move in even rounds
/// and black pieces (odd codes) in odd rounds.
pub proof fn lemma_turns_alternate(p: int, gm: int)
    requires
        p >= 0,
        gm >= 0,
    ensures
        spec_is_valid_turn(p, gm) <==> p % 2 == gm % 2,
{
}

/// Castling is played only when the king would be out of check on its new
/// square (column 2 or 6 of its back rank).
pub proof fn lemma_castling_needs_safe_king(g: Seq<Seq<i32>>, gm: int, long: bool)
    ensures
        castling_report(g, gm, long) is Done ==> king_safe(
            moved(g, castle_row(gm), 4, castle_row(gm), if long { 2int } else { 6int }),
            gm,
        ),
        castle_row(gm) == (if rem2(gm) == 0 { 7int } else { 0int }),
{
}

/// A played move of a king two columns along its row brings the rook of
/// that side over it: a king ending on column 6 moves the piece on column 7
/// to column 5, a king ending on column 2 moves the piece on column 0 to
/// column 3; the corner is left empty.
pub proof fn lemma_king_two_columns_brings_rook(
    g: Seq<Seq<i32>>,
    gm: int,
    ep_r: int,
    ep_c: int,
    sc: int,
    sr: int,
    ec: int,
    er: int,
)
    requires
        is_grid(g),
        in_bounds(sr, sc),
        in_bounds(er, ec),
        move_accepted(g, gm, ep_r, ep_c, sc, sr, ec, er),
        g[sr][sc] == 60 || g[sr][sc] == 61,
        ec == sc + 2 || ec == sc - 2,
    ensures
        er == sr,
        ({
            let after = board_after(g, is_en_passant(g, ep_r, ep_c, sc, sr, ec, er), sc, sr, ec, er);
            &&& after[er][ec] == g[sr][sc]
            &&& after[sr][sc] == 0
            &&& ec == 6 ==> after[er][5] == g[er][7] && after[er][7] == 0
            &&& ec == 2 ==> after[er][3] == (if sc == 0 { 0 } else { g[er][0] }) && after[er][0] == 0
        }),
{
    assert(!is_en_passant(g, ep_r, ep_c, sc, sr, ec, er));
    assert(spec_check_piece(g, g[sr][sc] as int, ec - sc, er - sr, sr, sc, g[er][ec] as int));
}


/// The FEN letters: P, B, N, R, Q and K for the pawn, bishop, knight, rook,
/// queen and king (kinds 1 to 6), upper case for white (colour 0) and lower
/// case for black; reading a letter gives its piece back, and a count n of
/// empty squares is written as the digit n.
pub proof fn lemma_fen_letters(kind: int, colour: int, n: int)
    requires
        1 <= kind <= 6,
        colour == 0 || colour == 1,
        1 <= n <= 8,
    ensures
        ({
            let upper = seq!['P', 'B', 'N', 'R', 'Q', 'K'][kind - 1];
            &&& piece_char((10 * kind + colour) as i32) == Some(if colour == 0 { upper } else { ((upper as int) + 32) as char })
            &&& fen_piece(piece_char((10 * kind + colour) as i32)->0) == 10 * kind + colour
        }),
        '1' <= digit_char(n) <= '8',
        digit_char(n) as int - 48 == n,
{
}

proof fn lemma_lits_differ(a: Seq<char>, b: Seq<char>, i: int)
    requires
        0 <= i < a.len(),
        i < b.len(),
        a[i] != b[i],
    ensures
        a != b,
        !starts_with(a, b) && !starts_with(b, a),
{
    if starts_with(a, b) {
        assert(a.take(b.len() as int)[i] == a[i]);
    }
    if starts_with(b, a) {
        assert(b.take(a.len() as int)[i] == b[i]);
    }
}

/// The prompt's commands, read without the white space around the line:
/// "enemy on" and "enemy off" switch the engine on and off, "exit", "0-0"
/// and "0-0-0" leave the game and castle short and long, and "show fen"
/// switches the FEN display; none of these changes any other setting.
pub proof fn lemma_commands_do_what_they_say(line: Seq<char>, s: Session)
    ensures
        trim(line) == "enemy on"@ ==> session_after(s, spec_command(line)) == (Session { enemy_active: true, ..s }),
        trim(line) == "enemy off"@ ==> session_after(s, spec_command(line)) == (Session { enemy_active: false, ..s }),
        trim(line) == "exit"@ ==> spec_command(line) == Command::Exit && session_after(s, spec_command(line)) == s,
        trim(line) == "0-0"@ ==> spec_command(line) == Command::CastleShort && session_after(s, spec_command(line)) == s,
        trim(line) == "0-0-0"@ ==> spec_command(line) == Command::CastleLong && session_after(s, spec_command(line)) == s,
        trim(line) == "show fen"@ ==> session_after(s, spec_command(line)) == (Session { show_fen: !s.show_fen, ..s }),
{
    reveal_strlit("enemy on");
    reveal_strlit("help");
    reveal_strlit("enemy off");
    reveal_strlit("enemy set ");
    reveal_strlit("set depth ");
    reveal_strlit("set aggressiveness ");
    reveal_strlit("exit");
    reveal_strlit("0-0-0");
    reveal_strlit("0-0");
    reveal_strlit("show piece");
    reveal_strlit("show fen");
    let t = trim(line);
    if t == "enemy off"@ {
        lemma_lits_differ(t, "enemy on"@, 7);
        lemma_lits_differ(t, "enemy set "@, 6);
    }
    if t == "exit"@ {
        lemma_lits_differ(t, "help"@, 0);
    }
    if t == "0-0"@ {
        lemma_lits_differ(t, "help"@, 0);
        lemma_lits_differ(t, "exit"@, 0);
    }
    if t == "0-0-0"@ {
        lemma_lits_differ(t, "enemy on"@, 0);
        lemma_lits_differ(t, "help"@, 0);
        lemma_lits_differ(t, "enemy set "@, 0);
        lemma_lits_differ(t, "set depth "@, 0);
        lemma_lits_differ(t, "exit"@, 0);
    }
    if t == "show fen"@ {
        lemma_lits_differ(t, "enemy on"@, 0);
        lemma_lits_differ(t, "help"@, 0);
        lemma_lits_differ(t, "enemy off"@, 0);
        lemma_lits_differ(t, "enemy set "@, 0);
        lemma_lits_differ(t, "set depth "@, 1);
        lemma_lits_differ(t, "set aggressiveness "@, 1);
        lemma_lits_differ(t, "exit"@, 0);
        lemma_lits_differ(t, "0-0-0"@, 0);
        lemma_lits_differ(t, "0-0"@, 0);
        lemma_lits_differ(t, "show piece"@, 5);
    }
}


/// When the search for a move completes, the state is "Checkmate" or
/// "Stalemate" exactly when no piece of the side that has just moved
/// (colour 1 - gm % 2) has a move its rules allow after which that side's
/// king (round gm + 1) is out of check.
pub proof fn lemma_mate_means_no_move(g: Seq<Seq<i32>>, gm: int)
    requires
        !(scan(g, gm, 0, 0, 0, 0) is Fails),
    ensures
        (game_state(g, gm) == "Checkmate"@ || game_state(g, gm) == "Stalemate"@) <==> (forall|i: int, j: int, x: int, y: int|
            in_bounds(i, j) && in_bounds(x, y) && g[i][j] != 0 && rem2(g[i][j] as int) == 1 - rem2(gm) ==> !(
            #[trigger] spec_check_piece(g, g[i][j] as int, y - j, x - i, i, j, g[x][y] as int) && king_safe(
                moved(g, i, j, x, y),
                gm + 1,
            ))),
{
    lemma_state_follows_check(g, gm);
    lemma_search_finds_any_move(g, gm);
    let none = forall|i: int, j: int, x: int, y: int|
        in_bounds(i, j) && in_bounds(x, y) && g[i][j] != 0 && rem2(g[i][j] as int) == 1 - rem2(gm) ==> !(
        #[trigger] spec_check_piece(g, g[i][j] as int, y - j, x - i, i, j, g[x][y] as int) && king_safe(
            moved(g, i, j, x, y),
            gm + 1,
        ));
    let some = exists|i: int, j: int, x: int, y: int|
        #![trigger legal_move_at(g, gm, i, j, x, y)]
        legal_move_at(g, gm, i, j, x, y);
    if some {
        let (i, j, x, y) = choose|i: int, j: int, x: int, y: int|
            #![trigger legal_move_at(g, gm, i, j, x, y)]
            legal_move_at(g, gm, i, j, x, y);
        assert(spec_check_piece(g, g[i][j] as int, y - j, x - i, i, j, g[x][y] as int));
        assert(!none);
    }
    if !none {
        let (i, j, x, y) = choose|i: int, j: int, x: int, y: int|
            !(in_bounds(i, j) && in_bounds(x, y) && g[i][j] != 0 && rem2(g[i][j] as int) == 1 - rem2(gm) ==> !(
            #[trigger] spec_check_piece(g, g[i][j] as int, y - j, x - i, i, j, g[x][y] as int) && king_safe(
                moved(g, i, j, x, y),
                gm + 1,
            )));
        assert(legal_move_at(g, gm, i, j, x, y));
        assert(some);
    }
}

} // verus!
