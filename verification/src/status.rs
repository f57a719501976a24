//! Telling check, checkmate and stalemate apart after a move.
use vstd::prelude::*;
use vstd::string::*;

use crate::board::{grid, in_bounds, rem2};
use crate::text::{chars_of, same_text};
use crate::rules::{
    ray_first, bishop_walks_off, check_king, check_king_defined, check_piece, find_piece, king_lookup_fails, king_safe,
    moved, piece_square, spec_check_piece,
};

verus! {

/// How the search for a move ends.
pub enum Scan {
    Found,
    NotFound,
    Fails,
}

/// Whether (i, j) holds a piece of colour `oc` (by Rust's `%`).
pub open spec fn colour_piece(g: Seq<Seq<i32>>, i: int, j: int, oc: int) -> bool {
    g[i][j] != 0 && rem2(g[i][j] as int) == oc
}

/// The search of `check_stalemate_checkmate` for a move of the side that
/// has just moved (colour 1 - gm % 2), from piece square (i, j) and target
/// square (x, y) on, rows before columns: a move counts
/// when `check_piece` accepts it and `check_king` finds that side's king
/// (round gm + 1) out of check after it. The search fails where it cannot
/// go on: a bishop walking off the board, round gm + 1 out of range, or a
/// missing black king.
pub open spec fn scan(g: Seq<Seq<i32>>, gm: int, i: int, j: int, x: int, y: int) -> Scan
    decreases 8 - i, 8 - j, 8 - x, 8 - y,
{
    if !(0 <= i <= 8 && 0 <= j <= 8 && 0 <= x <= 8 && 0 <= y <= 8) || i == 8 {
        Scan::NotFound
    } else if j == 8 {
        scan(g, gm, i + 1, 0, 0, 0)
    } else if !colour_piece(g, i, j, 1 - rem2(gm)) || x == 8 {
        scan(g, gm, i, j + 1, 0, 0)
    } else if y == 8 {
        scan(g, gm, i, j, x + 1, 0)
    } else {
        let piece = g[i][j] as int;
        if bishop_walks_off(g, piece, y - j, x - i, i, j) {
            Scan::Fails
        } else if !spec_check_piece(g, piece, y - j, x - i, i, j, g[x][y] as int) {
            scan(g, gm, i, j, x, y + 1)
        } else if gm + 1 > i32::MAX {
            Scan::Fails
        } else if !check_king_defined(g, i, j, x, y, gm + 1) {
            Scan::Fails
        } else if king_safe(moved(g, i, j, x, y), gm + 1) {
            Scan::Found
        } else {
            scan(g, gm, i, j, x, y + 1)
        }
    }
}

/// The state of the game as `check_stalemate_checkmate` names it: the side
/// to move is in check or not (by `king_safe`), and the search `scan` finds
/// a move or not.
pub open spec fn game_state(g: Seq<Seq<i32>>, gm: int) -> Seq<char> {
    let in_check = !king_safe(g, gm);
    let has_move = scan(g, gm, 0, 0, 0, 0) is Found;
    if in_check && !has_move {
        "Checkmate"@
    } else if !in_check && !has_move {
        "Stalemate"@
    } else if in_check {
        "Check"@
    } else {
        "Ongoing"@
    }
}

/// The inputs on which `check_stalemate_checkmate` returns.
pub open spec fn game_state_defined(g: Seq<Seq<i32>>, gm: int) -> bool {
    !king_lookup_fails(g, gm) && !(scan(g, gm, 0, 0, 0, 0) is Fails)
}

proof fn lemma_moved_onto_itself(g: Seq<Seq<i32>>, r: int, c: int)
    requires
        g.len() == 8,
        forall|k: int| 0 <= k < 8 ==> #[trigger] g[k].len() == 8,
        r == -1 && c == -1 || in_bounds(r, c),
    ensures
        moved(g, r, c, r, c) == g,
{
    if in_bounds(r, c) {
        assert(moved(g, r, c, r, c) =~~= g);
    }
}

/// The search `scan` run over the board: whether the side that has just
/// moved has a move, or that the search cannot go on.
pub fn search_move(matrix: &[[i32; 8]; 8], gm_round: i32) -> (r: Scan)
    ensures
        r == scan(grid(*matrix), gm_round as int, 0, 0, 0, 0),
{
    let ghost g = grid(*matrix);
    let ghost gm = gm_round as int;
    let ghost first = scan(g, gm, 0, 0, 0, 0);
    let opponent_color = 1 - gm_round % 2;
    let mut i: i32 = 0;
    while i < 8
        invariant
            0 <= i <= 8,
            g == grid(*matrix),
            gm == gm_round,
            opponent_color == 1 - rem2(gm),
            first == scan(g, gm, 0, 0, 0, 0),
            first == scan(g, gm, i as int, 0, 0, 0),
        decreases 8 - i,
    {
        let mut j: i32 = 0;
        while j < 8
            invariant
                0 <= i < 8,
                0 <= j <= 8,
                g == grid(*matrix),
                gm == gm_round,
                opponent_color == 1 - rem2(gm),
                first == scan(g, gm, 0, 0, 0, 0),
                first == scan(g, gm, i as int, j as int, 0, 0),
            decreases 8 - j,
        {
            let piece = matrix[i as usize][j as usize];
            if piece != 0 && piece % 2 == opponent_color {
                let mut x: i32 = 0;
                while x < 8
                    invariant
                        0 <= i < 8,
                        0 <= j < 8,
                        0 <= x <= 8,
                        g == grid(*matrix),
                        gm == gm_round,
                        piece == g[i as int][j as int],
                        colour_piece(g, i as int, j as int, 1 - rem2(gm)),
                        first == scan(g, gm, 0, 0, 0, 0),
                        first == scan(g, gm, i as int, j as int, x as int, 0),
                    decreases 8 - x,
                {
                    let mut y: i32 = 0;
                    while y < 8
                        invariant
                            0 <= i < 8,
                            0 <= j < 8,
                            0 <= x < 8,
                            0 <= y <= 8,
                            g == grid(*matrix),
                            gm == gm_round,
                            piece == g[i as int][j as int],
                            colour_piece(g, i as int, j as int, 1 - rem2(gm)),
                            first == scan(g, gm, 0, 0, 0, 0),
                            first == scan(g, gm, i as int, j as int, x as int, y as int),
                        decreases 8 - y,
                    {
                        if (piece == 20 || piece == 21) && x == i && y == j && ray_first(matrix, i - 1, j - 1, -1, -1)
                            == 0 {
                            return Scan::Fails;
                        }
                        let mut copy = *matrix;
                        if check_piece(&mut copy, piece, y - j, x - i, i, j, matrix[x as usize][y as usize]) {
                            if gm_round == i32::MAX {
                                return Scan::Fails;
                            }
                            let next_round = gm_round + 1;
                            if next_round % 2 == 1 {
                                let mut after = *matrix;
                                after[i as usize][j as usize] = 0;
                                after[x as usize][y as usize] = piece;
                                assert(grid(after) =~~= moved(g, i as int, j as int, x as int, y as int));
                                let (king_row, _) = find_piece(&after, 61);
                                if king_row < 0 {
                                    return Scan::Fails;
                                }
                            }
                            if check_king(i, j, x, y, next_round, matrix) {
                                return Scan::Found;
                            }
                        }
                        y += 1;
                    }
                    x += 1;
                }
            }
            j += 1;
        }
        i += 1;
    }
    Scan::NotFound
}

/// Whether `check_stalemate_checkmate` returns on these inputs (see
/// `game_state_defined`); the game tests it and stops otherwise.
pub fn game_state_returns(matrix: &[[i32; 8]; 8], gm_round: i32) -> (r: bool)
    ensures
        r == game_state_defined(grid(*matrix), gm_round as int),
{
    if gm_round % 2 == 1 {
        let (king_row, _) = find_piece(matrix, 61);
        if king_row < 0 {
            return false;
        }
    }
    match search_move(matrix, gm_round) {
        Scan::Fails => false,
        _ => true,
    }
}

/// Names the state of the game after a move in round `gm_round`:
/// "Checkmate" when the side to move is in check and the search finds no
/// move, "Stalemate" when it is not in check and there is no move, "Check"
/// when it is in check and there is a move, "Ongoing" otherwise. The search
/// looks at the pieces of the side that has just moved. Inputs on which
/// the search cannot go on (see `game_state_defined`) are left out.
pub fn check_stalemate_checkmate(matrix: &[[i32; 8]; 8], gm_round: i32) -> (res: String)
    requires
        game_state_defined(grid(*matrix), gm_round as int),
    ensures
        res@ == game_state(grid(*matrix), gm_round as int),
{
    let player_color = gm_round % 2;
    let opponent_color = 1 - player_color;
    let king_pos = find_piece(matrix, 60 + opponent_color);
    proof {
        lemma_moved_onto_itself(grid(*matrix), king_pos.0 as int, king_pos.1 as int);
    }
    let is_in_check = !check_king(king_pos.0, king_pos.1, king_pos.0, king_pos.1, gm_round, matrix);
    let has_legal_move = match search_move(matrix, gm_round) {
        Scan::Found => true,
        _ => false,
    };
    if is_in_check && !has_legal_move {
        String::from_str("Checkmate")
    } else if !is_in_check && !has_legal_move {
        String::from_str("Stalemate")
    } else if is_in_check {
        String::from_str("Check")
    } else {
        String::from_str("Ongoing")
    }
}


/// What the game does once the state after a move is named.
#[derive(PartialEq, Eq, Structural, Clone, Copy)]
pub enum Verdict {
    /// The game ends; the side that has just moved wins.
    Checkmate,
    /// The game ends in a draw.
    Stalemate,
    /// The game goes on and the check is announced.
    Check,
    /// The game goes on.
    Ongoing,
}

/// The verdict for a state named by `check_stalemate_checkmate`; any other
/// text lets the game go on.
pub open spec fn spec_verdict(state: Seq<char>) -> Verdict {
    if state == "Checkmate"@ {
        Verdict::Checkmate
    } else if state == "Stalemate"@ {
        Verdict::Stalemate
    } else if state == "Check"@ {
        Verdict::Check
    } else {
        Verdict::Ongoing
    }
}

pub fn verdict_of(state: &str) -> (v: Verdict)
    ensures
        v == spec_verdict(state@),
{
    let t = chars_of(state);
    if same_text(&t, "Checkmate") {
        Verdict::Checkmate
    } else if same_text(&t, "Stalemate") {
        Verdict::Stalemate
    } else if same_text(&t, "Check") {
        Verdict::Check
    } else {
        Verdict::Ongoing
    }
}

/// A move of the piece on (i, j), of the side that has just moved, to
/// (x, y) that `check_piece` allows and after which `check_king` finds that
/// side's king (round gm + 1) out of check.
pub open spec fn legal_move_at(g: Seq<Seq<i32>>, gm: int, i: int, j: int, x: int, y: int) -> bool {
    &&& in_bounds(i, j)
    &&& in_bounds(x, y)
    &&& colour_piece(g, i, j, 1 - rem2(gm))
    &&& spec_check_piece(g, g[i][j] as int, y - j, x - i, i, j, g[x][y] as int)
    &&& king_safe(moved(g, i, j, x, y), gm + 1)
}

/// (a, b, c, d) comes at or after (i, j, x, y) in the order of the search.
pub open spec fn at_or_after(a: int, b: int, c: int, d: int, i: int, j: int, x: int, y: int) -> bool {
    a > i || (a == i && (b > j || (b == j && (c > x || (c == x && d >= y)))))
}

proof fn lemma_scan_exists(g: Seq<Seq<i32>>, gm: int, i: int, j: int, x: int, y: int)
    requires
        0 <= i <= 8,
        0 <= j <= 8,
        0 <= x <= 8,
        0 <= y <= 8,
        !(scan(g, gm, i, j, x, y) is Fails),
    ensures
        (scan(g, gm, i, j, x, y) is Found) <==> exists|a: int, b: int, c: int, d: int|
            #![trigger legal_move_at(g, gm, a, b, c, d)]
            at_or_after(a, b, c, d, i, j, x, y) && legal_move_at(g, gm, a, b, c, d),
    decreases 8 - i, 8 - j, 8 - x, 8 - y,
{
    if i == 8 {
        if exists|a: int, b: int, c: int, d: int|
            #![trigger legal_move_at(g, gm, a, b, c, d)]
            at_or_after(a, b, c, d, i, j, x, y) && legal_move_at(g, gm, a, b, c, d) {
            let (a, b, c, d) = choose|a: int, b: int, c: int, d: int|
                #![trigger legal_move_at(g, gm, a, b, c, d)]
                at_or_after(a, b, c, d, i, j, x, y) && legal_move_at(g, gm, a, b, c, d);
            assert(legal_move_at(g, gm, a, b, c, d));
        }
    } else if j == 8 {
        lemma_scan_exists(g, gm, i + 1, 0, 0, 0);
        assert forall|a: int, b: int, c: int, d: int|
            #![trigger legal_move_at(g, gm, a, b, c, d)]
            legal_move_at(g, gm, a, b, c, d) implies (at_or_after(a, b, c, d, i, j, x, y) <==> at_or_after(
                a,
                b,
                c,
                d,
                i + 1,
                0,
                0,
                0,
            )) by {}
    } else if !colour_piece(g, i, j, 1 - rem2(gm)) || x == 8 {
        lemma_scan_exists(g, gm, i, j + 1, 0, 0);
        assert forall|a: int, b: int, c: int, d: int|
            #![trigger legal_move_at(g, gm, a, b, c, d)]
            legal_move_at(g, gm, a, b, c, d) implies (at_or_after(a, b, c, d, i, j, x, y) <==> at_or_after(
                a,
                b,
                c,
                d,
                i,
                j + 1,
                0,
                0,
            )) by {}
    } else if y == 8 {
        lemma_scan_exists(g, gm, i, j, x + 1, 0);
        assert forall|a: int, b: int, c: int, d: int|
            #![trigger legal_move_at(g, gm, a, b, c, d)]
            legal_move_at(g, gm, a, b, c, d) implies (at_or_after(a, b, c, d, i, j, x, y) <==> at_or_after(
                a,
                b,
                c,
                d,
                i,
                j,
                x + 1,
                0,
            )) by {}
    } else {
        if spec_check_piece(g, g[i][j] as int, y - j, x - i, i, j, g[x][y] as int) && king_safe(
            moved(g, i, j, x, y),
            gm + 1,
        ) {
            assert(legal_move_at(g, gm, i, j, x, y));
            assert(at_or_after(i, j, x, y, i, j, x, y));
            assert(scan(g, gm, i, j, x, y) is Found);
        } else {
            assert(!legal_move_at(g, gm, i, j, x, y));
            assert(scan(g, gm, i, j, x, y) == scan(g, gm, i, j, x, y + 1));
            lemma_scan_exists(g, gm, i, j, x, y + 1);
            assert forall|a: int, b: int, c: int, d: int|
                #![trigger legal_move_at(g, gm, a, b, c, d)]
                legal_move_at(g, gm, a, b, c, d) implies (at_or_after(a, b, c, d, i, j, x, y) <==> at_or_after(
                    a,
                    b,
                    c,
                    d,
                    i,
                    j,
                    x,
                    y + 1,
                )) by {
                if a == i && b == j && c == x && d == y {
                }
            }
        }
    }
}

/// When the search of `check_stalemate_checkmate` completes, it finds a
/// move exactly when the side that has just moved has some legal move by
/// `check_piece` and `check_king`; so "Checkmate" and "Stalemate" mean that
/// there is none.
pub proof fn lemma_search_finds_any_move(g: Seq<Seq<i32>>, gm: int)
    requires
        !(scan(g, gm, 0, 0, 0, 0) is Fails),
    ensures
        (scan(g, gm, 0, 0, 0, 0) is Found) <==> exists|i: int, j: int, x: int, y: int|
            #![trigger legal_move_at(g, gm, i, j, x, y)]
            legal_move_at(g, gm, i, j, x, y),
{
    lemma_scan_exists(g, gm, 0, 0, 0, 0);
    assert forall|a: int, b: int, c: int, d: int|
        #![trigger legal_move_at(g, gm, a, b, c, d)]
        legal_move_at(g, gm, a, b, c, d) implies at_or_after(a, b, c, d, 0, 0, 0, 0) by {}
}

} // verus!
