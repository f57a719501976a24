//! How pieces move and when a king stands in check.
use vstd::prelude::*;

use crate::board::{grid, in_bounds, rem2};

verus! {

pub open spec fn abs(v: int) -> int {
    if v < 0 {
        -v
    } else {
        v
    }
}

/// The four coordinates that stand for "no move" in `check_king`.
pub open spec fn is_no_move(s_r: int, s_c: int, e_r: int, e_c: int) -> bool {
    s_r == -1 && s_c == -1 && e_r == -1 && e_c == -1
}

/// The board after what stands on (s_r, s_c) is moved onto (e_r, e_c): the
/// start square is emptied, then the end square receives the piece.
pub open spec fn moved(g: Seq<Seq<i32>>, s_r: int, s_c: int, e_r: int, e_c: int) -> Seq<Seq<i32>> {
    if is_no_move(s_r, s_c, e_r, e_c) {
        g
    } else {
        let cleared = g.update(s_r, g[s_r].update(s_c, 0));
        cleared.update(e_r, cleared[e_r].update(e_c, g[s_r][s_c]))
    }
}

/// The first column from `c` on in row `r` that holds `target`, or -1.
pub open spec fn first_col_from(g: Seq<Seq<i32>>, r: int, target: int, c: int) -> int
    decreases 8 - c,
{
    if c < 0 || c >= 8 {
        -1
    } else if g[r][c] == target {
        c
    } else {
        first_col_from(g, r, target, c + 1)
    }
}

/// The last row from 0 to `r` that holds `target`, or -1.
pub open spec fn last_row_upto(g: Seq<Seq<i32>>, target: int, r: int) -> int
    decreases r + 1,
{
    if r < 0 {
        -1
    } else if first_col_from(g, r, target, 0) >= 0 {
        r
    } else {
        last_row_upto(g, target, r - 1)
    }
}

/// Where the search for a piece lands: the last row that holds it, and the
/// first column of that row that holds it; (-1, -1) when it is absent.
pub open spec fn piece_square(g: Seq<Seq<i32>>, target: int) -> (int, int) {
    let r = last_row_upto(g, target, 7);
    if r >= 0 {
        (r, first_col_from(g, r, target, 0))
    } else {
        (-1, -1)
    }
}

/// Whether (r, c) is on the board and holds `p`.
pub open spec fn piece_at(g: Seq<Seq<i32>>, r: int, c: int, p: int) -> bool {
    in_bounds(r, c) && g[r][c] == p
}

/// The first piece met walking from (r, c) in steps of (dr, dc), (r, c)
/// included, or 0 when the walk leaves the board first (at most n squares).
pub open spec fn ray_hit(g: Seq<Seq<i32>>, r: int, c: int, dr: int, dc: int, n: nat) -> int
    decreases n,
{
    if n == 0 || !in_bounds(r, c) {
        0
    } else if g[r][c] != 0 {
        g[r][c] as int
    } else {
        ray_hit(g, r + dr, c + dc, dr, dc, (n - 1) as nat)
    }
}

/// The first piece met from the king's square outward in direction (dr, dc).
pub open spec fn ray_from_king(g: Seq<Seq<i32>>, kr: int, kc: int, dr: int, dc: int) -> int {
    ray_hit(g, kr + dr, kc + dc, dr, dc, 8)
}

/// The pawn test of `check_king` for direction `d` (0 for white, 1 for
/// black): an enemy pawn (11 - d) on row kr + d, in the king's column or
/// next to it.
pub open spec fn pawn_threat(g: Seq<Seq<i32>>, kr: int, kc: int, d: int) -> bool {
    let pr = kr + d;
    0 <= pr < 8 && (g[pr][kc] == 11 - d || (kc - 1 >= 0 && g[pr][kc - 1] == 11 - d) || (kc + 1 < 8
        && g[pr][kc + 1] == 11 - d))
}

/// An enemy knight (31 - d) a knight's jump from the king.
pub open spec fn knight_threat(g: Seq<Seq<i32>>, kr: int, kc: int, d: int) -> bool {
    let n = 31 - d;
    piece_at(g, kr + 2, kc + 1, n) || piece_at(g, kr + 2, kc - 1, n) || piece_at(g, kr - 2, kc + 1, n)
        || piece_at(g, kr - 2, kc - 1, n) || piece_at(g, kr + 1, kc + 2, n) || piece_at(g, kr + 1, kc - 2, n)
        || piece_at(g, kr - 1, kc + 2, n) || piece_at(g, kr - 1, kc - 2, n)
}

/// An enemy bishop (21 - d) or queen (51 - d) first on a diagonal from the king.
pub open spec fn diagonal_threat(g: Seq<Seq<i32>>, kr: int, kc: int, d: int) -> bool {
    let hit = |dr: int, dc: int| {
        let p = ray_from_king(g, kr, kc, dr, dc);
        p == 21 - d || p == 51 - d
    };
    hit(1, 1) || hit(1, -1) || hit(-1, 1) || hit(-1, -1)
}

/// An enemy rook (41 - d) or queen (51 - d) first on a line from the king.
pub open spec fn straight_threat(g: Seq<Seq<i32>>, kr: int, kc: int, d: int) -> bool {
    let hit = |dr: int, dc: int| {
        let p = ray_from_king(g, kr, kc, dr, dc);
        p == 41 - d || p == 51 - d
    };
    hit(1, 0) || hit(-1, 0) || hit(0, 1) || hit(0, -1)
}

/// Whether the king of the side to move in round `gm` (code 60 + gm % 2) is
/// out of check on board `g`, by the tests of `check_king`.
pub open spec fn king_safe(g: Seq<Seq<i32>>, gm: int) -> bool {
    let d = rem2(gm);
    let (kr, kc) = piece_square(g, 60 + d);
    !pawn_threat(g, kr, kc, d) && !knight_threat(g, kr, kc, d) && !diagonal_threat(g, kr, kc, d)
        && !straight_threat(g, kr, kc, d)
}

/// `check_king` fails (indexes column -1) when black is to move and there is
/// no black king on the board it tests.
pub open spec fn king_lookup_fails(g: Seq<Seq<i32>>, gm: int) -> bool {
    rem2(gm) == 1 && last_row_upto(g, 61, 7) < 0
}

/// The coordinates that `check_king` accepts: "no move", or two squares.
pub open spec fn move_squares_ok(s_r: int, s_c: int, e_r: int, e_c: int) -> bool {
    is_no_move(s_r, s_c, e_r, e_c) || (in_bounds(s_r, s_c) && in_bounds(e_r, e_c))
}

/// The inputs on which `check_king` returns.
pub open spec fn check_king_defined(g: Seq<Seq<i32>>, s_r: int, s_c: int, e_r: int, e_c: int, gm: int) -> bool {
    move_squares_ok(s_r, s_c, e_r, e_c) && !king_lookup_fails(moved(g, s_r, s_c, e_r, e_c), gm)
}

proof fn lemma_first_col_range(g: Seq<Seq<i32>>, r: int, target: int, c: int)
    ensures
        first_col_from(g, r, target, c) == -1 || (0 <= c <= first_col_from(g, r, target, c) < 8
            && g[r][first_col_from(g, r, target, c)] == target),
    decreases 8 - c,
{
    if 0 <= c < 8 && g[r][c] != target {
        lemma_first_col_range(g, r, target, c + 1);
    }
}

/// The square of the piece `target` as `piece_square` finds it.
pub(crate) fn find_piece(b: &[[i32; 8]; 8], target: i32) -> (res: (i32, i32))
    ensures
        res.0 == piece_square(grid(*b), target as int).0,
        res.1 == piece_square(grid(*b), target as int).1,
        res.0 == -1 && res.1 == -1 || in_bounds(res.0 as int, res.1 as int),
{
    let ghost g = grid(*b);
    let mut king_row: i32 = -1;
    let mut king_col: i32 = -1;
    let mut x: usize = 0;
    while x < 8
        invariant
            0 <= x <= 8,
            g == grid(*b),
            king_row == last_row_upto(g, target as int, x - 1),
            king_col == (if king_row >= 0 { first_col_from(g, king_row as int, target as int, 0) } else { -1 }),
            king_row == -1 && king_col == -1 || in_bounds(king_row as int, king_col as int),
        decreases 8 - x,
    {
        let c = first_in_row(b, x, target);
        proof {
            lemma_first_col_range(g, x as int, target as int, 0);
        }
        if c >= 0 {
            king_row = x as i32;
            king_col = c;
        }
        x += 1;
    }
    (king_row, king_col)
}

/// The first column of row `x` that holds `target`, or -1.
fn first_in_row(b: &[[i32; 8]; 8], x: usize, target: i32) -> (c: i32)
    requires
        x < 8,
    ensures
        c == first_col_from(grid(*b), x as int, target as int, 0),
{
    let ghost g = grid(*b);
    let mut y: usize = 0;
    while y < 8
        invariant
            0 <= y <= 8,
            x < 8,
            g == grid(*b),
            first_col_from(g, x as int, target as int, 0) == first_col_from(g, x as int, target as int, y as int),
        decreases 8 - y,
    {
        if b[x][y] == target {
            return y as i32;
        }
        y += 1;
    }
    -1
}

/// Whether (r, c) is on the board and holds `p`.
fn has_piece(b: &[[i32; 8]; 8], r: i32, c: i32, p: i32) -> (res: bool)
    ensures
        res == piece_at(grid(*b), r as int, c as int, p as int),
{
    0 <= r && r < 8 && 0 <= c && c < 8 && b[r as usize][c as usize] == p
}

/// The number of squares from (r, c) to the edge of the board in direction
/// (dr, dc), counting (r, c).
pub open spec fn edge_dist(r: int, c: int, dr: int, dc: int) -> int {
    if dr == 1 {
        8 - r
    } else if dr == -1 {
        r + 1
    } else if dc == 1 {
        8 - c
    } else {
        c + 1
    }
}

pub open spec fn is_direction(dr: int, dc: int) -> bool {
    -1 <= dr <= 1 && -1 <= dc <= 1 && !(dr == 0 && dc == 0)
}

/// The first piece met walking from (r, c) in direction (dr, dc), or 0.
pub(crate) fn ray_first(b: &[[i32; 8]; 8], r: i32, c: i32, dr: i32, dc: i32) -> (p: i32)
    requires
        is_direction(dr as int, dc as int),
        -2 <= r <= 9,
        -2 <= c <= 9,
    ensures
        p == ray_hit(grid(*b), r as int, c as int, dr as int, dc as int, 8),
{
    let ghost g = grid(*b);
    let mut nx = r;
    let mut ny = c;
    let ghost mut fuel: nat = 8;
    while 0 <= nx && nx < 8 && 0 <= ny && ny < 8
        invariant
            g == grid(*b),
            is_direction(dr as int, dc as int),
            -2 <= nx <= 9,
            -2 <= ny <= 9,
            ray_hit(g, r as int, c as int, dr as int, dc as int, 8) == ray_hit(g, nx as int, ny as int, dr as int, dc as int, fuel),
            in_bounds(nx as int, ny as int) ==> 1 <= edge_dist(nx as int, ny as int, dr as int, dc as int) <= fuel,
        decreases fuel,
    {
        let piece = b[nx as usize][ny as usize];
        if piece != 0 {
            return piece;
        }
        nx = nx + dr;
        ny = ny + dc;
        proof {
            fuel = (fuel - 1) as nat;
        }
    }
    0
}

/// Tells whether, after moving what stands on (s_r, s_c) onto (e_r, e_c) on a
/// copy of the board (no move when all four are -1), the king of the side to
/// move in round `gm_round` is out of check: no enemy pawn on the row the
/// side's pawns face (in the king's column or next to it), no enemy knight a
/// jump away, and no enemy bishop, rook or queen first on a line from it.
/// With black to move and no black king the tests would index column -1,
/// and other coordinates would index outside the board; those inputs are
/// left out.
pub fn check_king(s_r: i32, s_c: i32, e_r: i32, e_c: i32, gm_round: i32, matrix: &[[i32; 8]; 8]) -> (r: bool)
    requires
        check_king_defined(grid(*matrix), s_r as int, s_c as int, e_r as int, e_c as int, gm_round as int),
    ensures
        r == king_safe(moved(grid(*matrix), s_r as int, s_c as int, e_r as int, e_c as int), gm_round as int),
{
    let mut cloned_matrix = *matrix;
    if s_r != -1 || s_c != -1 || e_r != -1 || e_c != -1 {
        let v = matrix[s_r as usize][s_c as usize];
        cloned_matrix[s_r as usize][s_c as usize] = 0;
        cloned_matrix[e_r as usize][e_c as usize] = v;
    }
    assert(grid(cloned_matrix) =~~= moved(grid(*matrix), s_r as int, s_c as int, e_r as int, e_c as int));
    king_safe_on(&cloned_matrix, gm_round)
}

/// `king_safe` on the board as it stands.
fn king_safe_on(b: &[[i32; 8]; 8], gm_round: i32) -> (r: bool)
    requires
        !king_lookup_fails(grid(*b), gm_round as int),
    ensures
        r == king_safe(grid(*b), gm_round as int),
{
    let direction: i32 = gm_round % 2;
    let target: i32 = 60 + direction;
    let (king_row, king_col) = find_piece(b, target);
    if pawn_attacks(b, king_row, king_col, direction) {
        return false;
    }
    if knight_attacks(b, king_row, king_col, direction) {
        return false;
    }
    if diagonal_attacks(b, king_row, king_col, direction) {
        return false;
    }
    if straight_attacks(b, king_row, king_col, direction) {
        return false;
    }
    true
}

fn pawn_attacks(b: &[[i32; 8]; 8], king_row: i32, king_col: i32, direction: i32) -> (r: bool)
    requires
        -1 <= direction <= 1,
        king_row == -1 && king_col == -1 || in_bounds(king_row as int, king_col as int),
        king_row == -1 ==> direction != 1,
    ensures
        r == pawn_threat(grid(*b), king_row as int, king_col as int, direction as int),
{
    if king_row + direction >= 0 && king_row + direction < 8 {
        let pr = (king_row + direction) as usize;
        let enemy_pawn = 11 - direction;
        (b[pr][king_col as usize] == enemy_pawn) || (king_col - 1 >= 0 && b[pr][(king_col - 1) as usize]
            == enemy_pawn) || (king_col + 1 < 8 && b[pr][(king_col + 1) as usize] == enemy_pawn)
    } else {
        false
    }
}

fn knight_attacks(b: &[[i32; 8]; 8], king_row: i32, king_col: i32, direction: i32) -> (r: bool)
    requires
        -1 <= direction <= 1,
        -1 <= king_row < 8,
        -1 <= king_col < 8,
    ensures
        r == knight_threat(grid(*b), king_row as int, king_col as int, direction as int),
{
    let knight = 31 - direction;
    has_piece(b, king_row + 2, king_col + 1, knight) || has_piece(b, king_row + 2, king_col - 1, knight)
        || has_piece(b, king_row - 2, king_col + 1, knight) || has_piece(b, king_row - 2, king_col - 1, knight)
        || has_piece(b, king_row + 1, king_col + 2, knight) || has_piece(b, king_row + 1, king_col - 2, knight)
        || has_piece(b, king_row - 1, king_col + 2, knight) || has_piece(b, king_row - 1, king_col - 2, knight)
}

fn diagonal_attacks(b: &[[i32; 8]; 8], king_row: i32, king_col: i32, direction: i32) -> (r: bool)
    requires
        -1 <= direction <= 1,
        -1 <= king_row < 8,
        -1 <= king_col < 8,
    ensures
        r == diagonal_threat(grid(*b), king_row as int, king_col as int, direction as int),
{
    let bishop = 21 - direction;
    let queen = 51 - direction;
    let p1 = ray_first(b, king_row + 1, king_col + 1, 1, 1);
    let p2 = ray_first(b, king_row + 1, king_col - 1, 1, -1);
    let p3 = ray_first(b, king_row - 1, king_col + 1, -1, 1);
    let p4 = ray_first(b, king_row - 1, king_col - 1, -1, -1);
    p1 == bishop || p1 == queen || p2 == bishop || p2 == queen || p3 == bishop || p3 == queen || p4 == bishop
        || p4 == queen
}

fn straight_attacks(b: &[[i32; 8]; 8], king_row: i32, king_col: i32, direction: i32) -> (r: bool)
    requires
        -1 <= direction <= 1,
        -1 <= king_row < 8,
        -1 <= king_col < 8,
    ensures
        r == straight_threat(grid(*b), king_row as int, king_col as int, direction as int),
{
    let rook = 41 - direction;
    let queen = 51 - direction;
    let p1 = ray_first(b, king_row + 1, king_col, 1, 0);
    let p2 = ray_first(b, king_row - 1, king_col, -1, 0);
    let p3 = ray_first(b, king_row, king_col + 1, 0, 1);
    let p4 = ray_first(b, king_row, king_col - 1, 0, -1);
    p1 == rook || p1 == queen || p2 == rook || p2 == queen || p3 == rook || p3 == queen || p4 == rook
        || p4 == queen
}


/// Whether the `n` squares from (r, c) on, in steps of (dr, dc), are empty.
pub open spec fn path_clear(g: Seq<Seq<i32>>, r: int, c: int, dr: int, dc: int, n: nat) -> bool
    decreases n,
{
    if n == 0 {
        true
    } else {
        g[r][c] == 0 && path_clear(g, r + dr, c + dc, dr, dc, (n - 1) as nat)
    }
}

/// 1 for a positive step, -1 otherwise.
pub open spec fn step_of(v: int) -> int {
    if v > 0 {
        1
    } else {
        -1
    }
}

/// The squares strictly between (s_r, s_c) and (s_r + mr, s_c + mc) on a
/// diagonal are empty.
pub open spec fn diagonal_clear(g: Seq<Seq<i32>>, s_r: int, s_c: int, mc: int, mr: int) -> bool {
    path_clear(g, s_r + step_of(mr), s_c + step_of(mc), step_of(mr), step_of(mc), (abs(mc) - 1) as nat)
}

pub open spec fn min(a: int, b: int) -> int {
    if a < b {
        a
    } else {
        b
    }
}

pub open spec fn max(a: int, b: int) -> int {
    if a < b {
        b
    } else {
        a
    }
}

/// The squares strictly between (s_r, s_c) and (s_r + mr, s_c + mc) on a
/// column (mc == 0) or else on a row are empty.
pub open spec fn straight_clear(g: Seq<Seq<i32>>, s_r: int, s_c: int, mc: int, mr: int) -> bool {
    if mc == 0 {
        forall|i: int| min(s_r, s_r + mr) < i < max(s_r, s_r + mr) ==> #[trigger] g[i][s_c] == 0
    } else {
        forall|i: int| min(s_c, s_c + mc) < i < max(s_c, s_c + mc) ==> #[trigger] g[s_r][i] == 0
    }
}

/// Whether piece `id` on (s_r, s_c) may move by mc columns and mr rows, the
/// end square holding `enemy`, by the movement rules of `check_piece`:
/// pawns step one square forward (two from their starting row over an empty
/// square) onto an empty square and capture one square diagonally forward;
/// bishops, rooks and queens need the squares between to be empty; knights
/// jump; the king moves one square, or two along its row.
pub open spec fn spec_check_piece(g: Seq<Seq<i32>>, id: int, mc: int, mr: int, s_r: int, s_c: int, enemy: int) -> bool {
    if id == 10 || id == 11 {
        let direction = if id == 10 { -1int } else { 1int };
        let start_row = if id == 10 { 6int } else { 1int };
        if enemy == 0 {
            (mc == 0 && mr == direction) || (mc == 0 && mr == 2 * direction && start_row == s_r && 0 <= s_r
                + direction < 8 && g[s_r + direction][s_c] == 0)
        } else {
            abs(mc) == 1 && mr == direction
        }
    } else if id == 20 || id == 21 {
        abs(mc) == abs(mr) && mc != 0 && diagonal_clear(g, s_r, s_c, mc, mr)
    } else if id == 30 || id == 31 {
        (abs(mc) == 2 && abs(mr) == 1) || (abs(mc) == 1 && abs(mr) == 2)
    } else if id == 40 || id == 41 {
        (mc == 0 || mr == 0) && straight_clear(g, s_r, s_c, mc, mr)
    } else if id == 50 || id == 51 {
        if mc == 0 || mr == 0 {
            straight_clear(g, s_r, s_c, mc, mr)
        } else {
            abs(mc) == abs(mr) && diagonal_clear(g, s_r, s_c, mc, mr)
        }
    } else if id == 60 || id == 61 {
        (abs(mc) <= 1 && abs(mr) <= 1) || (mr == 0 && abs(mc) == 2)
    } else {
        false
    }
}

/// A bishop asked to move onto its own square walks up and to the left
/// until it meets a piece; when there is none before the edge the walk
/// indexes outside the board.
pub open spec fn bishop_walks_off(g: Seq<Seq<i32>>, id: int, mc: int, mr: int, s_r: int, s_c: int) -> bool {
    (id == 20 || id == 21) && mc == 0 && mr == 0 && ray_hit(g, s_r - 1, s_c - 1, -1, -1, 8) == 0
}

/// Whether `check_piece` walks the squares between start and end: a
/// bishop, rook or queen moving along one of its lines.
pub open spec fn walks_path(id: int, mc: int, mr: int) -> bool {
    ||| (id == 20 || id == 21) && abs(mc) == abs(mr)
    ||| (id == 40 || id == 41) && (mc == 0 || mr == 0)
    ||| (id == 50 || id == 51) && (mc == 0 || mr == 0 || abs(mc) == abs(mr))
}

/// A pawn's two-row step from its starting row onto an empty square: it
/// reads the square the pawn passes, in the start column.
pub open spec fn pawn_double_step(id: int, mc: int, mr: int, s_r: int, enemy: int) -> bool {
    &&& id == 10 || id == 11
    &&& enemy == 0
    &&& mc == 0
    &&& mr == if id == 10 { -2int } else { 2int }
    &&& s_r == if id == 10 { 6int } else { 1int }
}

/// Whether `check_piece` takes the absolute value of `i32::MIN` (which
/// overflows): the tests of each piece take |mc| and |mr| in this order,
/// stopping as soon as the answer is known.
pub open spec fn abs_overflows(id: int, mc: int, mr: int, enemy: int) -> bool {
    let m = i32::MIN as int;
    if id == 10 || id == 11 {
        enemy != 0 && mc == m
    } else if id == 20 || id == 21 {
        mc == m || mr == m
    } else if id == 30 || id == 31 {
        mc == m || ((abs(mc) == 1 || abs(mc) == 2) && mr == m)
    } else if id == 50 || id == 51 {
        mc != 0 && mr != 0 && (mc == m || mr == m)
    } else if id == 60 || id == 61 {
        mc == m || (abs(mc) <= 1 && mr == m)
    } else {
        false
    }
}

/// The absolute value of `v`.
fn abs_of(v: i32) -> (a: i32)
    requires
        v != i32::MIN,
    ensures
        a == abs(v as int),
{
    if v < 0 {
        -v
    } else {
        v
    }
}

/// Checks that piece `id` on (s_r, s_c) may move by `mc` columns and `mr`
/// rows; `enemy` is what stands on the end square. The board is not changed.
/// The squares are read only where the piece needs them: along the path of
/// a bishop, rook or queen (both squares must then be on the board) and on
/// the square a pawn passes in a two-row step (its column must then be on
/// the board); knights and kings read nothing. Inputs that take the
/// absolute value of `i32::MIN` overflow and are left out.
pub fn check_piece(
    matrix: &mut [[i32; 8]; 8],
    id: i32,
    mc: i32,
    mr: i32,
    s_r: i32,
    s_c: i32,
    enemy: i32,
) -> (r: bool)
    requires
        !abs_overflows(id as int, mc as int, mr as int, enemy as int),
        walks_path(id as int, mc as int, mr as int) ==> in_bounds(s_r as int, s_c as int) && in_bounds(
            s_r + mr,
            s_c + mc,
        ),
        pawn_double_step(id as int, mc as int, mr as int, s_r as int, enemy as int) ==> 0 <= s_c < 8,
        !bishop_walks_off(grid(*old(matrix)), id as int, mc as int, mr as int, s_r as int, s_c as int),
    ensures
        *final(matrix) == *old(matrix),
        r == spec_check_piece(grid(*old(matrix)), id as int, mc as int, mr as int, s_r as int, s_c as int, enemy as int),
{
    if id == 10 || id == 11 {
        let direction: i32 = if id == 10 { -1 } else { 1 };
        let start_row: i32 = if id == 10 { 6 } else { 1 };
        if enemy == 0 {
            if mc == 0 && mr == direction {
                return true;
            } else if mc == 0 && mr == 2 * direction && (start_row == s_r) {
                let middle_square_row = s_r + direction;
                if middle_square_row >= 0 && middle_square_row < 8 && matrix[middle_square_row as usize][s_c as usize] == 0 {
                    return true;
                }
            }
        } else {
            if abs_of(mc) == 1 && mr == direction {
                return true;
            }
        }
        false
    } else if id == 20 || id == 21 {
        if abs_of(mc) == abs_of(mr) {
            if mc == 0 {
                return walk_to_first_piece(matrix, s_r, s_c);
            }
            return diagonal_walk(matrix, s_r, s_c, mc, mr);
        }
        false
    } else if id == 30 || id == 31 {
        let amc = abs_of(mc);
        (amc == 2 && abs_of(mr) == 1) || (amc == 1 && abs_of(mr) == 2)
    } else if id == 40 || id == 41 {
        if mc == 0 || mr == 0 {
            return straight_walk(matrix, s_r, s_c, mc, mr);
        }
        false
    } else if id == 50 || id == 51 {
        if mc == 0 || mr == 0 {
            straight_walk(matrix, s_r, s_c, mc, mr)
        } else if abs_of(mc) == abs_of(mr) {
            diagonal_walk(matrix, s_r, s_c, mc, mr)
        } else {
            false
        }
    } else if id == 60 || id == 61 {
        let amc = abs_of(mc);
        (amc <= 1 && abs_of(mr) <= 1) || (mr == 0 && amc == 2)
    } else {
        false
    }
}

/// The diagonal walk of a bishop that stays on its square: it stops at the
/// first piece up and to the left, and the move is refused.
fn walk_to_first_piece(b: &[[i32; 8]; 8], s_r: i32, s_c: i32) -> (r: bool)
    requires
        in_bounds(s_r as int, s_c as int),
        ray_hit(grid(*b), s_r - 1, s_c - 1, -1, -1, 8) != 0,
    ensures
        !r,
{
    let ghost g = grid(*b);
    let mut x = s_c - 1;
    let mut y = s_r - 1;
    let ghost mut fuel: nat = 8;
    while x != s_c && y != s_r
        invariant
            g == grid(*b),
            ray_hit(g, y as int, x as int, -1, -1, fuel) != 0,
            -1 <= x < s_c,
            -1 <= y < s_r,
        decreases fuel,
    {
        if b[y as usize][x as usize] != 0 {
            return false;
        }
        x -= 1;
        y -= 1;
        proof {
            fuel = (fuel - 1) as nat;
        }
    }
    true
}

/// Whether the squares strictly between the start and the end of a diagonal
/// move are empty.
fn diagonal_walk(b: &[[i32; 8]; 8], s_r: i32, s_c: i32, mc: i32, mr: i32) -> (r: bool)
    requires
        in_bounds(s_r as int, s_c as int),
        in_bounds(s_r + mr, s_c + mc),
        abs(mc as int) == abs(mr as int),
        mc != 0,
    ensures
        r == diagonal_clear(grid(*b), s_r as int, s_c as int, mc as int, mr as int),
{
    let ghost g = grid(*b);
    let step_x: i32 = if mc > 0 { 1 } else { -1 };
    let step_y: i32 = if mr > 0 { 1 } else { -1 };
    let mut x = s_c + step_x;
    let mut y = s_r + step_y;
    let ghost mut t: int = 1;
    while x != s_c + mc && y != s_r + mr
        invariant
            g == grid(*b),
            in_bounds(s_r as int, s_c as int),
            in_bounds(s_r + mr, s_c + mc),
            abs(mc as int) == abs(mr as int),
            mc != 0,
            step_x == step_of(mc as int),
            step_y == step_of(mr as int),
            1 <= t <= abs(mc as int),
            x == s_c + (if step_x == 1 { t } else { -t }),
            y == s_r + (if step_y == 1 { t } else { -t }),
            diagonal_clear(g, s_r as int, s_c as int, mc as int, mr as int) == path_clear(
                g,
                y as int,
                x as int,
                step_y as int,
                step_x as int,
                (abs(mc as int) - t) as nat,
            ),
        decreases abs(mc as int) - t,
    {
        if b[y as usize][x as usize] != 0 {
            return false;
        }
        x += step_x;
        y += step_y;
        proof {
            t = t + 1;
        }
    }
    true
}

/// Whether the squares strictly between the start and the end of a move
/// along a column (mc == 0) or a row are empty.
fn straight_walk(b: &[[i32; 8]; 8], s_r: i32, s_c: i32, mc: i32, mr: i32) -> (r: bool)
    requires
        in_bounds(s_r as int, s_c as int),
        in_bounds(s_r + mr, s_c + mc),
        mc == 0 || mr == 0,
    ensures
        r == straight_clear(grid(*b), s_r as int, s_c as int, mc as int, mr as int),
{
    let ghost g = grid(*b);
    let (start, end) = if mc == 0 {
        (if s_r < s_r + mr { s_r } else { s_r + mr }, if s_r < s_r + mr { s_r + mr } else { s_r })
    } else {
        (if s_c < s_c + mc { s_c } else { s_c + mc }, if s_c < s_c + mc { s_c + mc } else { s_c })
    };
    let mut i = start + 1;
    while i < end
        invariant
            g == grid(*b),
            in_bounds(s_r as int, s_c as int),
            in_bounds(s_r + mr, s_c + mc),
            mc == 0 || mr == 0,
            0 <= start <= end < 8,
            start < i <= end || i == start + 1,
            mc == 0 ==> start == min(s_r as int, s_r + mr) && end == max(s_r as int, s_r + mr),
            mc != 0 ==> start == min(s_c as int, s_c + mc) && end == max(s_c as int, s_c + mc),
            mc == 0 ==> forall|k: int| start < k < i ==> #[trigger] g[k][s_c as int] == 0,
            mc != 0 ==> forall|k: int| start < k < i ==> #[trigger] g[s_r as int][k] == 0,
        decreases end - i,
    {
        if mc == 0 && b[i as usize][s_c as usize] != 0 {
            assert(g[i as int][s_c as int] != 0);
            return false;
        }
        if mr == 0 && b[s_r as usize][i as usize] != 0 {
            assert(mc != 0);
            assert(g[s_r as int][i as int] != 0);
            return false;
        }
        i += 1;
    }
    true
}

} // verus!
