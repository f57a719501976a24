//! The board as an 8x8 matrix of piece codes, and the small rules that read it.
//!
//! A piece code is `10 * kind + colour`: kind 1 pawn, 2 bishop, 3 knight,
//! 4 rook, 5 queen, 6 king; colour 0 white, 1 black; 0 is an empty square.
//! Row 0 is rank 8 (black's back rank), row 7 is rank 1.
use vstd::prelude::*;

verus! {

/// The remainder of `v` by 2 as Rust's `%` computes it on signed integers
/// (it takes the sign of `v`: -1, 0 or 1).
pub open spec fn rem2(v: int) -> int {
    if v >= 0 {
        v % 2
    } else {
        -((-v) % 2)
    }
}

/// The board read as rows of cells.
pub open spec fn grid(m: [[i32; 8]; 8]) -> Seq<Seq<i32>> {
    Seq::new(8, |r: int| m@[r]@)
}

/// Whether (r, c) names a square of the board.
pub open spec fn in_bounds(r: int, c: int) -> bool {
    0 <= r < 8 && 0 <= c < 8
}

/// A board given as rows: eight rows of eight cells.
pub open spec fn is_grid(g: Seq<Seq<i32>>) -> bool {
    g.len() == 8 && forall|r: int| 0 <= r < 8 ==> #[trigger] g[r].len() == 8
}

/// The codes of a side's pieces on its back rank, from file a to file h.
pub open spec fn back_rank(colour: int) -> Seq<i32> {
    if colour == 0 {
        seq![40i32, 30, 20, 50, 60, 20, 30, 40]
    } else {
        seq![41i32, 31, 21, 51, 61, 21, 31, 41]
    }
}

/// The rows that the starting position fixes: row 0 and row 7 hold the back
/// ranks, row 1 the black pawns, row 6 the white pawns.
pub open spec fn start_row(r: int) -> Seq<i32> {
    if r == 0 {
        back_rank(1)
    } else if r == 7 {
        back_rank(0)
    } else if r == 1 {
        Seq::new(8, |c: int| 11i32)
    } else {
        Seq::new(8, |c: int| 10i32)
    }
}

/// Sets up the starting position: rows 0, 1, 6 and 7 receive the pieces,
/// rows 2 to 5 are left as they were.
pub fn reset_word(matrix: &mut [[i32; 8]; 8])
    ensures
        forall|r: int| (r == 0 || r == 1 || r == 6 || r == 7) ==> #[trigger] final(matrix)@[r]@ == start_row(r),
        forall|r: int| 2 <= r < 6 ==> #[trigger] final(matrix)@[r] == old(matrix)@[r],
{
    let mut x: usize = 0;
    while x < 8
        invariant
            0 <= x <= 8,
            forall|r: int| 0 <= r < x && (r == 0 || r == 1 || r == 6 || r == 7) ==> #[trigger] matrix@[r]@ == start_row(r),
            forall|r: int| 0 <= r < 8 && !(r < x && (r == 0 || r == 1 || r == 6 || r == 7)) ==> #[trigger] matrix@[r] == old(matrix)@[r],
        decreases 8 - x,
    {
        let mut y: usize = 0;
        while y < 8
            invariant
                0 <= x < 8,
                0 <= y <= 8,
                forall|r: int| 0 <= r < x && (r == 0 || r == 1 || r == 6 || r == 7) ==> #[trigger] matrix@[r]@ == start_row(r),
                forall|r: int| 0 <= r < 8 && r != x && !(r < x && (r == 0 || r == 1 || r == 6 || r == 7)) ==> #[trigger] matrix@[r] == old(matrix)@[r],
                x == 0 || x == 1 || x == 6 || x == 7 ==> forall|c: int| 0 <= c < y ==> #[trigger] matrix@[x as int]@[c] == start_row(x as int)[c],
                forall|c: int| 0 <= c < 8 && !((x == 0 || x == 1 || x == 6 || x == 7) && c < y) ==> #[trigger] matrix@[x as int]@[c] == old(matrix)@[x as int]@[c],
            decreases 8 - y,
        {
            if (x == 0 || x == 7) && (y == 0 || y == 7) {
                matrix[x][y] = if x == 0 { 41 } else { 40 };
            }
            if (x == 0 || x == 7) && (y == 1 || y == 6) {
                matrix[x][y] = if x == 0 { 31 } else { 30 };
            }
            if (x == 0 || x == 7) && (y == 2 || y == 5) {
                matrix[x][y] = if x == 0 { 21 } else { 20 };
            }
            if x == 1 {
                matrix[x][y] = 11;
            }
            if x == 6 {
                matrix[x][y] = 10;
            }
            if (x == 0 || x == 7) && (y == 3) {
                matrix[x][y] = if x == 0 { 51 } else { 50 };
            }
            if (x == 0 || x == 7) && (y == 4) {
                matrix[x][y] = if x == 0 { 61 } else { 60 };
            }
            y += 1;
        }
        if x == 0 || x == 1 || x == 6 || x == 7 {
            assert(matrix@[x as int]@ =~= start_row(x as int));
        } else {
            assert(matrix@[x as int]@ =~= old(matrix)@[x as int]@);
        }
        x += 1;
    }
}

/// Whether it is the turn of the piece's side: white (even codes) moves on
/// even rounds, black (odd codes) on odd rounds, with `%` as Rust computes it.
pub open spec fn spec_is_valid_turn(piece_id: int, gm: int) -> bool {
    (rem2(piece_id) == 0 && rem2(gm) == 0) || (rem2(piece_id) == 1 && rem2(gm) == 1)
}

pub fn is_valid_turn(piece_id: i32, gm: i32) -> (r: bool)
    ensures
        r == spec_is_valid_turn(piece_id as int, gm as int),
{
    (piece_id % 2 == 0 && gm % 2 == 0) || (piece_id % 2 == 1 && gm % 2 == 1)
}

/// A move from (s_r, s_c) to (e_r, e_c) may end there unless the square holds
/// a piece of the mover's own colour.
pub open spec fn spec_check_eat(g: Seq<Seq<i32>>, s_r: int, s_c: int, e_r: int, e_c: int) -> bool {
    !(g[e_r][e_c] != 0 && rem2(g[s_r][s_c] as int) == rem2(g[e_r][e_c] as int))
}

pub fn check_eat(matrix: &[[i32; 8]; 8], s_r: i32, s_c: i32, e_r: i32, e_c: i32) -> (r: bool)
    requires
        in_bounds(s_r as int, s_c as int),
        in_bounds(e_r as int, e_c as int),
    ensures
        r == spec_check_eat(grid(*matrix), s_r as int, s_c as int, e_r as int, e_c as int),
{
    let start_piece = matrix[s_r as usize][s_c as usize];
    let end_piece = matrix[e_r as usize][e_c as usize];
    if end_piece != 0 && (start_piece % 2 == end_piece % 2) {
        return false;
    }
    true
}

/// The file number of a letter from 'a' to 'i' (0 to 8).
pub open spec fn spec_col_to_number(c: char) -> Option<u32> {
    if 'a' <= c <= 'i' {
        Some((c as u32 - 'a' as u32) as u32)
    } else {
        None
    }
}

/// The rank number of a digit from '1' to '9', less one (0 to 8).
pub open spec fn spec_row_to_number(c: char) -> Option<u32> {
    if '1' <= c <= '9' {
        Some((c as u32 - '1' as u32) as u32)
    } else {
        None
    }
}

pub fn col_to_number(c: char) -> (r: Option<u32>)
    ensures
        r == spec_col_to_number(c),
        r matches Some(n) ==> n <= 8,
{
    if 'a' <= c && c <= 'i' {
        Some((c as u32) - ('a' as u32))
    } else {
        None
    }
}

pub fn row_to_number(c: char) -> (r: Option<u32>)
    ensures
        r == spec_row_to_number(c),
        r matches Some(n) ==> n <= 8,
{
    if '1' <= c && c <= '9' {
        Some((c as u32) - ('1' as u32))
    } else {
        None
    }
}

/// The slot at which `capture_piece` puts `piece`: the first slot from `k` on
/// that is empty or holds a greater code, or 16 when there is none.
pub open spec fn insert_pos_from(s: Seq<i32>, piece: i32, k: int) -> int
    decreases 16 - k,
{
    if k >= 16 || k < 0 {
        16
    } else if s[k] == 0 || s[k] > piece {
        k
    } else {
        insert_pos_from(s, piece, k + 1)
    }
}

pub open spec fn insert_pos(s: Seq<i32>, piece: i32) -> int {
    insert_pos_from(s, piece, 0)
}

/// `s` with `piece` put at slot `k` and the slots from `k` on moved one place
/// to the right; the last slot falls off.
pub open spec fn inserted(s: Seq<i32>, k: int, piece: i32) -> Seq<i32> {
    s.take(k).push(piece) + s.subrange(k, 15)
}

/// A list of captured pieces in the form that capture keeps: the occupied
/// slots come first and in ascending order, the empty ones (0) after them.
pub open spec fn packed_sorted(s: Seq<i32>) -> bool {
    forall|i: int, j: int| 0 <= i < j < s.len() && s[j] != 0 ==> s[i] != 0 && s[i] <= s[j]
}

proof fn lemma_insert_pos_range(s: Seq<i32>, piece: i32, k: int)
    requires
        0 <= k <= 16,
        s.len() == 16,
    ensures
        k <= insert_pos_from(s, piece, k) <= 16,
        forall|t: int| k <= t < insert_pos_from(s, piece, k) ==> s[t] != 0 && s[t] <= piece,
        insert_pos_from(s, piece, k) < 16 ==> (s[insert_pos_from(s, piece, k)] == 0 || s[insert_pos_from(s, piece, k)] > piece),
    decreases 16 - k,
{
    if k < 16 && !(s[k] == 0 || s[k] > piece) {
        lemma_insert_pos_range(s, piece, k + 1);
    }
}

/// Adds a captured piece to a side's list of captured pieces: it goes before
/// the first slot that is empty or holds a greater code, and the slots after
/// it move one place to the right (the last one is lost). Code 0 is ignored.
/// When every slot holds a code not greater than `piece` there is no slot
/// for it (index 16); that input is left out.
pub fn capture_piece(pieces: &mut [i32; 16], piece: i32)
    requires
        piece == 0 || insert_pos(old(pieces)@, piece) < 16,
    ensures
        piece == 0 ==> final(pieces)@ == old(pieces)@,
        piece != 0 ==> final(pieces)@ == inserted(old(pieces)@, insert_pos(old(pieces)@, piece), piece),
{
    if piece == 0 {
        return;
    }
    proof {
        lemma_insert_pos_range(pieces@, piece, 0);
    }
    let ghost k = insert_pos(pieces@, piece);
    let mut index: usize = 0;
    while index < 16
        invariant
            0 <= index <= k,
            k < 16,
            k == insert_pos(pieces@, piece),
            forall|t: int| 0 <= t < k ==> pieces@[t] != 0 && pieces@[t] <= piece,
            pieces@[k] == 0 || pieces@[k] > piece,
        ensures
            index == k,
        decreases 16 - index,
    {
        if pieces[index] == 0 {
            break;
        }
        if pieces[index] > piece {
            break;
        }
        index += 1;
    }
    assert(index == k);
    let ghost before = pieces@;
    let mut i: usize = 15;
    while i > index
        invariant
            index <= i <= 15,
            index == k,
            pieces@.len() == 16,
            forall|t: int| 0 <= t < 16 ==> #[trigger] pieces@[t] == (if t > i { before[t - 1] } else { before[t] }),
        decreases i,
    {
        let v = pieces[i - 1];
        pieces[i] = v;
        i -= 1;
    }
    pieces[index] = piece;
    assert(pieces@ =~= inserted(before, k, piece));
}

/// Capturing into a list kept in order, with a free slot, keeps it in order,
/// one slot fuller, and holding the same codes plus the new one.
pub proof fn lemma_capture_keeps_order(s: Seq<i32>, piece: i32)
    requires
        s.len() == 16,
        packed_sorted(s),
        s[15] == 0,
        piece != 0,
    ensures
        insert_pos(s, piece) < 16,
        packed_sorted(inserted(s, insert_pos(s, piece), piece)),
        inserted(s, insert_pos(s, piece), piece).to_multiset() =~= s.to_multiset().remove(0).insert(piece),
{
    lemma_insert_pos_range(s, piece, 0);
    let k = insert_pos(s, piece);
    let r = inserted(s, k, piece);
    assert(r.len() == 16);
    assert forall|t: int| 0 <= t < 16 implies #[trigger] r[t] == (if t < k { s[t] } else if t == k { piece } else { s[t - 1] }) by {
    }
    assert forall|i: int, j: int| 0 <= i < j < r.len() && r[j] != 0 implies r[i] != 0 && r[i] <= r[j] by {
        if j < k {
        } else if j == k {
        } else {
            // r[j] == s[j - 1] is occupied, so s[k] is occupied and above piece
            if i < k {
                assert(s[k] != 0 && s[k] <= s[j - 1]);
            } else if i == k {
                assert(s[k] != 0 && s[k] <= s[j - 1]);
            } else {
            }
        }
    }
    let a = s.take(k);
    let b = s.subrange(k, 15);
    assert(s =~= a + b + seq![s[15]]);
    assert(r =~= a + seq![piece] + b);
    vstd::seq_lib::lemma_multiset_commutative(a + b, seq![s[15]]);
    vstd::seq_lib::lemma_multiset_commutative(a, b);
    vstd::seq_lib::lemma_multiset_commutative(a + seq![piece], b);
    vstd::seq_lib::lemma_multiset_commutative(a, seq![piece]);
    assert(seq![s[15]].to_multiset() =~= vstd::multiset::Multiset::empty().insert(0i32)) by {
        broadcast use vstd::seq_lib::group_to_multiset_ensures;
        assert(seq![s[15]] =~= Seq::<i32>::empty().push(0i32));
    }
    assert(seq![piece].to_multiset() =~= vstd::multiset::Multiset::empty().insert(piece)) by {
        broadcast use vstd::seq_lib::group_to_multiset_ensures;
        assert(seq![piece] =~= Seq::<i32>::empty().push(piece));
    }
}


/// The slot where `capture_piece` would put `piece` (16 when there is none).
pub fn insert_position(pieces: &[i32; 16], piece: i32) -> (k: usize)
    ensures
        k == insert_pos(pieces@, piece),
{
    proof {
        lemma_insert_pos_range(pieces@, piece, 0);
    }
    let mut index: usize = 0;
    while index < 16
        invariant
            0 <= index <= 16,
            insert_pos(pieces@, piece) == insert_pos_from(pieces@, piece, index as int),
        decreases 16 - index,
    {
        if pieces[index] == 0 || pieces[index] > piece {
            return index;
        }
        index += 1;
    }
    16
}

} // verus!
