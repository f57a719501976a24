//! Export of the board in FEN piece placement and import from it.
use vstd::prelude::*;
use vstd::string::*;

use crate::board::{grid, in_bounds, is_grid};
use crate::moves::set_cell;
use crate::text::chars_of;

verus! {

/// The FEN letter of a piece code (upper case for white), or None for a
/// code of no piece.
pub open spec fn piece_char(p: i32) -> Option<char> {
    if p == 10 {
        Some('P')
    } else if p == 11 {
        Some('p')
    } else if p == 20 {
        Some('B')
    } else if p == 21 {
        Some('b')
    } else if p == 30 {
        Some('N')
    } else if p == 31 {
        Some('n')
    } else if p == 40 {
        Some('R')
    } else if p == 41 {
        Some('r')
    } else if p == 50 {
        Some('Q')
    } else if p == 51 {
        Some('q')
    } else if p == 60 {
        Some('K')
    } else if p == 61 {
        Some('k')
    } else {
        None
    }
}

/// The piece code of a FEN letter; 0 for any other character.
pub open spec fn fen_piece(c: char) -> i32 {
    if c == 'P' {
        10
    } else if c == 'p' {
        11
    } else if c == 'B' {
        20
    } else if c == 'b' {
        21
    } else if c == 'N' {
        30
    } else if c == 'n' {
        31
    } else if c == 'R' {
        40
    } else if c == 'r' {
        41
    } else if c == 'Q' {
        50
    } else if c == 'q' {
        51
    } else if c == 'K' {
        60
    } else if c == 'k' {
        61
    } else {
        0
    }
}

/// The decimal digit character of 0 <= n <= 9.
pub open spec fn digit_char(n: int) -> char {
    (n + 48) as char
}

/// The digit that stands for `n` empty squares, none for 0.
pub open spec fn count_text(n: int) -> Seq<char> {
    if n > 0 {
        seq![digit_char(n)]
    } else {
        seq![]
    }
}

/// The FEN text of a row, `count` empty squares being pending before it:
/// pieces by their letters, runs of empty squares by their number. Codes
/// of no piece are skipped and do not count as empty.
pub open spec fn row_text(row: Seq<i32>, count: int) -> Seq<char>
    decreases row.len(),
{
    if row.len() == 0 {
        count_text(count)
    } else if row[0] == 0 {
        row_text(row.drop_first(), count + 1)
    } else {
        match piece_char(row[0]) {
            Some(ch) => count_text(count) + seq![ch] + row_text(row.drop_first(), 0),
            None => row_text(row.drop_first(), count),
        }
    }
}

/// The texts of rows 0 to k - 1 joined by '/'.
pub open spec fn rows_text(g: Seq<Seq<i32>>, k: int) -> Seq<char>
    decreases k,
{
    if k <= 1 {
        row_text(g[0], 0)
    } else {
        rows_text(g, k - 1) + seq!['/'] + row_text(g[k - 1], 0)
    }
}

/// The FEN piece placement of a board, rank 8 (row 0) first.
pub open spec fn fen_text(g: Seq<Seq<i32>>) -> Seq<char> {
    rows_text(g, 8)
}

/// The text of a count of empty squares from 1 to 8.
fn count_str(n: i32) -> (s: &'static str)
    requires
        1 <= n <= 8,
    ensures
        s@ == count_text(n as int),
{
    if n == 1 {
        proof {
            reveal_strlit("1");
        }
        "1"
    } else if n == 2 {
        proof {
            reveal_strlit("2");
        }
        "2"
    } else if n == 3 {
        proof {
            reveal_strlit("3");
        }
        "3"
    } else if n == 4 {
        proof {
            reveal_strlit("4");
        }
        "4"
    } else if n == 5 {
        proof {
            reveal_strlit("5");
        }
        "5"
    } else if n == 6 {
        proof {
            reveal_strlit("6");
        }
        "6"
    } else if n == 7 {
        proof {
            reveal_strlit("7");
        }
        "7"
    } else {
        proof {
            reveal_strlit("8");
        }
        "8"
    }
}

/// The FEN letter of a piece code as text.
fn piece_str(p: i32) -> (s: Option<&'static str>)
    ensures
        s is Some <==> piece_char(p) is Some,
        s matches Some(t) ==> t@ == seq![piece_char(p)->0],
{
    if p == 10 {
        proof {
            reveal_strlit("P");
        }
        Some("P")
    } else if p == 11 {
        proof {
            reveal_strlit("p");
        }
        Some("p")
    } else if p == 20 {
        proof {
            reveal_strlit("B");
        }
        Some("B")
    } else if p == 21 {
        proof {
            reveal_strlit("b");
        }
        Some("b")
    } else if p == 30 {
        proof {
            reveal_strlit("N");
        }
        Some("N")
    } else if p == 31 {
        proof {
            reveal_strlit("n");
        }
        Some("n")
    } else if p == 40 {
        proof {
            reveal_strlit("R");
        }
        Some("R")
    } else if p == 41 {
        proof {
            reveal_strlit("r");
        }
        Some("r")
    } else if p == 50 {
        proof {
            reveal_strlit("Q");
        }
        Some("Q")
    } else if p == 51 {
        proof {
            reveal_strlit("q");
        }
        Some("q")
    } else if p == 60 {
        proof {
            reveal_strlit("K");
        }
        Some("K")
    } else if p == 61 {
        proof {
            reveal_strlit("k");
        }
        Some("k")
    } else {
        None
    }
}

/// Writes the board in FEN piece placement: ranks from 8 (row 0) to 1
/// separated by '/', pieces by their letters (upper case for white), runs
/// of empty squares by their number. Codes of no piece are left out.
pub fn matrix_to_fen(matrix: &[[i32; 8]; 8]) -> (fen: String)
    ensures
        fen@ == fen_text(grid(*matrix)),
{
    let ghost g = grid(*matrix);
    let mut fen = String::new();
    let mut x: usize = 0;
    while x < 8
        invariant
            0 <= x <= 8,
            g == grid(*matrix),
            x > 0 ==> fen@ == rows_text(g, x as int),
            x == 0 ==> fen@ == Seq::<char>::empty(),
        decreases 8 - x,
    {
        if x > 0 {
            proof {
                reveal_strlit("/");
            }
            fen.append("/");
        }
        let ghost base = fen@;
        let ghost row = g[x as int];
        let mut count: i32 = 0;
        let mut y: usize = 0;
        assert(row.subrange(0, 8) =~= row);
        while y < 8
            invariant
                0 <= x < 8,
                0 <= y <= 8,
                0 <= count <= y,
                g == grid(*matrix),
                row == g[x as int],
                row.len() == 8,
                fen@ + row_text(row.subrange(y as int, 8), count as int) == base + row_text(row, 0),
            decreases 8 - y,
        {
            let piece = matrix[x][y];
            let ghost rest = row.subrange(y as int, 8);
            assert(rest.drop_first() =~= row.subrange(y + 1, 8));
            if piece == 0 {
                count += 1;
            } else {
                match piece_str(piece) {
                    Some(s) => {
                        let ghost before = fen@;
                        if count > 0 {
                            fen.append(count_str(count));
                        }
                        fen.append(s);
                        assert(fen@ =~= before + count_text(count as int) + seq![piece_char(piece)->0]);
                        count = 0;
                    },
                    None => {},
                }
            }
            y += 1;
        }
        let ghost before = fen@;
        if count > 0 {
            fen.append(count_str(count));
        }
        assert(fen@ =~= before + count_text(count as int));
        assert(row.subrange(0, 8) =~= row);
        if x > 0 {
            assert(fen@ =~= rows_text(g, x as int) + seq!['/'] + row_text(g[x as int], 0));
        } else {
            assert(fen@ =~= row_text(g[0], 0));
        }
        x += 1;
    }
    fen
}


pub open spec fn is_digit_char(c: char) -> bool {
    '0' <= c <= '9'
}

pub open spec fn digit_value(c: char) -> int {
    c as int - 48
}

/// Reading one character of a FEN text at row i, column j: '/' starts the
/// next row, a digit skips that many columns, any other character puts its
/// piece (0 for an unknown letter) on (i, j) and moves one column on.
pub open spec fn fen_step(st: (Seq<Seq<i32>>, int, int), c: char) -> (Seq<Seq<i32>>, int, int) {
    let (g, i, j) = st;
    if c == '/' {
        (g, i + 1, 0)
    } else if is_digit_char(c) {
        (g, i, j + digit_value(c))
    } else {
        (set_cell(g, i, j, fen_piece(c)), i, j + 1)
    }
}

/// Reading a character puts a piece only on a square of the board.
pub open spec fn fen_step_ok(st: (Seq<Seq<i32>>, int, int), c: char) -> bool {
    c == '/' || is_digit_char(c) || in_bounds(st.1, st.2)
}

/// The board, row and column after reading `s`.
pub open spec fn fen_run(s: Seq<char>, st: (Seq<Seq<i32>>, int, int)) -> (Seq<Seq<i32>>, int, int)
    decreases s.len(),
{
    if s.len() == 0 {
        st
    } else {
        fen_run(s.drop_first(), fen_step(st, s[0]))
    }
}

/// Every piece of `s` lands on the board (reading would index outside it
/// otherwise).
pub open spec fn fen_ok(s: Seq<char>, st: (Seq<Seq<i32>>, int, int)) -> bool
    decreases s.len(),
{
    s.len() == 0 || (fen_step_ok(st, s[0]) && fen_ok(s.drop_first(), fen_step(st, s[0])))
}

pub open spec fn empty_grid() -> Seq<Seq<i32>> {
    Seq::new(8, |r: int| Seq::new(8, |c: int| 0i32))
}

/// The board that a FEN placement text describes, read from an empty board.
pub open spec fn fen_board(s: Seq<char>) -> Seq<Seq<i32>> {
    fen_run(s, (empty_grid(), 0, 0)).0
}

/// The piece code of a FEN letter, 0 for other characters.
fn fen_piece_of(c: char) -> (p: i32)
    ensures
        p == fen_piece(c),
{
    match c {
        'P' => 10,
        'p' => 11,
        'B' => 20,
        'b' => 21,
        'N' => 30,
        'n' => 31,
        'R' => 40,
        'r' => 41,
        'Q' => 50,
        'q' => 51,
        'K' => 60,
        'k' => 61,
        _ => 0,
    }
}

/// Reads a FEN piece placement ("rnbqkbnr/pppppppp/8/...") onto an empty
/// board: rows are separated by '/', digits skip empty squares, letters put
/// pieces (unknown letters put 0). Texts that put a piece outside the board
/// are left out.
pub fn fen_to_matrix(fen: &str) -> (matrix: [[i32; 8]; 8])
    requires
        fen_ok(fen@, (empty_grid(), 0, 0)),
        9 * fen@.len() <= usize::MAX,
    ensures
        grid(matrix) == fen_board(fen@),
{
    let chars = chars_of(fen);
    let n = chars.len();
    let mut matrix = [[0i32; 8]; 8];
    assert(grid(matrix) =~~= empty_grid());
    let mut i: usize = 0;
    let mut j: usize = 0;
    let mut k: usize = 0;
    assert(chars@.subrange(0, n as int) =~= chars@);
    while k < n
        invariant
            0 <= k <= n,
            n == chars@.len(),
            chars@ == fen@,
            9 * n <= usize::MAX,
            i <= k,
            j <= 9 * k,
            fen_run(fen@, (empty_grid(), 0, 0)) == fen_run(chars@.subrange(k as int, n as int), (grid(matrix), i as int, j as int)),
            fen_ok(chars@.subrange(k as int, n as int), (grid(matrix), i as int, j as int)),
        decreases n - k,
    {
        let c = chars[k];
        let ghost rest = chars@.subrange(k as int, n as int);
        assert(rest.drop_first() =~= chars@.subrange(k + 1, n as int));
        assert(rest[0] == c);
        if c == '/' {
            i += 1;
            j = 0;
        } else if '0' <= c && c <= '9' {
            let d = (c as u32 - '0' as u32) as usize;
            j += d;
        } else {
            let piece = fen_piece_of(c);
            let ghost before = grid(matrix);
            matrix[i][j] = piece;
            assert(grid(matrix) =~~= set_cell(before, i as int, j as int, piece));
            j += 1;
        }
        k += 1;
    }
    matrix
}


/// Whether `fen_to_matrix` returns on a text: every piece lands on the
/// board (and the text is short enough for its column count); the game
/// tests it before an import and stops otherwise.
pub fn fen_fits(fen: &str) -> (r: bool)
    ensures
        r == (fen_ok(fen@, (empty_grid(), 0, 0)) && 9 * fen@.len() <= usize::MAX),
{
    let chars = chars_of(fen);
    let n = chars.len();
    if n > usize::MAX / 9 {
        return false;
    }
    let mut matrix = [[0i32; 8]; 8];
    assert(grid(matrix) =~~= empty_grid());
    let mut i: usize = 0;
    let mut j: usize = 0;
    let mut k: usize = 0;
    assert(chars@.subrange(0, n as int) =~= chars@);
    while k < n
        invariant
            0 <= k <= n,
            n == chars@.len(),
            chars@ == fen@,
            9 * n <= usize::MAX,
            i <= k,
            j <= 9 * k,
            fen_ok(fen@, (empty_grid(), 0, 0)) == fen_ok(chars@.subrange(k as int, n as int), (grid(matrix), i as int, j as int)),
        decreases n - k,
    {
        let c = chars[k];
        let ghost rest = chars@.subrange(k as int, n as int);
        assert(rest.drop_first() =~= chars@.subrange(k + 1, n as int));
        assert(rest[0] == c);
        if c == '/' {
            i += 1;
            j = 0;
        } else if '0' <= c && c <= '9' {
            let d = (c as u32 - '0' as u32) as usize;
            j += d;
        } else {
            if i >= 8 || j >= 8 {
                return false;
            }
            let piece = fen_piece_of(c);
            let ghost before = grid(matrix);
            matrix[i][j] = piece;
            assert(grid(matrix) =~~= set_cell(before, i as int, j as int, piece));
            j += 1;
        }
        k += 1;
    }
    true
}

/// A square's content that FEN can write: a piece code or 0.
pub open spec fn fen_code(p: i32) -> bool {
    p == 0 || piece_char(p) is Some
}

proof fn lemma_fen_run_concat(a: Seq<char>, b: Seq<char>, st: (Seq<Seq<i32>>, int, int))
    ensures
        fen_run(a + b, st) == fen_run(b, fen_run(a, st)),
        fen_ok(a + b, st) == (fen_ok(a, st) && fen_ok(b, fen_run(a, st))),
    decreases a.len(),
{
    if a.len() == 0 {
        assert(a + b =~= b);
    } else {
        assert((a + b).drop_first() =~= a.drop_first() + b);
        assert((a + b)[0] == a[0]);
        lemma_fen_run_concat(a.drop_first(), b, fen_step(st, a[0]));
    }
}

proof fn lemma_fen_run_one(c: char, st: (Seq<Seq<i32>>, int, int))
    ensures
        fen_run(seq![c], st) == fen_step(st, c),
        fen_ok(seq![c], st) == fen_step_ok(st, c),
{
    let e = Seq::<char>::empty();
    assert(seq![c].drop_first() =~= e);
    assert(seq![c][0] == c);
    assert(fen_run(e, fen_step(st, c)) == fen_step(st, c));
    assert(fen_ok(e, fen_step(st, c)));
}

proof fn lemma_row_text_len(s: Seq<i32>, c: int)
    requires
        c >= 0,
    ensures
        row_text(s, c).len() <= s.len() + c,
    decreases s.len(),
{
    if s.len() > 0 {
        if s[0] == 0 {
            lemma_row_text_len(s.drop_first(), c + 1);
        } else if piece_char(s[0]) is Some {
            lemma_row_text_len(s.drop_first(), 0);
        } else {
            lemma_row_text_len(s.drop_first(), c);
        }
    }
}

proof fn lemma_rows_text_len(g: Seq<Seq<i32>>, k: int)
    requires
        is_grid(g),
        1 <= k <= 8,
    ensures
        rows_text(g, k).len() <= 9 * k - 1,
    decreases k,
{
    lemma_row_text_len(g[k - 1], 0);
    if k > 1 {
        lemma_rows_text_len(g, k - 1);
    }
}

/// Reading the text of row `r` (from column y on, c empty squares pending)
/// into row i puts exactly `r` there and ends at column 8.
proof fn lemma_row_run(r: Seq<i32>, y: int, c: int, g: Seq<Seq<i32>>, i: int)
    requires
        r.len() == 8,
        forall|k: int| 0 <= k < 8 ==> fen_code(#[trigger] r[k]),
        0 <= c <= y <= 8,
        0 <= i < 8,
        is_grid(g),
        forall|k: int| y - c <= k < y ==> #[trigger] r[k] == 0,
        forall|k: int| 0 <= k < y - c ==> #[trigger] g[i][k] == r[k],
        forall|k: int| y - c <= k < 8 ==> #[trigger] g[i][k] == 0,
    ensures
        fen_ok(row_text(r.subrange(y, 8), c), (g, i, y - c)),
        fen_run(row_text(r.subrange(y, 8), c), (g, i, y - c)) == (g.update(i, r), i, 8int),
    decreases 8 - y,
{
    let sub = r.subrange(y, 8);
    if y == 8 {
        assert(sub =~= Seq::<i32>::empty());
        assert(g[i] =~= r);
        assert(g.update(i, r) =~= g);
        if c > 0 {
            lemma_fen_run_one(digit_char(c), (g, i, y - c));
        }
    } else {
        assert(sub.drop_first() =~= r.subrange(y + 1, 8));
        assert(sub[0] == r[y]);
        if r[y] == 0 {
            lemma_row_run(r, y + 1, c + 1, g, i);
        } else {
            let ch = piece_char(r[y])->0;
            assert(fen_piece(ch) == r[y]);
            let st0 = (g, i, y - c);
            let st1 = fen_run(count_text(c), st0);
            if c > 0 {
                lemma_fen_run_one(digit_char(c), st0);
            } else {
                assert(count_text(c) =~= Seq::<char>::empty());
            }
            assert(st1 == (g, i, y));
            let g2 = set_cell(g, i, y, r[y]);
            lemma_fen_run_one(ch, st1);
            lemma_row_run(r, y + 1, 0, g2, i);
            let t = row_text(r.subrange(y + 1, 8), 0);
            lemma_fen_run_concat(count_text(c), seq![ch], st0);
            lemma_fen_run_concat(count_text(c) + seq![ch], t, st0);
            assert(g2.update(i, r) =~= g.update(i, r));
        }
    }
}

/// Rows 0 to k - 1 of `g`, the others empty.
pub open spec fn first_rows(g: Seq<Seq<i32>>, k: int) -> Seq<Seq<i32>> {
    Seq::new(8, |r: int| if r < k { g[r] } else { Seq::new(8, |c: int| 0i32) })
}

proof fn lemma_rows_run(g: Seq<Seq<i32>>, k: int)
    requires
        is_grid(g),
        forall|r: int, c: int| in_bounds(r, c) ==> fen_code(#[trigger] g[r][c]),
        1 <= k <= 8,
    ensures
        fen_ok(rows_text(g, k), (empty_grid(), 0, 0)),
        fen_run(rows_text(g, k), (empty_grid(), 0, 0)) == (first_rows(g, k), k - 1, 8int),
    decreases k,
{
    let row = g[k - 1];
    assert forall|c: int| 0 <= c < 8 implies fen_code(#[trigger] row[c]) by {
        assert(in_bounds(k - 1, c));
    }
    assert(row.subrange(0, 8) =~= row);
    if k == 1 {
        lemma_row_run(row, 0, 0, empty_grid(), 0);
        assert(empty_grid().update(0, row) =~~= first_rows(g, 1));
    } else {
        lemma_rows_run(g, k - 1);
        let st0 = (empty_grid(), 0int, 0int);
        let p = first_rows(g, k - 1);
        lemma_fen_run_one('/', (p, k - 2, 8));
        lemma_row_run(row, 0, 0, p, k - 1);
        lemma_fen_run_concat(rows_text(g, k - 1), seq!['/'], st0);
        lemma_fen_run_concat(rows_text(g, k - 1) + seq!['/'], row_text(row, 0), st0);
        assert(p.update(k - 1, row) =~~= first_rows(g, k));
    }
}

/// FEN export and import are inverse on boards whose squares hold piece
/// codes or 0: reading back the text that `matrix_to_fen` writes gives the
/// same board, and `fen_to_matrix` accepts that text.
pub proof fn lemma_fen_round_trip(m: [[i32; 8]; 8])
    requires
        forall|r: int, c: int| in_bounds(r, c) ==> fen_code(#[trigger] m@[r]@[c]),
    ensures
        fen_ok(fen_text(grid(m)), (empty_grid(), 0, 0)),
        fen_text(grid(m)).len() <= 71,
        fen_board(fen_text(grid(m))) == grid(m),
{
    let g = grid(m);
    assert(is_grid(g));
    assert forall|r: int, c: int| in_bounds(r, c) implies fen_code(#[trigger] g[r][c]) by {
        assert(g[r][c] == m@[r]@[c]);
    }
    lemma_rows_run(g, 8);
    lemma_rows_text_len(g, 8);
    assert(first_rows(g, 8) =~~= g);
}


/// The number of squares a FEN rank covers: a digit its value, any other
/// character one.
pub open spec fn rank_squares(r: Seq<char>) -> int
    decreases r.len(),
{
    if r.len() == 0 {
        0
    } else {
        (if is_digit_char(r[0]) {
            digit_value(r[0])
        } else {
            1
        }) + rank_squares(r.drop_first())
    }
}

/// The characters of a rank in canonical form: piece letters and digits 1
/// to 8, never two digits in a row.
pub open spec fn rank_ok(r: Seq<char>) -> bool
    decreases r.len(),
{
    if r.len() == 0 {
        true
    } else if '1' <= r[0] <= '8' {
        (r.len() == 1 || fen_piece(r[1]) != 0) && rank_ok(r.drop_first())
    } else {
        fen_piece(r[0]) != 0 && rank_ok(r.drop_first())
    }
}

/// A rank of a canonical FEN piece placement: piece letters and digits 1
/// to 8, never two digits in a row, covering eight squares.
pub open spec fn canonical_rank(r: Seq<char>) -> bool {
    rank_ok(r) && rank_squares(r) == 8
}

/// The placement text of ranks 0 to k - 1 joined by '/'.
pub open spec fn placement(ranks: Seq<Seq<char>>, k: int) -> Seq<char>
    decreases k,
{
    if k <= 1 {
        ranks[0]
    } else {
        placement(ranks, k - 1) + seq!['/'] + ranks[k - 1]
    }
}

/// `n` empty squares.
pub open spec fn zeros(n: int) -> Seq<i32> {
    Seq::new(n as nat, |k: int| 0i32)
}

/// The squares a rank describes: a digit gives that many empty squares,
/// any other character its piece.
pub open spec fn rank_board(r: Seq<char>) -> Seq<i32>
    decreases r.len(),
{
    if r.len() == 0 {
        Seq::empty()
    } else if is_digit_char(r[0]) {
        zeros(digit_value(r[0])) + rank_board(r.drop_first())
    } else {
        seq![fen_piece(r[0])] + rank_board(r.drop_first())
    }
}

proof fn lemma_rank_board_len(r: Seq<char>)
    ensures
        rank_board(r).len() == rank_squares(r),
        rank_squares(r) >= 0,
        rank_ok(r) ==> r.len() <= rank_squares(r),
    decreases r.len(),
{
    if r.len() > 0 {
        lemma_rank_board_len(r.drop_first());
    }
}

proof fn lemma_row_text_zeros(n: int, s: Seq<i32>, c: int)
    requires
        n >= 0,
    ensures
        row_text(zeros(n) + s, c) == row_text(s, c + n),
    decreases n,
{
    if n > 0 {
        assert((zeros(n) + s).drop_first() =~= zeros(n - 1) + s);
        assert((zeros(n) + s)[0] == 0);
        lemma_row_text_zeros(n - 1, s, c + 1);
    } else {
        assert(zeros(n) + s =~= s);
    }
}

/// Writing the squares of a canonical rank gives the rank back.
proof fn lemma_rank_written(r: Seq<char>)
    requires
        rank_ok(r),
    ensures
        row_text(rank_board(r), 0) == r,
    decreases r.len(),
{
    if r.len() == 0 {
        assert(count_text(0) =~= r);
    } else {
        let rest = r.drop_first();
        if '1' <= r[0] <= '8' {
            let d = digit_value(r[0]);
            lemma_row_text_zeros(d, rank_board(rest), 0);
            assert(digit_char(d) == r[0]);
            if rest.len() == 0 {
                assert(rank_board(rest) =~= Seq::<i32>::empty());
                assert(count_text(d) =~= r);
            } else {
                let p = fen_piece(rest[0]);
                let tail = rest.drop_first();
                assert(rank_ok(rest));
                assert(!('1' <= rest[0] <= '8'));
                assert(rank_ok(tail));
                lemma_rank_written(tail);
                assert(!is_digit_char(rest[0]));
                assert(rank_board(rest) == seq![p] + rank_board(tail));
                assert((seq![p] + rank_board(tail)).drop_first() =~= rank_board(tail));
                assert((seq![p] + rank_board(tail))[0] == p);
                assert(piece_char(p) == Some(rest[0]));
                assert(r =~= count_text(d) + seq![rest[0]] + tail);
            }
        } else {
            let p = fen_piece(r[0]);
            lemma_rank_written(rest);
            assert((seq![p] + rank_board(rest)).drop_first() =~= rank_board(rest));
            assert((seq![p] + rank_board(rest))[0] == p);
            assert(piece_char(p) == Some(r[0]));
            assert(r =~= count_text(0) + seq![r[0]] + rest);
        }
    }
}

/// Reading a rank into row i from column j on, where the row is empty from
/// j on, puts the rank's squares there.
proof fn lemma_rank_read(r: Seq<char>, g: Seq<Seq<i32>>, i: int, j: int)
    requires
        rank_ok(r),
        is_grid(g),
        0 <= i < 8,
        0 <= j,
        j + rank_squares(r) <= 8,
        forall|k: int| j <= k < 8 ==> #[trigger] g[i][k] == 0,
    ensures
        fen_ok(r, (g, i, j)),
        fen_run(r, (g, i, j)) == (g.update(i, g[i].take(j) + rank_board(r) + g[i].skip(j + rank_squares(r))), i, j
            + rank_squares(r)),
    decreases r.len(),
{
    lemma_rank_board_len(r);
    if r.len() == 0 {
        assert(g[i].take(j) + rank_board(r) + g[i].skip(j) =~= g[i]);
        assert(g.update(i, g[i]) =~= g);
    } else {
        let rest = r.drop_first();
        lemma_rank_board_len(rest);
        if '1' <= r[0] <= '8' {
            let d = digit_value(r[0]);
            lemma_rank_read(rest, g, i, j + d);
            assert(g[i].take(j + d) + rank_board(rest) + g[i].skip(j + d + rank_squares(rest)) =~= g[i].take(j)
                + rank_board(r) + g[i].skip(j + rank_squares(r)));
        } else {
            let p = fen_piece(r[0]);
            let g2 = set_cell(g, i, j, p);
            lemma_rank_read(rest, g2, i, j + 1);
            assert(g2[i].take(j + 1) + rank_board(rest) + g2[i].skip(j + 1 + rank_squares(rest)) =~= g[i].take(j)
                + rank_board(r) + g[i].skip(j + rank_squares(r)));
            assert(g2.update(i, g[i].take(j) + rank_board(r) + g[i].skip(j + rank_squares(r))) =~= g.update(
                i,
                g[i].take(j) + rank_board(r) + g[i].skip(j + rank_squares(r)),
            ));
        }
    }
}

/// The board of ranks 0 to k - 1, the other rows empty.
pub open spec fn ranks_board(ranks: Seq<Seq<char>>, k: int) -> Seq<Seq<i32>> {
    Seq::new(8, |r: int| if r < k { rank_board(ranks[r]) } else { Seq::new(8, |c: int| 0i32) })
}

proof fn lemma_placement_read(ranks: Seq<Seq<char>>, k: int)
    requires
        ranks.len() == 8,
        forall|r: int| 0 <= r < 8 ==> canonical_rank(#[trigger] ranks[r]),
        1 <= k <= 8,
    ensures
        fen_ok(placement(ranks, k), (empty_grid(), 0, 0)),
        fen_run(placement(ranks, k), (empty_grid(), 0, 0)) == (ranks_board(ranks, k), k - 1, 8int),
        placement(ranks, k).len() <= 9 * k - 1,
    decreases k,
{
    let rank = ranks[k - 1];
    assert(canonical_rank(rank));
    lemma_rank_board_len(rank);
    let st0 = (empty_grid(), 0int, 0int);
    if k == 1 {
        lemma_rank_read(rank, empty_grid(), 0, 0);
        assert(empty_grid().update(0, empty_grid()[0].take(0) + rank_board(rank) + empty_grid()[0].skip(8))
            =~~= ranks_board(ranks, 1));
    } else {
        lemma_placement_read(ranks, k - 1);
        let p = ranks_board(ranks, k - 1);
        lemma_fen_run_one('/', (p, k - 2, 8));
        assert(is_grid(p)) by {
            assert forall|r: int| 0 <= r < 8 implies #[trigger] p[r].len() == 8 by {
                if r < k - 1 {
                    lemma_rank_board_len(ranks[r]);
                }
            }
        }
        lemma_rank_read(rank, p, k - 1, 0);
        lemma_fen_run_concat(placement(ranks, k - 1), seq!['/'], st0);
        lemma_fen_run_concat(placement(ranks, k - 1) + seq!['/'], rank, st0);
        assert(p.update(k - 1, p[k - 1].take(0) + rank_board(rank) + p[k - 1].skip(8)) =~~= ranks_board(ranks, k));
    }
}

proof fn lemma_placement_written(ranks: Seq<Seq<char>>, k: int)
    requires
        ranks.len() == 8,
        forall|r: int| 0 <= r < 8 ==> canonical_rank(#[trigger] ranks[r]),
        1 <= k <= 8,
    ensures
        rows_text(ranks_board(ranks, 8), k) == placement(ranks, k),
    decreases k,
{
    assert(canonical_rank(ranks[k - 1]));
    lemma_rank_written(ranks[k - 1]);
    if k > 1 {
        lemma_placement_written(ranks, k - 1);
    }
}

/// FEN import and export are inverse on canonical placements: reading a
/// placement of eight canonical ranks joined by '/' (as `fen_to_matrix`
/// does; it accepts the text) and writing the board back (as
/// `matrix_to_fen` does) gives the same text.
pub proof fn lemma_fen_text_round_trip(ranks: Seq<Seq<char>>)
    requires
        ranks.len() == 8,
        forall|r: int| 0 <= r < 8 ==> canonical_rank(#[trigger] ranks[r]),
    ensures
        fen_ok(placement(ranks, 8), (empty_grid(), 0, 0)),
        placement(ranks, 8).len() <= 71,
        fen_text(fen_board(placement(ranks, 8))) == placement(ranks, 8),
{
    lemma_placement_read(ranks, 8);
    lemma_placement_written(ranks, 8);
}

} // verus!
