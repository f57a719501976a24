//! The text exchanged with a UCI engine: the position sent to it and the
//! lines read back.
use vstd::prelude::*;
use vstd::string::*;

use crate::text::{
    append_chars, begins_with, chars_of, chars_to_string, contains_text, decimal, has_text, parse_i32, push_decimal,
    spec_parse_i32, split_words, starts_with, views, words,
};

verus! {

/// Integer division truncating toward zero, as Rust's `/` on signed values.
pub open spec fn tdiv(a: int, b: int) -> int {
    if a >= 0 {
        a / b
    } else {
        -((-a) / b)
    }
}

/// The FEN text sent to the engine: the piece placement, the side to move
/// ("w" for colour 0, else "b"), castling "KQkq", no en passant square, 0
/// half moves, and move number gm / 2 + 1.
pub open spec fn spec_fen_with_turn(fen: Seq<char>, player_color: int, gm: int) -> Seq<char> {
    fen + seq![' '] + (if player_color == 0 {
        "w"@
    } else {
        "b"@
    }) + " KQkq - 0 "@ + decimal(tdiv(gm, 2) + 1)
}

pub fn fen_with_turn(fen: &str, player_color: i32, gm_round: i32) -> (r: String)
    ensures
        r@ == spec_fen_with_turn(fen@, player_color as int, gm_round as int),
{
    let mut r = String::from_str(fen);
    r.append(" ");
    if player_color == 0 {
        r.append("w");
    } else {
        r.append("b");
    }
    r.append(" KQkq - 0 ");
    let number: i64 = (gm_round / 2) as i64 + 1;
    push_decimal(&mut r, number);
    proof {
        reveal_strlit(" ");
    }
    assert(r@ =~= spec_fen_with_turn(fen@, player_color as int, gm_round as int));
    r
}

/// The engine's "readyok" answer occurs in the line.
pub fn is_ready_line(line: &str) -> (r: bool)
    ensures
        r == contains_text(line@, "readyok"@),
{
    let chars = chars_of(line);
    has_text(&chars, "readyok")
}

/// The move of a "bestmove" line: its second word. A "bestmove" line of one
/// word names no move; that input is left out.
pub fn best_move_of(line: &str) -> (r: Option<String>)
    requires
        starts_with(line@, "bestmove"@) ==> words(line@).len() >= 2,
    ensures
        r is Some <==> starts_with(line@, "bestmove"@),
        r matches Some(m) ==> m@ == words(line@)[1],
{
    let chars = chars_of(line);
    if begins_with(&chars, "bestmove") {
        let ws = split_words(&chars);
        assert(ws@[1]@ == views(ws@)[1]);
        Some(chars_to_string(&ws[1]))
    } else {
        None
    }
}

/// The first word that reads as an `i32`.
pub open spec fn first_number(ws: Seq<Seq<char>>) -> Option<Seq<char>>
    decreases ws.len(),
{
    if ws.len() == 0 {
        None
    } else if spec_parse_i32(ws[0]) is Some {
        Some(ws[0])
    } else {
        first_number(ws.drop_first())
    }
}

/// What an "info score" line of the engine says, as the game words it: the
/// first word of the line that reads as a number is quoted, after
/// "Valutazione in centipawn: " when the line contains "cp", else in
/// "Matto in ... mosse" when it contains "mate". Other lines say nothing.
pub open spec fn spec_evaluation(line: Seq<char>) -> Option<Seq<char>> {
    if contains_text(line, "info score"@) {
        if contains_text(line, "cp"@) {
            Some("Valutazione in centipawn: "@ + first_number(words(line))->0)
        } else if contains_text(line, "mate"@) {
            Some("Matto in "@ + first_number(words(line))->0 + " mosse"@)
        } else {
            None
        }
    } else {
        None
    }
}

/// The evaluation an engine line gives. A score line with no number in it
/// has nothing to quote; that input is left out.
pub fn evaluation_of(line: &str) -> (r: Option<String>)
    requires
        contains_text(line@, "info score"@) && (contains_text(line@, "cp"@) || contains_text(line@, "mate"@))
            ==> first_number(words(line@)) is Some,
    ensures
        r matches Some(e) ==> spec_evaluation(line@) == Some(e@),
        r is None ==> spec_evaluation(line@) is None,
{
    let chars = chars_of(line);
    if !has_text(&chars, "info score") {
        return None;
    }
    let cp = has_text(&chars, "cp");
    let mate = has_text(&chars, "mate");
    if !cp && !mate {
        return None;
    }
    let ws = split_words(&chars);
    let mut i: usize = 0;
    assert(views(ws@).skip(0) =~= views(ws@));
    while i < ws.len()
        invariant
            0 <= i <= ws@.len(),
            cp == contains_text(line@, "cp"@),
            mate == contains_text(line@, "mate"@),
            cp || mate,
            contains_text(line@, "info score"@),
            views(ws@) == words(line@),
            first_number(words(line@)) == first_number(views(ws@).skip(i as int)),
            first_number(words(line@)) is Some,
        decreases ws@.len() - i,
    {
        assert(views(ws@).skip(i as int)[0] == ws@[i as int]@);
        if parse_i32(&ws[i]).is_some() {
            let mut e = if cp {
                String::from_str("Valutazione in centipawn: ")
            } else {
                String::from_str("Matto in ")
            };
            append_chars(&mut e, &ws[i]);
            if !cp {
                e.append(" mosse");
            }
            assert(first_number(words(line@)) == Some(ws@[i as int]@));
            return Some(e);
        }
        assert(views(ws@).skip(i as int).drop_first() =~= views(ws@).skip(i + 1));
        i += 1;
    }
    assert(views(ws@).skip(ws@.len() as int) =~= Seq::<Seq<char>>::empty());
    None
}


/// Whether `best_move_of` returns on a line: a "bestmove" line has a second
/// word; the game tests it and stops otherwise.
pub fn best_move_line_complete(line: &str) -> (r: bool)
    ensures
        r == (starts_with(line@, "bestmove"@) ==> words(line@).len() >= 2),
{
    let chars = chars_of(line);
    if begins_with(&chars, "bestmove") {
        let ws = split_words(&chars);
        ws.len() >= 2
    } else {
        true
    }
}

/// Whether `evaluation_of` returns on a line: a score line has a word that
/// reads as a number; the game tests it and stops otherwise.
pub fn evaluation_line_complete(line: &str) -> (r: bool)
    ensures
        r == (contains_text(line@, "info score"@) && (contains_text(line@, "cp"@) || contains_text(line@, "mate"@))
            ==> first_number(words(line@)) is Some),
{
    let chars = chars_of(line);
    if !(has_text(&chars, "info score") && (has_text(&chars, "cp") || has_text(&chars, "mate"))) {
        return true;
    }
    let ws = split_words(&chars);
    let mut i: usize = 0;
    assert(views(ws@).skip(0) =~= views(ws@));
    while i < ws.len()
        invariant
            0 <= i <= ws@.len(),
            views(ws@) == words(line@),
            first_number(words(line@)) == first_number(views(ws@).skip(i as int)),
        decreases ws@.len() - i,
    {
        assert(views(ws@).skip(i as int)[0] == ws@[i as int]@);
        if parse_i32(&ws[i]).is_some() {
            return true;
        }
        assert(views(ws@).skip(i as int).drop_first() =~= views(ws@).skip(i + 1));
        i += 1;
    }
    assert(views(ws@).skip(ws@.len() as int) =~= Seq::<Seq<char>>::empty());
    false
}

} // verus!
