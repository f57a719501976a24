//! The commands typed at the game's prompt and the settings they change.
use vstd::prelude::*;
use vstd::string::*;

use crate::text::{
    begins_with, chars_of, chars_to_string, lemma_trim_end_last, lemma_trim_idempotent_shape, lemma_words_nonempty, lemma_words_skip_word, parse_i32, remove_all,
    remove_text, same_text, spec_is_white_space, spec_parse_i32, split_words, starts_with, trim, trim_chars,
    trim_end, trim_start, views, words,
};

verus! {

/// What "enemy set ..." asks for.
#[derive(PartialEq, Eq, Structural, Clone, Copy)]
pub enum EnemyChoice {
    White,
    Black,
    /// Three words, the third neither "white" nor "black".
    Unknown,
    /// Not three words: nothing is done.
    Ignored,
}

/// A line typed at the prompt, by the first test of the game loop that it
/// passes.
#[derive(PartialEq, Eq, Structural, Clone, Copy)]
pub enum Command {
    EnemyOn,
    Help,
    EnemyOff,
    EnemySet { choice: EnemyChoice },
    /// "set depth n": the number, if it reads as an `i32`.
    SetDepth { value: Option<i32> },
    /// "set aggressiveness n": the number, if it reads as an `i32`.
    SetAggressiveness { value: Option<i32> },
    Exit,
    CastleLong,
    CastleShort,
    ShowPiece,
    ShowFen,
    ShowSuggestedMove,
    /// "import fen ...": the text is given by `import_fen_text`.
    ImportFen,
    /// Anything else is tried as a move.
    Play,
}

pub open spec fn enemy_choice(ws: Seq<Seq<char>>) -> EnemyChoice {
    if ws.len() != 3 {
        EnemyChoice::Ignored
    } else if ws[2] == "white"@ {
        EnemyChoice::White
    } else if ws[2] == "black"@ {
        EnemyChoice::Black
    } else {
        EnemyChoice::Unknown
    }
}

/// The command a line stands for; the line is read without the white
/// space around it.
pub open spec fn spec_command(line: Seq<char>) -> Command {
    let t = trim(line);
    if t == "enemy on"@ {
        Command::EnemyOn
    } else if t == "help"@ {
        Command::Help
    } else if t == "enemy off"@ {
        Command::EnemyOff
    } else if starts_with(t, "enemy set "@) {
        Command::EnemySet { choice: enemy_choice(words(t)) }
    } else if starts_with(t, "set depth "@) {
        Command::SetDepth { value: spec_parse_i32(words(t)[2]) }
    } else if starts_with(t, "set aggressiveness "@) {
        Command::SetAggressiveness { value: spec_parse_i32(words(t)[2]) }
    } else if t == "exit"@ {
        Command::Exit
    } else if t == "0-0-0"@ {
        Command::CastleLong
    } else if t == "0-0"@ {
        Command::CastleShort
    } else if t == "show piece"@ {
        Command::ShowPiece
    } else if t == "show fen"@ {
        Command::ShowFen
    } else if t == "show suggested move"@ {
        Command::ShowSuggestedMove
    } else if starts_with(t, "import fen "@) {
        Command::ImportFen
    } else {
        Command::Play
    }
}

/// A trimmed line beginning with "w1 w2 " (two words, a space after each)
/// has at least three words.
proof fn lemma_third_word(t: Seq<char>, first: int, second: int)
    requires
        t == trim_end(trim_start(t)),
        0 < first,
        first + 1 < second,
        second + 1 < t.len() || second + 1 == t.len(),
        second < t.len(),
        forall|i: int| 0 <= i < first ==> !spec_is_white_space(#[trigger] t[i]),
        spec_is_white_space(t[first]),
        forall|i: int| first < i < second ==> !spec_is_white_space(#[trigger] t[i]),
        spec_is_white_space(t[second]),
    ensures
        words(t).len() >= 3,
{
    lemma_trim_end_last(trim_start(t));
    assert(!spec_is_white_space(t.last()));
    lemma_words_skip_word(t, 0, first);
    lemma_words_skip_word(t, first + 1, second);
    assert(second + 1 < t.len());
    lemma_words_nonempty(t, second + 1, t.len() - 1);
}

/// Reads a line typed at the prompt as a command.
pub fn parse_command(line: &str) -> (cmd: Command)
    ensures
        cmd == spec_command(line@),
{
    let chars = chars_of(line);
    let t = trim_chars(&chars);
    proof {
        lemma_trim_idempotent_shape(line@);
    }
    if same_text(&t, "enemy on") {
        Command::EnemyOn
    } else if same_text(&t, "help") {
        Command::Help
    } else if same_text(&t, "enemy off") {
        Command::EnemyOff
    } else if begins_with(&t, "enemy set ") {
        let ws = split_words(&t);
        let choice = if ws.len() != 3 {
            EnemyChoice::Ignored
        } else if same_text(&ws[2], "white") {
            EnemyChoice::White
        } else if same_text(&ws[2], "black") {
            EnemyChoice::Black
        } else {
            EnemyChoice::Unknown
        };
        Command::EnemySet { choice }
    } else if begins_with(&t, "set depth ") {
        let ws = split_words(&t);
        proof {
            reveal_strlit("set depth ");
            let lit = "set depth "@;
            assert(t@.take(10) == lit);
            assert forall|i: int| 0 <= i < 10 implies t@[i] == lit[i] by {
                assert(t@.take(10)[i] == t@[i]);
            }
            assert(lit[0] == 's' && lit[1] == 'e' && lit[2] == 't' && lit[3] == ' ');
            assert(lit[4] == 'd' && lit[5] == 'e' && lit[6] == 'p' && lit[7] == 't' && lit[8] == 'h' && lit[9] == ' ');
            assert(t@.len() > 10) by {
                lemma_trim_end_last(trim_start(line@));
            }
            lemma_third_word(t@, 3, 9);
        }
        Command::SetDepth { value: parse_i32(&ws[2]) }
    } else if begins_with(&t, "set aggressiveness ") {
        let ws = split_words(&t);
        proof {
            reveal_strlit("set aggressiveness ");
            let lit = "set aggressiveness "@;
            assert(t@.take(19) == lit);
            assert forall|i: int| 0 <= i < 19 implies t@[i] == lit[i] by {
                assert(t@.take(19)[i] == t@[i]);
            }
            assert(lit[0] == 's' && lit[1] == 'e' && lit[2] == 't' && lit[3] == ' ');
            assert(lit[4] == 'a' && lit[5] == 'g' && lit[6] == 'g' && lit[7] == 'r' && lit[8] == 'e' && lit[9] == 's');
            assert(lit[10] == 's' && lit[11] == 'i' && lit[12] == 'v' && lit[13] == 'e' && lit[14] == 'n' && lit[15] == 'e');
            assert(lit[16] == 's' && lit[17] == 's' && lit[18] == ' ');
            assert(t@.len() > 19) by {
                lemma_trim_end_last(trim_start(line@));
            }
            lemma_third_word(t@, 3, 18);
        }
        Command::SetAggressiveness { value: parse_i32(&ws[2]) }
    } else if same_text(&t, "exit") {
        Command::Exit
    } else if same_text(&t, "0-0-0") {
        Command::CastleLong
    } else if same_text(&t, "0-0") {
        Command::CastleShort
    } else if same_text(&t, "show piece") {
        Command::ShowPiece
    } else if same_text(&t, "show fen") {
        Command::ShowFen
    } else if same_text(&t, "show suggested move") {
        Command::ShowSuggestedMove
    } else if begins_with(&t, "import fen ") {
        Command::ImportFen
    } else {
        Command::Play
    }
}

/// The FEN text of an "import fen ..." line: the line without white space
/// around it and with every "import fen " in it taken out.
pub fn import_fen_text(line: &str) -> (fen: String)
    ensures
        fen@ == remove_all(trim(line@), "import fen "@),
{
    let chars = chars_of(line);
    let t = trim_chars(&chars);
    let f = remove_text(&t, "import fen ");
    chars_to_string(&f)
}


/// The settings of a game that the prompt's commands change.
pub struct Session {
    /// Whether the engine plays one side.
    pub enemy_active: bool,
    /// The side the engine plays: white (true) or black (false).
    pub enemy_white: bool,
    /// The search depth asked of the engine.
    pub depth: i32,
    /// The level of aggressiveness set by the user.
    pub aggressiveness: i32,
    /// Whether the captured pieces are shown.
    pub show_piece: bool,
    /// Whether the FEN of the board is shown.
    pub show_fen: bool,
    /// Whether the engine's suggested move is shown.
    pub show_suggested_move: bool,
}

/// The settings after a command: "enemy on"/"off" switch the engine,
/// "enemy set white|black" chooses its side, "set depth" and "set
/// aggressiveness" store a number that reads as one, the "show" commands
/// flip their flag; other commands change no setting.
pub open spec fn session_after(s: Session, cmd: Command) -> Session {
    match cmd {
        Command::EnemyOn => Session { enemy_active: true, ..s },
        Command::EnemyOff => Session { enemy_active: false, ..s },
        Command::EnemySet { choice: EnemyChoice::White } => Session { enemy_white: true, ..s },
        Command::EnemySet { choice: EnemyChoice::Black } => Session { enemy_white: false, ..s },
        Command::SetDepth { value: Some(v) } => Session { depth: v, ..s },
        Command::SetAggressiveness { value: Some(v) } => Session { aggressiveness: v, ..s },
        Command::ShowPiece => Session { show_piece: !s.show_piece, ..s },
        Command::ShowFen => Session { show_fen: !s.show_fen, ..s },
        Command::ShowSuggestedMove => Session { show_suggested_move: !s.show_suggested_move, ..s },
        _ => s,
    }
}

/// The "show" commands switch their display on and off: giving one twice
/// leaves the settings as they were.
pub proof fn lemma_show_twice_restores(s: Session, cmd: Command)
    requires
        cmd == Command::ShowPiece || cmd == Command::ShowFen || cmd == Command::ShowSuggestedMove,
    ensures
        session_after(session_after(s, cmd), cmd) == s,
{
}

impl Session {
    /// The settings a game starts with: no engine (black when switched on),
    /// depth 5, aggressiveness 1, nothing extra shown.
    pub fn new() -> (s: Session)
        ensures
            s == (Session {
                enemy_active: false,
                enemy_white: false,
                depth: 5,
                aggressiveness: 1,
                show_piece: false,
                show_fen: false,
                show_suggested_move: false,
            }),
    {
        Session {
            enemy_active: false,
            enemy_white: false,
            depth: 5,
            aggressiveness: 1,
            show_piece: false,
            show_fen: false,
            show_suggested_move: false,
        }
    }

    /// Whether the engine is to play in round `gm`: it is switched on and
    /// its side (white on even rounds, black on odd ones) is to move.
    pub fn enemy_to_move(&self, gm: i32) -> (r: bool)
        ensures
            r == (self.enemy_active && ((self.enemy_white && crate::board::rem2(gm as int) == 0) || (!self.enemy_white
                && crate::board::rem2(gm as int) == 1))),
    {
        self.enemy_active && ((self.enemy_white && gm % 2 == 0) || (!self.enemy_white && gm % 2 == 1))
    }

    /// Applies the settings part of a command.
    pub fn apply(&mut self, cmd: Command)
        ensures
            *final(self) == session_after(*old(self), cmd),
    {
        match cmd {
            Command::EnemyOn => {
                self.enemy_active = true;
            },
            Command::EnemyOff => {
                self.enemy_active = false;
            },
            Command::EnemySet { choice } => match choice {
                EnemyChoice::White => {
                    self.enemy_white = true;
                },
                EnemyChoice::Black => {
                    self.enemy_white = false;
                },
                _ => {},
            },
            Command::SetDepth { value } => match value {
                Some(v) => {
                    self.depth = v;
                },
                None => {},
            },
            Command::SetAggressiveness { value } => match value {
                Some(v) => {
                    self.aggressiveness = v;
                },
                None => {},
            },
            Command::ShowPiece => {
                self.show_piece = !self.show_piece;
            },
            Command::ShowFen => {
                self.show_fen = !self.show_fen;
            },
            Command::ShowSuggestedMove => {
                self.show_suggested_move = !self.show_suggested_move;
            },
            _ => {},
        }
    }
}

} // verus!
