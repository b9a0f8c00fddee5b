use crate::parse::{digit_value, file_value};
use crate::text::push_char;
use crate::types::{File, Move, PieceKind, Rank, Square};
use vstd::prelude::*;
use vstd::string::StrSliceExecFns;

verus! {

/// A position text of the starting position.
pub const STARTING_POS_FEN: &'static str = "rnbqkbnr/pppppppp/8/8/8/8/PPPPPPPP/RNBQKBNR w KQkq - 0 1";

/// A position text of a middle game with many kinds of moves, without move counters.
pub const POS_2_KIWIPETE_FEN: &'static str =
    "r3k2r/p1ppqpb1/bn2pnp1/3PN3/1p2P3/2N2Q1p/PPPBBPPP/R3K2R w KQkq - ";

/// A position text of an endgame with pins along a rank, without move counters.
pub const POS_3_FEN: &'static str = "8/2p5/3p4/KP5r/1R3p1k/8/4P1P1/8 w - - ";

/// A position text with promotions and a check to answer.
pub const POS_4_FEN: &'static str = "r3k2r/Pppp1ppp/1b3nbN/nP6/BBP1P3/q4N2/Pp1P2PP/R2Q1RK1 w kq - 0 1";

/// The position of `POS_4_FEN` with the colours exchanged.
pub const POS_4_MIRRORED_FEN: &'static str =
    "r2q1rk1/pP1p2pp/Q4n2/bbp1p3/Np6/1B3NBn/pPPP1PPP/R3K2R b KQ - 0 1 ";

/// A position text with a pawn about to promote by capture.
pub const POS_5_FEN: &'static str = "rnbq1k1r/pp1Pbppp/2p5/8/2B5/8/PPP1NnPP/RNBQK2R w KQ - 1 8";

/// A position text of a symmetrical middle game.
pub const POS_6_FEN: &'static str =
    "r4rk1/1pp1qppp/p1np1n2/2b1p1B1/2B1P1b1/P1NP1N2/1PP1QPPP/R4RK1 w - - 0 10";

/// A position text with an en-passant target.
pub const EN_PASSANT_FEN: &'static str = "rnbqkbnr/1pp1pppp/p7/3pP3/8/8/PPPP1PPP/RNBQKBNR w KQkq d6 0 3";

/// A position text in which the side to move is in check.
pub const IN_CHECK_FEN: &'static str = "rnbqk1nr/pppp1ppp/4p3/8/1b1P4/5N2/PPP1PPPP/RNBQKB1R w KQkq - 2 3";

/// The square that the characters `f` and `r` name: a file letter `a` to `h` and a rank digit
/// `1` to `8`.
pub open spec fn square_named(f: char, r: char) -> Option<Square> {
    if file_value(f) >= 0 && 1 <= digit_value(r) <= 8 {
        Some(Square::at(file_value(f) + 8 * (digit_value(r) - 1)))
    } else {
        None
    }
}

/// The kind that the character `c` names as the piece a pawn promotes to: `q`, `r`, `b` or
/// `n`.
pub open spec fn promotion_named(c: char) -> Option<PieceKind> {
    if c == 'q' {
        Some(PieceKind::Queen)
    } else if c == 'r' {
        Some(PieceKind::Rook)
    } else if c == 'b' {
        Some(PieceKind::Bishop)
    } else if c == 'n' {
        Some(PieceKind::Knight)
    } else {
        None
    }
}

/// The move that the text `s` writes in long algebraic notation: the square left and the
/// square reached, each as file letter and rank digit, and for a promotion the letter of the
/// piece promoted to. Nothing where `s` is no such text.
pub open spec fn parse_move(s: Seq<char>) -> Option<Move> {
    if s.len() == 4 || s.len() == 5 {
        match (square_named(s[0], s[1]), square_named(s[2], s[3])) {
            (Some(from), Some(to)) => if s.len() == 4 {
                Some(Move(from, to, None))
            } else {
                match promotion_named(s[4]) {
                    Some(kind) => Some(Move(from, to, Some(kind))),
                    None => None,
                }
            },
            _ => None,
        }
    } else {
        None
    }
}

impl Square {
    /// The name of this square: file letter, then rank digit.
    pub fn name(self) -> (r: String)
        ensures
            r@ == self.spec_name(),
    {
        let mut s = String::new();
        push_char(&mut s, self.file().to_char());
        push_char(&mut s, self.rank().to_char());
        assert(s@ =~= self.spec_name());
        s
    }

    /// The square that the characters `f` and `r` name.
    pub fn from_chars(f: char, r: char) -> (s: Option<Square>)
        ensures
            s == square_named(f, r),
    {
        match File::from_char(f) {
            Some(file) => match Rank::from_char(r) {
                Some(rank) => Some(Square::from_file_rank(file, rank)),
                None => None,
            },
            None => None,
        }
    }

    /// The square that the text `text` names: a file letter `a` to `h` followed by a rank digit
    /// `1` to `8`, and nothing else.
    pub fn from_name(text: &str) -> (s: Option<Square>)
        ensures
            s == (if text@.len() == 2 {
                square_named(text@[0], text@[1])
            } else {
                None
            }),
    {
        if text.unicode_len() == 2 {
            Square::from_chars(text.get_char(0), text.get_char(1))
        } else {
            None
        }
    }
}

impl Move {
    /// The move in long algebraic notation.
    pub open spec fn text(self) -> Seq<char> {
        self.0.spec_name() + self.1.spec_name() + match self.2 {
            Some(kind) => seq![kind.spec_to_char()],
            None => Seq::empty(),
        }
    }

    /// The move in long algebraic notation, such as `e2e4` or `a7a8q`.
    pub fn notation(&self) -> (r: String)
        ensures
            r@ == self.text(),
    {
        let mut s = String::new();
        push_char(&mut s, self.0.file().to_char());
        push_char(&mut s, self.0.rank().to_char());
        push_char(&mut s, self.1.file().to_char());
        push_char(&mut s, self.1.rank().to_char());
        if let Some(kind) = self.2 {
            push_char(&mut s, kind.to_char());
        }
        assert(s@ =~= self.text());
        s
    }

    /// The move that the text `text` writes in long algebraic notation, or nothing where it
    /// writes none.
    pub fn parse(text: &str) -> (r: Option<Move>)
        ensures
            r == parse_move(text@),
    {
        let len = text.unicode_len();
        if len != 4 && len != 5 {
            return None;
        }
        let from = match Square::from_chars(text.get_char(0), text.get_char(1)) {
            Some(s) => s,
            None => {
                return None;
            },
        };
        let to = match Square::from_chars(text.get_char(2), text.get_char(3)) {
            Some(s) => s,
            None => {
                return None;
            },
        };
        if len == 4 {
            return Some(Move(from, to, None));
        }
        let kind = match text.get_char(4) {
            'q' => PieceKind::Queen,
            'r' => PieceKind::Rook,
            'b' => PieceKind::Bishop,
            'n' => PieceKind::Knight,
            _ => {
                return None;
            },
        };
        Some(Move(from, to, Some(kind)))
    }

    /// Reading the notation of a move gives the move back, for every move without promotion
    /// and every promotion to a queen, rook, bishop or knight.
    pub proof fn lemma_parse_text(self)
        requires
            self.2 is Some ==> self.2->0.spec_is_promotion_target(),
        ensures
            parse_move(self.text()) == Some(self),
    {
        self.0.lemma_idx_at();
        self.1.lemma_idx_at();
        let s = self.text();
        assert(s[0] == self.0.spec_file().spec_to_char());
        assert(s[1] == self.0.spec_rank().spec_to_char());
        assert(s[2] == self.1.spec_file().spec_to_char());
        assert(s[3] == self.1.spec_rank().spec_to_char());
        lemma_square_named(self.0);
        lemma_square_named(self.1);
    }
}

/// The characters of a square's name name that square.
pub proof fn lemma_square_named(sq: Square)
    ensures
        square_named(sq.spec_file().spec_to_char(), sq.spec_rank().spec_to_char()) == Some(sq),
{
    sq.lemma_idx_at();
    let f = sq.idx() % 8;
    let r = sq.idx() / 8;
    File::lemma_at_idx(f);
    Rank::lemma_at_idx(r);
    assert(file_value(File::at(f).spec_to_char()) == f);
    assert(digit_value(Rank::at(r).spec_to_char()) == r + 1);
}

} // verus!
