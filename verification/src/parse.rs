use crate::board::{Board, Position};
use crate::castling::{Castling, CastlingRight};
use crate::lookup_tables::LookupTables;
use crate::text::{push_char, push_text};
use crate::types::{File, Piece, Player, Rank, Square};
use crate::validate::Violation;
use vstd::prelude::*;
use vstd::string::StrSliceExecFns;
use vstd::string::StringExecFns;

verus! {

/// Whether `c` is white space, which separates the fields of a position text: a blank, a
/// tab, a line feed, a vertical tab, a form feed, a carriage return, or one of the other
/// characters that Unicode counts as white space.
pub open spec fn is_space(c: char) -> bool {
    c == '\u{9}'
        || c == '\u{a}'
        || c == '\u{b}'
        || c == '\u{c}'
        || c == '\u{d}'
        || c == '\u{20}'
        || c == '\u{85}'
        || c == '\u{a0}'
        || c == '\u{1680}'
        || c == '\u{2000}'
        || c == '\u{2001}'
        || c == '\u{2002}'
        || c == '\u{2003}'
        || c == '\u{2004}'
        || c == '\u{2005}'
        || c == '\u{2006}'
        || c == '\u{2007}'
        || c == '\u{2008}'
        || c == '\u{2009}'
        || c == '\u{200a}'
        || c == '\u{2028}'
        || c == '\u{2029}'
        || c == '\u{202f}'
        || c == '\u{205f}'
        || c == '\u{3000}'
}

/// The value of the decimal digit `c`; -1 for any other character.
pub open spec fn digit_value(c: char) -> int {
    if c == '0' {
        0
    } else if c == '1' {
        1
    } else if c == '2' {
        2
    } else if c == '3' {
        3
    } else if c == '4' {
        4
    } else if c == '5' {
        5
    } else if c == '6' {
        6
    } else if c == '7' {
        7
    } else if c == '8' {
        8
    } else if c == '9' {
        9
    } else {
        -1
    }
}

/// The piece that the letter `c` stands for; a white rook for any other character.
pub open spec fn piece_of_char(c: char) -> Piece {
    if c == 'N' {
        Piece::WhiteKnight
    } else if c == 'B' {
        Piece::WhiteBishop
    } else if c == 'Q' {
        Piece::WhiteQueen
    } else if c == 'K' {
        Piece::WhiteKing
    } else if c == 'P' {
        Piece::WhitePawn
    } else if c == 'r' {
        Piece::BlackRook
    } else if c == 'n' {
        Piece::BlackKnight
    } else if c == 'b' {
        Piece::BlackBishop
    } else if c == 'q' {
        Piece::BlackQueen
    } else if c == 'k' {
        Piece::BlackKing
    } else if c == 'p' {
        Piece::BlackPawn
    } else {
        Piece::WhiteRook
    }
}

/// The index of the first character from `i` on that is no space.
pub open spec fn skip_spaces(s: Seq<char>, i: int) -> int
    decreases s.len() - i,
{
    if 0 <= i < s.len() && is_space(s[i]) {
        skip_spaces(s, i + 1)
    } else {
        i
    }
}

/// Whether `c` is a decimal digit of a script other than the Latin one: a character of the
/// category of decimal numbers of Unicode 16 that is none of the ten digits from `0` to `9`.
#[verifier::opaque]
pub open spec fn foreign_digit(c: char) -> bool {
    let n = c as u32;
    (0x660 <= n && n <= 0x669)
        || (0x6f0 <= n && n <= 0x6f9)
        || (0x7c0 <= n && n <= 0x7c9)
        || (0x966 <= n && n <= 0x96f)
        || (0x9e6 <= n && n <= 0x9ef)
        || (0xa66 <= n && n <= 0xa6f)
        || (0xae6 <= n && n <= 0xaef)
        || (0xb66 <= n && n <= 0xb6f)
        || (0xbe6 <= n && n <= 0xbef)
        || (0xc66 <= n && n <= 0xc6f)
        || (0xce6 <= n && n <= 0xcef)
        || (0xd66 <= n && n <= 0xd6f)
        || (0xde6 <= n && n <= 0xdef)
        || (0xe50 <= n && n <= 0xe59)
        || (0xed0 <= n && n <= 0xed9)
        || (0xf20 <= n && n <= 0xf29)
        || (0x1040 <= n && n <= 0x1049)
        || (0x1090 <= n && n <= 0x1099)
        || (0x17e0 <= n && n <= 0x17e9)
        || (0x1810 <= n && n <= 0x1819)
        || (0x1946 <= n && n <= 0x194f)
        || (0x19d0 <= n && n <= 0x19d9)
        || (0x1a80 <= n && n <= 0x1a89)
        || (0x1a90 <= n && n <= 0x1a99)
        || (0x1b50 <= n && n <= 0x1b59)
        || (0x1bb0 <= n && n <= 0x1bb9)
        || (0x1c40 <= n && n <= 0x1c49)
        || (0x1c50 <= n && n <= 0x1c59)
        || (0xa620 <= n && n <= 0xa629)
        || (0xa8d0 <= n && n <= 0xa8d9)
        || (0xa900 <= n && n <= 0xa909)
        || (0xa9d0 <= n && n <= 0xa9d9)
        || (0xa9f0 <= n && n <= 0xa9f9)
        || (0xaa50 <= n && n <= 0xaa59)
        || (0xabf0 <= n && n <= 0xabf9)
        || (0xff10 <= n && n <= 0xff19)
        || (0x104a0 <= n && n <= 0x104a9)
        || (0x10d30 <= n && n <= 0x10d39)
        || (0x10d40 <= n && n <= 0x10d49)
        || (0x11066 <= n && n <= 0x1106f)
        || (0x110f0 <= n && n <= 0x110f9)
        || (0x11136 <= n && n <= 0x1113f)
        || (0x111d0 <= n && n <= 0x111d9)
        || (0x112f0 <= n && n <= 0x112f9)
        || (0x11450 <= n && n <= 0x11459)
        || (0x114d0 <= n && n <= 0x114d9)
        || (0x11650 <= n && n <= 0x11659)
        || (0x116c0 <= n && n <= 0x116c9)
        || (0x116d0 <= n && n <= 0x116e3)
        || (0x11730 <= n && n <= 0x11739)
        || (0x118e0 <= n && n <= 0x118e9)
        || (0x11950 <= n && n <= 0x11959)
        || (0x11bf0 <= n && n <= 0x11bf9)
        || (0x11c50 <= n && n <= 0x11c59)
        || (0x11d50 <= n && n <= 0x11d59)
        || (0x11da0 <= n && n <= 0x11da9)
        || (0x11f50 <= n && n <= 0x11f59)
        || (0x16130 <= n && n <= 0x16139)
        || (0x16a60 <= n && n <= 0x16a69)
        || (0x16ac0 <= n && n <= 0x16ac9)
        || (0x16b50 <= n && n <= 0x16b59)
        || (0x16d70 <= n && n <= 0x16d79)
        || (0x1ccf0 <= n && n <= 0x1ccf9)
        || (0x1d7ce <= n && n <= 0x1d7ff)
        || (0x1e140 <= n && n <= 0x1e149)
        || (0x1e2f0 <= n && n <= 0x1e2f9)
        || (0x1e4f0 <= n && n <= 0x1e4f9)
        || (0x1e5f1 <= n && n <= 0x1e5fa)
        || (0x1e950 <= n && n <= 0x1e959)
        || (0x1fbf0 <= n && n <= 0x1fbf9)
}

/// A space is no digit of another script.
pub proof fn lemma_space_no_digit()
    ensures
        !foreign_digit(' '),
{
    reveal(foreign_digit);
}

/// Whether `c` is a decimal digit of any script.
pub open spec fn is_digit(c: char) -> bool {
    digit_value(c) >= 0 || foreign_digit(c)
}

/// The index of the first character from `i` on that is no decimal digit of any script.
pub open spec fn digits_end(s: Seq<char>, i: int) -> int
    decreases s.len() - i,
{
    if 0 <= i < s.len() && is_digit(s[i]) {
        digits_end(s, i + 1)
    } else {
        i
    }
}

/// The number that the decimal digits from `i` up to `j` write.
pub open spec fn number_value(s: Seq<char>, i: int, j: int) -> int
    decreases j - i,
{
    if j <= i {
        0
    } else {
        number_value(s, i, j - 1) * 10 + digit_value(s[j - 1])
    }
}

/// Whether each character from `i` up to `j` is one of the ten digits from `0` to `9`.
pub open spec fn plain_digits(s: Seq<char>, i: int, j: int) -> bool {
    forall|k: int| i <= k < j ==> digit_value(#[trigger] s[k]) >= 0
}

/// The move counter that the characters from `i` up to `j` write: their number, or 0 where
/// there is no digit, a digit of another script stands among them, or the number is too large
/// for a counter.
pub open spec fn counter(s: Seq<char>, i: int, j: int) -> u32 {
    if i < j && plain_digits(s, i, j) && number_value(s, i, j) <= u32::MAX {
        number_value(s, i, j) as u32
    } else {
        0
    }
}

/// The position reached by reading the piece placement from the character `i` on, the
/// square on the file `file` of the rank `rank` being next and `pos` holding the pieces read so
/// far, together with the index behind the placement; nothing where the text is no placement.
/// A letter puts its piece on the next square, a digit from 1 to 8 passes that many squares
/// without leaving the rank, and `/` ends a full rank, the first excepted.
pub open spec fn parse_squares(s: Seq<char>, i: int, rank: int, file: int, pos: Position) -> Option<
    (Position, int),
>
    decreases s.len() - i,
{
    if file >= 8 {
        if rank <= 0 {
            Some((pos, i))
        } else if 0 <= i < s.len() && s[i] == '/' {
            parse_squares(s, i + 1, rank - 1, 0, pos)
        } else {
            None
        }
    } else if !(0 <= i < s.len()) {
        None
    } else if Piece::is_piece_char(s[i]) {
        parse_squares(s, i + 1, rank, file + 1, pos.with_piece(piece_of_char(s[i]), file + 8 * rank))
    } else if 1 <= digit_value(s[i]) <= 8 && file + digit_value(s[i]) <= 8 {
        parse_squares(s, i + 1, rank, file + digit_value(s[i]), pos)
    } else {
        None
    }
}

/// The index behind the character `c` where it stands at `i`, and `i` itself where it does not.
pub open spec fn past(s: Seq<char>, i: int, c: char) -> int {
    if 0 <= i < s.len() && s[i] == c {
        i + 1
    } else {
        i
    }
}

/// The rights `c` with `right` added where the character `letter` stands at `i`.
pub open spec fn with_letter(s: Seq<char>, i: int, letter: char, c: Castling, right: CastlingRight) -> Castling {
    if 0 <= i < s.len() && s[i] == letter {
        c.with(right)
    } else {
        c
    }
}

/// The castling rights written from the character `i` on, together with the index behind
/// them: `-` for none, or at least one of the letters `KQkq` in that order.
pub open spec fn parse_castling(s: Seq<char>, i: int) -> Option<(Castling, int)> {
    if 0 <= i < s.len() && s[i] == '-' {
        Some((Castling { bits: 0 }, i + 1))
    } else {
        let c0 = Castling { bits: 0 };
        let c1 = with_letter(s, i, 'K', c0, CastlingRight::WhiteK);
        let i1 = past(s, i, 'K');
        let c2 = with_letter(s, i1, 'Q', c1, CastlingRight::WhiteQ);
        let i2 = past(s, i1, 'Q');
        let c3 = with_letter(s, i2, 'k', c2, CastlingRight::BlackK);
        let i3 = past(s, i2, 'k');
        let c4 = with_letter(s, i3, 'q', c3, CastlingRight::BlackQ);
        let i4 = past(s, i3, 'q');
        if i4 > i {
            Some((c4, i4))
        } else {
            None
        }
    }
}

/// The file that the letter `c` names; -1 for any other character.
pub open spec fn file_value(c: char) -> int {
    if c == 'a' {
        0
    } else if c == 'b' {
        1
    } else if c == 'c' {
        2
    } else if c == 'd' {
        3
    } else if c == 'e' {
        4
    } else if c == 'f' {
        5
    } else if c == 'g' {
        6
    } else if c == 'h' {
        7
    } else {
        -1
    }
}

/// The en-passant target written from the character `i` on, together with the index behind
/// it: `-` for none, or a file letter followed by `3` or `6`.
pub open spec fn parse_en_passant(s: Seq<char>, i: int) -> Option<(Option<Square>, int)> {
    if 0 <= i < s.len() && s[i] == '-' {
        Some((None, i + 1))
    } else if 0 <= i && i + 1 < s.len() && file_value(s[i]) >= 0 && (s[i + 1] == '3' || s[i + 1]
        == '6') {
        Some(
            (
                Some(
                    Square::at(
                        file_value(s[i]) + if s[i + 1] == '3' {
                            16int
                        } else {
                            40int
                        },
                    ),
                ),
                i + 2,
            ),
        )
    } else {
        None
    }
}

impl Position {
    /// The empty board with White to move and all castling rights.
    pub open spec fn empty() -> Position {
        Position {
            turn: Player::White,
            pieces: Seq::new(12, |i: int| 0u64),
            occ: Seq::new(3, |i: int| 0u64),
            castling: Castling { bits: 15 },
            en_passant: None,
            half_moves: 0,
            full_moves: 0,
            checkers: 0,
            attacked: 0,
            pinned: 0,
        }
    }

    /// The position with the two move counters read from the character `i` on, each an
    /// optional run of digits behind optional spaces; nothing where anything but spaces
    /// follows.
    pub open spec fn with_counters(self, s: Seq<char>, i: int) -> Option<Position> {
        let i1 = skip_spaces(s, i);
        let i2 = digits_end(s, i1);
        let i3 = skip_spaces(s, i2);
        let i4 = digits_end(s, i3);
        let i5 = skip_spaces(s, i4);
        if i5 == s.len() {
            Some(
                Position { half_moves: counter(s, i1, i2), full_moves: counter(s, i3, i4), ..self },
            )
        } else {
            None
        }
    }

    /// The position with the en-passant target and the counters read from the character `i`
    /// on.
    pub open spec fn with_target(self, s: Seq<char>, i: int) -> Option<Position> {
        match parse_en_passant(s, i) {
            Some((target, j)) => (Position { en_passant: target, ..self }).with_counters(s, j),
            None => None,
        }
    }

    /// The position with the castling rights and what follows them read from the character
    /// `i` on; at least one space must follow the rights.
    pub open spec fn with_rights(self, s: Seq<char>, i: int) -> Option<Position> {
        match parse_castling(s, i) {
            Some((rights, j)) => if skip_spaces(s, j) > j {
                (Position { castling: rights, ..self }).with_target(s, skip_spaces(s, j))
            } else {
                None
            },
            None => None,
        }
    }

    /// The position with the side to move and what follows it read from the character `i` on:
    /// at least one space, `w` or `b`, and at least one space again.
    pub open spec fn with_turn(self, s: Seq<char>, i: int) -> Option<Position> {
        let j = skip_spaces(s, i);
        if j > i && j < s.len() && (s[j] == 'w' || s[j] == 'b') && skip_spaces(s, j + 1) > j + 1 {
            (Position {
                turn: if s[j] == 'w' {
                    Player::White
                } else {
                    Player::Black
                },
                ..self
            }).with_rights(s, skip_spaces(s, j + 1))
        } else {
            None
        }
    }
}

/// The position that the text `s` writes in Forsyth-Edwards notation, the three stored sets
/// left empty; nothing where `s` is no such text. The fields are the piece placement (eight
/// ranks of eight squares each, the eighth rank first), the side to move, the castling rights,
/// the en-passant target and, if given, the two move counters.
pub open spec fn parse_fen(s: Seq<char>) -> Option<Position> {
    match parse_squares(s, 0, 7, 0, Position::empty()) {
        Some((pos, i)) => pos.with_turn(s, i),
        None => None,
    }
}

fn is_space_char(c: char) -> (r: bool)
    ensures
        r == is_space(c),
{
    c == '\u{9}'
        || c == '\u{a}'
        || c == '\u{b}'
        || c == '\u{c}'
        || c == '\u{d}'
        || c == '\u{20}'
        || c == '\u{85}'
        || c == '\u{a0}'
        || c == '\u{1680}'
        || c == '\u{2000}'
        || c == '\u{2001}'
        || c == '\u{2002}'
        || c == '\u{2003}'
        || c == '\u{2004}'
        || c == '\u{2005}'
        || c == '\u{2006}'
        || c == '\u{2007}'
        || c == '\u{2008}'
        || c == '\u{2009}'
        || c == '\u{200a}'
        || c == '\u{2028}'
        || c == '\u{2029}'
        || c == '\u{202f}'
        || c == '\u{205f}'
        || c == '\u{3000}'
}

fn digit_of(c: char) -> (r: Option<u8>)
    ensures
        r is Some <==> digit_value(c) >= 0,
        r is Some ==> r->0 == digit_value(c),
{
    match c {
        '0' => Some(0u8),
        '1' => Some(1u8),
        '2' => Some(2u8),
        '3' => Some(3u8),
        '4' => Some(4u8),
        '5' => Some(5u8),
        '6' => Some(6u8),
        '7' => Some(7u8),
        '8' => Some(8u8),
        '9' => Some(9u8),
        _ => None,
    }
}

fn is_foreign_digit(c: char) -> (r: bool)
    ensures
        r == foreign_digit(c),
{
    proof {
        reveal(foreign_digit);
    }
    let n = c as u32;
    (0x660 <= n && n <= 0x669)
        || (0x6f0 <= n && n <= 0x6f9)
        || (0x7c0 <= n && n <= 0x7c9)
        || (0x966 <= n && n <= 0x96f)
        || (0x9e6 <= n && n <= 0x9ef)
        || (0xa66 <= n && n <= 0xa6f)
        || (0xae6 <= n && n <= 0xaef)
        || (0xb66 <= n && n <= 0xb6f)
        || (0xbe6 <= n && n <= 0xbef)
        || (0xc66 <= n && n <= 0xc6f)
        || (0xce6 <= n && n <= 0xcef)
        || (0xd66 <= n && n <= 0xd6f)
        || (0xde6 <= n && n <= 0xdef)
        || (0xe50 <= n && n <= 0xe59)
        || (0xed0 <= n && n <= 0xed9)
        || (0xf20 <= n && n <= 0xf29)
        || (0x1040 <= n && n <= 0x1049)
        || (0x1090 <= n && n <= 0x1099)
        || (0x17e0 <= n && n <= 0x17e9)
        || (0x1810 <= n && n <= 0x1819)
        || (0x1946 <= n && n <= 0x194f)
        || (0x19d0 <= n && n <= 0x19d9)
        || (0x1a80 <= n && n <= 0x1a89)
        || (0x1a90 <= n && n <= 0x1a99)
        || (0x1b50 <= n && n <= 0x1b59)
        || (0x1bb0 <= n && n <= 0x1bb9)
        || (0x1c40 <= n && n <= 0x1c49)
        || (0x1c50 <= n && n <= 0x1c59)
        || (0xa620 <= n && n <= 0xa629)
        || (0xa8d0 <= n && n <= 0xa8d9)
        || (0xa900 <= n && n <= 0xa909)
        || (0xa9d0 <= n && n <= 0xa9d9)
        || (0xa9f0 <= n && n <= 0xa9f9)
        || (0xaa50 <= n && n <= 0xaa59)
        || (0xabf0 <= n && n <= 0xabf9)
        || (0xff10 <= n && n <= 0xff19)
        || (0x104a0 <= n && n <= 0x104a9)
        || (0x10d30 <= n && n <= 0x10d39)
        || (0x10d40 <= n && n <= 0x10d49)
        || (0x11066 <= n && n <= 0x1106f)
        || (0x110f0 <= n && n <= 0x110f9)
        || (0x11136 <= n && n <= 0x1113f)
        || (0x111d0 <= n && n <= 0x111d9)
        || (0x112f0 <= n && n <= 0x112f9)
        || (0x11450 <= n && n <= 0x11459)
        || (0x114d0 <= n && n <= 0x114d9)
        || (0x11650 <= n && n <= 0x11659)
        || (0x116c0 <= n && n <= 0x116c9)
        || (0x116d0 <= n && n <= 0x116e3)
        || (0x11730 <= n && n <= 0x11739)
        || (0x118e0 <= n && n <= 0x118e9)
        || (0x11950 <= n && n <= 0x11959)
        || (0x11bf0 <= n && n <= 0x11bf9)
        || (0x11c50 <= n && n <= 0x11c59)
        || (0x11d50 <= n && n <= 0x11d59)
        || (0x11da0 <= n && n <= 0x11da9)
        || (0x11f50 <= n && n <= 0x11f59)
        || (0x16130 <= n && n <= 0x16139)
        || (0x16a60 <= n && n <= 0x16a69)
        || (0x16ac0 <= n && n <= 0x16ac9)
        || (0x16b50 <= n && n <= 0x16b59)
        || (0x16d70 <= n && n <= 0x16d79)
        || (0x1ccf0 <= n && n <= 0x1ccf9)
        || (0x1d7ce <= n && n <= 0x1d7ff)
        || (0x1e140 <= n && n <= 0x1e149)
        || (0x1e2f0 <= n && n <= 0x1e2f9)
        || (0x1e4f0 <= n && n <= 0x1e4f9)
        || (0x1e5f1 <= n && n <= 0x1e5fa)
        || (0x1e950 <= n && n <= 0x1e959)
        || (0x1fbf0 <= n && n <= 0x1fbf9)
}

fn scan_spaces(text: &str, len: usize, i: usize) -> (j: usize)
    requires
        len == text@.len(),
        i <= len,
    ensures
        j == skip_spaces(text@, i as int),
        i <= j <= len,
{
    let mut j: usize = i;
    while j < len && is_space_char(text.get_char(j))
        invariant
            len == text@.len(),
            i <= j <= len,
            skip_spaces(text@, j as int) == skip_spaces(text@, i as int),
        decreases len - j,
    {
        j = j + 1;
    }
    j
}

proof fn lemma_number_grows(s: Seq<char>, i: int, j: int)
    requires
        0 <= i <= j <= s.len(),
        forall|k: int| i <= k < j ==> digit_value(s[k]) >= 0,
    ensures
        number_value(s, i, j) >= 0,
        i < j ==> number_value(s, i, j) >= number_value(s, i, j - 1),
    decreases j - i,
{
    if i < j {
        lemma_number_grows(s, i, j - 1);
    }
}

fn scan_counter(text: &str, len: usize, i: usize) -> (r: (u32, usize))
    requires
        len == text@.len(),
        i <= len,
    ensures
        r.1 == digits_end(text@, i as int),
        r.0 == counter(text@, i as int, r.1 as int),
        i <= r.1 <= len,
{
    let mut j: usize = i;
    let mut value: u64 = 0;
    let mut too_large: bool = false;
    let mut foreign: bool = false;
    loop
        invariant
            len == text@.len(),
            i <= j <= len,
            digits_end(text@, j as int) == digits_end(text@, i as int),
            foreign == !plain_digits(text@, i as int, j as int),
            !foreign && !too_large ==> value == number_value(text@, i as int, j as int) && value
                <= u32::MAX,
            !foreign && too_large ==> number_value(text@, i as int, j as int) > u32::MAX,
        ensures
            j == digits_end(text@, i as int),
        decreases len - j,
    {
        if j >= len {
            break;
        }
        let c = text.get_char(j);
        let ghost was_plain = plain_digits(text@, i as int, j as int);
        match digit_of(c) {
            Some(d) => {
                if !foreign {
                    proof {
                        lemma_number_grows(text@, i as int, j as int);
                    }
                    if !too_large {
                        value = value * 10 + d as u64;
                        if value > u32::MAX as u64 {
                            too_large = true;
                        }
                    } else {
                        assert(number_value(text@, i as int, j as int + 1) >= number_value(
                            text@,
                            i as int,
                            j as int,
                        ));
                    }
                }
                assert(plain_digits(text@, i as int, j as int + 1) == was_plain);
            },
            None => {
                if !is_foreign_digit(c) {
                    break;
                }
                foreign = true;
                assert(digit_value(text@[j as int]) < 0);
                assert(!plain_digits(text@, i as int, j as int + 1));
            },
        }
        j = j + 1;
    }
    if foreign || too_large || j == i {
        (0, j)
    } else {
        (value as u32, j)
    }
}

fn scan_castling(text: &str, len: usize, i: usize) -> (r: Option<(Castling, usize)>)
    requires
        len == text@.len(),
        i <= len,
    ensures
        match parse_castling(text@, i as int) {
            Some((c, j)) => r == Some((c, j as usize)) && j <= len,
            None => r is None,
        },
{
    if i < len && text.get_char(i) == '-' {
        return Some((Castling::empty(), i + 1));
    }
    let mut rights = Castling::empty();
    let mut j: usize = i;
    if j < len && text.get_char(j) == 'K' {
        rights.insert(CastlingRight::WhiteK);
        j = j + 1;
    }
    if j < len && text.get_char(j) == 'Q' {
        rights.insert(CastlingRight::WhiteQ);
        j = j + 1;
    }
    if j < len && text.get_char(j) == 'k' {
        rights.insert(CastlingRight::BlackK);
        j = j + 1;
    }
    if j < len && text.get_char(j) == 'q' {
        rights.insert(CastlingRight::BlackQ);
        j = j + 1;
    }
    if j > i {
        Some((rights, j))
    } else {
        None
    }
}

fn scan_en_passant(text: &str, len: usize, i: usize) -> (r: Option<(Option<Square>, usize)>)
    requires
        len == text@.len(),
        i <= len,
    ensures
        match parse_en_passant(text@, i as int) {
            Some((t, j)) => r == Some((t, j as usize)) && j <= len,
            None => r is None,
        },
{
    if i < len && text.get_char(i) == '-' {
        return Some((None, i + 1));
    }
    if i < len && len - i >= 2 {
        let file = match File::from_char(text.get_char(i)) {
            Some(f) => f,
            None => {
                return None;
            },
        };
        let c = text.get_char(i + 1);
        let rank = if c == '3' {
            Rank::R3
        } else if c == '6' {
            Rank::R6
        } else {
            return None;
        };
        Some((Some(Square::from_file_rank(file, rank)), i + 2))
    } else {
        None
    }
}

/// Whether the index `r` and the position `pos` are what reading a placement gave, `goal`.
pub open spec fn scanned(goal: Option<(Position, int)>, r: Option<usize>, pos: Position) -> bool {
    match goal {
        Some((p, i)) => r is Some && r->0 == i && pos == p,
        None => r is None,
    }
}

/// The messages of the violations from index `i` on, one to a line.
pub open spec fn lines(v: Seq<Violation>, i: int) -> Seq<char>
    decreases v.len() - i,
{
    if i < 0 || i >= v.len() {
        Seq::empty()
    } else if i == v.len() - 1 {
        v[i].text()
    } else {
        v[i].text() + seq!['\n'] + lines(v, i + 1)
    }
}

impl Position {
    /// The position with the three stored sets computed for the side to move, where that side
    /// has a king; the position as it is, where it has none.
    pub open spec fn settled(self) -> Position {
        if self.king_bb(self.turn) != 0 {
            self.refreshed()
        } else {
            self
        }
    }
}

impl<'a> Board<'a> {
    /// Reads the piece placement from the start of `text` onto this empty board and returns
    /// the index behind it; nothing where the text does not start with a placement.
    fn scan_placement(&mut self, text: &str, len: usize) -> (r: Option<usize>)
        requires
            len == text@.len(),
            old(self).state@ == Position::empty(),
        ensures
            final(self).previous_states == old(self).previous_states,
            final(self).lookup_tables == old(self).lookup_tables,
            scanned(parse_squares(text@, 0, 7, 0, Position::empty()), r, final(self).state@),
            r is Some ==> r->0 <= len,
    {
        let ghost goal = parse_squares(text@, 0, 7, 0, Position::empty());
        let mut i: usize = 0;
        let mut rank: u8 = 7;
        let mut file: u8 = 0;
        let mut result: Option<usize> = None;
        let mut running: bool = true;
        while running
            invariant
                len == text@.len(),
                i <= len,
                rank <= 7,
                file <= 8,
                self.previous_states == old(self).previous_states,
                self.lookup_tables == old(self).lookup_tables,
                running ==> parse_squares(text@, i as int, rank as int, file as int, self.state@)
                    == goal,
                running ==> result is None,
                !running ==> scanned(goal, result, self.state@),
                result is Some ==> result->0 <= len,
            decreases len - i + if running { 1int } else { 0int },
        {
            let ghost here = parse_squares(
                text@,
                i as int,
                rank as int,
                file as int,
                self.state@,
            );
            if file >= 8 {
                if rank == 0 {
                    assert(here == Some((self.state@, i as int)));
                    result = Some(i);
                    running = false;
                } else if i < len && text.get_char(i) == '/' {
                    i = i + 1;
                    rank = rank - 1;
                    file = 0;
                } else {
                    assert(here is None);
                    running = false;
                }
            } else if i >= len {
                assert(here is None);
                running = false;
            } else {
                let c = text.get_char(i);
                match Piece::from_char(c) {
                    Some(piece) => {
                        assert(piece == piece_of_char(c));
                        let f = File::from_index(file).unwrap();
                        let r = Rank::from_index(rank).unwrap();
                        self.put_piece(piece, Square::from_file_rank(f, r));
                        i = i + 1;
                        file = file + 1;
                    },
                    None => {
                        match digit_of(c) {
                            Some(d) => {
                                if d >= 1 && d <= 8 && file + d <= 8 {
                                    i = i + 1;
                                    file = file + d;
                                } else {
                                    assert(here is None);
                                    running = false;
                                }
                            },
                            None => {
                                assert(here is None);
                                running = false;
                            },
                        }
                    },
                }
            }
        }
        result
    }

    /// Reads the fields behind the piece placement, from the character `i` of `text` on, into
    /// this board; `false` where the text does not hold them.
    fn scan_fields(&mut self, text: &str, len: usize, i: usize) -> (r: bool)
        requires
            len == text@.len(),
            i <= len,
        ensures
            final(self).previous_states == old(self).previous_states,
            final(self).lookup_tables == old(self).lookup_tables,
            match old(self).state@.with_turn(text@, i as int) {
                Some(pos) => r && final(self).state@ == pos,
                None => !r,
            },
    {
        let ghost start = self.state@;
        let j = scan_spaces(text, len, i);
        if j == i || j >= len {
            return false;
        }
        let c = text.get_char(j);
        let turn = match Player::from_char(c) {
            Some(t) => t,
            None => {
                return false;
            },
        };
        let k = scan_spaces(text, len, j + 1);
        if k == j + 1 {
            return false;
        }
        let (rights, after_rights) = match scan_castling(text, len, k) {
            Some(x) => x,
            None => {
                return false;
            },
        };
        let m = scan_spaces(text, len, after_rights);
        if m == after_rights {
            return false;
        }
        let (target, after_target) = match scan_en_passant(text, len, m) {
            Some(x) => x,
            None => {
                return false;
            },
        };
        let i1 = scan_spaces(text, len, after_target);
        let (half_moves, i2) = scan_counter(text, len, i1);
        let i3 = scan_spaces(text, len, i2);
        let (full_moves, i4) = scan_counter(text, len, i3);
        let i5 = scan_spaces(text, len, i4);
        if i5 != len {
            return false;
        }
        self.state.turn = turn;
        self.state.castling = rights;
        self.state.en_passant = target;
        self.state.half_moves = half_moves;
        self.state.full_moves = full_moves;
        true
    }

    /// The messages of `found`, one to a line.
    fn join_messages(found: &Vec<Violation>) -> (r: String)
        ensures
            r@ == lines(found@, 0),
    {
        let mut s = String::new();
        let mut i: usize = 0;
        assert(s@ + lines(found@, 0) =~= lines(found@, 0));
        while i < found.len()
            invariant
                i <= found.len(),
                s@ + lines(found@, i as int) == lines(found@, 0),
            decreases found.len() - i,
        {
            let ghost before = s@;
            let message = found[i].message();
            push_text(&mut s, message.as_str());
            if i + 1 < found.len() {
                push_char(&mut s, '\n');
            }
            assert(s@ + lines(found@, i as int + 1) =~= before + lines(found@, i as int));
            i = i + 1;
        }
        assert(s@ + lines(found@, found@.len() as int) =~= s@);
        s
    }

    /// Computes the three stored sets of the side to move where that side has a king.
    fn settle(&mut self)
        requires
            old(self).lookup_tables.wf(),
        ensures
            final(self).state@ == old(self).state@.settled(),
            final(self).previous_states == old(self).previous_states,
            final(self).lookup_tables == old(self).lookup_tables,
    {
        let king_piece = Piece::of(self.state.turn, crate::types::PieceKind::King);
        if !self.state.piece_bbs[king_piece.index()].is_empty() {
            let (checkers, attacked_squares, pinned_pieces) = self.get_check_info();
            self.state.checkers = checkers;
            self.state.attacked_squares = attacked_squares;
            self.state.pinned_pieces = pinned_pieces;
        }
    }

    /// Reads the text `fen` onto this empty board; `false` where the text is no position in
    /// Forsyth-Edwards notation.
    fn scan(&mut self, fen: &str) -> (r: bool)
        requires
            old(self).state@ == Position::empty(),
        ensures
            final(self).previous_states == old(self).previous_states,
            final(self).lookup_tables == old(self).lookup_tables,
            parse_fen(fen@) is None ==> !r,
            parse_fen(fen@) is Some ==> r && final(self).state@ == parse_fen(fen@)->0,
    {
        let len = fen.unicode_len();
        match self.scan_placement(fen, len) {
            Some(i) => self.scan_fields(fen, len, i),
            None => false,
        }
    }

    /// The board that the text `fen` writes in Forsyth-Edwards notation, reading the tables
    /// `l`. A text that is no such notation is refused with the message `invalid fen`; a text
    /// whose position fails a check of the validator is refused with the validator's messages,
    /// one to a line.
    pub fn from_fen(fen: &str, l: &'a LookupTables) -> (r: Result<Board<'a>, String>)
        requires
            l.wf(),
        ensures
            parse_fen(fen@) is None ==> r is Err && r->Err_0@ == "invalid fen"@,
            parse_fen(fen@) is Some && parse_fen(fen@)->0.settled().valid() ==> r is Ok && r->Ok_0.state@
                == parse_fen(fen@)->0.settled() && r->Ok_0.previous_states@.len() == 0
                && r->Ok_0.lookup_tables == l && r->Ok_0.wf(),
            parse_fen(fen@) is Some && !parse_fen(fen@)->0.settled().valid() ==> r is Err
                && r->Err_0@ == lines(parse_fen(fen@)->0.settled().violations(), 0),
    {
        let mut b = Board::new(l);
        if !b.scan(fen) {
            return Err(String::from_str("invalid fen"));
        }
        b.settle();
        let found = b.violations();
        if found.len() > 0 {
            return Err(Board::join_messages(&found));
        }
        proof {
            b.state@.lemma_valid_wf();
        }
        Ok(b)
    }
}

} // verus!
