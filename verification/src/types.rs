use vstd::prelude::*;

verus! {

/// An upper bound on the number of moves in any position, used to size move lists.
pub const MAX_MOVES: usize = 250;

/// Every square except those on file A.
pub const NOT_A_FILE: u64 = 0xFEFE_FEFE_FEFE_FEFE;

/// Every square except those on file H.
pub const NOT_H_FILE: u64 = 0x7F7F_7F7F_7F7F_7F7F;

/// Every square except those on files A and B.
pub const NOT_AB_FILE: u64 = 0xFCFC_FCFC_FCFC_FCFC;

/// Every square except those on files G and H.
pub const NOT_GH_FILE: u64 = 0x3F3F_3F3F_3F3F_3F3F;

/// Bit representation of file A.
pub const FILE_A: u64 = 0x0101010101010101;

/// Bit representation of file B.
pub const FILE_B: u64 = 0x0202020202020202;

/// Bit representation of file C.
pub const FILE_C: u64 = 0x0404040404040404;

/// Bit representation of file D.
pub const FILE_D: u64 = 0x0808080808080808;

/// Bit representation of file E.
pub const FILE_E: u64 = 0x1010101010101010;

/// Bit representation of file F.
pub const FILE_F: u64 = 0x2020202020202020;

/// Bit representation of file G.
pub const FILE_G: u64 = 0x4040404040404040;

/// Bit representation of file H.
pub const FILE_H: u64 = 0x8080808080808080;

/// Bit representation of rank 1.
pub const RANK_1: u64 = 0x00000000000000FF;

/// Bit representation of rank 2.
pub const RANK_2: u64 = 0x000000000000FF00;

/// Bit representation of rank 3.
pub const RANK_3: u64 = 0x0000000000FF0000;

/// Bit representation of rank 4.
pub const RANK_4: u64 = 0x00000000FF000000;

/// Bit representation of rank 5.
pub const RANK_5: u64 = 0x000000FF00000000;

/// Bit representation of rank 6.
pub const RANK_6: u64 = 0x0000FF0000000000;

/// Bit representation of rank 7.
pub const RANK_7: u64 = 0x00FF000000000000;

/// Bit representation of rank 8.
pub const RANK_8: u64 = 0xFF00000000000000;

/// One of the two sides.
#[derive(Copy, Clone, Debug, PartialEq, Eq, Structural)]
pub enum Player {
    White,
    Black,
}

impl Player {
    /// The position of this player in declaration order, as a mathematical integer.
    pub open spec fn idx(self) -> int {
        match self {
            Player::White => 0,
            Player::Black => 1,
        }
    }

    /// The player whose index is `i`; indices outside `0..2` map to the last player.
    pub open spec fn at(i: int) -> Player {
        if i == 0 {
            Player::White
        } else {
            Player::Black
        }
    }

    /// `at` and `idx` are inverse to each other on `0..2`.
    pub proof fn lemma_idx_at(self)
        ensures
            0 <= self.idx() < 2,
            Player::at(self.idx()) == self,
    {
    }

    /// `idx` is inverse to `at` on `0..2`.
    pub proof fn lemma_at_idx(i: int)
        requires
            0 <= i < 2,
        ensures
            Player::at(i).idx() == i,
    {
    }

    /// The index of this player.
    pub fn index(self) -> (r: usize)
        ensures
            r == self.idx(),
            r < 2,
    {
        match self {
            Player::White => 0,
            Player::Black => 1,
        }
    }

    /// The player with the given index, if the index is below 2.
    pub fn from_index(n: u8) -> (r: Option<Player>)
        ensures
            r is Some <==> n < 2,
            n < 2 ==> r == Some(Player::at(n as int)),
            r is Some ==> r->0.idx() == n,
    {
        match n {
            0 => Some(Player::White),
            1 => Some(Player::Black),
            _ => None,
        }
    }

    /// The opponent of this player.
    pub open spec fn spec_other(self) -> Player {
        match self {
            Player::White => Player::Black,
            Player::Black => Player::White,
        }
    }

    /// The opponent of this player.
    #[verifier::when_used_as_spec(spec_other)]
    pub fn other(self) -> (r: Player)
        ensures
            r == self.spec_other(),
    {
        match self {
            Player::White => Player::Black,
            Player::Black => Player::White,
        }
    }

    /// The letter that stands for this player in a position string.
    pub open spec fn spec_to_char(self) -> char {
        match self {
            Player::White => 'w',
            Player::Black => 'b',
        }
    }

    /// The letter that stands for this player in a position string.
    #[verifier::when_used_as_spec(spec_to_char)]
    pub fn to_char(self) -> (c: char)
        ensures
            c == self.spec_to_char(),
    {
        match self {
            Player::White => 'w',
            Player::Black => 'b',
        }
    }

    /// The player that a letter stands for: `w` or `b`.
    pub fn from_char(c: char) -> (r: Option<Player>)
        ensures
            r is Some <==> (c == 'w' || c == 'b'),
            r is Some ==> r->0.spec_to_char() == c,
    {
        match c {
            'w' => Some(Player::White),
            'b' => Some(Player::Black),
            _ => None,
        }
    }
}

/// The kind of a piece, without its colour.
#[derive(Copy, Clone, Debug, PartialEq, Eq, Structural)]
pub enum PieceKind {
    Rook,
    Knight,
    Bishop,
    Queen,
    King,
    Pawn,
}

impl PieceKind {
    /// The position of this piece kind in declaration order, as a mathematical integer.
    pub open spec fn idx(self) -> int {
        match self {
            PieceKind::Rook => 0,
            PieceKind::Knight => 1,
            PieceKind::Bishop => 2,
            PieceKind::Queen => 3,
            PieceKind::King => 4,
            PieceKind::Pawn => 5,
        }
    }

    /// The piece kind whose index is `i`; indices outside `0..6` map to the last piece kind.
    pub open spec fn at(i: int) -> PieceKind {
        if i == 0 {
            PieceKind::Rook
        } else if i == 1 {
            PieceKind::Knight
        } else if i == 2 {
            PieceKind::Bishop
        } else if i == 3 {
            PieceKind::Queen
        } else if i == 4 {
            PieceKind::King
        } else {
            PieceKind::Pawn
        }
    }

    /// `at` and `idx` are inverse to each other on `0..6`.
    pub proof fn lemma_idx_at(self)
        ensures
            0 <= self.idx() < 6,
            PieceKind::at(self.idx()) == self,
    {
    }

    /// `idx` is inverse to `at` on `0..6`.
    pub proof fn lemma_at_idx(i: int)
        requires
            0 <= i < 6,
        ensures
            PieceKind::at(i).idx() == i,
    {
    }

    /// The index of this piece kind.
    pub fn index(self) -> (r: usize)
        ensures
            r == self.idx(),
            r < 6,
    {
        match self {
            PieceKind::Rook => 0,
            PieceKind::Knight => 1,
            PieceKind::Bishop => 2,
            PieceKind::Queen => 3,
            PieceKind::King => 4,
            PieceKind::Pawn => 5,
        }
    }

    /// The piece kind with the given index, if the index is below 6.
    pub fn from_index(n: u8) -> (r: Option<PieceKind>)
        ensures
            r is Some <==> n < 6,
            n < 6 ==> r == Some(PieceKind::at(n as int)),
            r is Some ==> r->0.idx() == n,
    {
        match n {
            0 => Some(PieceKind::Rook),
            1 => Some(PieceKind::Knight),
            2 => Some(PieceKind::Bishop),
            3 => Some(PieceKind::Queen),
            4 => Some(PieceKind::King),
            5 => Some(PieceKind::Pawn),
            _ => None,
        }
    }

    /// The lower-case letter that stands for this kind.
    pub open spec fn spec_to_char(self) -> char {
        match self {
            PieceKind::Rook => 'r',
            PieceKind::Knight => 'n',
            PieceKind::Bishop => 'b',
            PieceKind::Queen => 'q',
            PieceKind::King => 'k',
            PieceKind::Pawn => 'p',
        }
    }

    /// The lower-case letter that stands for this kind.
    #[verifier::when_used_as_spec(spec_to_char)]
    pub fn to_char(self) -> (c: char)
        ensures
            c == self.spec_to_char(),
    {
        match self {
            PieceKind::Rook => 'r',
            PieceKind::Knight => 'n',
            PieceKind::Bishop => 'b',
            PieceKind::Queen => 'q',
            PieceKind::King => 'k',
            PieceKind::Pawn => 'p',
        }
    }

    /// The kind that a lower-case letter stands for.
    pub fn from_char(c: char) -> (r: Option<PieceKind>)
        ensures
            r is Some <==> (c == 'r' || c == 'n' || c == 'b' || c == 'q' || c == 'k' || c == 'p'),
            r is Some ==> r->0.spec_to_char() == c,
    {
        match c {
            'r' => Some(PieceKind::Rook),
            'n' => Some(PieceKind::Knight),
            'b' => Some(PieceKind::Bishop),
            'q' => Some(PieceKind::Queen),
            'k' => Some(PieceKind::King),
            'p' => Some(PieceKind::Pawn),
            _ => None,
        }
    }

    /// Whether a pawn may promote to this kind: queen, rook, bishop or knight.
    pub open spec fn spec_is_promotion_target(self) -> bool {
        self == PieceKind::Queen || self == PieceKind::Rook || self == PieceKind::Bishop
            || self == PieceKind::Knight
    }

    /// Whether a pawn may promote to this kind: queen, rook, bishop or knight.
    #[verifier::when_used_as_spec(spec_is_promotion_target)]
    pub fn is_promotion_target(self) -> (r: bool)
        ensures
            r == self.spec_is_promotion_target(),
    {
        match self {
            PieceKind::Queen | PieceKind::Rook | PieceKind::Bishop | PieceKind::Knight => true,
            _ => false,
        }
    }

    /// Whether this kind moves along rays: queen, rook or bishop.
    pub open spec fn spec_is_slider(self) -> bool {
        self == PieceKind::Queen || self == PieceKind::Rook || self == PieceKind::Bishop
    }

    /// Whether this kind moves along rays: queen, rook or bishop.
    #[verifier::when_used_as_spec(spec_is_slider)]
    pub fn is_slider(self) -> (r: bool)
        ensures
            r == self.spec_is_slider(),
    {
        match self {
            PieceKind::Queen | PieceKind::Rook | PieceKind::Bishop => true,
            _ => false,
        }
    }
}

/// A piece of one of the two sides.
#[derive(Copy, Clone, Debug, PartialEq, Eq, Structural)]
pub enum Piece {
    WhiteRook,
    WhiteKnight,
    WhiteBishop,
    WhiteQueen,
    WhiteKing,
    WhitePawn,
    BlackRook,
    BlackKnight,
    BlackBishop,
    BlackQueen,
    BlackKing,
    BlackPawn,
}

impl Piece {
    /// The position of this piece in declaration order, as a mathematical integer.
    pub open spec fn idx(self) -> int {
        match self {
            Piece::WhiteRook => 0,
            Piece::WhiteKnight => 1,
            Piece::WhiteBishop => 2,
            Piece::WhiteQueen => 3,
            Piece::WhiteKing => 4,
            Piece::WhitePawn => 5,
            Piece::BlackRook => 6,
            Piece::BlackKnight => 7,
            Piece::BlackBishop => 8,
            Piece::BlackQueen => 9,
            Piece::BlackKing => 10,
            Piece::BlackPawn => 11,
        }
    }

    /// The piece whose index is `i`; indices outside `0..12` map to the last piece.
    pub open spec fn at(i: int) -> Piece {
        if i == 0 {
            Piece::WhiteRook
        } else if i == 1 {
            Piece::WhiteKnight
        } else if i == 2 {
            Piece::WhiteBishop
        } else if i == 3 {
            Piece::WhiteQueen
        } else if i == 4 {
            Piece::WhiteKing
        } else if i == 5 {
            Piece::WhitePawn
        } else if i == 6 {
            Piece::BlackRook
        } else if i == 7 {
            Piece::BlackKnight
        } else if i == 8 {
            Piece::BlackBishop
        } else if i == 9 {
            Piece::BlackQueen
        } else if i == 10 {
            Piece::BlackKing
        } else {
            Piece::BlackPawn
        }
    }

    /// `at` and `idx` are inverse to each other on `0..12`.
    pub proof fn lemma_idx_at(self)
        ensures
            0 <= self.idx() < 12,
            Piece::at(self.idx()) == self,
    {
    }

    /// `idx` is inverse to `at` on `0..12`.
    pub proof fn lemma_at_idx(i: int)
        requires
            0 <= i < 12,
        ensures
            Piece::at(i).idx() == i,
    {
    }

    /// The index of this piece.
    pub fn index(self) -> (r: usize)
        ensures
            r == self.idx(),
            r < 12,
    {
        match self {
            Piece::WhiteRook => 0,
            Piece::WhiteKnight => 1,
            Piece::WhiteBishop => 2,
            Piece::WhiteQueen => 3,
            Piece::WhiteKing => 4,
            Piece::WhitePawn => 5,
            Piece::BlackRook => 6,
            Piece::BlackKnight => 7,
            Piece::BlackBishop => 8,
            Piece::BlackQueen => 9,
            Piece::BlackKing => 10,
            Piece::BlackPawn => 11,
        }
    }

    /// The piece with the given index, if the index is below 12.
    pub fn from_index(n: u8) -> (r: Option<Piece>)
        ensures
            r is Some <==> n < 12,
            n < 12 ==> r == Some(Piece::at(n as int)),
            r is Some ==> r->0.idx() == n,
    {
        match n {
            0 => Some(Piece::WhiteRook),
            1 => Some(Piece::WhiteKnight),
            2 => Some(Piece::WhiteBishop),
            3 => Some(Piece::WhiteQueen),
            4 => Some(Piece::WhiteKing),
            5 => Some(Piece::WhitePawn),
            6 => Some(Piece::BlackRook),
            7 => Some(Piece::BlackKnight),
            8 => Some(Piece::BlackBishop),
            9 => Some(Piece::BlackQueen),
            10 => Some(Piece::BlackKing),
            11 => Some(Piece::BlackPawn),
            _ => None,
        }
    }

    /// The kind of this piece.
    pub open spec fn spec_kind(self) -> PieceKind {
        match self {
            Piece::WhiteRook => PieceKind::Rook,
            Piece::WhiteKnight => PieceKind::Knight,
            Piece::WhiteBishop => PieceKind::Bishop,
            Piece::WhiteQueen => PieceKind::Queen,
            Piece::WhiteKing => PieceKind::King,
            Piece::WhitePawn => PieceKind::Pawn,
            Piece::BlackRook => PieceKind::Rook,
            Piece::BlackKnight => PieceKind::Knight,
            Piece::BlackBishop => PieceKind::Bishop,
            Piece::BlackQueen => PieceKind::Queen,
            Piece::BlackKing => PieceKind::King,
            Piece::BlackPawn => PieceKind::Pawn,
        }
    }

    /// The kind of this piece.
    #[verifier::when_used_as_spec(spec_kind)]
    pub fn kind(self) -> (r: PieceKind)
        ensures
            r == self.spec_kind(),
    {
        match self {
            Piece::WhiteRook => PieceKind::Rook,
            Piece::WhiteKnight => PieceKind::Knight,
            Piece::WhiteBishop => PieceKind::Bishop,
            Piece::WhiteQueen => PieceKind::Queen,
            Piece::WhiteKing => PieceKind::King,
            Piece::WhitePawn => PieceKind::Pawn,
            Piece::BlackRook => PieceKind::Rook,
            Piece::BlackKnight => PieceKind::Knight,
            Piece::BlackBishop => PieceKind::Bishop,
            Piece::BlackQueen => PieceKind::Queen,
            Piece::BlackKing => PieceKind::King,
            Piece::BlackPawn => PieceKind::Pawn,
        }
    }

    /// The side that owns this piece.
    pub open spec fn spec_player(self) -> Player {
        match self {
            Piece::WhiteRook => Player::White,
            Piece::WhiteKnight => Player::White,
            Piece::WhiteBishop => Player::White,
            Piece::WhiteQueen => Player::White,
            Piece::WhiteKing => Player::White,
            Piece::WhitePawn => Player::White,
            Piece::BlackRook => Player::Black,
            Piece::BlackKnight => Player::Black,
            Piece::BlackBishop => Player::Black,
            Piece::BlackQueen => Player::Black,
            Piece::BlackKing => Player::Black,
            Piece::BlackPawn => Player::Black,
        }
    }

    /// The side that owns this piece.
    #[verifier::when_used_as_spec(spec_player)]
    pub fn player(self) -> (r: Player)
        ensures
            r == self.spec_player(),
    {
        match self {
            Piece::WhiteRook => Player::White,
            Piece::WhiteKnight => Player::White,
            Piece::WhiteBishop => Player::White,
            Piece::WhiteQueen => Player::White,
            Piece::WhiteKing => Player::White,
            Piece::WhitePawn => Player::White,
            Piece::BlackRook => Player::Black,
            Piece::BlackKnight => Player::Black,
            Piece::BlackBishop => Player::Black,
            Piece::BlackQueen => Player::Black,
            Piece::BlackKing => Player::Black,
            Piece::BlackPawn => Player::Black,
        }
    }

    /// The piece of the given side and kind.
    pub open spec fn spec_of(player: Player, kind: PieceKind) -> Piece {
        Piece::at(6 * player.idx() + kind.idx())
    }

    /// The piece of the given side and kind.
    #[verifier::when_used_as_spec(spec_of)]
    pub fn of(player: Player, kind: PieceKind) -> (r: Piece)
        ensures
            r == Piece::spec_of(player, kind),
            r.spec_player() == player,
            r.spec_kind() == kind,
            r.idx() == 6 * player.idx() + kind.idx(),
    {
        match player {
            Player::White => match kind {
                PieceKind::Rook => Piece::WhiteRook,
                PieceKind::Knight => Piece::WhiteKnight,
                PieceKind::Bishop => Piece::WhiteBishop,
                PieceKind::Queen => Piece::WhiteQueen,
                PieceKind::King => Piece::WhiteKing,
                PieceKind::Pawn => Piece::WhitePawn,
            },
            Player::Black => match kind {
                PieceKind::Rook => Piece::BlackRook,
                PieceKind::Knight => Piece::BlackKnight,
                PieceKind::Bishop => Piece::BlackBishop,
                PieceKind::Queen => Piece::BlackQueen,
                PieceKind::King => Piece::BlackKing,
                PieceKind::Pawn => Piece::BlackPawn,
            },
        }
    }

    /// The letter that stands for this piece: upper case for White, lower case for Black.
    pub open spec fn spec_to_char(self) -> char {
        match self {
            Piece::WhiteRook => 'R',
            Piece::WhiteKnight => 'N',
            Piece::WhiteBishop => 'B',
            Piece::WhiteQueen => 'Q',
            Piece::WhiteKing => 'K',
            Piece::WhitePawn => 'P',
            Piece::BlackRook => 'r',
            Piece::BlackKnight => 'n',
            Piece::BlackBishop => 'b',
            Piece::BlackQueen => 'q',
            Piece::BlackKing => 'k',
            Piece::BlackPawn => 'p',
        }
    }

    /// The letter that stands for this piece: upper case for White, lower case for Black.
    #[verifier::when_used_as_spec(spec_to_char)]
    pub fn to_char(self) -> (c: char)
        ensures
            c == self.spec_to_char(),
    {
        match self {
            Piece::WhiteRook => 'R',
            Piece::WhiteKnight => 'N',
            Piece::WhiteBishop => 'B',
            Piece::WhiteQueen => 'Q',
            Piece::WhiteKing => 'K',
            Piece::WhitePawn => 'P',
            Piece::BlackRook => 'r',
            Piece::BlackKnight => 'n',
            Piece::BlackBishop => 'b',
            Piece::BlackQueen => 'q',
            Piece::BlackKing => 'k',
            Piece::BlackPawn => 'p',
        }
    }

    /// Whether a character is one of the twelve piece letters.
    pub open spec fn is_piece_char(c: char) -> bool {
        c == 'R' || c == 'N' || c == 'B' || c == 'Q' || c == 'K' || c == 'P' || c == 'r' || c == 'n'
            || c == 'b' || c == 'q' || c == 'k' || c == 'p'
    }

    /// The piece that a letter stands for.
    pub fn from_char(c: char) -> (r: Option<Piece>)
        ensures
            r is Some <==> Piece::is_piece_char(c),
            r is Some ==> r->0.spec_to_char() == c,
    {
        match c {
            'R' => Some(Piece::WhiteRook),
            'N' => Some(Piece::WhiteKnight),
            'B' => Some(Piece::WhiteBishop),
            'Q' => Some(Piece::WhiteQueen),
            'K' => Some(Piece::WhiteKing),
            'P' => Some(Piece::WhitePawn),
            'r' => Some(Piece::BlackRook),
            'n' => Some(Piece::BlackKnight),
            'b' => Some(Piece::BlackBishop),
            'q' => Some(Piece::BlackQueen),
            'k' => Some(Piece::BlackKing),
            'p' => Some(Piece::BlackPawn),
            _ => None,
        }
    }
}

/// A column of the board, `A` to `H`.
#[derive(Copy, Clone, Debug, PartialEq, Eq, Structural)]
pub enum File {
    A,
    B,
    C,
    D,
    E,
    F,
    G,
    H,
}

impl File {
    /// The position of this file in declaration order, as a mathematical integer.
    pub open spec fn idx(self) -> int {
        match self {
            File::A => 0,
            File::B => 1,
            File::C => 2,
            File::D => 3,
            File::E => 4,
            File::F => 5,
            File::G => 6,
            File::H => 7,
        }
    }

    /// The file whose index is `i`; indices outside `0..8` map to the last file.
    pub open spec fn at(i: int) -> File {
        if i == 0 {
            File::A
        } else if i == 1 {
            File::B
        } else if i == 2 {
            File::C
        } else if i == 3 {
            File::D
        } else if i == 4 {
            File::E
        } else if i == 5 {
            File::F
        } else if i == 6 {
            File::G
        } else {
            File::H
        }
    }

    /// `at` and `idx` are inverse to each other on `0..8`.
    pub proof fn lemma_idx_at(self)
        ensures
            0 <= self.idx() < 8,
            File::at(self.idx()) == self,
    {
    }

    /// `idx` is inverse to `at` on `0..8`.
    pub proof fn lemma_at_idx(i: int)
        requires
            0 <= i < 8,
        ensures
            File::at(i).idx() == i,
    {
    }

    /// The index of this file.
    pub fn index(self) -> (r: u8)
        ensures
            r == self.idx(),
            r < 8,
    {
        match self {
            File::A => 0,
            File::B => 1,
            File::C => 2,
            File::D => 3,
            File::E => 4,
            File::F => 5,
            File::G => 6,
            File::H => 7,
        }
    }

    /// The file with the given index, if the index is below 8.
    pub fn from_index(n: u8) -> (r: Option<File>)
        ensures
            r is Some <==> n < 8,
            n < 8 ==> r == Some(File::at(n as int)),
            r is Some ==> r->0.idx() == n,
    {
        match n {
            0 => Some(File::A),
            1 => Some(File::B),
            2 => Some(File::C),
            3 => Some(File::D),
            4 => Some(File::E),
            5 => Some(File::F),
            6 => Some(File::G),
            7 => Some(File::H),
            _ => None,
        }
    }

    /// The lower-case letter of this file.
    pub open spec fn spec_to_char(self) -> char {
        match self {
            File::A => 'a',
            File::B => 'b',
            File::C => 'c',
            File::D => 'd',
            File::E => 'e',
            File::F => 'f',
            File::G => 'g',
            File::H => 'h',
        }
    }

    /// The lower-case letter of this file.
    #[verifier::when_used_as_spec(spec_to_char)]
    pub fn to_char(self) -> (c: char)
        ensures
            c == self.spec_to_char(),
    {
        match self {
            File::A => 'a',
            File::B => 'b',
            File::C => 'c',
            File::D => 'd',
            File::E => 'e',
            File::F => 'f',
            File::G => 'g',
            File::H => 'h',
        }
    }

    /// The file that a lower-case letter `a` to `h` stands for.
    pub fn from_char(c: char) -> (r: Option<File>)
        ensures
            r is Some <==> (c == 'a' || c == 'b' || c == 'c' || c == 'd' || c == 'e' || c == 'f'
                || c == 'g' || c == 'h'),
            r is Some ==> r->0.spec_to_char() == c,
    {
        match c {
            'a' => Some(File::A),
            'b' => Some(File::B),
            'c' => Some(File::C),
            'd' => Some(File::D),
            'e' => Some(File::E),
            'f' => Some(File::F),
            'g' => Some(File::G),
            'h' => Some(File::H),
            _ => None,
        }
    }
}

/// A row of the board, `R1` to `R8`.
#[derive(Copy, Clone, Debug, PartialEq, Eq, Structural)]
pub enum Rank {
    R1,
    R2,
    R3,
    R4,
    R5,
    R6,
    R7,
    R8,
}

impl Rank {
    /// The position of this rank in declaration order, as a mathematical integer.
    pub open spec fn idx(self) -> int {
        match self {
            Rank::R1 => 0,
            Rank::R2 => 1,
            Rank::R3 => 2,
            Rank::R4 => 3,
            Rank::R5 => 4,
            Rank::R6 => 5,
            Rank::R7 => 6,
            Rank::R8 => 7,
        }
    }

    /// The rank whose index is `i`; indices outside `0..8` map to the last rank.
    pub open spec fn at(i: int) -> Rank {
        if i == 0 {
            Rank::R1
        } else if i == 1 {
            Rank::R2
        } else if i == 2 {
            Rank::R3
        } else if i == 3 {
            Rank::R4
        } else if i == 4 {
            Rank::R5
        } else if i == 5 {
            Rank::R6
        } else if i == 6 {
            Rank::R7
        } else {
            Rank::R8
        }
    }

    /// `at` and `idx` are inverse to each other on `0..8`.
    pub proof fn lemma_idx_at(self)
        ensures
            0 <= self.idx() < 8,
            Rank::at(self.idx()) == self,
    {
    }

    /// `idx` is inverse to `at` on `0..8`.
    pub proof fn lemma_at_idx(i: int)
        requires
            0 <= i < 8,
        ensures
            Rank::at(i).idx() == i,
    {
    }

    /// The index of this rank.
    pub fn index(self) -> (r: u8)
        ensures
            r == self.idx(),
            r < 8,
    {
        match self {
            Rank::R1 => 0,
            Rank::R2 => 1,
            Rank::R3 => 2,
            Rank::R4 => 3,
            Rank::R5 => 4,
            Rank::R6 => 5,
            Rank::R7 => 6,
            Rank::R8 => 7,
        }
    }

    /// The rank with the given index, if the index is below 8.
    pub fn from_index(n: u8) -> (r: Option<Rank>)
        ensures
            r is Some <==> n < 8,
            n < 8 ==> r == Some(Rank::at(n as int)),
            r is Some ==> r->0.idx() == n,
    {
        match n {
            0 => Some(Rank::R1),
            1 => Some(Rank::R2),
            2 => Some(Rank::R3),
            3 => Some(Rank::R4),
            4 => Some(Rank::R5),
            5 => Some(Rank::R6),
            6 => Some(Rank::R7),
            7 => Some(Rank::R8),
            _ => None,
        }
    }

    /// The digit of this rank.
    pub open spec fn spec_to_char(self) -> char {
        match self {
            Rank::R1 => '1',
            Rank::R2 => '2',
            Rank::R3 => '3',
            Rank::R4 => '4',
            Rank::R5 => '5',
            Rank::R6 => '6',
            Rank::R7 => '7',
            Rank::R8 => '8',
        }
    }

    /// The digit of this rank.
    #[verifier::when_used_as_spec(spec_to_char)]
    pub fn to_char(self) -> (c: char)
        ensures
            c == self.spec_to_char(),
    {
        match self {
            Rank::R1 => '1',
            Rank::R2 => '2',
            Rank::R3 => '3',
            Rank::R4 => '4',
            Rank::R5 => '5',
            Rank::R6 => '6',
            Rank::R7 => '7',
            Rank::R8 => '8',
        }
    }

    /// The rank that a digit `1` to `8` stands for.
    pub fn from_char(c: char) -> (r: Option<Rank>)
        ensures
            r is Some <==> (c == '1' || c == '2' || c == '3' || c == '4' || c == '5' || c == '6'
                || c == '7' || c == '8'),
            r is Some ==> r->0.spec_to_char() == c,
    {
        match c {
            '1' => Some(Rank::R1),
            '2' => Some(Rank::R2),
            '3' => Some(Rank::R3),
            '4' => Some(Rank::R4),
            '5' => Some(Rank::R5),
            '6' => Some(Rank::R6),
            '7' => Some(Rank::R7),
            '8' => Some(Rank::R8),
            _ => None,
        }
    }
}

/// A square of the board. Squares are numbered file by file along each rank, from `A1` (0) to
/// `H8` (63): a square's index is its file plus eight times its rank.
#[derive(Copy, Clone, Debug, PartialEq, Eq, Structural)]
pub enum Square {
    A1,
    B1,
    C1,
    D1,
    E1,
    F1,
    G1,
    H1,
    A2,
    B2,
    C2,
    D2,
    E2,
    F2,
    G2,
    H2,
    A3,
    B3,
    C3,
    D3,
    E3,
    F3,
    G3,
    H3,
    A4,
    B4,
    C4,
    D4,
    E4,
    F4,
    G4,
    H4,
    A5,
    B5,
    C5,
    D5,
    E5,
    F5,
    G5,
    H5,
    A6,
    B6,
    C6,
    D6,
    E6,
    F6,
    G6,
    H6,
    A7,
    B7,
    C7,
    D7,
    E7,
    F7,
    G7,
    H7,
    A8,
    B8,
    C8,
    D8,
    E8,
    F8,
    G8,
    H8,
}

impl Square {
    /// The position of this square in declaration order, as a mathematical integer.
    pub open spec fn idx(self) -> int {
        match self {
            Square::A1 => 0,
            Square::B1 => 1,
            Square::C1 => 2,
            Square::D1 => 3,
            Square::E1 => 4,
            Square::F1 => 5,
            Square::G1 => 6,
            Square::H1 => 7,
            Square::A2 => 8,
            Square::B2 => 9,
            Square::C2 => 10,
            Square::D2 => 11,
            Square::E2 => 12,
            Square::F2 => 13,
            Square::G2 => 14,
            Square::H2 => 15,
            Square::A3 => 16,
            Square::B3 => 17,
            Square::C3 => 18,
            Square::D3 => 19,
            Square::E3 => 20,
            Square::F3 => 21,
            Square::G3 => 22,
            Square::H3 => 23,
            Square::A4 => 24,
            Square::B4 => 25,
            Square::C4 => 26,
            Square::D4 => 27,
            Square::E4 => 28,
            Square::F4 => 29,
            Square::G4 => 30,
            Square::H4 => 31,
            Square::A5 => 32,
            Square::B5 => 33,
            Square::C5 => 34,
            Square::D5 => 35,
            Square::E5 => 36,
            Square::F5 => 37,
            Square::G5 => 38,
            Square::H5 => 39,
            Square::A6 => 40,
            Square::B6 => 41,
            Square::C6 => 42,
            Square::D6 => 43,
            Square::E6 => 44,
            Square::F6 => 45,
            Square::G6 => 46,
            Square::H6 => 47,
            Square::A7 => 48,
            Square::B7 => 49,
            Square::C7 => 50,
            Square::D7 => 51,
            Square::E7 => 52,
            Square::F7 => 53,
            Square::G7 => 54,
            Square::H7 => 55,
            Square::A8 => 56,
            Square::B8 => 57,
            Square::C8 => 58,
            Square::D8 => 59,
            Square::E8 => 60,
            Square::F8 => 61,
            Square::G8 => 62,
            Square::H8 => 63,
        }
    }

    /// The square whose index is `i`; indices outside `0..64` map to the last square.
    pub open spec fn at(i: int) -> Square {
        if i == 0 {
            Square::A1
        } else if i == 1 {
            Square::B1
        } else if i == 2 {
            Square::C1
        } else if i == 3 {
            Square::D1
        } else if i == 4 {
            Square::E1
        } else if i == 5 {
            Square::F1
        } else if i == 6 {
            Square::G1
        } else if i == 7 {
            Square::H1
        } else if i == 8 {
            Square::A2
        } else if i == 9 {
            Square::B2
        } else if i == 10 {
            Square::C2
        } else if i == 11 {
            Square::D2
        } else if i == 12 {
            Square::E2
        } else if i == 13 {
            Square::F2
        } else if i == 14 {
            Square::G2
        } else if i == 15 {
            Square::H2
        } else if i == 16 {
            Square::A3
        } else if i == 17 {
            Square::B3
        } else if i == 18 {
            Square::C3
        } else if i == 19 {
            Square::D3
        } else if i == 20 {
            Square::E3
        } else if i == 21 {
            Square::F3
        } else if i == 22 {
            Square::G3
        } else if i == 23 {
            Square::H3
        } else if i == 24 {
            Square::A4
        } else if i == 25 {
            Square::B4
        } else if i == 26 {
            Square::C4
        } else if i == 27 {
            Square::D4
        } else if i == 28 {
            Square::E4
        } else if i == 29 {
            Square::F4
        } else if i == 30 {
            Square::G4
        } else if i == 31 {
            Square::H4
        } else if i == 32 {
            Square::A5
        } else if i == 33 {
            Square::B5
        } else if i == 34 {
            Square::C5
        } else if i == 35 {
            Square::D5
        } else if i == 36 {
            Square::E5
        } else if i == 37 {
            Square::F5
        } else if i == 38 {
            Square::G5
        } else if i == 39 {
            Square::H5
        } else if i == 40 {
            Square::A6
        } else if i == 41 {
            Square::B6
        } else if i == 42 {
            Square::C6
        } else if i == 43 {
            Square::D6
        } else if i == 44 {
            Square::E6
        } else if i == 45 {
            Square::F6
        } else if i == 46 {
            Square::G6
        } else if i == 47 {
            Square::H6
        } else if i == 48 {
            Square::A7
        } else if i == 49 {
            Square::B7
        } else if i == 50 {
            Square::C7
        } else if i == 51 {
            Square::D7
        } else if i == 52 {
            Square::E7
        } else if i == 53 {
            Square::F7
        } else if i == 54 {
            Square::G7
        } else if i == 55 {
            Square::H7
        } else if i == 56 {
            Square::A8
        } else if i == 57 {
            Square::B8
        } else if i == 58 {
            Square::C8
        } else if i == 59 {
            Square::D8
        } else if i == 60 {
            Square::E8
        } else if i == 61 {
            Square::F8
        } else if i == 62 {
            Square::G8
        } else {
            Square::H8
        }
    }

    /// `at` and `idx` are inverse to each other on `0..64`.
    pub proof fn lemma_idx_at(self)
        ensures
            0 <= self.idx() < 64,
            Square::at(self.idx()) == self,
    {
    }

    /// `idx` is inverse to `at` on `0..64`.
    pub proof fn lemma_at_idx(i: int)
        requires
            0 <= i < 64,
        ensures
            Square::at(i).idx() == i,
    {
    }

    /// The index of this square.
    pub fn index(self) -> (r: u8)
        ensures
            r == self.idx(),
            r < 64,
    {
        match self {
            Square::A1 => 0,
            Square::B1 => 1,
            Square::C1 => 2,
            Square::D1 => 3,
            Square::E1 => 4,
            Square::F1 => 5,
            Square::G1 => 6,
            Square::H1 => 7,
            Square::A2 => 8,
            Square::B2 => 9,
            Square::C2 => 10,
            Square::D2 => 11,
            Square::E2 => 12,
            Square::F2 => 13,
            Square::G2 => 14,
            Square::H2 => 15,
            Square::A3 => 16,
            Square::B3 => 17,
            Square::C3 => 18,
            Square::D3 => 19,
            Square::E3 => 20,
            Square::F3 => 21,
            Square::G3 => 22,
            Square::H3 => 23,
            Square::A4 => 24,
            Square::B4 => 25,
            Square::C4 => 26,
            Square::D4 => 27,
            Square::E4 => 28,
            Square::F4 => 29,
            Square::G4 => 30,
            Square::H4 => 31,
            Square::A5 => 32,
            Square::B5 => 33,
            Square::C5 => 34,
            Square::D5 => 35,
            Square::E5 => 36,
            Square::F5 => 37,
            Square::G5 => 38,
            Square::H5 => 39,
            Square::A6 => 40,
            Square::B6 => 41,
            Square::C6 => 42,
            Square::D6 => 43,
            Square::E6 => 44,
            Square::F6 => 45,
            Square::G6 => 46,
            Square::H6 => 47,
            Square::A7 => 48,
            Square::B7 => 49,
            Square::C7 => 50,
            Square::D7 => 51,
            Square::E7 => 52,
            Square::F7 => 53,
            Square::G7 => 54,
            Square::H7 => 55,
            Square::A8 => 56,
            Square::B8 => 57,
            Square::C8 => 58,
            Square::D8 => 59,
            Square::E8 => 60,
            Square::F8 => 61,
            Square::G8 => 62,
            Square::H8 => 63,
        }
    }

    /// The square with the given index, if the index is below 64.
    pub fn from_index(n: u8) -> (r: Option<Square>)
        ensures
            r is Some <==> n < 64,
            n < 64 ==> r == Some(Square::at(n as int)),
            r is Some ==> r->0.idx() == n,
    {
        match n {
            0 => Some(Square::A1),
            1 => Some(Square::B1),
            2 => Some(Square::C1),
            3 => Some(Square::D1),
            4 => Some(Square::E1),
            5 => Some(Square::F1),
            6 => Some(Square::G1),
            7 => Some(Square::H1),
            8 => Some(Square::A2),
            9 => Some(Square::B2),
            10 => Some(Square::C2),
            11 => Some(Square::D2),
            12 => Some(Square::E2),
            13 => Some(Square::F2),
            14 => Some(Square::G2),
            15 => Some(Square::H2),
            16 => Some(Square::A3),
            17 => Some(Square::B3),
            18 => Some(Square::C3),
            19 => Some(Square::D3),
            20 => Some(Square::E3),
            21 => Some(Square::F3),
            22 => Some(Square::G3),
            23 => Some(Square::H3),
            24 => Some(Square::A4),
            25 => Some(Square::B4),
            26 => Some(Square::C4),
            27 => Some(Square::D4),
            28 => Some(Square::E4),
            29 => Some(Square::F4),
            30 => Some(Square::G4),
            31 => Some(Square::H4),
            32 => Some(Square::A5),
            33 => Some(Square::B5),
            34 => Some(Square::C5),
            35 => Some(Square::D5),
            36 => Some(Square::E5),
            37 => Some(Square::F5),
            38 => Some(Square::G5),
            39 => Some(Square::H5),
            40 => Some(Square::A6),
            41 => Some(Square::B6),
            42 => Some(Square::C6),
            43 => Some(Square::D6),
            44 => Some(Square::E6),
            45 => Some(Square::F6),
            46 => Some(Square::G6),
            47 => Some(Square::H6),
            48 => Some(Square::A7),
            49 => Some(Square::B7),
            50 => Some(Square::C7),
            51 => Some(Square::D7),
            52 => Some(Square::E7),
            53 => Some(Square::F7),
            54 => Some(Square::G7),
            55 => Some(Square::H7),
            56 => Some(Square::A8),
            57 => Some(Square::B8),
            58 => Some(Square::C8),
            59 => Some(Square::D8),
            60 => Some(Square::E8),
            61 => Some(Square::F8),
            62 => Some(Square::G8),
            63 => Some(Square::H8),
            _ => None,
        }
    }

    /// The file of this square.
    pub open spec fn spec_file(self) -> File {
        File::at(self.idx() % 8)
    }

    /// The file of this square.
    #[verifier::when_used_as_spec(spec_file)]
    pub fn file(self) -> (r: File)
        ensures
            r == self.spec_file(),
            r.idx() == self.idx() % 8,
    {
        match self.index() % 8 {
            0 => File::A,
            1 => File::B,
            2 => File::C,
            3 => File::D,
            4 => File::E,
            5 => File::F,
            6 => File::G,
            _ => File::H,
        }
    }

    /// The rank of this square.
    pub open spec fn spec_rank(self) -> Rank {
        Rank::at(self.idx() / 8)
    }

    /// The rank of this square.
    #[verifier::when_used_as_spec(spec_rank)]
    pub fn rank(self) -> (r: Rank)
        ensures
            r == self.spec_rank(),
            r.idx() == self.idx() / 8,
    {
        match self.index() / 8 {
            0 => Rank::R1,
            1 => Rank::R2,
            2 => Rank::R3,
            3 => Rank::R4,
            4 => Rank::R5,
            5 => Rank::R6,
            6 => Rank::R7,
            _ => Rank::R8,
        }
    }

    /// The square on the given file and rank.
    pub open spec fn spec_from_file_rank(file: File, rank: Rank) -> Square {
        Square::at(file.idx() + 8 * rank.idx())
    }

    /// The square on the given file and rank.
    #[verifier::when_used_as_spec(spec_from_file_rank)]
    pub fn from_file_rank(file: File, rank: Rank) -> (r: Square)
        ensures
            r == Square::spec_from_file_rank(file, rank),
            r.idx() == file.idx() + 8 * rank.idx(),
            r.spec_file() == file,
            r.spec_rank() == rank,
    {
        let n: u8 = file.index() + 8 * rank.index();
        match Square::from_index(n) {
            Some(s) => s,
            None => Square::A1,
        }
    }

    /// The two characters that name this square: file letter, then rank digit.
    pub open spec fn spec_name(self) -> Seq<char> {
        seq![self.spec_file().spec_to_char(), self.spec_rank().spec_to_char()]
    }
}

/// A move: the square left, the square reached, and the kind promoted to, if any. Castling is
/// the king's move of two squares.
#[derive(Copy, Clone, Debug, PartialEq, Eq, Structural)]
pub struct Move(pub Square, pub Square, pub Option<PieceKind>);

} // verus!
