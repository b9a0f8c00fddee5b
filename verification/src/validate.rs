use crate::bitboard::{count, highest, lemma_highest, lemma_lowest, lemma_or_laws, lowest};
use crate::board::{Board, Position, PIECES};
use crate::castling::CastlingRight;
use crate::text::{decimal, push_char, push_decimal, push_text};
use crate::types::{Piece, PieceKind, Player, Rank, Square, RANK_1, RANK_8};
use vstd::prelude::*;
use vstd::string::StringExecFns;

verus! {

/// One way in which a position can fail to be a position of a game.
#[derive(Copy, Clone, Debug, PartialEq, Eq, Structural)]
pub enum Violation {
    /// A side has not exactly one king; the number it has.
    KingCount(Player, u32),
    /// A side has more than eight pawns; the number it has.
    PawnCount(Player, u32),
    /// A side has more than sixteen pieces; the number it has.
    PieceCount(Player, u32),
    /// A side's occupancy board is not the union of its piece boards.
    Occupancy(Player),
    /// The occupancy board of all pieces is not the union of the two sides' boards.
    AllOccupancy,
    /// The stored checkers are not those of the side to move.
    Checkers,
    /// The stored attacked squares are not those of the side to move.
    AttackedSquares,
    /// The stored pinned pieces are not those of the side to move.
    PinnedPieces,
    /// Two piece boards share a square.
    SameSquare(Piece, Piece),
    /// The kings stand next to each other.
    KingsTooClose,
    /// More than two pieces give check; their number.
    TooManyCheckers(u32),
    /// Two pieces give check that cannot both do so.
    DoubleCheck(PieceKind, PieceKind),
    /// The side that is not to move is in check.
    InactiveInCheck,
    /// A pawn of the given side stands on the first or the eighth rank.
    PawnOnRank(Player, Rank),
    /// The en-passant target lacks the empty squares or the pawn that belong to it.
    EnPassantSquare,
    /// The en-passant target lies on a rank other than the third and the sixth.
    EnPassantRank(Rank),
    /// A side has more promoted pieces than it has lost pawns.
    TooManyPromoted(Player),
    /// A castling right is held whose king or rook has left its home square.
    Castling(CastlingRight),
}

/// The name of a side with a lower-case initial.
pub open spec fn side_name(player: Player) -> Seq<char> {
    match player {
        Player::White => "white"@,
        Player::Black => "black"@,
    }
}

/// The name of a kind of piece with an upper-case initial.
pub open spec fn kind_name(kind: PieceKind) -> Seq<char> {
    match kind {
        PieceKind::Rook => "Rook"@,
        PieceKind::Knight => "Knight"@,
        PieceKind::Bishop => "Bishop"@,
        PieceKind::Queen => "Queen"@,
        PieceKind::King => "King"@,
        PieceKind::Pawn => "Pawn"@,
    }
}

fn side_str(player: Player) -> (r: &'static str)
    ensures
        r@ == side_name(player),
{
    match player {
        Player::White => "white",
        Player::Black => "black",
    }
}

fn kind_str(kind: PieceKind) -> (r: &'static str)
    ensures
        r@ == kind_name(kind),
{
    match kind {
        PieceKind::Rook => "Rook",
        PieceKind::Knight => "Knight",
        PieceKind::Bishop => "Bishop",
        PieceKind::Queen => "Queen",
        PieceKind::King => "King",
        PieceKind::Pawn => "Pawn",
    }
}

impl Violation {
    /// The message that reports this violation.
    pub open spec fn text(self) -> Seq<char> {
        match self {
            Violation::KingCount(player, n) => "incorrect number of "@ + side_name(player)
                + " kings: "@ + decimal(n as nat),
            Violation::PawnCount(player, n) => "incorrect number of "@ + side_name(player)
                + " pawns: "@ + decimal(n as nat),
            Violation::PieceCount(player, n) => "incorrect number of "@ + side_name(player)
                + " pieces: "@ + decimal(n as nat),
            Violation::Occupancy(player) => side_name(player)
                + " occupancy bitboard doesn't match piece bitboards"@,
            Violation::AllOccupancy => "all occupancy bitboard doesn't match player occupancy bitboards"@,
            Violation::Checkers => "checkers bitboard is not correct"@,
            Violation::AttackedSquares => "attacked squares bitboard is not correct"@,
            Violation::PinnedPieces => "pinned pieces bitboard is not correct"@,
            Violation::SameSquare(p1, p2) => seq![p1.spec_to_char()] + " and "@ + seq![
                p2.spec_to_char(),
            ] + " are on the same square"@,
            Violation::KingsTooClose => "Kings are too close together"@,
            Violation::TooManyCheckers(n) => "Only 2 checkers are possible. "@ + decimal(n as nat)
                + " found."@,
            Violation::DoubleCheck(k1, k2) => "cannot double check with a "@ + kind_name(k1)
                + " and a "@ + kind_name(k2),
            Violation::InactiveInCheck => "non active color is in check"@,
            Violation::PawnOnRank(player, rank) => "cannot have "@ + side_name(player)
                + " pawns on rank "@ + seq![rank.spec_to_char()],
            Violation::EnPassantSquare => "invalid en passant square"@,
            Violation::EnPassantRank(rank) => "invalid en passant rank: "@ + seq![
                rank.spec_to_char(),
            ],
            Violation::TooManyPromoted(player) => "too many promoted "@ + side_name(player)
                + " pieces"@,
            Violation::Castling(right) => match right {
                CastlingRight::WhiteK => "white shouldn't have kingside castling rights"@,
                CastlingRight::WhiteQ => "white shouldn't have queenside castling rights"@,
                CastlingRight::BlackK => "black shouldn't have kingside castling rights"@,
                CastlingRight::BlackQ => "black shouldn't have queenside castling rights"@,
            },
        }
    }

    /// The message that reports this violation.
    pub fn message(&self) -> (r: String)
        ensures
            r@ == self.text(),
    {
        let mut s = String::new();
        match *self {
            Violation::KingCount(player, n) => {
                push_text(&mut s, "incorrect number of ");
                push_text(&mut s, side_str(player));
                push_text(&mut s, " kings: ");
                push_decimal(&mut s, n);
                assert(s@ =~= self.text());
            },
            Violation::PawnCount(player, n) => {
                push_text(&mut s, "incorrect number of ");
                push_text(&mut s, side_str(player));
                push_text(&mut s, " pawns: ");
                push_decimal(&mut s, n);
                assert(s@ =~= self.text());
            },
            Violation::PieceCount(player, n) => {
                push_text(&mut s, "incorrect number of ");
                push_text(&mut s, side_str(player));
                push_text(&mut s, " pieces: ");
                push_decimal(&mut s, n);
                assert(s@ =~= self.text());
            },
            Violation::Occupancy(player) => {
                push_text(&mut s, side_str(player));
                push_text(&mut s, " occupancy bitboard doesn't match piece bitboards");
                assert(s@ =~= self.text());
            },
            Violation::AllOccupancy => {
                push_text(
                    &mut s,
                    "all occupancy bitboard doesn't match player occupancy bitboards",
                );
                assert(s@ =~= self.text());
            },
            Violation::Checkers => {
                push_text(&mut s, "checkers bitboard is not correct");
                assert(s@ =~= self.text());
            },
            Violation::AttackedSquares => {
                push_text(&mut s, "attacked squares bitboard is not correct");
                assert(s@ =~= self.text());
            },
            Violation::PinnedPieces => {
                push_text(&mut s, "pinned pieces bitboard is not correct");
                assert(s@ =~= self.text());
            },
            Violation::SameSquare(p1, p2) => {
                push_char(&mut s, p1.to_char());
                push_text(&mut s, " and ");
                push_char(&mut s, p2.to_char());
                push_text(&mut s, " are on the same square");
                assert(s@ =~= self.text());
            },
            Violation::KingsTooClose => {
                push_text(&mut s, "Kings are too close together");
                assert(s@ =~= self.text());
            },
            Violation::TooManyCheckers(n) => {
                push_text(&mut s, "Only 2 checkers are possible. ");
                push_decimal(&mut s, n);
                push_text(&mut s, " found.");
                assert(s@ =~= self.text());
            },
            Violation::DoubleCheck(k1, k2) => {
                push_text(&mut s, "cannot double check with a ");
                push_text(&mut s, kind_str(k1));
                push_text(&mut s, " and a ");
                push_text(&mut s, kind_str(k2));
                assert(s@ =~= self.text());
            },
            Violation::InactiveInCheck => {
                push_text(&mut s, "non active color is in check");
                assert(s@ =~= self.text());
            },
            Violation::PawnOnRank(player, rank) => {
                push_text(&mut s, "cannot have ");
                push_text(&mut s, side_str(player));
                push_text(&mut s, " pawns on rank ");
                push_char(&mut s, rank.to_char());
                assert(s@ =~= self.text());
            },
            Violation::EnPassantSquare => {
                push_text(&mut s, "invalid en passant square");
                assert(s@ =~= self.text());
            },
            Violation::EnPassantRank(rank) => {
                push_text(&mut s, "invalid en passant rank: ");
                push_char(&mut s, rank.to_char());
                assert(s@ =~= self.text());
            },
            Violation::TooManyPromoted(player) => {
                push_text(&mut s, "too many promoted ");
                push_text(&mut s, side_str(player));
                push_text(&mut s, " pieces");
                assert(s@ =~= self.text());
            },
            Violation::Castling(right) => {
                match right {
                    CastlingRight::WhiteK => push_text(
                        &mut s,
                        "white shouldn't have kingside castling rights",
                    ),
                    CastlingRight::WhiteQ => push_text(
                        &mut s,
                        "white shouldn't have queenside castling rights",
                    ),
                    CastlingRight::BlackK => push_text(
                        &mut s,
                        "black shouldn't have kingside castling rights",
                    ),
                    CastlingRight::BlackQ => push_text(
                        &mut s,
                        "black shouldn't have queenside castling rights",
                    ),
                }
                assert(s@ =~= self.text());
            },
        }
        s
    }
}

/// The list that holds `v` where `cond` holds, and nothing where it does not.
#[verifier::opaque]
pub open spec fn only(cond: bool, v: Violation) -> Seq<Violation> {
    if cond {
        seq![v]
    } else {
        Seq::empty()
    }
}

/// Whether two pieces of the kinds `k1` and `k2` cannot give check together.
pub open spec fn bad_pair(k1: PieceKind, k2: PieceKind) -> bool {
    (k1 == PieceKind::Pawn && (k2 == PieceKind::Pawn || k2 == PieceKind::Bishop || k2
        == PieceKind::Knight)) || (k1 == PieceKind::Bishop && (k2 == PieceKind::Bishop || k2
        == PieceKind::Pawn)) || (k1 == PieceKind::Knight && (k2 == PieceKind::Knight || k2
        == PieceKind::Pawn))
}

/// What `only` holds.
pub proof fn lemma_only(cond: bool, v: Violation)
    ensures
        only(cond, v).len() == (if cond {
            1nat
        } else {
            0nat
        }),
        cond ==> only(cond, v) == seq![v],
        !cond ==> only(cond, v) == Seq::<Violation>::empty(),
{
    reveal(only);
}

/// Joining sequences one after another gives the same result however the joins are grouped.
pub proof fn lemma_join<T>(a: Seq<T>, b: Seq<T>, c: Seq<T>)
    ensures
        (a + b) + c == a + (b + c),
{
    assert((a + b) + c =~= a + (b + c));
}

/// The larger of two numbers.
pub open spec fn larger(a: int, b: int) -> int {
    if a >= b {
        a
    } else {
        b
    }
}

/// The distance of `a` from `b`, never negative.
pub open spec fn gap(a: int, b: int) -> int {
    if a >= b {
        a - b
    } else {
        b - a
    }
}

impl Position {
    /// The union of the piece boards of `player`.
    pub open spec fn union_of(self, player: Player) -> u64 {
        match player {
            Player::White => self.pieces[0] | self.pieces[1] | self.pieces[2] | self.pieces[3]
                | self.pieces[4] | self.pieces[5],
            Player::Black => self.pieces[6] | self.pieces[7] | self.pieces[8] | self.pieces[9]
                | self.pieces[10] | self.pieces[11],
        }
    }

    /// The number of pieces of `player`.
    pub open spec fn side_count(self, player: Player) -> nat {
        count(self.bb(Piece::spec_of(player, PieceKind::Rook))) + count(
            self.bb(Piece::spec_of(player, PieceKind::Knight)),
        ) + count(self.bb(Piece::spec_of(player, PieceKind::Bishop))) + count(
            self.bb(Piece::spec_of(player, PieceKind::Queen)),
        ) + count(self.bb(Piece::spec_of(player, PieceKind::King))) + count(
            self.bb(Piece::spec_of(player, PieceKind::Pawn)),
        )
    }

    /// The number of pieces of `player` that only a promotion can have brought: queens beyond
    /// the first, and rooks, knights and bishops beyond the second.
    pub open spec fn promoted_count(self, player: Player) -> int {
        larger(0, count(self.bb(Piece::spec_of(player, PieceKind::Queen))) - 1) + larger(
            0,
            count(self.bb(Piece::spec_of(player, PieceKind::Rook))) - 2,
        ) + larger(0, count(self.bb(Piece::spec_of(player, PieceKind::Knight))) - 2) + larger(
            0,
            count(self.bb(Piece::spec_of(player, PieceKind::Bishop))) - 2,
        )
    }

    /// Whether `player` has more promoted pieces than it has lost pawns.
    pub open spec fn over_promoted(self, player: Player) -> bool {
        self.promoted_count(player) > 8 - count(self.bb(Piece::spec_of(player, PieceKind::Pawn)))
    }

    /// The number of files or ranks, whichever is more, between the two kings.
    pub open spec fn king_distance(self) -> int {
        let w = self.king_sq(Player::White);
        let b = self.king_sq(Player::Black);
        larger(gap(w % 8, b % 8), gap(w / 8, b / 8))
    }

    /// Whether the stored checkers are two pieces that cannot give check together.
    pub open spec fn bad_double_check(self) -> bool {
        count(self.checkers) == 2 && self.piece_at(lowest(self.checkers)) is Some && self.piece_at(
            highest(self.checkers),
        ) is Some && bad_pair(
            self.piece_at(lowest(self.checkers))->0.spec_kind(),
            self.piece_at(highest(self.checkers))->0.spec_kind(),
        )
    }

    /// Whether the side that is not to move is in check.
    pub open spec fn inactive_in_check(self) -> bool {
        self.attacked_for(self.turn.spec_other()) & self.king_bb(self.turn.spec_other()) != 0
    }

    /// Whether the right `right` is held although its king or its rook is not at home.
    pub open spec fn stale_right(self, right: CastlingRight) -> bool {
        self.castling.spec_contains(right) && match right {
            CastlingRight::WhiteK => !(self.piece_at(4) == Some(Piece::WhiteKing) && self.piece_at(7)
                == Some(Piece::WhiteRook)),
            CastlingRight::WhiteQ => !(self.piece_at(4) == Some(Piece::WhiteKing) && self.piece_at(0)
                == Some(Piece::WhiteRook)),
            CastlingRight::BlackK => !(self.piece_at(60) == Some(Piece::BlackKing) && self.piece_at(
                63,
            ) == Some(Piece::BlackRook)),
            CastlingRight::BlackQ => !(self.piece_at(60) == Some(Piece::BlackKing) && self.piece_at(
                56,
            ) == Some(Piece::BlackRook)),
        }
    }

    /// The violations in the numbers of pieces.
    pub open spec fn count_violations(self) -> Seq<Violation> {
        let wk = count(self.bb(Piece::WhiteKing));
        let bk = count(self.bb(Piece::BlackKing));
        let wp = count(self.bb(Piece::WhitePawn));
        let bp = count(self.bb(Piece::BlackPawn));
        only(wk != 1, Violation::KingCount(Player::White, wk as u32)) + only(
            bk != 1,
            Violation::KingCount(Player::Black, bk as u32),
        ) + only(wp > 8, Violation::PawnCount(Player::White, wp as u32)) + only(
            bp > 8,
            Violation::PawnCount(Player::Black, bp as u32),
        ) + only(
            self.side_count(Player::White) > 16,
            Violation::PieceCount(Player::White, self.side_count(Player::White) as u32),
        ) + only(
            self.side_count(Player::Black) > 16,
            Violation::PieceCount(Player::Black, self.side_count(Player::Black) as u32),
        )
    }

    /// The violations in the occupancy boards.
    pub open spec fn occupancy_violations(self) -> Seq<Violation> {
        only(self.occ[0] != self.union_of(Player::White), Violation::Occupancy(Player::White))
            + only(self.occ[1] != self.union_of(Player::Black), Violation::Occupancy(Player::Black))
            + only(self.occ[2] != self.occ[0] | self.occ[1], Violation::AllOccupancy)
    }

    /// The violations in the three stored sets.
    pub open spec fn derived_violations(self) -> Seq<Violation> {
        only(self.checkers != self.checkers_for(self.turn), Violation::Checkers) + only(
            self.attacked != self.attacked_for(self.turn),
            Violation::AttackedSquares,
        ) + only(self.pinned != self.pinned_for(self.turn), Violation::PinnedPieces)
    }

    /// Whether the boards of the two different pieces numbered by `k` (the first by `k / 12`,
    /// the second by `k % 12`) share a square.
    pub open spec fn overlap_at(self, k: int) -> bool {
        k / 12 != k % 12 && self.pieces[k / 12] & self.pieces[k % 12] != 0
    }

    /// The pairs of different pieces whose boards share a square, from the pair numbered `k` on.
    pub open spec fn overlaps_from(self, k: int) -> Seq<Violation>
        decreases 144 - k,
    {
        if k < 0 || k >= 144 {
            Seq::empty()
        } else {
            only(self.overlap_at(k), Violation::SameSquare(Piece::at(k / 12), Piece::at(k % 12)))
                + self.overlaps_from(k + 1)
        }
    }

    /// The violations that concern the kings and the checks.
    pub open spec fn check_violations(self) -> Seq<Violation> {
        only(self.king_distance() < 2, Violation::KingsTooClose) + only(
            count(self.checkers) > 2,
            Violation::TooManyCheckers(count(self.checkers) as u32),
        ) + only(
            self.bad_double_check(),
            Violation::DoubleCheck(
                self.piece_at(lowest(self.checkers))->0.spec_kind(),
                self.piece_at(highest(self.checkers))->0.spec_kind(),
            ),
        ) + only(self.inactive_in_check(), Violation::InactiveInCheck)
    }

    /// The violations by pawns on the first and the eighth rank.
    pub open spec fn pawn_rank_violations(self) -> Seq<Violation> {
        only(
            self.bb(Piece::WhitePawn) & RANK_1 != 0,
            Violation::PawnOnRank(Player::White, Rank::R1),
        ) + only(
            self.bb(Piece::WhitePawn) & RANK_8 != 0,
            Violation::PawnOnRank(Player::White, Rank::R8),
        ) + only(
            self.bb(Piece::BlackPawn) & RANK_1 != 0,
            Violation::PawnOnRank(Player::Black, Rank::R1),
        ) + only(
            self.bb(Piece::BlackPawn) & RANK_8 != 0,
            Violation::PawnOnRank(Player::Black, Rank::R8),
        )
    }

    /// The violations in the en-passant target.
    pub open spec fn en_passant_violations(self) -> Seq<Violation> {
        match self.en_passant {
            None => Seq::empty(),
            Some(sq) => if sq.idx() / 8 == 2 || sq.idx() / 8 == 5 {
                only(!self.en_passant_ok(), Violation::EnPassantSquare)
            } else {
                seq![Violation::EnPassantRank(sq.spec_rank())]
            },
        }
    }

    /// The violations in the numbers of promoted pieces.
    pub open spec fn promoted_violations(self) -> Seq<Violation> {
        only(self.over_promoted(Player::White), Violation::TooManyPromoted(Player::White)) + only(
            self.over_promoted(Player::Black),
            Violation::TooManyPromoted(Player::Black),
        )
    }

    /// The violations in the castling rights.
    pub open spec fn castling_violations(self) -> Seq<Violation> {
        only(self.stale_right(CastlingRight::WhiteQ), Violation::Castling(CastlingRight::WhiteQ))
            + only(
            self.stale_right(CastlingRight::WhiteK),
            Violation::Castling(CastlingRight::WhiteK),
        ) + only(
            self.stale_right(CastlingRight::BlackQ),
            Violation::Castling(CastlingRight::BlackQ),
        ) + only(
            self.stale_right(CastlingRight::BlackK),
            Violation::Castling(CastlingRight::BlackK),
        )
    }

    /// Everything that is wrong with the position, in a fixed order: numbers of pieces,
    /// occupancy boards, stored sets, shared squares, kings and checks, pawns on the outer
    /// ranks, en-passant target, promoted pieces, castling rights. What depends on the kings'
    /// squares is looked at only where each side has exactly one king.
    pub open spec fn violations(self) -> Seq<Violation> {
        self.count_violations() + self.occupancy_violations() + (if self.kings_ok() {
            self.derived_violations()
        } else {
            Seq::empty()
        }) + self.overlaps_from(0) + (if self.kings_ok() {
            self.check_violations()
        } else {
            Seq::empty()
        }) + self.pawn_rank_violations() + self.en_passant_violations()
            + self.promoted_violations() + self.castling_violations()
    }

    /// Whether the position passes every check of the validator.
    pub open spec fn valid(self) -> bool {
        &&& self.shaped()
        &&& self.kings_ok()
        &&& count(self.bb(Piece::WhitePawn)) <= 8
        &&& count(self.bb(Piece::BlackPawn)) <= 8
        &&& self.side_count(Player::White) <= 16
        &&& self.side_count(Player::Black) <= 16
        &&& self.layout_ok()
        &&& self.derived_ok()
        &&& self.king_distance() >= 2
        &&& count(self.checkers) <= 2
        &&& !self.bad_double_check()
        &&& !self.inactive_in_check()
        &&& self.bb(Piece::WhitePawn) & RANK_1 == 0
        &&& self.bb(Piece::WhitePawn) & RANK_8 == 0
        &&& self.bb(Piece::BlackPawn) & RANK_1 == 0
        &&& self.bb(Piece::BlackPawn) & RANK_8 == 0
        &&& self.en_passant_ok()
        &&& !self.over_promoted(Player::White)
        &&& !self.over_promoted(Player::Black)
        &&& self.castling_ok()
    }

    /// Where no pair from `k` on is reported, no pair from `k` on shares a square.
    pub proof fn lemma_overlaps(self, k: int)
        requires
            0 <= k <= 144,
        ensures
            self.overlaps_from(k).len() == 0 <==> forall|j: int| k <= j < 144 ==> !self.overlap_at(j),
        decreases 144 - k,
    {
        reveal(only);
        if k < 144 {
            self.lemma_overlaps(k + 1);
            if self.overlaps_from(k).len() == 0 {
                assert forall|j: int| k <= j < 144 implies !self.overlap_at(j) by {
                    if j > k {
                        assert(self.overlaps_from(k + 1).len() == 0);
                    }
                }
            } else {
                if forall|j: int| k <= j < 144 ==> !self.overlap_at(j) {
                    assert(!self.overlap_at(k));
                    assert(self.overlaps_from(k + 1).len() == 0);
                }
            }
        }
    }

    /// The shared-square check passes exactly where the piece boards are disjoint.
    pub proof fn lemma_overlaps_disjoint(self)
        requires
            self.shaped(),
        ensures
            self.overlaps_from(0).len() == 0 <==> self.disjoint(),
    {
        self.lemma_overlaps(0);
        if self.overlaps_from(0).len() == 0 {
            assert forall|i: int, j: int| 0 <= i < j < 12 implies (#[trigger] self.pieces[i]) & (
            #[trigger] self.pieces[j]) == 0 by {
                let k = 12 * i + j;
                assert(k / 12 == i && k % 12 == j);
                assert(!self.overlap_at(k));
            }
        }
        if self.disjoint() {
            assert forall|k: int| 0 <= k < 144 implies !self.overlap_at(k) by {
                let i = k / 12;
                let j = k % 12;
                if i < j {
                    assert(self.pieces[i] & self.pieces[j] == 0);
                } else if j < i {
                    assert(self.pieces[j] & self.pieces[i] == 0);
                    lemma_or_laws(self.pieces[i], self.pieces[j], 0);
                }
            }
        }
    }

    proof fn lemma_count_part(self)
        ensures
            self.count_violations().len() == 0 <==> (self.kings_ok() && count(
                self.bb(Piece::WhitePawn),
            ) <= 8 && count(self.bb(Piece::BlackPawn)) <= 8 && self.side_count(Player::White) <= 16
                && self.side_count(Player::Black) <= 16),
    {
        reveal(only);
    }

    proof fn lemma_occupancy_part(self)
        ensures
            self.occupancy_violations().len() == 0 <==> (self.occ[0] == self.union_of(Player::White)
                && self.occ[1] == self.union_of(Player::Black) && self.occ[2] == self.occ[0]
                | self.occ[1]),
    {
        reveal(only);
    }

    proof fn lemma_derived_part(self)
        ensures
            self.derived_violations().len() == 0 <==> self.derived_ok(),
    {
        reveal(only);
    }

    proof fn lemma_check_part(self)
        ensures
            self.check_violations().len() == 0 <==> (self.king_distance() >= 2 && count(
                self.checkers,
            ) <= 2 && !self.bad_double_check() && !self.inactive_in_check()),
    {
        reveal(only);
    }

    proof fn lemma_pawn_rank_part(self)
        ensures
            self.pawn_rank_violations().len() == 0 <==> (self.bb(Piece::WhitePawn) & RANK_1 == 0
                && self.bb(Piece::WhitePawn) & RANK_8 == 0 && self.bb(Piece::BlackPawn) & RANK_1
                == 0 && self.bb(Piece::BlackPawn) & RANK_8 == 0),
    {
        reveal(only);
    }

    proof fn lemma_en_passant_part(self)
        ensures
            self.en_passant_violations().len() == 0 <==> self.en_passant_ok(),
    {
        reveal(only);
    }

    proof fn lemma_promoted_part(self)
        ensures
            self.promoted_violations().len() == 0 <==> (!self.over_promoted(Player::White)
                && !self.over_promoted(Player::Black)),
    {
        reveal(only);
    }

    proof fn lemma_castling_part(self)
        ensures
            self.castling_violations().len() == 0 <==> self.castling_ok(),
    {
        reveal(only);
    }

    /// The validator reports nothing exactly for the positions that pass every check.
    pub proof fn lemma_valid(self)
        requires
            self.shaped(),
        ensures
            self.violations().len() == 0 <==> self.valid(),
    {
        self.lemma_overlaps_disjoint();
        self.lemma_count_part();
        self.lemma_occupancy_part();
        self.lemma_derived_part();
        self.lemma_check_part();
        self.lemma_pawn_rank_part();
        self.lemma_en_passant_part();
        self.lemma_promoted_part();
        self.lemma_castling_part();
        let a = self.count_violations();
        let b = self.occupancy_violations();
        let c = if self.kings_ok() {
            self.derived_violations()
        } else {
            Seq::empty()
        };
        let d = self.overlaps_from(0);
        let e = if self.kings_ok() {
            self.check_violations()
        } else {
            Seq::empty()
        };
        let f = self.pawn_rank_violations();
        let g = self.en_passant_violations();
        let h = self.promoted_violations();
        let i = self.castling_violations();
        assert(self.violations() == a + b + c + d + e + f + g + h + i);
        assert(self.violations().len() == a.len() + b.len() + c.len() + d.len() + e.len() + f.len()
            + g.len() + h.len() + i.len());
    }

    /// A position that passes every check of the validator is sound.
    pub proof fn lemma_valid_wf(self)
        requires
            self.valid(),
        ensures
            self.wf(),
    {
    }
}

/// Appends `x` to `v` where `cond` holds.
fn push_if(v: &mut Vec<Violation>, cond: bool, x: Violation)
    ensures
        final(v)@ == old(v)@ + only(cond, x),
{
    reveal(only);
    if cond {
        v.push(x);
    }
    assert(v@ =~= old(v)@ + only(cond, x));
}

impl<'a> Board<'a> {
    fn side_total(&self, player: Player) -> (r: u32)
        ensures
            r == self.state@.side_count(player),
            r <= 384,
    {
        self.count_piece(Piece::of(player, PieceKind::Rook)) + self.count_piece(
            Piece::of(player, PieceKind::Knight),
        ) + self.count_piece(Piece::of(player, PieceKind::Bishop)) + self.count_piece(
            Piece::of(player, PieceKind::Queen),
        ) + self.count_piece(Piece::of(player, PieceKind::King)) + self.count_piece(
            Piece::of(player, PieceKind::Pawn),
        )
    }

    fn check_counts(&self, v: &mut Vec<Violation>)
        ensures
            final(v)@ == old(v)@ + self.state@.count_violations(),
    {
        let wk = self.count_piece(Piece::WhiteKing);
        let bk = self.count_piece(Piece::BlackKing);
        let wp = self.count_piece(Piece::WhitePawn);
        let bp = self.count_piece(Piece::BlackPawn);
        let w = self.side_total(Player::White);
        let b = self.side_total(Player::Black);
        let ghost s0 = v@;
        let ghost o1 = only(wk != 1, Violation::KingCount(Player::White, wk));
        let ghost o2 = only(bk != 1, Violation::KingCount(Player::Black, bk));
        let ghost o3 = only(wp > 8, Violation::PawnCount(Player::White, wp));
        let ghost o4 = only(bp > 8, Violation::PawnCount(Player::Black, bp));
        let ghost o5 = only(w > 16, Violation::PieceCount(Player::White, w));
        let ghost o6 = only(b > 16, Violation::PieceCount(Player::Black, b));
        push_if(v, wk != 1, Violation::KingCount(Player::White, wk));
        push_if(v, bk != 1, Violation::KingCount(Player::Black, bk));
        push_if(v, wp > 8, Violation::PawnCount(Player::White, wp));
        push_if(v, bp > 8, Violation::PawnCount(Player::Black, bp));
        push_if(v, w > 16, Violation::PieceCount(Player::White, w));
        push_if(v, b > 16, Violation::PieceCount(Player::Black, b));
        proof {
            lemma_join(s0, o1, o2);
            lemma_join(s0, o1 + o2, o3);
            lemma_join(s0, o1 + o2 + o3, o4);
            lemma_join(s0, o1 + o2 + o3 + o4, o5);
            lemma_join(s0, o1 + o2 + o3 + o4 + o5, o6);
        }
    }

    fn check_occupancy(&self, v: &mut Vec<Violation>)
        ensures
            final(v)@ == old(v)@ + self.state@.occupancy_violations(),
    {
        let bbs = &self.state.piece_bbs;
        let white = bbs[0].0 | bbs[1].0 | bbs[2].0 | bbs[3].0 | bbs[4].0 | bbs[5].0;
        let black = bbs[6].0 | bbs[7].0 | bbs[8].0 | bbs[9].0 | bbs[10].0 | bbs[11].0;
        let occ = &self.state.occ_bbs;
        push_if(v, occ[0].0 != white, Violation::Occupancy(Player::White));
        push_if(v, occ[1].0 != black, Violation::Occupancy(Player::Black));
        push_if(v, occ[2].0 != (occ[0].0 | occ[1].0), Violation::AllOccupancy);
        assert(v@ =~= old(v)@ + self.state@.occupancy_violations());
    }

    fn check_derived(&self, v: &mut Vec<Violation>)
        requires
            self.lookup_tables.wf(),
            self.state@.kings_ok(),
        ensures
            final(v)@ == old(v)@ + self.state@.derived_violations(),
    {
        proof {
            crate::bitboard::lemma_count_one(self.state@.king_bb(self.state.turn));
        }
        let (checkers, attacked_squares, pinned_pieces) = self.get_check_info();
        push_if(v, self.state.checkers.0 != checkers.0, Violation::Checkers);
        push_if(
            v,
            self.state.attacked_squares.0 != attacked_squares.0,
            Violation::AttackedSquares,
        );
        push_if(v, self.state.pinned_pieces.0 != pinned_pieces.0, Violation::PinnedPieces);
        assert(v@ =~= old(v)@ + self.state@.derived_violations());
    }

    fn check_overlaps(&self, v: &mut Vec<Violation>)
        ensures
            final(v)@ == old(v)@ + self.state@.overlaps_from(0),
    {
        let ghost pos = self.state@;
        let mut i: usize = 0;
        assert(v@ + pos.overlaps_from(0) =~= old(v)@ + pos.overlaps_from(0));
        while i < 12
            invariant
                i <= 12,
                pos == self.state@,
                v@ + pos.overlaps_from(12 * i as int) == old(v)@ + pos.overlaps_from(0),
            decreases 12 - i,
        {
            let mut j: usize = 0;
            while j < 12
                invariant
                    i < 12,
                    j <= 12,
                    pos == self.state@,
                    v@ + pos.overlaps_from(12 * i as int + j as int) == old(v)@
                        + pos.overlaps_from(0),
                decreases 12 - j,
            {
                let ghost before = v@;
                let ghost k = 12 * i as int + j as int;
                assert(k / 12 == i && k % 12 == j);
                let shared = i != j && (self.state.piece_bbs[i].0 & self.state.piece_bbs[j].0) != 0;
                push_if(v, shared, Violation::SameSquare(PIECES[i], PIECES[j]));
                assert(v@ + pos.overlaps_from(k + 1) =~= before + pos.overlaps_from(k));
                j = j + 1;
            }
            i = i + 1;
        }
        assert(v@ + pos.overlaps_from(144) =~= v@);
    }

    fn check_checks(&self, v: &mut Vec<Violation>)
        requires
            self.lookup_tables.wf(),
            self.state@.kings_ok(),
        ensures
            final(v)@ == old(v)@ + self.state@.check_violations(),
    {
        let ghost pos = self.state@;
        proof {
            crate::bitboard::lemma_count_one(pos.king_bb(Player::White));
            crate::bitboard::lemma_count_one(pos.king_bb(Player::Black));
            lemma_lowest(pos.king_bb(Player::White));
            lemma_lowest(pos.king_bb(Player::Black));
            Square::lemma_at_idx(pos.king_sq(Player::White));
            Square::lemma_at_idx(pos.king_sq(Player::Black));
        }
        let white_king_square = self.state.piece_bbs[Piece::WhiteKing.index()].get_lsb().unwrap();
        let black_king_square = self.state.piece_bbs[Piece::BlackKing.index()].get_lsb().unwrap();
        let white_king_rank: i8 = white_king_square.rank().index() as i8;
        let white_king_file: i8 = white_king_square.file().index() as i8;
        let black_king_rank: i8 = black_king_square.rank().index() as i8;
        let black_king_file: i8 = black_king_square.file().index() as i8;
        let file_gap: i8 = if white_king_file >= black_king_file {
            white_king_file - black_king_file
        } else {
            black_king_file - white_king_file
        };
        let rank_gap: i8 = if white_king_rank >= black_king_rank {
            white_king_rank - black_king_rank
        } else {
            black_king_rank - white_king_rank
        };
        let king_distance: i8 = if file_gap >= rank_gap {
            file_gap
        } else {
            rank_gap
        };
        let ghost s0 = v@;
        push_if(v, king_distance < 2, Violation::KingsTooClose);

        let num_checks = self.state.checkers.pop_count();
        push_if(v, num_checks > 2, Violation::TooManyCheckers(num_checks));

        let mut bad = false;
        let mut pair = (PieceKind::Pawn, PieceKind::Pawn);
        if num_checks == 2 {
            proof {
                if pos.checkers == 0 {
                    crate::bitboard::lemma_count_zero(64);
                }
                lemma_lowest(pos.checkers);
                lemma_highest(pos.checkers);
                Square::lemma_at_idx(lowest(pos.checkers));
                Square::lemma_at_idx(highest(pos.checkers));
            }
            let first = self.get_piece(self.state.checkers.get_lsb().unwrap());
            let second = self.get_piece(self.state.checkers.get_msb().unwrap());
            if let Some(p1) = first {
                if let Some(p2) = second {
                    let piece_1 = p1.kind();
                    let piece_2 = p2.kind();
                    pair = (piece_1, piece_2);
                    bad = (piece_1 == PieceKind::Pawn && (piece_2 == PieceKind::Pawn || piece_2
                        == PieceKind::Bishop || piece_2 == PieceKind::Knight)) || (piece_1
                        == PieceKind::Bishop && (piece_2 == PieceKind::Bishop || piece_2
                        == PieceKind::Pawn)) || (piece_1 == PieceKind::Knight && (piece_2
                        == PieceKind::Knight || piece_2 == PieceKind::Pawn));
                }
            }
        }
        push_if(v, bad, Violation::DoubleCheck(pair.0, pair.1));

        let inactive = self.state.turn.other();
        let non_active_king = Piece::of(inactive, PieceKind::King);
        let (_, attacked_square, _) = self.get_check_info_for_player(inactive);
        push_if(
            v,
            (attacked_square.0 & self.state.piece_bbs[non_active_king.index()].0) != 0,
            Violation::InactiveInCheck,
        );
        proof {
            let o1 = only(pos.king_distance() < 2, Violation::KingsTooClose);
            let o2 = only(
                count(pos.checkers) > 2,
                Violation::TooManyCheckers(count(pos.checkers) as u32),
            );
            let o3 = only(
                pos.bad_double_check(),
                Violation::DoubleCheck(
                    pos.piece_at(lowest(pos.checkers))->0.spec_kind(),
                    pos.piece_at(highest(pos.checkers))->0.spec_kind(),
                ),
            );
            let o4 = only(pos.inactive_in_check(), Violation::InactiveInCheck);
            assert(bad == pos.bad_double_check());
            lemma_only(bad, Violation::DoubleCheck(pair.0, pair.1));
            lemma_only(
                pos.bad_double_check(),
                Violation::DoubleCheck(
                    pos.piece_at(lowest(pos.checkers))->0.spec_kind(),
                    pos.piece_at(highest(pos.checkers))->0.spec_kind(),
                ),
            );
            assert(only(bad, Violation::DoubleCheck(pair.0, pair.1)) == o3);
            lemma_join(s0, o1, o2);
            lemma_join(s0, o1 + o2, o3);
            lemma_join(s0, o1 + o2 + o3, o4);
        }
    }

    fn check_pawn_ranks(&self, v: &mut Vec<Violation>)
        ensures
            final(v)@ == old(v)@ + self.state@.pawn_rank_violations(),
    {
        let white = self.state.piece_bbs[Piece::WhitePawn.index()].0;
        let black = self.state.piece_bbs[Piece::BlackPawn.index()].0;
        push_if(v, white & RANK_1 != 0, Violation::PawnOnRank(Player::White, Rank::R1));
        push_if(v, white & RANK_8 != 0, Violation::PawnOnRank(Player::White, Rank::R8));
        push_if(v, black & RANK_1 != 0, Violation::PawnOnRank(Player::Black, Rank::R1));
        push_if(v, black & RANK_8 != 0, Violation::PawnOnRank(Player::Black, Rank::R8));
        assert(v@ =~= old(v)@ + self.state@.pawn_rank_violations());
    }

    fn check_en_passant(&self, v: &mut Vec<Violation>)
        ensures
            final(v)@ == old(v)@ + self.state@.en_passant_violations(),
    {
        if let Some(en_passant_square) = self.state.en_passant {
            let en_passant_file = en_passant_square.file();
            let en_passant_rank = en_passant_square.rank();
            proof {
                en_passant_rank.lemma_idx_at();
                en_passant_file.lemma_idx_at();
            }
            match en_passant_rank {
                Rank::R3 => {
                    let bad = self.get_piece(Square::from_file_rank(en_passant_file, Rank::R3)).is_some()
                        || self.get_piece(
                        Square::from_file_rank(en_passant_file, Rank::R2),
                    ).is_some() || match self.get_piece(
                        Square::from_file_rank(en_passant_file, Rank::R4),
                    ) {
                        Some(p) => p != Piece::WhitePawn,
                        None => true,
                    };
                    push_if(v, bad, Violation::EnPassantSquare);
                },
                Rank::R6 => {
                    let bad = self.get_piece(Square::from_file_rank(en_passant_file, Rank::R6)).is_some()
                        || self.get_piece(
                        Square::from_file_rank(en_passant_file, Rank::R7),
                    ).is_some() || match self.get_piece(
                        Square::from_file_rank(en_passant_file, Rank::R5),
                    ) {
                        Some(p) => p != Piece::BlackPawn,
                        None => true,
                    };
                    push_if(v, bad, Violation::EnPassantSquare);
                },
                _ => {
                    push_if(v, true, Violation::EnPassantRank(en_passant_rank));
                    proof {
                        lemma_only(true, Violation::EnPassantRank(en_passant_rank));
                    }
                },
            }
        } else {
            assert(v@ =~= old(v)@ + self.state@.en_passant_violations());
        }
    }

    fn too_many_promoted(&self, player: Player) -> (r: bool)
        ensures
            r == self.state@.over_promoted(player),
    {
        let queens: i32 = self.count_piece(Piece::of(player, PieceKind::Queen)) as i32;
        let rooks: i32 = self.count_piece(Piece::of(player, PieceKind::Rook)) as i32;
        let knights: i32 = self.count_piece(Piece::of(player, PieceKind::Knight)) as i32;
        let bishops: i32 = self.count_piece(Piece::of(player, PieceKind::Bishop)) as i32;
        let pawns: i32 = self.count_piece(Piece::of(player, PieceKind::Pawn)) as i32;
        let extra: i32 = (if queens > 1 {
            queens - 1
        } else {
            0
        }) + (if rooks > 2 {
            rooks - 2
        } else {
            0
        }) + (if knights > 2 {
            knights - 2
        } else {
            0
        }) + (if bishops > 2 {
            bishops - 2
        } else {
            0
        });
        extra > 8 - pawns
    }

    fn check_promoted(&self, v: &mut Vec<Violation>)
        ensures
            final(v)@ == old(v)@ + self.state@.promoted_violations(),
    {
        let white = self.too_many_promoted(Player::White);
        let black = self.too_many_promoted(Player::Black);
        push_if(v, white, Violation::TooManyPromoted(Player::White));
        push_if(v, black, Violation::TooManyPromoted(Player::Black));
        assert(v@ =~= old(v)@ + self.state@.promoted_violations());
    }

    fn holds_piece(&self, s: Square, p: Piece) -> (r: bool)
        ensures
            r == (self.state@.piece_at(s.idx()) == Some(p)),
    {
        match self.get_piece(s) {
            Some(q) => q == p,
            None => false,
        }
    }

    fn check_castling(&self, v: &mut Vec<Violation>)
        ensures
            final(v)@ == old(v)@ + self.state@.castling_violations(),
    {
        let c = self.state.castling;
        let white_home = self.holds_piece(Square::E1, Piece::WhiteKing);
        let black_home = self.holds_piece(Square::E8, Piece::BlackKing);
        let wq = c.contains(CastlingRight::WhiteQ) && !(white_home && self.holds_piece(
            Square::A1,
            Piece::WhiteRook,
        ));
        let wk = c.contains(CastlingRight::WhiteK) && !(white_home && self.holds_piece(
            Square::H1,
            Piece::WhiteRook,
        ));
        let bq = c.contains(CastlingRight::BlackQ) && !(black_home && self.holds_piece(
            Square::A8,
            Piece::BlackRook,
        ));
        let bk = c.contains(CastlingRight::BlackK) && !(black_home && self.holds_piece(
            Square::H8,
            Piece::BlackRook,
        ));
        push_if(v, wq, Violation::Castling(CastlingRight::WhiteQ));
        push_if(v, wk, Violation::Castling(CastlingRight::WhiteK));
        push_if(v, bq, Violation::Castling(CastlingRight::BlackQ));
        push_if(v, bk, Violation::Castling(CastlingRight::BlackK));
        assert(v@ =~= old(v)@ + self.state@.castling_violations());
    }

    /// Everything that is wrong with the position; nothing for a position that could occur in
    /// a game.
    pub fn violations(&self) -> (r: Vec<Violation>)
        requires
            self.lookup_tables.wf(),
        ensures
            r@ == self.state@.violations(),
            r@.len() == 0 <==> self.state@.valid(),
    {
        let mut v: Vec<Violation> = Vec::new();
        let kings = self.count_piece(Piece::WhiteKing) == 1 && self.count_piece(Piece::BlackKing)
            == 1;
        self.check_counts(&mut v);
        self.check_occupancy(&mut v);
        if kings {
            self.check_derived(&mut v);
        }
        self.check_overlaps(&mut v);
        if kings {
            self.check_checks(&mut v);
        }
        self.check_pawn_ranks(&mut v);
        self.check_en_passant(&mut v);
        self.check_promoted(&mut v);
        self.check_castling(&mut v);
        proof {
            let pos = self.state@;
            let a = pos.count_violations();
            let b = pos.occupancy_violations();
            let c = if pos.kings_ok() {
                pos.derived_violations()
            } else {
                Seq::empty()
            };
            let d = pos.overlaps_from(0);
            let e = if pos.kings_ok() {
                pos.check_violations()
            } else {
                Seq::empty()
            };
            assert(v@ =~= a + b + c + d + e + pos.pawn_rank_violations()
                + pos.en_passant_violations() + pos.promoted_violations()
                + pos.castling_violations());
            pos.lemma_valid();
        }
        v
    }

    /// The messages that report what is wrong with the position, or nothing for a position
    /// that passes every check.
    pub fn is_valid(&self) -> (r: Option<Vec<String>>)
        requires
            self.lookup_tables.wf(),
        ensures
            r is None <==> self.state@.valid(),
            r is Some ==> r->0@.len() == self.state@.violations().len() && forall|i: int|
                0 <= i < r->0@.len() ==> (#[trigger] r->0@[i])@ == self.state@.violations()[i].text(),
    {
        let found = self.violations();
        if found.len() == 0 {
            return None;
        }
        let mut errors: Vec<String> = Vec::new();
        let mut i: usize = 0;
        while i < found.len()
            invariant
                i <= found.len(),
                errors@.len() == i,
                forall|j: int| 0 <= j < i ==> (#[trigger] errors@[j])@ == found@[j].text(),
            decreases found.len() - i,
        {
            errors.push(found[i].message());
            i = i + 1;
        }
        Some(errors)
    }
}

} // verus!
