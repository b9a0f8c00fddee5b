use crate::validate::larger;
use crate::bitboard::{
    bit, count, count_below, holds, lemma_ext, lemma_holds_and, lemma_holds_bit, lemma_holds_not,
    lemma_holds_or, lemma_holds_zero,
};
use crate::board::Position;
use crate::magic::lemma_edges_raw;
use crate::types::{Move, Piece, PieceKind, Player, RANK_1, RANK_8};
use vstd::prelude::*;

verus! {

/// Two words that hold the same squares but for the square `i` differ in their counts by what
/// they hold of `i`.
pub proof fn lemma_count_change(x: u64, y: u64, i: int, n: nat)
    requires
        0 <= i < 64,
        n <= 64,
        forall|j: int| 0 <= j < 64 && j != i ==> holds(x, j) == holds(y, j),
    ensures
        count_below(y, n) + (if n > i && holds(x, i) {
            1int
        } else {
            0int
        }) == count_below(x, n) + (if n > i && holds(y, i) {
            1int
        } else {
            0int
        }),
    decreases n,
{
    if n > 0 {
        lemma_count_change(x, y, i, (n - 1) as nat);
    }
}

/// Taking a square out of a word lowers the count by one where the word held it.
pub proof fn lemma_count_clear(x: u64, i: int)
    requires
        0 <= i < 64,
    ensures
        count(x & !bit(i)) + (if holds(x, i) {
            1int
        } else {
            0int
        }) == count(x),
{
    let y = x & !bit(i);
    assert forall|j: int| 0 <= j < 64 implies holds(y, j) == (holds(x, j) && j != i) by {
        lemma_holds_and(x, !bit(i), j);
        lemma_holds_not(bit(i), j);
        lemma_holds_bit(i, j);
    }
    lemma_count_change(x, y, i, 64);
}

/// Putting a square into a word raises the count by one where the word did not hold it.
pub proof fn lemma_count_set(x: u64, i: int)
    requires
        0 <= i < 64,
    ensures
        count(x | bit(i)) == count(x) + (if holds(x, i) {
            0int
        } else {
            1int
        }),
{
    let y = x | bit(i);
    assert forall|j: int| 0 <= j < 64 implies holds(y, j) == (holds(x, j) || j == i) by {
        lemma_holds_or(x, bit(i), j);
        lemma_holds_bit(i, j);
    }
    lemma_count_change(x, y, i, 64);
}

/// One where `cond` holds, and zero where it does not.
pub open spec fn one_if(cond: bool) -> int {
    if cond {
        1
    } else {
        0
    }
}

impl Position {
    /// Whether no pawn stands on the first or the eighth rank.
    pub open spec fn pawns_ok(self) -> bool {
        &&& self.bb(Piece::WhitePawn) & RANK_1 == 0
        &&& self.bb(Piece::WhitePawn) & RANK_8 == 0
        &&& self.bb(Piece::BlackPawn) & RANK_1 == 0
        &&& self.bb(Piece::BlackPawn) & RANK_8 == 0
    }

    /// Whether the numbers of pieces are those of a game: for each side at most eight pawns,
    /// at most sixteen pieces, and no more promoted pieces than lost pawns.
    pub open spec fn material_ok(self) -> bool {
        &&& count(self.bb(Piece::WhitePawn)) <= 8
        &&& count(self.bb(Piece::BlackPawn)) <= 8
        &&& self.side_count(Player::White) <= 16
        &&& self.side_count(Player::Black) <= 16
        &&& !self.over_promoted(Player::White)
        &&& !self.over_promoted(Player::Black)
    }

    /// The number of pieces `q`.
    pub open spec fn tally(self, q: Piece) -> int {
        count(self.bb(q)) as int
    }

    /// Taking a piece off the square it stands on lowers its number by one and leaves the
    /// others.
    pub proof fn lemma_without_tally(self, p: Piece, s: int, q: Piece)
        requires
            self.layout_ok(),
            0 <= s < 64,
            self.piece_at(s) == Some(p),
        ensures
            self.without_piece(p, s).tally(q) == self.tally(q) - one_if(q == p),
    {
        self.lemma_square_ok(s);
        p.lemma_idx_at();
        q.lemma_idx_at();
        lemma_count_clear(self.pieces[p.idx()], s);
        assert(self.on(p.idx(), s)) by {
            if !self.on(p.idx(), s) {
                assert(!self.on(0, s) || p.idx() != 0);
            }
        }
    }

    /// Putting a piece on an empty square raises its number by one and leaves the others.
    pub proof fn lemma_with_tally(self, p: Piece, s: int, q: Piece)
        requires
            self.layout_ok(),
            0 <= s < 64,
            self.piece_at(s) is None,
        ensures
            self.with_piece(p, s).tally(q) == self.tally(q) + one_if(q == p),
    {
        self.lemma_square_ok(s);
        p.lemma_idx_at();
        q.lemma_idx_at();
        lemma_count_set(self.pieces[p.idx()], s);
        assert(!self.on(p.idx(), s));
    }
}

impl Position {
    /// The number of pieces `q` after the move `m`: the number before it, less the piece
    /// captured, the pawn taken en passant and the mover, plus the piece that arrives.
    pub open spec fn tally_after(self, m: Move, q: Piece) -> int {
        self.tally(q) - one_if(self.piece_at(m.1.idx()) == Some(q)) - one_if(
            self.victim(m) == Some(q),
        ) - one_if(self.mover(m) == q) + one_if(self.arriving(m) == q)
    }

    proof fn lemma_cleared_tally(self, m: Move, q: Piece)
        requires
            self.layout_ok(),
            self.en_passant_ok(),
        ensures
            self.cleared(m).tally(q) == self.tally(q) - one_if(self.piece_at(m.1.idx()) == Some(q))
                - one_if(self.victim(m) == Some(q)),
    {
        let to = m.1.idx();
        m.1.lemma_idx_at();
        self.lemma_lifted(m);
        self.lemma_cleared(m);
        if self.piece_at(to) is Some {
            self.lemma_without_tally(self.piece_at(to)->0, to, q);
        }
        let p1 = self.lifted(m);
        if self.victim(m) is Some {
            p1.lemma_without_tally(self.victim(m)->0, self.victim_square(m), q);
        }
    }

    proof fn lemma_relocated_tally(self, m: Move, q: Piece)
        requires
            self.layout_ok(),
            self.en_passant_ok(),
            self.accepts(m),
        ensures
            self.relocated(m).tally(q) == self.tally_after(m, q),
    {
        m.0.lemma_idx_at();
        m.1.lemma_idx_at();
        self.lemma_cleared(m);
        self.lemma_cleared_tally(m, q);
        self.lemma_relocated(m);
        let p2 = self.cleared(m);
        p2.lemma_without_tally(self.mover(m), m.0.idx(), q);
        let p3 = p2.without_piece(self.mover(m), m.0.idx());
        p3.lemma_with_tally(self.arriving(m), m.1.idx(), q);
    }

    proof fn lemma_hop_tally(self, rook: Piece, a: int, b: int, q: Piece)
        requires
            self.layout_ok(),
            0 <= a < 64,
            0 <= b < 64,
            a != b,
            self.piece_at(a) == Some(rook),
            self.piece_at(b) is None,
        ensures
            self.without_piece(rook, a).with_piece(rook, b).tally(q) == self.tally(q),
    {
        self.lemma_without_piece(rook, a);
        self.lemma_without_tally(rook, a, q);
        let r1 = self.without_piece(rook, a);
        assert(r1.piece_at(b) is None);
        r1.lemma_with_tally(rook, b, q);
    }

    /// The numbers of the pieces after a move that the position accepts.
    pub proof fn lemma_moved_tally(self, m: Move, q: Piece)
        requires
            self.layout_ok(),
            self.castling_ok(),
            self.en_passant_ok(),
            self.accepts(m),
        ensures
            self.moved(m).tally(q) == self.tally_after(m, q),
    {
        m.0.lemma_idx_at();
        m.1.lemma_idx_at();
        self.lemma_relocated(m);
        self.lemma_relocated_tally(m, q);
        let r = self.relocated(m);
        assert(self.moved(m).pieces == self.castled(m).pieces);
        if self.castles(m, Piece::WhiteKing, 4, 6) {
            assert(r.piece_at(7) == self.settled_at(m, 7));
            assert(r.piece_at(5) == self.settled_at(m, 5));
            r.lemma_hop_tally(Piece::WhiteRook, 7, 5, q);
        } else if self.castles(m, Piece::WhiteKing, 4, 2) {
            assert(r.piece_at(0) == self.settled_at(m, 0));
            assert(r.piece_at(3) == self.settled_at(m, 3));
            r.lemma_hop_tally(Piece::WhiteRook, 0, 3, q);
        } else if self.castles(m, Piece::BlackKing, 60, 62) {
            assert(r.piece_at(63) == self.settled_at(m, 63));
            assert(r.piece_at(61) == self.settled_at(m, 61));
            r.lemma_hop_tally(Piece::BlackRook, 63, 61, q);
        } else if self.castles(m, Piece::BlackKing, 60, 58) {
            assert(r.piece_at(56) == self.settled_at(m, 56));
            assert(r.piece_at(59) == self.settled_at(m, 59));
            r.lemma_hop_tally(Piece::BlackRook, 56, 59, q);
        }
    }
}

impl Position {
    /// The piece of `player` of the kind `kind` is none of the other side, and is of that
    /// kind.
    proof fn lemma_piece_of(player: Player, kind: PieceKind)
        ensures
            Piece::spec_of(player, kind).spec_player() == player,
            Piece::spec_of(player, kind).spec_kind() == kind,
    {
    }

    /// How the number of the pieces of one kind of one side changes with a move that the
    /// position accepts: it falls by what is captured, and rises by one only for the kind
    /// that a pawn of that side is promoted to, the number of that side's pawns falling by
    /// one with it.
    proof fn lemma_kind_tally(self, m: Move, player: Player, kind: PieceKind)
        requires
            self.layout_ok(),
            self.castling_ok(),
            self.en_passant_ok(),
            self.accepts(m),
        ensures
            self.moved(m).tally(Piece::spec_of(player, kind)) <= self.tally(
                Piece::spec_of(player, kind),
            ) + one_if(m.2 == Some(kind) && player == self.turn),
            self.moved(m).tally(Piece::spec_of(player, PieceKind::Pawn)) <= self.tally(
                Piece::spec_of(player, PieceKind::Pawn),
            ) - one_if(m.2 is Some && player == self.turn),
    {
        let q = Piece::spec_of(player, kind);
        let pawn = Piece::spec_of(player, PieceKind::Pawn);
        Position::lemma_piece_of(player, kind);
        Position::lemma_piece_of(player, PieceKind::Pawn);
        self.lemma_moved_tally(m, q);
        self.lemma_moved_tally(m, pawn);
        if m.2 is Some {
            Position::lemma_piece_of(self.turn, m.2->0);
        }
    }

    /// The number of the pieces of one side does not rise with a move that the position
    /// accepts.
    proof fn lemma_side_tally(self, m: Move, player: Player)
        requires
            self.layout_ok(),
            self.castling_ok(),
            self.en_passant_ok(),
            self.accepts(m),
        ensures
            self.moved(m).side_count(player) <= self.side_count(player),
    {
        let r = Piece::spec_of(player, PieceKind::Rook);
        let n = Piece::spec_of(player, PieceKind::Knight);
        let b = Piece::spec_of(player, PieceKind::Bishop);
        let q = Piece::spec_of(player, PieceKind::Queen);
        let k = Piece::spec_of(player, PieceKind::King);
        let p = Piece::spec_of(player, PieceKind::Pawn);
        Position::lemma_piece_of(player, PieceKind::Rook);
        Position::lemma_piece_of(player, PieceKind::Knight);
        Position::lemma_piece_of(player, PieceKind::Bishop);
        Position::lemma_piece_of(player, PieceKind::Queen);
        Position::lemma_piece_of(player, PieceKind::King);
        Position::lemma_piece_of(player, PieceKind::Pawn);
        self.lemma_moved_tally(m, r);
        self.lemma_moved_tally(m, n);
        self.lemma_moved_tally(m, b);
        self.lemma_moved_tally(m, q);
        self.lemma_moved_tally(m, k);
        self.lemma_moved_tally(m, p);
        let mv = self.mover(m);
        let ar = self.arriving(m);
        if m.2 is Some {
            Position::lemma_piece_of(self.turn, m.2->0);
        }
        let gain = one_if(ar == r) + one_if(ar == n) + one_if(ar == b) + one_if(ar == q) + one_if(
            ar == k,
        ) + one_if(ar == p);
        let loss = one_if(mv == r) + one_if(mv == n) + one_if(mv == b) + one_if(mv == q) + one_if(
            mv == k,
        ) + one_if(mv == p);
        assert(gain <= 1);
        assert(gain == 1 ==> ar.spec_player() == player);
        assert(mv.spec_player() == player ==> loss == 1) by {
            mv.lemma_idx_at();
        }
        assert(ar.spec_player() == mv.spec_player());
    }

    /// Whether the numbers of one side's pieces are those of a game.
    pub open spec fn side_material_ok(self, player: Player) -> bool {
        &&& count(self.bb(Piece::spec_of(player, PieceKind::Pawn))) <= 8
        &&& self.side_count(player) <= 16
        &&& !self.over_promoted(player)
    }

    proof fn lemma_side_material(self, m: Move, player: Player)
        requires
            self.layout_ok(),
            self.castling_ok(),
            self.en_passant_ok(),
            self.side_material_ok(player),
            self.accepts(m),
        ensures
            self.moved(m).side_material_ok(player),
    {
        self.lemma_side_tally(m, player);
        self.lemma_kind_tally(m, player, PieceKind::Queen);
        self.lemma_kind_tally(m, player, PieceKind::Rook);
        self.lemma_kind_tally(m, player, PieceKind::Knight);
        self.lemma_kind_tally(m, player, PieceKind::Bishop);
        let next = self.moved(m);
        lemma_promoted(
            self.tally(Piece::spec_of(player, PieceKind::Queen)),
            self.tally(Piece::spec_of(player, PieceKind::Rook)),
            self.tally(Piece::spec_of(player, PieceKind::Knight)),
            self.tally(Piece::spec_of(player, PieceKind::Bishop)),
            self.tally(Piece::spec_of(player, PieceKind::Pawn)),
            next.tally(Piece::spec_of(player, PieceKind::Queen)),
            next.tally(Piece::spec_of(player, PieceKind::Rook)),
            next.tally(Piece::spec_of(player, PieceKind::Knight)),
            next.tally(Piece::spec_of(player, PieceKind::Bishop)),
            next.tally(Piece::spec_of(player, PieceKind::Pawn)),
            m.2,
            player == self.turn,
        );
    }

    /// A move that the position accepts keeps the numbers of pieces those of a game.
    pub proof fn lemma_moved_material(self, m: Move)
        requires
            self.layout_ok(),
            self.castling_ok(),
            self.en_passant_ok(),
            self.material_ok(),
            self.accepts(m),
        ensures
            self.moved(m).material_ok(),
            self.apply(m).material_ok(),
    {
        assert(self.side_material_ok(Player::White));
        assert(self.side_material_ok(Player::Black));
        self.lemma_side_material(m, Player::White);
        self.lemma_side_material(m, Player::Black);
        let next = self.moved(m);
        assert(next.side_material_ok(Player::White));
        assert(next.side_material_ok(Player::Black));
        assert(self.apply(m).pieces == next.pieces);
    }
}

/// Where no kind of piece grows in number but the kind promoted to, by one, and the pawns
/// fall by one with a promotion, the promoted pieces stay no more than the lost pawns.
proof fn lemma_promoted(
    q0: int,
    r0: int,
    n0: int,
    b0: int,
    p0: int,
    q1: int,
    r1: int,
    n1: int,
    b1: int,
    p1: int,
    promotion: Option<PieceKind>,
    own: bool,
)
    requires
        q1 <= q0 + one_if(promotion == Some(PieceKind::Queen) && own),
        r1 <= r0 + one_if(promotion == Some(PieceKind::Rook) && own),
        n1 <= n0 + one_if(promotion == Some(PieceKind::Knight) && own),
        b1 <= b0 + one_if(promotion == Some(PieceKind::Bishop) && own),
        p1 <= p0 - one_if(promotion is Some && own),
        larger(0, q0 - 1) + larger(0, r0 - 2) + larger(0, n0 - 2) + larger(0, b0 - 2) <= 8 - p0,
    ensures
        larger(0, q1 - 1) + larger(0, r1 - 2) + larger(0, n1 - 2) + larger(0, b1 - 2) <= 8 - p1,
{
}

impl Position {
    /// Whether no piece `p` stands on the first or the eighth rank.
    pub open spec fn off_outer_ranks(self, p: Piece) -> bool {
        forall|s: int|
            0 <= s < 64 && #[trigger] self.piece_at(s) == Some(p) ==> 1 <= s / 8 <= 6
    }

    /// A board shares no square with the first and the eighth rank exactly where none of its
    /// pieces stands on one of them.
    pub proof fn lemma_outer_ranks(self, p: Piece)
        requires
            self.layout_ok(),
        ensures
            (self.bb(p) & RANK_1 == 0 && self.bb(p) & RANK_8 == 0) == self.off_outer_ranks(p),
    {
        let bb = self.bb(p);
        p.lemma_idx_at();
        assert forall|s: int| 0 <= s < 64 implies holds(bb, s) == (#[trigger] self.piece_at(s)
            == Some(p)) && holds(RANK_1, s) == (s / 8 == 0) && holds(RANK_8, s) == (s / 8 == 7)
            && holds(bb & RANK_1, s) == (holds(bb, s) && holds(RANK_1, s)) && holds(bb & RANK_8, s)
            == (holds(bb, s) && holds(RANK_8, s)) && !holds(0, s) by {
            self.lemma_square_ok(s);
            lemma_edges_raw(s as u64);
            lemma_holds_and(bb, RANK_1, s);
            lemma_holds_and(bb, RANK_8, s);
            lemma_holds_zero(s);
            assert(self.on(p.idx(), s) == holds(bb, s));
            if self.piece_at(s) == Some(p) {
                assert(self.on(p.idx(), s)) by {
                    if !self.on(p.idx(), s) {
                        assert(!self.on(0, s) || p.idx() != 0);
                    }
                }
            }
        }
        if self.off_outer_ranks(p) {
            assert forall|s: int| 0 <= s < 64 implies holds(bb & RANK_1, s) == holds(0, s) by {
                assert(holds(bb, s) == (self.piece_at(s) == Some(p)));
            }
            lemma_ext(bb & RANK_1, 0);
            assert forall|s: int| 0 <= s < 64 implies holds(bb & RANK_8, s) == holds(0, s) by {
                assert(holds(bb, s) == (self.piece_at(s) == Some(p)));
            }
            lemma_ext(bb & RANK_8, 0);
        }
        if bb & RANK_1 == 0 && bb & RANK_8 == 0 {
            assert forall|s: int| 0 <= s < 64 && #[trigger] self.piece_at(s) == Some(
                p,
            ) implies 1 <= s / 8 <= 6 by {
                assert(holds(bb, s) == (self.piece_at(s) == Some(p)));
                assert(holds(bb & RANK_1, s) == (holds(bb, s) && holds(RANK_1, s)));
                assert(holds(bb & RANK_8, s) == (holds(bb, s) && holds(RANK_8, s)));
            }
        }
    }

    proof fn lemma_moved_pawn(self, m: Move, p: Piece)
        requires
            self.layout_ok(),
            self.castling_ok(),
            self.en_passant_ok(),
            self.accepts(m),
            p.spec_kind() == PieceKind::Pawn,
            self.off_outer_ranks(p),
        ensures
            self.moved(m).off_outer_ranks(p),
    {
        self.lemma_moved_placement(m);
        m.0.lemma_idx_at();
        m.1.lemma_idx_at();
        let next = self.moved(m);
        if m.2 is Some {
            assert(Piece::spec_of(self.turn, m.2->0).spec_kind() == m.2->0);
        }
        assert forall|s: int| 0 <= s < 64 && #[trigger] next.piece_at(s) == Some(
            p,
        ) implies 1 <= s / 8 <= 6 by {
            assert(next.piece_at(s) == self.placement_after(m, s));
            if s != m.1.idx() {
                assert(self.piece_at(s) == Some(p));
            }
        }
    }

    /// A move that the position accepts keeps the pawns off the first and the eighth rank.
    pub proof fn lemma_moved_pawns(self, m: Move)
        requires
            self.layout_ok(),
            self.castling_ok(),
            self.en_passant_ok(),
            self.pawns_ok(),
            self.accepts(m),
        ensures
            self.moved(m).pawns_ok(),
            self.apply(m).pawns_ok(),
    {
        self.lemma_moved_placement(m);
        self.lemma_outer_ranks(Piece::WhitePawn);
        self.lemma_outer_ranks(Piece::BlackPawn);
        self.lemma_moved_pawn(m, Piece::WhitePawn);
        self.lemma_moved_pawn(m, Piece::BlackPawn);
        self.moved(m).lemma_outer_ranks(Piece::WhitePawn);
        self.moved(m).lemma_outer_ranks(Piece::BlackPawn);
        assert(self.apply(m).pieces == self.moved(m).pieces);
    }

    /// The checks of the validator that look at the pieces alone: the position's invariant,
    /// the pawns off the outer ranks, and the numbers of pieces those of a game.
    pub open spec fn structure_ok(self) -> bool {
        self.wf() && self.pawns_ok() && self.material_ok()
    }

    /// A move that the position accepts keeps every check of the validator that looks at the
    /// pieces alone. The four checks that look at what attacks the kings (that the kings stand
    /// apart, that at most two pieces give check and can do so together, and that the side not
    /// to move is not in check) are not among them.
    pub proof fn lemma_structure_kept(self, m: Move)
        requires
            self.structure_ok(),
            self.accepts(m),
        ensures
            self.apply(m).structure_ok(),
    {
        self.lemma_apply_wf(m);
        self.lemma_moved_pawns(m);
        self.lemma_moved_material(m);
    }

    /// A position passes the validator exactly where it passes the checks that look at the
    /// pieces alone and the four that look at what attacks the kings.
    pub proof fn lemma_valid_parts(self)
        ensures
            self.valid() == (self.structure_ok() && self.king_distance() >= 2 && count(
                self.checkers,
            ) <= 2 && !self.bad_double_check() && !self.inactive_in_check()),
    {
    }
}

} // verus!
