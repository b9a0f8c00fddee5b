use crate::board::{Board, Legality, Position};
use crate::types::Move;
use vstd::prelude::*;

verus! {

/// The number of leaves of the tree of legal moves below `pos` at the depth `depth`. A
/// position at depth 0 is one leaf. At depth 1 each legal move is a leaf. At a greater depth a
/// legal move is followed only where the position accepts it, and its leaves are those of the
/// position it leads to; a position that the validator passes accepts each of its legal
/// moves.
pub open spec fn perft_count(pos: Position, depth: nat) -> nat
    decreases depth, 2nat, 0nat,
{
    if depth == 0 {
        1
    } else {
        perft_sum(pos, pos.moves(Legality::Legal), 0, depth)
    }
}

/// The number of leaves below the move `m` of `pos` at the depth `depth`, which is at least 1.
pub open spec fn perft_below(pos: Position, m: Move, depth: nat) -> nat
    decreases depth, 0nat, 0nat,
{
    if depth <= 1 {
        1
    } else if pos.accepts(m) {
        perft_count(pos.apply(m), (depth - 1) as nat)
    } else {
        0
    }
}

/// The number of leaves below the moves of `moves` from index `i` on.
pub open spec fn perft_sum(pos: Position, moves: Seq<Move>, i: int, depth: nat) -> nat
    decreases depth, 1nat, moves.len() - i,
{
    if depth == 0 || i < 0 || i >= moves.len() {
        0
    } else {
        perft_below(pos, moves[i], depth) + perft_sum(pos, moves, i + 1, depth)
    }
}

/// On a position that the validator passes every legal move is followed: the position accepts
/// it, and the leaves below it at a depth of two or more are those of the position that it
/// leads to.
pub proof fn lemma_perft_follows(pos: Position, m: Move, depth: nat)
    requires
        pos.valid(),
        pos.moves(Legality::Legal).contains(m),
        depth >= 2,
    ensures
        pos.accepts(m),
        perft_below(pos, m, depth) == perft_count(pos.apply(m), (depth - 1) as nat),
{
    pos.lemma_valid_parts();
    pos.lemma_legal_safe(m);
}

/// The number `n` where it fits a 64-bit word, and the largest such word where it does not.
pub open spec fn capped(n: nat) -> u64 {
    if n <= u64::MAX {
        n as u64
    } else {
        u64::MAX
    }
}

/// For each move from index `i` on, the move and the number of leaves below it.
pub open spec fn divided(pos: Position, moves: Seq<Move>, i: int, depth: nat) -> Seq<(Move, u64)>
    decreases moves.len() - i,
{
    if i < 0 || i >= moves.len() {
        Seq::empty()
    } else {
        seq![(moves[i], capped(perft_below(pos, moves[i], depth)))] + divided(
            pos,
            moves,
            i + 1,
            depth,
        )
    }
}

/// The number of leaves below the move `m` at the depth `depth`; the board is left as it was.
fn perft_move(b: &mut Board, m: Move, depth: u8) -> (r: u64)
    requires
        old(b).wf(),
        depth >= 1,
    ensures
        r == capped(perft_below(old(b).state@, m, depth as nat)),
        final(b).state == old(b).state,
        final(b).previous_states@ == old(b).previous_states@,
        final(b).lookup_tables == old(b).lookup_tables,
        final(b).wf(),
    decreases depth, 0nat,
{
    if depth == 1 {
        1
    } else if b.accepts(m) {
        let ghost before = b.previous_states@;
        b.apply_move(m);
        let n = inner_perft(b, depth - 1);
        b.undo_move();
        assert(b.previous_states@ =~= before);
        n
    } else {
        0
    }
}

/// The number of leaves of the tree of legal moves below the board's position at the depth
/// `depth`, which is at least 1; the board is left as it was.
fn inner_perft(b: &mut Board, depth: u8) -> (r: u64)
    requires
        old(b).wf(),
        depth >= 1,
    ensures
        r == capped(perft_count(old(b).state@, depth as nat)),
        final(b).state == old(b).state,
        final(b).previous_states@ == old(b).previous_states@,
        final(b).lookup_tables == old(b).lookup_tables,
        final(b).wf(),
    decreases depth, 1nat,
{
    proof {
        crate::bitboard::lemma_count_one(b.state@.king_bb(b.state.turn));
    }
    let moves = b.generate_moves(Legality::Legal);
    let ghost pos = b.state@;
    let mut count: u64 = 0;
    let mut i: usize = 0;
    while i < moves.len()
        invariant
            i <= moves.len(),
            depth >= 1,
            b.wf(),
            b.state == old(b).state,
            pos == old(b).state@,
            b.previous_states@ == old(b).previous_states@,
            b.lookup_tables == old(b).lookup_tables,
            moves@ == pos.moves(Legality::Legal),
            capped((count + perft_sum(pos, moves@, i as int, depth as nat)) as nat) == capped(
                perft_sum(pos, moves@, 0, depth as nat),
            ),
        decreases moves.len() - i,
    {
        let count_for_move = perft_move(b, moves[i], depth);
        count = count.saturating_add(count_for_move);
        i = i + 1;
    }
    count
}

/// The number of leaves of the tree of legal moves below the board's position at the depth
/// `depth`, or the largest 64-bit word where the number does not fit one.
pub fn perft(b: &Board, depth: u8) -> (r: u64)
    requires
        b.wf(),
    ensures
        r == capped(perft_count(b.state@, depth as nat)),
{
    if depth == 0 {
        1
    } else {
        let mut b2 = b.shallow_clone();
        inner_perft(&mut b2, depth)
    }
}

/// For each legal move of the board's position, in the order in which the moves are
/// generated, the move and the number of leaves below it at the depth `depth`, which is at
/// least 1.
pub fn perft_divide(b: &Board, depth: u8) -> (r: Vec<(Move, u64)>)
    requires
        b.wf(),
        depth >= 1,
    ensures
        r@ == divided(b.state@, b.state@.moves(Legality::Legal), 0, depth as nat),
{
    let mut b2 = b.shallow_clone();
    proof {
        crate::bitboard::lemma_count_one(b2.state@.king_bb(b2.state.turn));
    }
    let moves = b2.generate_moves(Legality::Legal);
    let ghost pos = b.state@;
    let mut out: Vec<(Move, u64)> = Vec::new();
    let mut i: usize = 0;
    assert(out@ + divided(pos, moves@, 0, depth as nat) =~= divided(pos, moves@, 0, depth as nat));
    while i < moves.len()
        invariant
            i <= moves.len(),
            depth >= 1,
            b2.wf(),
            b2.state == b.state,
            pos == b.state@,
            moves@ == pos.moves(Legality::Legal),
            out@ + divided(pos, moves@, i as int, depth as nat) == divided(
                pos,
                moves@,
                0,
                depth as nat,
            ),
        decreases moves.len() - i,
    {
        let ghost before = out@;
        let n = perft_move(&mut b2, moves[i], depth);
        out.push((moves[i], n));
        assert(out@ + divided(pos, moves@, i as int + 1, depth as nat) =~= before + divided(
            pos,
            moves@,
            i as int,
            depth as nat,
        ));
        i = i + 1;
    }
    assert(out@ + divided(pos, moves@, moves@.len() as int, depth as nat) =~= out@);
    out
}

} // verus!
