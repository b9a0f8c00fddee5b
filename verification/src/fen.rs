use crate::board::{Board, Position};
use crate::castling::CastlingRight;
use crate::text::{decimal, digit_char, digit_to_char, push_char, push_decimal};
use crate::types::{File, Rank, Square};
use vstd::prelude::*;

verus! {

/// The digit that stands for a run of `run` empty squares; nothing for no empty square.
pub open spec fn run_text(run: nat) -> Seq<char> {
    if run > 0 {
        seq![digit_char(run)]
    } else {
        Seq::empty()
    }
}

impl Position {
    /// The text of the rank `rank` from the file `file` on, `run` empty squares having been
    /// passed since the last piece: a letter for each piece, a digit for each run of empty
    /// squares.
    pub open spec fn row_text(self, rank: int, file: int, run: nat) -> Seq<char>
        decreases 8 - file,
    {
        if file < 0 || file >= 8 {
            run_text(run)
        } else {
            match self.piece_at(file + 8 * rank) {
                Some(p) => run_text(run) + seq![p.spec_to_char()] + self.row_text(rank, file + 1, 0),
                None => self.row_text(rank, file + 1, run + 1),
            }
        }
    }

    /// The text of the ranks from `rank` down to the first, separated by `/`.
    pub open spec fn rows_text(self, rank: int) -> Seq<char>
        decreases rank,
    {
        if rank <= 0 {
            self.row_text(0, 0, 0)
        } else {
            self.row_text(rank, 0, 0) + seq!['/'] + self.rows_text(rank - 1)
        }
    }

    /// The text of the castling rights: the letters of `KQkq` whose rights are held, or `-` for
    /// the empty set.
    pub open spec fn castling_text(self) -> Seq<char> {
        if self.castling.bits == 0 {
            seq!['-']
        } else {
            (if self.castling.spec_contains(CastlingRight::WhiteK) {
                seq!['K']
            } else {
                Seq::empty()
            }) + (if self.castling.spec_contains(CastlingRight::WhiteQ) {
                seq!['Q']
            } else {
                Seq::empty()
            }) + (if self.castling.spec_contains(CastlingRight::BlackK) {
                seq!['k']
            } else {
                Seq::empty()
            }) + (if self.castling.spec_contains(CastlingRight::BlackQ) {
                seq!['q']
            } else {
                Seq::empty()
            })
        }
    }

    /// The text of the en-passant target: the name of its square, or `-` for none.
    pub open spec fn en_passant_text(self) -> Seq<char> {
        match self.en_passant {
            Some(sq) => sq.spec_name(),
            None => seq!['-'],
        }
    }

    /// The position as text: the six fields of piece placement, side to move, castling rights,
    /// en-passant target and the two move counters, one space between them.
    pub open spec fn fen_text(self) -> Seq<char> {
        self.rows_text(7) + seq![' ', self.turn.spec_to_char(), ' '] + self.castling_text() + seq![
            ' ',
        ] + self.en_passant_text() + seq![' '] + decimal(self.half_moves as nat) + seq![' ']
            + decimal(self.full_moves as nat)
    }
}

impl<'a> Board<'a> {
    /// Appends the text of one rank to `s`.
    fn push_row(&self, s: &mut String, rank: Rank)
        ensures
            final(s)@ == old(s)@ + self.state@.row_text(rank.idx(), 0, 0),
    {
        let ghost pos = self.state@;
        let ghost r = rank.idx();
        let mut current_offset: u8 = 0;
        let mut f: u8 = 0;
        assert(s@ + pos.row_text(r, 0, 0) =~= old(s)@ + pos.row_text(r, 0, 0));
        while f < 8
            invariant
                f <= 8,
                current_offset <= f,
                pos == self.state@,
                r == rank.idx(),
                s@ + pos.row_text(r, f as int, current_offset as nat) == old(s)@ + pos.row_text(
                    r,
                    0,
                    0,
                ),
            decreases 8 - f,
        {
            let ghost before = s@;
            let ghost run = current_offset as nat;
            let file = File::from_index(f).unwrap();
            let square = Square::from_file_rank(file, rank);
            match self.get_piece(square) {
                Some(p) => {
                    if current_offset != 0 {
                        push_char(s, digit_to_char(current_offset));
                        current_offset = 0;
                    }
                    push_char(s, p.to_char());
                    assert(s@ + pos.row_text(r, f as int + 1, 0) =~= before + pos.row_text(
                        r,
                        f as int,
                        run,
                    )) by {
                        assert(pos.row_text(r, f as int, run) == run_text(run) + seq![
                            p.spec_to_char(),
                        ] + pos.row_text(r, f as int + 1, 0));
                    }
                },
                None => {
                    current_offset = current_offset + 1;
                },
            }
            f = f + 1;
        }
        if current_offset != 0 {
            push_char(s, digit_to_char(current_offset));
        }
        assert(s@ =~= old(s)@ + pos.row_text(r, 0, 0));
    }

    /// Appends the text of the eight ranks to `s`, the eighth rank first.
    fn push_rows(&self, s: &mut String)
        ensures
            final(s)@ == old(s)@ + self.state@.rows_text(7),
    {
        let ghost pos = self.state@;
        let mut n: u8 = 8;
        assert(s@ + pos.rows_text(7) =~= old(s)@ + pos.rows_text(7));
        while n > 1
            invariant
                1 <= n <= 8,
                pos == self.state@,
                s@ + pos.rows_text(n as int - 1) == old(s)@ + pos.rows_text(7),
            decreases n,
        {
            let ghost before = s@;
            n = n - 1;
            let rank = Rank::from_index(n).unwrap();
            self.push_row(s, rank);
            push_char(s, '/');
            assert(s@ + pos.rows_text(n as int - 1) =~= before + pos.rows_text(n as int));
        }
        let ghost before = s@;
        self.push_row(s, Rank::R1);
        assert(s@ =~= before + pos.rows_text(0));
    }

    /// Appends the text of the castling rights to `s`.
    fn push_castling(&self, s: &mut String)
        ensures
            final(s)@ == old(s)@ + self.state@.castling_text(),
    {
        let castling = self.state.castling;
        if castling.is_empty() {
            push_char(s, '-');
        } else {
            if castling.contains(CastlingRight::WhiteK) {
                push_char(s, 'K');
            }
            if castling.contains(CastlingRight::WhiteQ) {
                push_char(s, 'Q');
            }
            if castling.contains(CastlingRight::BlackK) {
                push_char(s, 'k');
            }
            if castling.contains(CastlingRight::BlackQ) {
                push_char(s, 'q');
            }
        }
        assert(s@ =~= old(s)@ + self.state@.castling_text());
    }

    /// Appends the text of the en-passant target to `s`.
    fn push_en_passant(&self, s: &mut String)
        ensures
            final(s)@ == old(s)@ + self.state@.en_passant_text(),
    {
        match self.state.en_passant {
            Some(sq) => {
                push_char(s, sq.file().to_char());
                push_char(s, sq.rank().to_char());
            },
            None => {
                push_char(s, '-');
            },
        }
        assert(s@ =~= old(s)@ + self.state@.en_passant_text());
    }

    /// The position as text, in Forsyth-Edwards notation.
    pub fn fen(&self) -> (r: String)
        ensures
            r@ == self.state@.fen_text(),
    {
        let ghost pos = self.state@;
        let mut fen_string = String::new();
        self.push_rows(&mut fen_string);
        push_char(&mut fen_string, ' ');
        push_char(&mut fen_string, self.state.turn.to_char());
        push_char(&mut fen_string, ' ');
        let ghost s1 = fen_string@;
        assert(s1 =~= pos.rows_text(7) + seq![' ', pos.turn.spec_to_char(), ' ']);
        self.push_castling(&mut fen_string);
        push_char(&mut fen_string, ' ');
        self.push_en_passant(&mut fen_string);
        push_char(&mut fen_string, ' ');
        let ghost s2 = fen_string@;
        assert(s2 == s1 + pos.castling_text() + seq![' '] + pos.en_passant_text() + seq![' ']);
        push_decimal(&mut fen_string, self.state.half_moves);
        push_char(&mut fen_string, ' ');
        push_decimal(&mut fen_string, self.state.full_moves);
        assert(fen_string@ == s2 + decimal(pos.half_moves as nat) + seq![' '] + decimal(
            pos.full_moves as nat,
        ));
        fen_string
    }
}

} // verus!
