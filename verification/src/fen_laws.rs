use crate::bitboard::{holds, lemma_ext};
use crate::board::Position;
use crate::castling::{Castling, CastlingRight};
use crate::fen::run_text;
use crate::parse::{
    digit_value, digits_end, file_value, is_digit, is_space, lemma_space_no_digit, number_value, parse_castling, parse_en_passant,
    parse_fen, parse_squares, past, piece_of_char, skip_spaces, with_letter,
};
use crate::text::{decimal, digit_char};
use crate::validate::lemma_join;
use crate::types::{File, Piece, Rank};
use vstd::prelude::*;

verus! {

impl Position {
    /// The position `acc` with the pieces that this position has on the rank `r` from the file
    /// `f` on put on their squares.
    pub open spec fn placed_row(self, r: int, f: int, acc: Position) -> Position
        decreases 8 - f,
    {
        if f < 0 || f >= 8 {
            acc
        } else {
            match self.piece_at(f + 8 * r) {
                Some(p) => self.placed_row(r, f + 1, acc.with_piece(p, f + 8 * r)),
                None => self.placed_row(r, f + 1, acc),
            }
        }
    }

    /// The position `acc` with the pieces that this position has on the ranks from `r` down to
    /// the first put on their squares.
    pub open spec fn placed_rows(self, r: int, acc: Position) -> Position
        decreases r,
    {
        if r <= 0 {
            self.placed_row(0, 0, acc)
        } else {
            self.placed_rows(r - 1, self.placed_row(r, 0, acc))
        }
    }

    /// Whether the square `s` comes before the file `f` of the rank `r` when the board is
    /// read from the eighth rank down, each rank from the file A on.
    pub open spec fn read_before(r: int, f: int, s: int) -> bool {
        s / 8 > r || (s / 8 == r && s % 8 < f)
    }

    /// Whether `acc` holds the pieces of this position on the squares read before the file `f`
    /// of the rank `r`, and nothing on the others.
    pub open spec fn read_up_to(self, r: int, f: int, acc: Position) -> bool {
        &&& acc.layout_ok()
        &&& forall|s: int|
            0 <= s < 64 ==> #[trigger] acc.piece_at(s) == (if Position::read_before(r, f, s) {
                self.piece_at(s)
            } else {
                None
            })
    }

    proof fn lemma_placed_row(self, r: int, f: int, acc: Position)
        requires
            0 <= r < 8,
            0 <= f <= 8,
            self.read_up_to(r, f, acc),
        ensures
            self.read_up_to(r, 8, self.placed_row(r, f, acc)),
            self.placed_row(r, f, acc).same_flags(acc),
        decreases 8 - f,
    {
        if f < 8 {
            let sq = f + 8 * r;
            assert(sq % 8 == f && sq / 8 == r);
            match self.piece_at(sq) {
                Some(p) => {
                    assert(acc.piece_at(sq) is None);
                    acc.lemma_with_piece(p, sq);
                    let next = acc.with_piece(p, sq);
                    assert forall|s: int| 0 <= s < 64 implies #[trigger] next.piece_at(s) == (
                    if Position::read_before(r, f + 1, s) {
                        self.piece_at(s)
                    } else {
                        None
                    }) by {
                        assert(acc.piece_at(s) == (if Position::read_before(r, f, s) {
                            self.piece_at(s)
                        } else {
                            None
                        }));
                    }
                    self.lemma_placed_row(r, f + 1, next);
                },
                None => {
                    assert forall|s: int| 0 <= s < 64 implies #[trigger] acc.piece_at(s) == (
                    if Position::read_before(r, f + 1, s) {
                        self.piece_at(s)
                    } else {
                        None
                    }) by {}
                    self.lemma_placed_row(r, f + 1, acc);
                },
            }
        }
    }

    /// Whether this position and `other` agree in everything but the boards.
    pub open spec fn same_flags(self, other: Position) -> bool {
        &&& self.turn == other.turn
        &&& self.castling == other.castling
        &&& self.en_passant == other.en_passant
        &&& self.half_moves == other.half_moves
        &&& self.full_moves == other.full_moves
        &&& self.checkers == other.checkers
        &&& self.attacked == other.attacked
        &&& self.pinned == other.pinned
    }

    proof fn lemma_placed_rows(self, r: int, acc: Position)
        requires
            0 <= r < 8,
            self.read_up_to(r, 0, acc),
        ensures
            self.read_up_to(0, 8, self.placed_rows(r, acc)),
            self.placed_rows(r, acc).same_flags(acc),
        decreases r,
    {
        self.lemma_placed_row(r, 0, acc);
        if r > 0 {
            let next = self.placed_row(r, 0, acc);
            assert forall|s: int| 0 <= s < 64 implies #[trigger] next.piece_at(s) == (
            if Position::read_before(r - 1, 0, s) {
                self.piece_at(s)
            } else {
                None
            }) by {}
            self.lemma_placed_rows(r - 1, next);
        }
    }

    /// Two positions whose boards agree with one another and that have the same piece on
    /// every square have the same boards.
    pub proof fn lemma_same_pieces(self, other: Position)
        requires
            self.layout_ok(),
            other.layout_ok(),
            forall|s: int| 0 <= s < 64 ==> #[trigger] self.piece_at(s) == other.piece_at(s),
        ensures
            self.pieces == other.pieces,
            self.occ == other.occ,
    {
        assert forall|i: int| 0 <= i < 12 implies self.pieces[i] == other.pieces[i] by {
            assert forall|s: int| 0 <= s < 64 implies holds(self.pieces[i], s) == holds(
                other.pieces[i],
                s,
            ) by {
                self.lemma_square_ok(s);
                other.lemma_square_ok(s);
                assert(self.piece_at(s) == other.piece_at(s));
                assert(self.on(i, s) ==> self.piece_at(s) == Some(Piece::at(i)));
                assert(other.on(i, s) ==> other.piece_at(s) == Some(Piece::at(i)));
            }
            lemma_ext(self.pieces[i], other.pieces[i]);
        }
        assert(self.pieces =~= other.pieces);
        assert forall|i: int| 0 <= i < 3 implies self.occ[i] == other.occ[i] by {
            assert forall|s: int| 0 <= s < 64 implies holds(self.occ[i], s) == holds(
                other.occ[i],
                s,
            ) by {
                self.lemma_square_ok(s);
                other.lemma_square_ok(s);
                assert(self.piece_at(s) == other.piece_at(s));
            }
            lemma_ext(self.occ[i], other.occ[i]);
        }
        assert(self.occ =~= other.occ);
    }

    /// Putting the pieces of a position, square by square, on the empty board gives the boards
    /// of that position.
    pub proof fn lemma_placed_all(self)
        requires
            self.layout_ok(),
        ensures
            self.placed_rows(7, Position::empty()).pieces == self.pieces,
            self.placed_rows(7, Position::empty()).occ == self.occ,
            self.placed_rows(7, Position::empty()).same_flags(Position::empty()),
    {
        let e = Position::empty();
        lemma_empty_layout();
        assert forall|s: int| 0 <= s < 64 implies #[trigger] e.piece_at(s) == (
        if Position::read_before(7, 0, s) {
            self.piece_at(s)
        } else {
            None
        }) by {
            lemma_empty_square(s);
        }
        self.lemma_placed_rows(7, e);
        let all = self.placed_rows(7, e);
        assert forall|s: int| 0 <= s < 64 implies #[trigger] all.piece_at(s) == self.piece_at(
            s,
        ) by {}
        all.lemma_same_pieces(self);
    }
}

/// The letter of a piece stands for that piece.
pub proof fn lemma_piece_letter(p: Piece)
    ensures
        Piece::is_piece_char(p.spec_to_char()),
        piece_of_char(p.spec_to_char()) == p,
        digit_value(p.spec_to_char()) < 0,
{
}

/// The digit of a run of one to eight squares has the length of the run as its value, and is
/// no letter of a piece.
pub proof fn lemma_run_digit(run: nat)
    requires
        1 <= run <= 8,
    ensures
        digit_value(digit_char(run)) == run,
        !Piece::is_piece_char(digit_char(run)),
{
}

impl Position {
    /// Reading the text of the rest of a rank, wherever it stands in a text, puts the pieces of
    /// that rest on the board and arrives behind it at the end of the rank.
    pub proof fn lemma_read_row(
        self,
        pre: Seq<char>,
        post: Seq<char>,
        r: int,
        f: int,
        run: nat,
        acc: Position,
    )
        requires
            0 <= r < 8,
            0 <= f <= 8,
            run <= f,
        ensures
            parse_squares(
                pre + self.row_text(r, f, run) + post,
                pre.len() as int,
                r,
                f - run,
                acc,
            ) == parse_squares(
                pre + self.row_text(r, f, run) + post,
                (pre.len() + self.row_text(r, f, run).len()) as int,
                r,
                8,
                self.placed_row(r, f, acc),
            ),
        decreases 8 - f,
    {
        let t = self.row_text(r, f, run);
        let s = pre + t + post;
        let i = pre.len() as int;
        if f >= 8 {
            if run > 0 {
                lemma_run_digit(run);
                assert(t =~= seq![digit_char(run)]);
                assert(s[i] == digit_char(run));
            } else {
                assert(t =~= Seq::<char>::empty());
            }
        } else {
            match self.piece_at(f + 8 * r) {
                None => {
                    self.lemma_read_row(pre, post, r, f + 1, run + 1, acc);
                },
                Some(p) => {
                    lemma_piece_letter(p);
                    let c = p.spec_to_char();
                    let rest = self.row_text(r, f + 1, 0);
                    let d = run_text(run);
                    assert(t == d + seq![c] + rest);
                    let next = acc.with_piece(p, f + 8 * r);
                    let pre2 = pre + d + seq![c];
                    assert(pre2 + rest + post =~= s);
                    self.lemma_read_row(pre2, post, r, f + 1, 0, next);
                    if run > 0 {
                        lemma_run_digit(run);
                        assert(d =~= seq![digit_char(run)]);
                        assert(s[i] == digit_char(run));
                        assert(s[i + 1] == c);
                        assert(parse_squares(s, i, r, f - run, acc) == parse_squares(
                            s,
                            i + 1,
                            r,
                            f,
                            acc,
                        ));
                        assert(parse_squares(s, i + 1, r, f, acc) == parse_squares(
                            s,
                            i + 2,
                            r,
                            f + 1,
                            next,
                        ));
                    } else {
                        assert(d =~= Seq::<char>::empty());
                        assert(s[i] == c);
                        assert(parse_squares(s, i, r, f, acc) == parse_squares(
                            s,
                            i + 1,
                            r,
                            f + 1,
                            next,
                        ));
                    }
                },
            }
        }
    }

    /// Reading the text of the ranks from `r` down, wherever it stands in a text, puts their
    /// pieces on the board and arrives behind it.
    pub proof fn lemma_read_rows(self, pre: Seq<char>, post: Seq<char>, r: int, acc: Position)
        requires
            0 <= r < 8,
        ensures
            parse_squares(pre + self.rows_text(r) + post, pre.len() as int, r, 0, acc) == Some(
                (self.placed_rows(r, acc), (pre.len() + self.rows_text(r).len()) as int),
            ),
        decreases r,
    {
        let t = self.rows_text(r);
        let s = pre + t + post;
        let row = self.row_text(r, 0, 0);
        if r == 0 {
            self.lemma_read_row(pre, post, 0, 0, 0, acc);
        } else {
            let tail = self.rows_text(r - 1);
            let post1 = seq!['/'] + tail + post;
            assert(pre + row + post1 =~= s);
            self.lemma_read_row(pre, post1, r, 0, 0, acc);
            let acc1 = self.placed_row(r, 0, acc);
            let i1 = (pre.len() + row.len()) as int;
            assert(s[i1] == '/');
            assert(parse_squares(s, i1, r, 8, acc1) == parse_squares(s, i1 + 1, r - 1, 0, acc1));
            let pre2 = pre + row + seq!['/'];
            assert(pre2 + tail + post =~= s);
            self.lemma_read_rows(pre2, post, r - 1, acc1);
        }
    }
}

/// The digits of a number are decimal digits, and there is at least one.
pub proof fn lemma_decimal_digits(n: nat)
    ensures
        decimal(n).len() >= 1,
        forall|k: int| 0 <= k < decimal(n).len() ==> digit_value(#[trigger] decimal(n)[k]) >= 0,
        forall|k: int| 0 <= k < decimal(n).len() ==> !is_space(#[trigger] decimal(n)[k]),
    decreases n,
{
    if n >= 10 {
        lemma_decimal_digits(n / 10);
    }
}

/// A run of digits ends where the first character stands that is no digit.
pub proof fn lemma_digits_end(s: Seq<char>, i: int, j: int)
    requires
        0 <= i <= j <= s.len(),
        forall|k: int| i <= k < j ==> digit_value(#[trigger] s[k]) >= 0,
        j == s.len() || !is_digit(s[j]),
    ensures
        digits_end(s, i) == j,
    decreases j - i,
{
    if i < j {
        lemma_digits_end(s, i + 1, j);
    }
}

/// The digits of a number, wherever they stand in a text, write that number.
pub proof fn lemma_number_decimal(pre: Seq<char>, n: nat, post: Seq<char>)
    ensures
        number_value(
            pre + decimal(n) + post,
            pre.len() as int,
            (pre.len() + decimal(n).len()) as int,
        ) == n,
    decreases n,
{
    let s = pre + decimal(n) + post;
    let i = pre.len() as int;
    if n < 10 {
        assert(decimal(n) =~= seq![digit_char(n)]);
        assert(s[i] == digit_char(n));
        assert(number_value(s, i, i) == 0);
    } else {
        let head = decimal(n / 10);
        let d = digit_char(n % 10);
        let post2 = seq![d] + post;
        assert(pre + head + post2 =~= s);
        lemma_number_decimal(pre, n / 10, post2);
        assert(s[i + head.len()] == d);
        assert(decimal(n).len() == head.len() + 1);
    }
}

/// A single space before a character that is none is skipped, and nothing more.
pub proof fn lemma_skip_one(s: Seq<char>, i: int)
    requires
        0 <= i < s.len(),
        is_space(s[i]),
        i + 1 == s.len() || !is_space(s[i + 1]),
    ensures
        skip_spaces(s, i) == i + 1,
{
    assert(skip_spaces(s, i + 1) == i + 1);
}

proof fn lemma_rights_word(b: u8, x1: u8, x2: u8, x3: u8, x4: u8)
    by (bit_vector)
    requires
        b <= 15,
        x1 == (if b & 1 != 0 {
            0u8 | 1u8
        } else {
            0u8
        }),
        x2 == (if b & 2 != 0 {
            x1 | 2u8
        } else {
            x1
        }),
        x3 == (if b & 4 != 0 {
            x2 | 4u8
        } else {
            x2
        }),
        x4 == (if b & 8 != 0 {
            x3 | 8u8
        } else {
            x3
        }),
    ensures
        x4 == b,
        b != 0 ==> (b & 1 != 0 || b & 2 != 0 || b & 4 != 0 || b & 8 != 0),
{
}

impl Position {
    /// The position without the three stored sets.
    pub open spec fn bare(self) -> Position {
        Position { checkers: 0, attacked: 0, pinned: 0, ..self }
    }

    /// Whether the position can be written as text and read back: its boards agree with one
    /// another, its castling rights are a word of four bits, and its en-passant target, if it
    /// has one, lies on the third or the sixth rank.
    pub open spec fn writable(self) -> bool {
        &&& self.layout_ok()
        &&& self.castling.bits <= 15
        &&& match self.en_passant {
            Some(sq) => sq.idx() / 8 == 2 || sq.idx() / 8 == 5,
            None => true,
        }
    }

    /// Reading the two counters written at the end of a text gives them back.
    pub proof fn lemma_read_counters(self, pre: Seq<char>, half: u32, full: u32)
        ensures
            self.with_counters(
                pre + seq![' '] + decimal(half as nat) + seq![' '] + decimal(full as nat),
                pre.len() as int,
            ) == Some(Position { half_moves: half, full_moves: full, ..self }),
    {
        let g = decimal(half as nat);
        let h = decimal(full as nat);
        let s = pre + seq![' '] + g + seq![' '] + h;
        let i = pre.len() as int;
        lemma_decimal_digits(half as nat);
        lemma_decimal_digits(full as nat);
        lemma_space_no_digit();
        let i1 = i + 1;
        let i2 = i1 + g.len();
        let i3 = i2 + 1;
        let i4 = i3 + h.len();
        assert(s[i] == ' ');
        assert forall|k: int| i1 <= k < i2 implies digit_value(#[trigger] s[k]) >= 0 && !is_space(
            s[k],
        ) by {
            assert(s[k] == g[k - i1]);
        }
        assert(s[i2] == ' ');
        assert forall|k: int| i3 <= k < i4 implies digit_value(#[trigger] s[k]) >= 0 && !is_space(
            s[k],
        ) by {
            assert(s[k] == h[k - i3]);
        }
        assert(i4 == s.len());
        assert(!is_space(s[i1]));
        assert(!is_space(s[i3]));
        lemma_skip_one(s, i);
        lemma_digits_end(s, i1, i2);
        lemma_skip_one(s, i2);
        lemma_digits_end(s, i3, i4);
        assert(skip_spaces(s, i4) == i4);
        let pre1 = pre + seq![' '];
        let post1 = seq![' '] + h;
        assert(pre1 + g + post1 =~= s);
        lemma_number_decimal(pre1, half as nat, post1);
        let pre2 = pre + seq![' '] + g + seq![' '];
        assert(pre2 + h + Seq::<char>::empty() =~= s);
        lemma_number_decimal(pre2, full as nat, Seq::<char>::empty());
    }

    /// Reading the text of an en-passant target gives the target back.
    pub proof fn lemma_read_target(self, pre: Seq<char>, post: Seq<char>)
        requires
            self.writable(),
        ensures
            parse_en_passant(pre + self.en_passant_text() + post, pre.len() as int) == Some(
                (self.en_passant, (pre.len() + self.en_passant_text().len()) as int),
            ),
    {
        let t = self.en_passant_text();
        let s = pre + t + post;
        let i = pre.len() as int;
        match self.en_passant {
            None => {
                assert(t =~= seq!['-']);
                assert(s[i] == '-');
            },
            Some(sq) => {
                sq.lemma_idx_at();
                let f = sq.idx() % 8;
                let r = sq.idx() / 8;
                File::lemma_at_idx(f);
                Rank::lemma_at_idx(r);
                assert(t.len() == 2);
                assert(s[i] == t[0]);
                assert(s[i + 1] == t[1]);
                assert(file_value(File::at(f).spec_to_char()) == f);
            },
        }
    }

    /// Reading the text of the castling rights, before a character that is none of its
    /// letters, gives the rights back.
    pub proof fn lemma_read_rights(self, pre: Seq<char>, post: Seq<char>)
        requires
            self.castling.bits <= 15,
            post.len() > 0,
            post[0] == ' ',
        ensures
            parse_castling(pre + self.castling_text() + post, pre.len() as int) == Some(
                (self.castling, (pre.len() + self.castling_text().len()) as int),
            ),
    {
        let t = self.castling_text();
        let s = pre + t + post;
        let i = pre.len() as int;
        let b = self.castling.bits;
        if b == 0 {
            assert(t =~= seq!['-']);
            assert(s[i] == '-');
        } else {
            let k1 = seq_if(self.castling.spec_contains(CastlingRight::WhiteK), 'K');
            let k2 = seq_if(self.castling.spec_contains(CastlingRight::WhiteQ), 'Q');
            let k3 = seq_if(self.castling.spec_contains(CastlingRight::BlackK), 'k');
            let k4 = seq_if(self.castling.spec_contains(CastlingRight::BlackQ), 'q');
            assert(t == k1 + k2 + k3 + k4);
            assert(s =~= pre + k1 + k2 + k3 + k4 + post);
            let i1 = i + k1.len();
            let i2 = i1 + k2.len();
            let i3 = i2 + k3.len();
            let i4 = i3 + k4.len();
            assert(s[i4] == ' ');
            assert(s[i] != '-');
            assert(past(s, i, 'K') == i1);
            assert(past(s, i1, 'Q') == i2);
            assert(past(s, i2, 'k') == i3);
            assert(past(s, i3, 'q') == i4);
            let c0 = Castling { bits: 0 };
            let c1 = with_letter(s, i, 'K', c0, CastlingRight::WhiteK);
            let c2 = with_letter(s, i1, 'Q', c1, CastlingRight::WhiteQ);
            let c3 = with_letter(s, i2, 'k', c2, CastlingRight::BlackK);
            let c4 = with_letter(s, i3, 'q', c3, CastlingRight::BlackQ);
            lemma_rights_word(b, c1.bits, c2.bits, c3.bits, c4.bits);
            assert(c4.bits == b);
        }
    }
}

impl Position {
    /// The first character of the text of the castling rights is no space, and neither is that
    /// of the text of the en-passant target.
    proof fn lemma_field_starts(self)
        requires
            self.castling.bits <= 15,
        ensures
            self.castling_text().len() >= 1,
            !is_space(self.castling_text()[0]),
            self.en_passant_text().len() >= 1,
            !is_space(self.en_passant_text()[0]),
    {
        let b = self.castling.bits;
        if b != 0 {
            let k1 = seq_if(self.castling.spec_contains(CastlingRight::WhiteK), 'K');
            let k2 = seq_if(self.castling.spec_contains(CastlingRight::WhiteQ), 'Q');
            let k3 = seq_if(self.castling.spec_contains(CastlingRight::BlackK), 'k');
            let k4 = seq_if(self.castling.spec_contains(CastlingRight::BlackQ), 'q');
            let t = k1 + k2 + k3 + k4;
            assert(self.castling_text() == t);
            let c0 = Castling { bits: 0 };
            lemma_rights_flags(b);
            assert(t.len() >= 1);
            assert(t[0] == 'K' || t[0] == 'Q' || t[0] == 'k' || t[0] == 'q');
        }
    }

    /// The text of the two counters, each behind a space.
    pub open spec fn counters_tail(self) -> Seq<char> {
        seq![' '] + decimal(self.half_moves as nat) + seq![' '] + decimal(self.full_moves as nat)
    }

    /// The text from the en-passant target on.
    pub open spec fn target_tail(self) -> Seq<char> {
        self.en_passant_text() + self.counters_tail()
    }

    /// The text from the castling rights on.
    pub open spec fn rights_tail(self) -> Seq<char> {
        self.castling_text() + seq![' '] + self.target_tail()
    }

    /// The text behind the piece placement.
    pub open spec fn turn_tail(self) -> Seq<char> {
        seq![' ', self.turn.spec_to_char(), ' '] + self.rights_tail()
    }

    proof fn lemma_read_target_tail(self, pre: Seq<char>, acc: Position)
        requires
            self.writable(),
        ensures
            acc.with_target(pre + self.target_tail(), pre.len() as int) == Some(
                Position {
                    en_passant: self.en_passant,
                    half_moves: self.half_moves,
                    full_moves: self.full_moves,
                    ..acc
                },
            ),
    {
        let e = self.en_passant_text();
        let s = pre + self.target_tail();
        assert(pre + e + self.counters_tail() =~= s);
        self.lemma_read_target(pre, self.counters_tail());
        let acc1 = Position { en_passant: self.en_passant, ..acc };
        let pre1 = pre + e;
        assert(pre1 + seq![' '] + decimal(self.half_moves as nat) + seq![' '] + decimal(
            self.full_moves as nat,
        ) =~= s);
        acc1.lemma_read_counters(pre1, self.half_moves, self.full_moves);
    }

    proof fn lemma_read_rights_tail(self, pre: Seq<char>, acc: Position)
        requires
            self.writable(),
        ensures
            acc.with_rights(pre + self.rights_tail(), pre.len() as int) == Some(
                Position {
                    castling: self.castling,
                    en_passant: self.en_passant,
                    half_moves: self.half_moves,
                    full_moves: self.full_moves,
                    ..acc
                },
            ),
    {
        let c = self.castling_text();
        let s = pre + self.rights_tail();
        let post = seq![' '] + self.target_tail();
        self.lemma_field_starts();
        assert(pre + c + post =~= s);
        self.lemma_read_rights(pre, post);
        let j = (pre.len() + c.len()) as int;
        assert(s[j] == ' ');
        assert(s[j + 1] == self.target_tail()[0]);
        assert(self.target_tail()[0] == self.en_passant_text()[0]);
        lemma_skip_one(s, j);
        let acc1 = Position { castling: self.castling, ..acc };
        let pre1 = pre + c + seq![' '];
        assert(pre1 + self.target_tail() =~= s);
        self.lemma_read_target_tail(pre1, acc1);
    }

    /// Reading the fields behind the piece placement, as this position writes them, into a
    /// position gives that position the side to move, the castling rights, the en-passant
    /// target and the counters of this one.
    pub proof fn lemma_read_fields(self, pre: Seq<char>, acc: Position)
        requires
            self.writable(),
        ensures
            acc.with_turn(pre + self.turn_tail(), pre.len() as int) == Some(
                Position {
                    turn: self.turn,
                    castling: self.castling,
                    en_passant: self.en_passant,
                    half_moves: self.half_moves,
                    full_moves: self.full_moves,
                    ..acc
                },
            ),
    {
        let tc = self.turn.spec_to_char();
        let s = pre + self.turn_tail();
        let i = pre.len() as int;
        self.lemma_field_starts();
        assert(s[i] == ' ');
        assert(s[i + 1] == tc);
        assert(s[i + 2] == ' ');
        assert(s[i + 3] == self.rights_tail()[0]);
        assert(self.rights_tail()[0] == self.castling_text()[0]);
        lemma_skip_one(s, i);
        lemma_skip_one(s, i + 2);
        let acc1 = Position { turn: self.turn, ..acc };
        let pre1 = pre + seq![' ', tc, ' '];
        assert(pre1 + self.rights_tail() =~= s);
        self.lemma_read_rights_tail(pre1, acc1);
    }

    /// The text of a position is the piece placement followed by the other fields.
    pub proof fn lemma_text_parts(self)
        ensures
            self.fen_text() == self.rows_text(7) + self.turn_tail(),
    {
        let a = self.rows_text(7);
        let b = seq![' ', self.turn.spec_to_char(), ' '];
        let c = self.castling_text();
        let d = seq![' '];
        let e = self.en_passant_text();
        let g = decimal(self.half_moves as nat);
        let h = decimal(self.full_moves as nat);
        let q = a + b + c + d + e;
        lemma_join(q, d, g);
        lemma_join(q, d + g, d);
        lemma_join(q, d + g + d, h);
        let ct = self.counters_tail();
        assert(ct == d + g + d + h);
        assert(self.fen_text() == q + ct);
        let p = a + b + c + d;
        lemma_join(p, e, ct);
        lemma_join(a + b, c, d);
        lemma_join(a + b, c + d, e + ct);
        lemma_join(a, b, c + d + (e + ct));
    }

    proof fn lemma_read_placement(self, tail: Seq<char>)
        requires
            self.layout_ok(),
        ensures
            parse_squares(self.rows_text(7) + tail, 0, 7, 0, Position::empty()) == Some(
                (
                    Position { pieces: self.pieces, occ: self.occ, ..Position::empty() },
                    self.rows_text(7).len() as int,
                ),
            ),
    {
        let rows = self.rows_text(7);
        let none = Seq::<char>::empty();
        assert(none + rows + tail =~= rows + tail);
        self.lemma_read_rows(none, tail, 7, Position::empty());
        self.lemma_placed_all();
    }

    /// Reading the text of a position gives the position back, but for the three stored sets,
    /// which the text does not hold.
    pub proof fn lemma_parse_text(self)
        requires
            self.writable(),
        ensures
            parse_fen(self.fen_text()) == Some(self.bare()),
    {
        self.lemma_text_parts();
        let rows = self.rows_text(7);
        let tail = self.turn_tail();
        self.lemma_read_placement(tail);
        let placed = Position { pieces: self.pieces, occ: self.occ, ..Position::empty() };
        self.lemma_read_fields(rows, placed);
    }

    /// Writing a position that was read from the text of a position gives that text again:
    /// reading and writing leave the text of a position as it is.
    pub proof fn lemma_fen_round_trip(self)
        requires
            self.writable(),
        ensures
            parse_fen(self.fen_text()) is Some,
            parse_fen(self.fen_text())->0.settled().fen_text() == self.fen_text(),
    {
        self.lemma_parse_text();
        let read = self.bare().settled();
        assert(read.pieces == self.pieces);
        assert forall|r: int, f: int, run: nat| #![auto] 0 <= f <= 8 implies read.row_text(r, f, run)
            == self.row_text(r, f, run) by {
            self.lemma_same_row_text(read, r, f, run);
        }
        assert forall|r: int| #![auto] r <= 7 implies read.rows_text(r) == self.rows_text(r) by {
            self.lemma_same_rows_text(read, r);
        }
    }

    proof fn lemma_same_row_text(self, other: Position, r: int, f: int, run: nat)
        requires
            self.pieces == other.pieces,
        ensures
            self.row_text(r, f, run) == other.row_text(r, f, run),
        decreases 8 - f,
    {
        if 0 <= f < 8 {
            self.lemma_same_row_text(other, r, f + 1, 0);
            self.lemma_same_row_text(other, r, f + 1, run + 1);
        }
    }

    proof fn lemma_same_rows_text(self, other: Position, r: int)
        requires
            self.pieces == other.pieces,
        ensures
            self.rows_text(r) == other.rows_text(r),
        decreases r,
    {
        self.lemma_same_row_text(other, r, 0, 0);
        self.lemma_same_row_text(other, 0, 0, 0);
        if r > 0 {
            self.lemma_same_rows_text(other, r - 1);
        }
    }
}

proof fn lemma_rights_flags(b: u8)
    by (bit_vector)
    requires
        b <= 15,
        b != 0,
    ensures
        b & 1 != 0 || b & 2 != 0 || b & 4 != 0 || b & 8 != 0,
{
}

/// The one character `c` where `cond` holds, and no character where it does not.
pub open spec fn seq_if(cond: bool, c: char) -> Seq<char> {
    if cond {
        seq![c]
    } else {
        Seq::empty()
    }
}

/// No piece stands on a square of the empty board.
pub proof fn lemma_empty_square(s: int)
    requires
        0 <= s < 64,
    ensures
        Position::empty().piece_at(s) is None,
{
    crate::bitboard::lemma_holds_zero(s);
    let e = Position::empty();
    assert forall|i: int| 0 <= i < 12 implies !e.on(i, s) by {}
    assert(!e.on(0, s));
}

/// The boards of the empty board agree with one another.
pub proof fn lemma_empty_layout()
    ensures
        Position::empty().layout_ok(),
{
    let e = Position::empty();
    assert forall|s: int| 0 <= s < 64 implies e.square_ok(s) by {
        lemma_empty_square(s);
        crate::bitboard::lemma_holds_zero(s);
        assert forall|i: int| 0 <= i < 12 implies !e.on(i, s) by {}
    }
    e.lemma_layout_ok();
}

} // verus!
