use crate::types::Square;
use vstd::prelude::*;

verus! {

/// A set of squares, held as a 64-bit word: the bit at a square's index says whether the square
/// belongs to the set. The empty set is the word zero.
#[derive(Copy, Clone, Debug, PartialEq, Eq, Structural)]
pub struct BitBoard(pub u64);

/// The word that holds the square of index `i` and no other.
pub open spec fn bit(i: int) -> u64 {
    1u64 << (i as u64)
}

/// Whether the word `x` holds the square of index `i`.
pub open spec fn holds(x: u64, i: int) -> bool {
    x & bit(i) != 0
}

/// The index of the lowest square in `x`; 64 when `x` is empty.
pub open spec fn lowest(x: u64) -> int {
    x.trailing_zeros() as int
}

/// The index of the highest square in `x`; -1 when `x` is empty.
pub open spec fn highest(x: u64) -> int {
    63 - vstd::std_specs::bits::u64_leading_zeros(x)
}

/// The word `x` without its lowest square.
pub open spec fn drop_lowest(x: u64) -> u64 {
    x & !bit(lowest(x))
}

/// The number of squares in `x` among those of index below `n`.
pub open spec fn count_below(x: u64, n: nat) -> nat
    decreases n,
{
    if n == 0 {
        0
    } else {
        count_below(x, (n - 1) as nat) + if holds(x, n - 1) {
            1nat
        } else {
            0nat
        }
    }
}

/// The number of squares in `x`.
pub open spec fn count(x: u64) -> nat {
    count_below(x, 64)
}

proof fn lemma_bits_raw(a: u64, b: u64, i: u64, j: u64)
    by (bit_vector)
    requires
        i < 64,
        j < 64,
    ensures
        ((a | b) & (1u64 << i) != 0) == ((a & (1u64 << i) != 0) || (b & (1u64 << i) != 0)),
        ((a & b) & (1u64 << i) != 0) == ((a & (1u64 << i) != 0) && (b & (1u64 << i) != 0)),
        ((a ^ b) & (1u64 << i) != 0) == ((a & (1u64 << i) != 0) != (b & (1u64 << i) != 0)),
        ((!a) & (1u64 << i) != 0) == !(a & (1u64 << i) != 0),
        ((1u64 << j) & (1u64 << i) != 0) == (i == j),
        0u64 & (1u64 << i) == 0,
        (a & (1u64 << i) != 0) == ((a >> i) & 1 == 1),
        (a & (1u64 << i) != 0) == ((a >> i) & 1 != 0),
        (1u64 << i) != 0,
        i <= j ==> (1u64 << i) <= (1u64 << j),
        (1u64 << i) <= 0x8000_0000_0000_0000u64,
{
}

/// The laws of union and intersection that proofs about boards lean on.
pub proof fn lemma_or_laws(a: u64, b: u64, c: u64)
    by (bit_vector)
    ensures
        a | 0 == a,
        0 | a == a,
        a | a == a,
        a | b == b | a,
        (a | b) | c == a | (b | c),
        a & 0 == 0,
        0 & a == 0,
        a & a == a,
        a & b == b & a,
        (a & b) & c == a & (b & c),
        (a | b) & c == (a & c) | (b & c),
        (a | b == 0) == (a == 0 && b == 0),
{
}

/// Membership in a union.
pub broadcast proof fn lemma_holds_or(a: u64, b: u64, i: int)
    requires
        0 <= i < 64,
    ensures
        #[trigger] holds(a | b, i) == (holds(a, i) || holds(b, i)),
{
    lemma_bits_raw(a, b, i as u64, 0);
}

/// Membership in an intersection.
pub broadcast proof fn lemma_holds_and(a: u64, b: u64, i: int)
    requires
        0 <= i < 64,
    ensures
        #[trigger] holds(a & b, i) == (holds(a, i) && holds(b, i)),
{
    lemma_bits_raw(a, b, i as u64, 0);
}

/// Membership in a symmetric difference.
pub broadcast proof fn lemma_holds_xor(a: u64, b: u64, i: int)
    requires
        0 <= i < 64,
    ensures
        #[trigger] holds(a ^ b, i) == (holds(a, i) != holds(b, i)),
{
    lemma_bits_raw(a, b, i as u64, 0);
}

/// Membership in a complement.
pub broadcast proof fn lemma_holds_not(a: u64, i: int)
    requires
        0 <= i < 64,
    ensures
        #[trigger] holds(!a, i) == !holds(a, i),
{
    lemma_bits_raw(a, 0, i as u64, 0);
}

/// A single-square word holds that square alone.
pub broadcast proof fn lemma_holds_bit(j: int, i: int)
    requires
        0 <= i < 64,
        0 <= j < 64,
    ensures
        #[trigger] holds(bit(j), i) == (i == j),
{
    lemma_bits_raw(0, 0, i as u64, j as u64);
}

/// The empty word holds no square.
pub broadcast proof fn lemma_holds_zero(i: int)
    requires
        0 <= i < 64,
    ensures
        !#[trigger] holds(0, i),
{
    lemma_bits_raw(0, 0, i as u64, 0);
}

/// A single-square word is not empty.
pub broadcast proof fn lemma_bit_nonzero(i: int)
    requires
        0 <= i < 64,
    ensures
        #[trigger] bit(i) != 0,
{
    lemma_bits_raw(0, 0, i as u64, 0);
}

/// The lowest square of a non-empty word belongs to it, and no square below it does.
pub broadcast proof fn lemma_lowest(x: u64)
    ensures
        x == 0 <==> #[trigger] lowest(x) == 64,
        0 <= lowest(x) <= 64,
        x != 0 ==> holds(x, lowest(x)),
        forall|j: int| 0 <= j < lowest(x) ==> !holds(x, j),
{
    vstd::std_specs::bits::axiom_u64_trailing_zeros(x);
    if x != 0 {
        lemma_bits_raw(x, 0, lowest(x) as u64, 0);
    }
    assert forall|j: int| 0 <= j < lowest(x) implies !holds(x, j) by {
        lemma_bits_raw(x, 0, j as u64, 0);
        assert((x >> (j as u64)) & 1u64 == 0u64);
    }
}

/// The highest square of a non-empty word belongs to it, and no square above it does.
pub broadcast proof fn lemma_highest(x: u64)
    ensures
        x == 0 <==> #[trigger] highest(x) == -1,
        -1 <= highest(x) < 64,
        x != 0 ==> holds(x, highest(x)),
        forall|j: int| highest(x) < j < 64 ==> !holds(x, j),
{
    vstd::std_specs::bits::axiom_u64_leading_zeros(x);
    let lz = vstd::std_specs::bits::u64_leading_zeros(x);
    if x != 0 {
        lemma_bits_raw(x, 0, (63 - lz) as u64, 0);
        assert(((63u64 - (lz as u64)) as u64) == (63 - lz) as u64);
    }
    assert forall|j: int| highest(x) < j < 64 implies !holds(x, j) by {
        lemma_bits_raw(x, 0, j as u64, 0);
        assert((x >> (j as u64)) & 1u64 == 0u64);
    }
}

/// Two words that hold the same squares are equal.
pub proof fn lemma_ext(a: u64, b: u64)
    requires
        forall|i: int| 0 <= i < 64 ==> holds(a, i) == holds(b, i),
    ensures
        a == b,
{
    let d = a ^ b;
    if d != 0 {
        lemma_lowest(d);
        lemma_holds_xor(a, b, lowest(d));
    } else {
        assert(a == b) by (bit_vector)
            requires
                a ^ b == 0,
        ;
    }
}

/// The squares of `x`, as a set of indices.
pub open spec fn squares(x: u64) -> Set<int> {
    Set::new(|i: int| 0 <= i < 64 && holds(x, i))
}

/// The squares of `x`, lowest first.
pub open spec fn ascending(x: u64) -> Seq<Square>
    decreases x,
{
    if x == 0 {
        Seq::empty()
    } else {
        proof {
            lemma_drop_lowest_less(x);
        }
        seq![Square::at(lowest(x))] + ascending(drop_lowest(x))
    }
}

impl Default for BitBoard {
    /// The empty board.
    fn default() -> (r: Self)
        ensures
            r.0 == 0,
    {
        BitBoard(0)
    }
}

impl BitBoard {
    /// The squares of this board, as a set of indices.
    pub open spec fn view(self) -> Set<int> {
        squares(self.0)
    }

    /// The empty board.
    pub fn new() -> (r: Self)
        ensures
            r.0 == 0,
    {
        BitBoard(0)
    }

    /// Whether no square belongs to this board.
    pub fn is_empty(&self) -> (r: bool)
        ensures
            r == (self.0 == 0),
    {
        self.0 == 0
    }

    /// Whether the square `s` belongs to this board.
    pub fn get_bit(&self, s: Square) -> (r: bool)
        ensures
            r == holds(self.0, s.idx()),
    {
        self.0 & (1u64 << s.index()) != 0
    }

    /// Adds the square `s` to this board.
    pub fn set_bit(&mut self, s: Square)
        ensures
            final(self).0 == old(self).0 | bit(s.idx()),
    {
        self.0 = self.0 | (1u64 << s.index());
    }

    /// Removes the square `s` from this board.
    pub fn unset_bit(&mut self, s: Square)
        ensures
            final(self).0 == old(self).0 & !bit(s.idx()),
    {
        self.0 = self.0 & !(1u64 << s.index());
    }

    /// The lowest square of this board, if there is one.
    pub fn get_lsb(&self) -> (r: Option<Square>)
        ensures
            self.0 == 0 ==> r is None,
            self.0 != 0 ==> r == Some(Square::at(lowest(self.0))),
    {
        if self.0 == 0 {
            None
        } else {
            proof {
                lemma_lowest(self.0);
            }
            let n: u32 = self.0.trailing_zeros();
            Square::from_index(n as u8)
        }
    }

    /// The highest square of this board, if there is one.
    pub fn get_msb(&self) -> (r: Option<Square>)
        ensures
            self.0 == 0 ==> r is None,
            self.0 != 0 ==> r == Some(Square::at(highest(self.0))),
    {
        if self.0 == 0 {
            None
        } else {
            proof {
                lemma_highest(self.0);
            }
            let n: u32 = self.0.leading_zeros();
            Square::from_index((63 - n) as u8)
        }
    }

    /// Removes the lowest square of this board and returns it; an empty board stays empty.
    pub fn pop_lsb(&mut self) -> (r: Option<Square>)
        ensures
            old(self).0 == 0 ==> r is None && final(self).0 == 0,
            old(self).0 != 0 ==> r == Some(Square::at(lowest(old(self).0))) && final(self).0
                == drop_lowest(old(self).0),
    {
        if self.0 == 0 {
            None
        } else {
            let sq = self.get_lsb();
            let x: u64 = self.0;
            proof {
                lemma_lowest(x);
                lemma_drop_lowest_raw(x, lowest(x) as u64);
            }
            self.0 = x & (x - 1);
            sq
        }
    }

    /// The squares of this board in ascending order of their indices.
    pub fn to_squares(&self) -> (r: Vec<Square>)
        ensures
            r@ == ascending(self.0),
    {
        let mut out: Vec<Square> = Vec::new();
        let mut rest = *self;
        assert(out@ + ascending(rest.0) =~= ascending(self.0));
        while !rest.is_empty()
            invariant
                out@ + ascending(rest.0) == ascending(self.0),
            decreases rest.0,
        {
            let ghost before = rest.0;
            let ghost acc = out@;
            proof {
                lemma_drop_lowest_less(before);
            }
            let s = rest.pop_lsb().unwrap();
            out.push(s);
            assert(out@ + ascending(rest.0) =~= acc + ascending(before));
        }
        assert(out@ + ascending(0) =~= out@);
        out
    }

    /// The number of squares on this board.
    pub fn pop_count(&self) -> (r: u32)
        ensures
            r == count(self.0),
            r <= 64,
    {
        proof {
            lemma_count_bound(self.0, 64);
        }
        self.0.count_ones()
    }

    /// The product of this board's word and `n`, reduced modulo 2^64.
    pub fn wrapping_mul(&self, n: u64) -> (r: BitBoard)
        ensures
            r.0 == self.0.wrapping_mul(n),
    {
        BitBoard(self.0.wrapping_mul(n))
    }
}

proof fn lemma_drop_lowest_raw(x: u64, i: u64)
    by (bit_vector)
    requires
        i < 64,
        x & (1u64 << i) != 0,
        x << ((64 - i) as u64) == 0,
    ensures
        x & ((x - 1) as u64) == x & !(1u64 << i),
{
}

proof fn lemma_clear_bit_less(x: u64, i: u64)
    by (bit_vector)
    requires
        i < 64,
        x & (1u64 << i) != 0,
    ensures
        x & !(1u64 << i) < x,
{
}

/// Dropping the lowest square of a non-empty word makes the word smaller.
pub proof fn lemma_drop_lowest_less(x: u64)
    requires
        x != 0,
    ensures
        drop_lowest(x) < x,
{
    lemma_lowest(x);
    lemma_clear_bit_less(x, lowest(x) as u64);
}

/// What a word holds once its lowest square is dropped.
pub proof fn lemma_drop_lowest_holds(x: u64, i: int)
    requires
        x != 0,
        0 <= i < 64,
    ensures
        holds(drop_lowest(x), i) == (holds(x, i) && i != lowest(x)),
{
    lemma_lowest(x);
    lemma_holds_and(x, !bit(lowest(x)), i);
    lemma_holds_not(bit(lowest(x)), i);
    lemma_holds_bit(lowest(x), i);
}

/// The empty word holds nothing below any index.
pub proof fn lemma_count_zero(n: nat)
    requires
        n <= 64,
    ensures
        count_below(0, n) == 0,
    decreases n,
{
    if n > 0 {
        lemma_count_zero((n - 1) as nat);
        lemma_holds_zero(n - 1);
    }
}

/// Dropping the lowest square lowers the count by one, from the index above that square on.
pub proof fn lemma_count_drop_lowest(x: u64, n: nat)
    requires
        x != 0,
        n <= 64,
    ensures
        count_below(x, n) == count_below(drop_lowest(x), n) + if n > lowest(x) {
            1nat
        } else {
            0nat
        },
    decreases n,
{
    lemma_lowest(x);
    if n > 0 {
        lemma_count_drop_lowest(x, (n - 1) as nat);
        lemma_drop_lowest_holds(x, n - 1);
    }
}

/// A non-empty word holds one square more than it does without its lowest square.
pub proof fn lemma_count_unfold(x: u64)
    requires
        x != 0,
    ensures
        count(x) == count(drop_lowest(x)) + 1,
{
    lemma_lowest(x);
    lemma_count_drop_lowest(x, 64);
}

/// A single-square word holds one square.
pub proof fn lemma_count_bit(i: int)
    requires
        0 <= i < 64,
    ensures
        count(bit(i)) == 1,
{
    let x = bit(i);
    lemma_bit_nonzero(i);
    lemma_lowest(x);
    lemma_holds_bit(i, lowest(x));
    assert forall|j: int| 0 <= j < 64 implies holds(drop_lowest(x), j) == holds(0, j) by {
        lemma_drop_lowest_holds(x, j);
        lemma_holds_bit(i, j);
        lemma_holds_zero(j);
    }
    lemma_ext(drop_lowest(x), 0);
    lemma_count_unfold(x);
    lemma_count_zero(64);
}

/// A word that holds exactly one square is the single-square word of its lowest square.
pub proof fn lemma_count_one(x: u64)
    requires
        count(x) == 1,
    ensures
        x != 0,
        x == bit(lowest(x)),
        drop_lowest(x) == 0,
{
    if x == 0 {
        lemma_count_zero(64);
    }
    lemma_lowest(x);
    lemma_count_unfold(x);
    let y = drop_lowest(x);
    if y != 0 {
        lemma_count_unfold(y);
    }
    assert forall|j: int| 0 <= j < 64 implies holds(x, j) == holds(bit(lowest(x)), j) by {
        lemma_drop_lowest_holds(x, j);
        lemma_holds_bit(lowest(x), j);
        lemma_holds_zero(j);
    }
    lemma_ext(x, bit(lowest(x)));
}

/// A count never exceeds the number of indices looked at.
pub proof fn lemma_count_bound(x: u64, n: nat)
    ensures
        count_below(x, n) <= n,
    decreases n,
{
    if n > 0 {
        lemma_count_bound(x, (n - 1) as nat);
    }
}

/// `u64::count_ones` of std: the number of one bits in the word, which is the number of squares
/// that the word holds.
pub assume_specification[ u64::count_ones ](x: u64) -> (r: u32)
    ensures
        r == count(x),
;

} // verus!
