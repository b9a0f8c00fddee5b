use crate::bitboard::{count, BitBoard};
use crate::geometry::{sliding_attacks, sliding_mask};
use crate::magic::{
    apply_magic_number, create_blocker_bitboard, deposit, extract, lemma_deposit_extract,
    lemma_deposit_within, lemma_extract_bound, lemma_extract_deposit, magic_fits, magic_index,
};
use rand::Rng;
use rustc_hash::FxHashSet;
use vstd::prelude::*;

verus! {

/// `FxHasher` of rustc-hash: the state of its hash function, never looked into here.
#[verifier::external_type_specification]
#[verifier::external_body]
pub struct ExFxHasher(rustc_hash::FxHasher);

/// `BuildHasherDefault` of std: the maker of hashers that a set with a fixed hash function
/// carries, never looked into here.
#[verifier::external_type_specification]
#[verifier::external_body]
#[verifier::reject_recursive_types(H)]
pub struct ExBuildHasherDefault<H>(std::hash::BuildHasherDefault<H>);

/// The indices that a set of indices holds.
pub uninterp spec fn indices_held(set: FxHashSet<u64>) -> Set<u64>;

/// `FxHashSet::default` of rustc-hash, which is `HashSet::default` of std with the crate's
/// hash function: a set that holds nothing.
#[verifier::external_body]
fn index_set_new() -> (r: FxHashSet<u64>)
    ensures
        indices_held(r) == Set::<u64>::empty(),
{
    FxHashSet::default()
}

/// `HashSet::contains` of std on a set of rustc-hash: whether the set holds the index `k`.
#[verifier::external_body]
fn index_set_contains(set: &FxHashSet<u64>, k: u64) -> (r: bool)
    ensures
        r == indices_held(*set).contains(k),
{
    set.contains(&k)
}

/// `HashSet::insert` of std on a set of rustc-hash: afterwards the set holds the index `k`
/// besides what it held; the result says whether `k` is new to it.
#[verifier::external_body]
fn index_set_insert(set: &mut FxHashSet<u64>, k: u64) -> (r: bool)
    ensures
        indices_held(*final(set)) == indices_held(*old(set)).insert(k),
        r == !indices_held(*old(set)).contains(k),
{
    set.insert(k)
}

/// `rand::thread_rng` and `Rng::gen` of rand: a 64-bit word drawn from the generator of the
/// running thread. Nothing is known of the word.
#[verifier::external_body]
fn random_word() -> u64 {
    rand::thread_rng().gen::<u64>()
}

/// A word put together from the low 16 bits of four random words.
fn random_u64() -> u64 {
    let u1: u64 = random_word() & 0xFFFF;
    let u2: u64 = random_word() & 0xFFFF;
    let u3: u64 = random_word() & 0xFFFF;
    let u4: u64 = random_word() & 0xFFFF;
    u1 | (u2 << 16) | (u3 << 32) | (u4 << 48)
}

/// A random word with few bits set, as multipliers that serve tend to have: three random
/// words intersected.
pub fn gen_magic() -> u64 {
    random_u64() & random_u64() & random_u64()
}

/// Whether the top eight bits of the product of mask and multiplier hold at least six ones, a
/// sign that the multiplier spreads the mask over the index.
pub open spec fn top_heavy(mask: u64, magic: u64) -> bool {
    count(mask.wrapping_mul(magic) & 0xFF00_0000_0000_0000) >= 6
}

/// Whether the multiplier `magic` with `shifts` index bits gives every subset of `mask` an
/// index of its own.
pub open spec fn separates(mask: u64, magic: u64, shifts: u64) -> bool {
    forall|b1: u64, b2: u64|
        #![trigger magic_index(b1, magic, shifts), magic_index(b2, magic, shifts)]
        b1 & mask == b1 && b2 & mask == b2 && b1 != b2 ==> magic_index(b1, magic, shifts)
            != magic_index(b2, magic, shifts)
}

/// A multiplier that gives every subset of a sliding piece's mask an index of its own serves
/// that piece's table, where the mask has no more squares than the index has bits.
pub proof fn lemma_separating_fits(is_rook: bool, s: int, magic: u64, shifts: u64)
    requires
        1 <= shifts <= 12,
        count(sliding_mask(is_rook, s)) <= shifts,
        separates(sliding_mask(is_rook, s), magic, shifts),
    ensures
        magic_fits(is_rook, s, magic, shifts),
{
    let mask = sliding_mask(is_rook, s);
    assert forall|b1: u64, b2: u64|
        #![trigger magic_index(b1, magic, shifts), magic_index(b2, magic, shifts)]
        b1 & mask == b1 && b2 & mask == b2 && magic_index(b1, magic, shifts) == magic_index(
            b2,
            magic,
            shifts,
        ) implies sliding_attacks(is_rook, s, b1) == sliding_attacks(is_rook, s, b2) by {
        if b1 != b2 {
            assert(magic_index(b1, magic, shifts) != magic_index(b2, magic, shifts));
        }
    }
}

proof fn lemma_below(r: u64, c: u64)
    by (bit_vector)
    requires
        c <= 63,
    ensures
        (r >> c == 0) == (r < (1u64 << c)),
{
}

/// Whether the multiplier `magic` is fit to index the subsets of `mask` by twelve bits: the
/// top of its product with the mask is heavy enough, and every subset gets an index of its own.
pub fn is_magic(mask: BitBoard, magic: u64, total_blocker_combs: u64) -> (r: bool)
    requires
        count(mask.0) <= 63,
        total_blocker_combs == 1u64 << (count(mask.0) as u64),
    ensures
        r == (top_heavy(mask.0, magic) && separates(mask.0, magic, 12)),
{
    if BitBoard(mask.0.wrapping_mul(magic) & 0xFF00_0000_0000_0000).pop_count() < 6 {
        return false;
    }
    let shifts: u64 = 12;
    let mut used: FxHashSet<u64> = index_set_new();
    let ghost mut owner: Map<u64, u64> = Map::empty();
    let ghost bits = count(mask.0) as u64;
    let mut raw_blocker: u64 = 0;
    while raw_blocker < total_blocker_combs
        invariant
            bits == count(mask.0),
            bits <= 63,
            total_blocker_combs == 1u64 << bits,
            raw_blocker <= total_blocker_combs,
            shifts == 12,
            forall|k: u64|
                #[trigger] indices_held(used).contains(k) ==> owner.dom().contains(k) && owner[k]
                    < raw_blocker && magic_index(deposit(mask.0, owner[k]), magic, shifts) == k,
            forall|r0: u64|
                r0 < raw_blocker ==> indices_held(used).contains(
                    magic_index(#[trigger] deposit(mask.0, r0), magic, shifts),
                ) && owner[magic_index(deposit(mask.0, r0), magic, shifts)] == r0,
        decreases total_blocker_combs - raw_blocker,
    {
        let blocker_bitboard = create_blocker_bitboard(mask, raw_blocker);
        let index = apply_magic_number(blocker_bitboard, magic, shifts);
        if index_set_contains(&used, index.0) {
            proof {
                let other = owner[index.0];
                let b1 = deposit(mask.0, other);
                let b2 = deposit(mask.0, raw_blocker);
                lemma_deposit_within(mask.0, other);
                lemma_deposit_within(mask.0, raw_blocker);
                lemma_below(other, bits);
                lemma_below(raw_blocker, bits);
                lemma_extract_deposit(mask.0, other);
                lemma_extract_deposit(mask.0, raw_blocker);
                assert(b1 != b2);
                assert(magic_index(b1, magic, shifts) == magic_index(b2, magic, shifts));
                assert(!separates(mask.0, magic, shifts));
            }
            return false;
        } else {
            index_set_insert(&mut used, index.0);
            proof {
                owner = owner.insert(index.0, raw_blocker);
            }
        }
        raw_blocker = raw_blocker + 1;
    }
    proof {
        let m = mask.0;
        assert forall|b1: u64, b2: u64|
            #![trigger magic_index(b1, magic, shifts), magic_index(b2, magic, shifts)]
            b1 & m == b1 && b2 & m == b2 && b1 != b2 implies magic_index(b1, magic, shifts)
            != magic_index(b2, magic, shifts) by {
            let r1 = extract(m, b1);
            let r2 = extract(m, b2);
            lemma_extract_bound(m, b1);
            lemma_extract_bound(m, b2);
            lemma_below(r1, bits);
            lemma_below(r2, bits);
            lemma_deposit_extract(m, b1);
            lemma_deposit_extract(m, b2);
            assert(deposit(m, r1) == b1);
            assert(deposit(m, r2) == b2);
        }
    }
    true
}

/// Looks for a multiplier that indexes the subsets of `mask` by twelve bits, among at most a
/// hundred million random candidates; the multiplier and the number of index bits, or nothing
/// where no candidate was fit.
pub fn find_magic(mask: BitBoard, total_blocker_combs: u64) -> (r: Option<(u64, u64)>)
    requires
        count(mask.0) <= 63,
        total_blocker_combs == 1u64 << (count(mask.0) as u64),
    ensures
        r matches Some(found) ==> found.1 == 12 && top_heavy(mask.0, found.0) && separates(
            mask.0,
            found.0,
            12,
        ),
{
    let mut tried: u64 = 0;
    while tried < 100_000_000
        invariant
            count(mask.0) <= 63,
            total_blocker_combs == 1u64 << (count(mask.0) as u64),
        decreases 100_000_000 - tried,
    {
        let magic = gen_magic();
        if is_magic(mask, magic, total_blocker_combs) {
            return Some((magic, 12));
        }
        tried = tried + 1;
    }
    None
}

} // verus!
