//! Bit-level model of packed card sets.
//!
//! A card is one set bit in a `u64`: 16 bits per suit lane, of which the
//! low 13 stand for the ranks ace through king and the high 3 are guard
//! bits that absorb harmless shift overflow from rank-neighbour queries.

use vstd::prelude::*;

verus! {

/// The 52 bit positions that stand for real cards: the low 13 bits of each
/// 16-bit suit lane.
pub const CARD_MASK: u64 = 0x1fff_1fff_1fff_1fff;

/// True when exactly one bit of `x` is set.
pub open spec fn one_bit(x: u64) -> bool {
    x != 0 && x & ((x - 1) as u64) == 0
}

/// True when every set bit of `x` lies at a real card position.
pub open spec fn only_cards(x: u64) -> bool {
    x & CARD_MASK == x
}

/// The bit that stands for the card of the given suit and rank.
pub open spec fn card_bit(suit: int, rank: int) -> u64 {
    1u64 << ((suit * 16 + rank) as u64)
}

/// Membership of the card (suit, rank) in the packed set `x`.
pub open spec fn has(x: u64, suit: int, rank: int) -> bool {
    x & card_bit(suit, rank) != 0
}

/// The number of set bits of `x`.
pub open spec fn popcnt(x: u64) -> nat
    decreases x,
{
    if x == 0 {
        0
    } else {
        (x % 2 + popcnt((x / 2) as u64)) as nat
    }
}

/// The lowest set bit of `x`, or 0 when `x` is 0.
pub open spec fn lsb(x: u64) -> u64 {
    if x == 0 {
        0
    } else {
        x ^ (x & ((x - 1) as u64))
    }
}

/// Bitwise `&` distributes over `|`.
pub proof fn lemma_and_or_distrib(x: u64, y: u64, m: u64)
    by (bit_vector)
    ensures
        ((x | y) & m) == (x & m) | (y & m),
{
}

/// A union is empty exactly when both parts are.
pub proof fn lemma_or_empty(x: u64, y: u64)
    by (bit_vector)
    ensures
        (x | y) == 0 <==> (x == 0 && y == 0),
{
}

/// Zero is neutral for `|` and absorbing for `&`.
pub proof fn lemma_zero_identities(x: u64)
    by (bit_vector)
    ensures
        x | 0 == x,
        0 | x == x,
        x & 0 == 0,
        0 & x == 0,
{
}

/// A set meets a single-bit mask exactly when it holds that bit whole.
pub proof fn lemma_one_bit_meet(x: u64, b: u64)
    by (bit_vector)
    requires
        one_bit(b),
    ensures
        (x & b != 0) <==> (x & b) == b,
        x & b == b & x,
{
}

/// The union of two subsets of a mask stays within the mask.
pub proof fn lemma_union_subset(a: u64, b: u64, m: u64)
    by (bit_vector)
    requires
        a & m == a,
        m & b == b,
    ensures
        (a | b) & m == (a | b),
{
}

/// Removing bits from a subset of a mask stays within the mask.
pub proof fn lemma_andnot_subset(a: u64, b: u64, m: u64)
    by (bit_vector)
    requires
        a & m == a,
    ensures
        ((a & !b) & m) == (a & !b),
{
}

/// Bitwise `&` is commutative.
pub proof fn lemma_and_comm(x: u64, y: u64)
    by (bit_vector)
    ensures
        x & y == y & x,
{
}

/// An intersection lies within both of its operands.
pub proof fn lemma_and_absorb(x: u64, y: u64)
    by (bit_vector)
    ensures
        (x & y) & x == x & y,
        (x & y) & y == x & y,
        x & (x & y) == x & y,
{
}

/// Set inclusion, written as `a & b == a`, is transitive.
pub proof fn lemma_subset_trans(a: u64, b: u64, c: u64)
    by (bit_vector)
    requires
        a & b == a,
        b & c == b,
    ensures
        a & c == a,
{
}

/// Facts about single set bits written as shifts of 1.
pub proof fn lemma_shift_bits()
    by (bit_vector)
    ensures
        forall|sh: u64| sh < 64 ==> one_bit(#[trigger] (1u64 << sh)),
        forall|sh1: u64, sh2: u64|
            sh1 < 64 && sh2 < 64 ==> (((1u64 << sh1) & (1u64 << sh2) != 0) <==> sh1 == sh2),
        forall|sh: u64|
            sh < 64 ==> (((1u64 << sh) & CARD_MASK == (1u64 << sh)) <==> (sh & 0xf) < 13),
        forall|sh1: u64, sh2: u64|
            sh1 < 64 && sh2 < 64 && sh1 < sh2 ==> (1u64 << sh1) < (1u64 << sh2),
{
}

/// The mask of the six ranks below seven (ace through six) of one suit.
pub open spec fn low_range_mask(suit: int) -> u64 {
    0x3fu64 << ((suit * 16) as u64)
}

/// The mask of the six ranks above seven (eight through king) of one suit.
pub open spec fn high_range_mask(suit: int) -> u64 {
    0x1f80u64 << ((suit * 16) as u64)
}

/// The lowest set bit of a non-empty set: it is a single bit of the set,
/// no set bit lies below it, and clearing it leaves `x & (x - 1)`, a
/// strictly smaller word.
pub proof fn lemma_lsb(x: u64)
    by (bit_vector)
    requires
        x != 0,
    ensures
        one_bit(lsb(x)),
        x & lsb(x) == lsb(x),
        x & ((lsb(x) - 1) as u64) == 0,
        x & !lsb(x) == x & ((x - 1) as u64),
        x & ((x - 1) as u64) < x,
        lsb(x) & CARD_MASK == lsb(x) || x & CARD_MASK != x,
        one_bit(x) ==> lsb(x) == x,
{
}

/// The bits of a disjoint union are counted part by part.
pub proof fn lemma_popcnt_or(x: u64, y: u64)
    requires
        x & y == 0,
    ensures
        popcnt(x | y) == popcnt(x) + popcnt(y),
    decreases x,
{
    if x == 0 {
        assert(x | y == y) by (bit_vector)
            requires x == 0;
    } else {
        assert((x / 2) as u64 & (y / 2) as u64 == 0 && ((x | y) / 2) as u64 == (x / 2) as u64 | (y
            / 2) as u64 && (x | y) % 2 == x % 2 + y % 2 && (x | y) != 0) by (bit_vector)
            requires x & y == 0 && x != 0;
        lemma_popcnt_or((x / 2) as u64, (y / 2) as u64);
    }
}

/// A single bit counts as one.
pub proof fn lemma_popcnt_one(b: u64)
    requires
        one_bit(b),
    ensures
        popcnt(b) == 1,
    decreases b,
{
    if b == 1 {
        assert(popcnt(1) == 1 + popcnt(0));
    } else {
        assert(b % 2 == 0 && one_bit((b / 2) as u64)) by (bit_vector)
            requires one_bit(b) && b != 1;
        lemma_popcnt_one((b / 2) as u64);
    }
}

/// Removing a subset removes exactly its bit count.
pub proof fn lemma_popcnt_remove(x: u64, y: u64)
    requires
        x & y == y,
    ensures
        popcnt(x & !y) + popcnt(y) == popcnt(x),
{
    assert((x & !y) & y == 0 && ((x & !y) | y) == x) by (bit_vector)
        requires x & y == y;
    lemma_popcnt_or(x & !y, y);
}

/// A subset never holds more bits than the whole.
pub proof fn lemma_popcnt_subset(x: u64, y: u64)
    requires
        x & y == y,
    ensures
        popcnt(y) <= popcnt(x),
{
    lemma_popcnt_remove(x, y);
}

/// Only the empty set has no bits.
pub proof fn lemma_popcnt_zero(x: u64)
    ensures
        popcnt(x) == 0 <==> x == 0,
    decreases x,
{
    if x != 0 && x % 2 == 0 {
        assert((x / 2) as u64 != 0);
        lemma_popcnt_zero((x / 2) as u64);
    }
}

/// A set with exactly one counted bit is a single bit.
pub proof fn lemma_popcnt_is_one(x: u64)
    requires
        popcnt(x) == 1,
    ensures
        one_bit(x),
    decreases x,
{
    if x % 2 == 1 {
        lemma_popcnt_zero((x / 2) as u64);
        assert(x == 1);
        assert(one_bit(1u64)) by (bit_vector);
    } else {
        lemma_popcnt_is_one((x / 2) as u64);
        assert((one_bit((x / 2) as u64) && x % 2 == 0) ==> one_bit(x)) by (bit_vector);
    }
}

/// A word below the `w`-th power of two has at most `w` set bits.
pub proof fn lemma_popcnt_width(x: u64, w: nat)
    requires
        x < vstd::arithmetic::power2::pow2(w),
    ensures
        popcnt(x) <= w,
    decreases w,
{
    vstd::arithmetic::power2::lemma_pow2_pos(w);
    if w == 0 {
        vstd::arithmetic::power2::lemma2_to64();
    } else {
        assert(vstd::arithmetic::power2::pow2(w) == 2 * vstd::arithmetic::power2::pow2((w - 1) as nat)) by {
            vstd::arithmetic::power2::lemma_pow2_unfold(w);
        }
        lemma_popcnt_width((x / 2) as u64, (w - 1) as nat);
    }
}

/// A 64-bit word has at most 64 set bits.
pub proof fn lemma_popcnt_le_64(x: u64)
    ensures
        popcnt(x) <= 64,
{
    vstd::arithmetic::power2::lemma2_to64();
    vstd::arithmetic::power2::lemma2_to64_rest();
    lemma_popcnt_width(x, 64);
}

} // verus!
