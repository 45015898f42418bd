//! A single playing card, identified by one set bit in a 64-bit word.

use vstd::prelude::*;

verus! {

use vstd::std_specs::bits::{axiom_u64_trailing_zeros, u64_trailing_zeros};
use vstd::string::StringSliceAdditionalSpecFns;

use crate::bits::{card_bit, one_bit, only_cards, CARD_MASK};

/// The bit position of the single set bit of `b`.
pub open spec fn bit_index(b: u64) -> int {
    u64_trailing_zeros(b) as int
}

/// The suit lane (0 hearts, 1 clubs, 2 diamonds, 3 spades) of the single
/// set bit of `b`.
pub open spec fn suit_of(b: u64) -> int {
    bit_index(b) / 16
}

/// The rank index (0 ace through 12 king) of the single set bit of `b`.
pub open spec fn rank_of(b: u64) -> int {
    bit_index(b) % 16
}

/// A shift of 1 has exactly the trailing zeros it was shifted by.
pub proof fn lemma_tz_shift(sh: u64)
    requires
        sh < 64,
    ensures
        u64_trailing_zeros(1u64 << sh) == sh,
{
    axiom_u64_trailing_zeros(1u64 << sh);
    assert(1u64 << sh != 0) by (bit_vector)
        requires sh < 64;
    let tz = u64_trailing_zeros(1u64 << sh) as u64;
    assert(tz == sh) by (bit_vector)
        requires sh < 64 && tz < 64 && ((1u64 << sh) >> tz) & 1u64 == 1u64;
}

/// The suit and rank put into `card_bit` are the ones read back out.
pub proof fn lemma_card_bit_elems(s: u64, r: u64)
    requires
        s < 4,
        r < 13,
    ensures
        one_bit(card_bit(s as int, r as int)),
        only_cards(card_bit(s as int, r as int)),
        suit_of(card_bit(s as int, r as int)) == s,
        rank_of(card_bit(s as int, r as int)) == r,
{
    let sh: u64 = (16 * s + r) as u64;
    assert(card_bit(s as int, r as int) == 1u64 << sh);
    lemma_tz_shift(sh);
    crate::bits::lemma_shift_bits();
    assert(sh & 0xf == sh % 16) by (bit_vector);
}

/// A single set bit at a real card position is `card_bit` of the suit and
/// rank read out of it.
pub proof fn lemma_valid_card_form(b: u64)
    requires
        one_bit(b),
        only_cards(b),
    ensures
        0 <= suit_of(b) < 4,
        0 <= rank_of(b) < 13,
        b == card_bit(suit_of(b), rank_of(b)),
{
    axiom_u64_trailing_zeros(b);
    let tz = u64_trailing_zeros(b);
    assert(b == 1u64 << tz) by (bit_vector)
        requires one_bit(b) && tz < 64 && (b >> (tz as u64)) & 1u64 == 1u64;
    crate::bits::lemma_shift_bits();
    assert(tz & 0xf == tz % 16) by (bit_vector);
    assert((16 * (tz as int / 16) + tz as int % 16) as u64 == tz);
}

/// The symbol of each suit lane: hearts, clubs, diamonds, spades.
pub open spec fn suit_char(s: int) -> char {
    if s == 0 {
        '\u{2665}'
    } else if s == 1 {
        '\u{2663}'
    } else if s == 2 {
        '\u{2666}'
    } else {
        '\u{2660}'
    }
}

/// The suit lane of a suit symbol, or -1 for any other character.
pub open spec fn char_suit(c: char) -> int {
    if c == '\u{2665}' {
        0
    } else if c == '\u{2663}' {
        1
    } else if c == '\u{2666}' {
        2
    } else if c == '\u{2660}' {
        3
    } else {
        -1
    }
}

/// The face label of each rank index, ace through king.
pub open spec fn rank_chars(r: int) -> Seq<char> {
    if r == 0 {
        ("A")@
    } else if r == 1 {
        ("2")@
    } else if r == 2 {
        ("3")@
    } else if r == 3 {
        ("4")@
    } else if r == 4 {
        ("5")@
    } else if r == 5 {
        ("6")@
    } else if r == 6 {
        ("7")@
    } else if r == 7 {
        ("8")@
    } else if r == 8 {
        ("9")@
    } else if r == 9 {
        ("10")@
    } else if r == 10 {
        ("J")@
    } else if r == 11 {
        ("Q")@
    } else {
        ("K")@
    }
}

/// The rank index whose face label the characters spell, or -1.
pub open spec fn chars_rank(s: Seq<char>) -> int {
    if s == rank_chars(0) {
        0
    } else if s == rank_chars(1) {
        1
    } else if s == rank_chars(2) {
        2
    } else if s == rank_chars(3) {
        3
    } else if s == rank_chars(4) {
        4
    } else if s == rank_chars(5) {
        5
    } else if s == rank_chars(6) {
        6
    } else if s == rank_chars(7) {
        7
    } else if s == rank_chars(8) {
        8
    } else if s == rank_chars(9) {
        9
    } else if s == rank_chars(10) {
        10
    } else if s == rank_chars(11) {
        11
    } else if s == rank_chars(12) {
        12
    } else {
        -1
    }
}

/// The alphabet position of the card (suit, rank) in the 52-symbol hash
/// alphabet: 13 symbols per suit.
pub open spec fn sym_index(suit: int, rank: int) -> int {
    suit * 13 + rank
}

/// The hash symbol of the card (suit, rank): the 26 capital letters stand
/// for the first two suits, the 26 small letters for the last two.
pub open spec fn hash_sym(suit: int, rank: int) -> u8 {
    if sym_index(suit, rank) < 26 {
        (65 + sym_index(suit, rank)) as u8
    } else {
        (71 + sym_index(suit, rank)) as u8
    }
}

/// The alphabet position of byte `b`, or -1 when it is no hash symbol.
pub open spec fn sym_pos(b: u8) -> int {
    if 65 <= b <= 90 {
        b - 65
    } else if 97 <= b <= 122 {
        b - 97 + 26
    } else {
        -1
    }
}

/// The card encoding that the hash symbol `b` stands for.
pub open spec fn sym_card(b: u8) -> u64 {
    card_bit(sym_pos(b) / 13, sym_pos(b) % 13)
}

/// Character-for-character equality of two strings, decided on their
/// UTF-8 bytes: the encoding is injective, so equal bytes mean equal
/// characters.
fn str_eq(a: &str, b: &str) -> (r: bool)
    ensures
        r == (a@ == b@),
{
    let ab = a.as_bytes();
    let bb = b.as_bytes();
    if ab.len() != bb.len() {
        return false;
    }
    let mut i: usize = 0;
    while i < ab.len()
        invariant
            i <= ab.len(),
            ab@ == a.spec_bytes(),
            bb@ == b.spec_bytes(),
            ab@.len() == bb@.len(),
            forall|j: int| 0 <= j < i ==> ab@[j] == bb@[j],
        decreases ab.len() - i,
    {
        if ab[i] != bb[i] {
            return false;
        }
        i = i + 1;
    }
    proof {
        assert(ab@ =~= bb@);
        vstd::utf8::encode_utf8_decode_utf8(a@);
        vstd::utf8::encode_utf8_decode_utf8(b@);
    }
    true
}

/// The face label of each rank index, as a string.
fn rank_label(r: u32) -> (s: &'static str)
    requires
        r < 13,
    ensures
        s@ == rank_chars(r as int),
{
    match r {
        0 => "A",
        1 => "2",
        2 => "3",
        3 => "4",
        4 => "5",
        5 => "6",
        6 => "7",
        7 => "8",
        8 => "9",
        9 => "10",
        10 => "J",
        11 => "Q",
        _ => "K",
    }
}

/// One of the 52 playing cards, stored as a single set bit: bit
/// `rank + 16 * suit` of a 64-bit word.
#[derive(Clone, Copy, PartialEq, Eq, Structural, Debug)]
pub struct Card(u64);

impl View for Card {
    type V = u64;

    closed spec fn view(&self) -> u64 {
        self.0
    }
}

impl Card {
    /// A well-formed card has exactly one bit set, at a real card position.
    pub open spec fn wf(self) -> bool {
        one_bit(self@) && only_cards(self@)
    }

    /// Builds the card named by a suit symbol and a rank label, if both
    /// are ones.
    pub fn new(suit: &char, rank: &str) -> (res: Option<Self>)
        ensures
            (char_suit(*suit) >= 0 && chars_rank(rank@) >= 0) <==> (res is Some),
            res matches Some(c) ==> c@ == card_bit(char_suit(*suit), chars_rank(rank@)) && c.wf()
                && c.spec_suit() == char_suit(*suit) && c.spec_rank() == chars_rank(rank@),
    {
        let s: usize;
        if *suit == '\u{2665}' {
            s = 0;
        } else if *suit == '\u{2663}' {
            s = 1;
        } else if *suit == '\u{2666}' {
            s = 2;
        } else if *suit == '\u{2660}' {
            s = 3;
        } else {
            return None;
        }
        let mut r: u32 = 0;
        while r < 13
            invariant
                r <= 13,
                s == char_suit(*suit),
                0 <= s < 4,
                forall|j: int| 0 <= j < r ==> rank@ != rank_chars(j),
            decreases 13 - r,
        {
            if str_eq(rank, rank_label(r)) {
                return Some(Self::new_from_elems(s, r as usize));
            }
            r = r + 1;
        }
        None
    }

    /// The suit index of this card.
    pub open spec fn spec_suit(self) -> int {
        suit_of(self@)
    }

    /// The rank index of this card.
    pub open spec fn spec_rank(self) -> int {
        rank_of(self@)
    }

    /// Builds the card of the given suit and rank indices.
    pub fn new_from_elems(suit: usize, rank: usize) -> (c: Self)
        requires
            suit < 4,
            rank < 13,
        ensures
            c@ == card_bit(suit as int, rank as int),
            c.wf(),
            c.spec_suit() == suit,
            c.spec_rank() == rank,
    {
        proof {
            lemma_card_bit_elems(suit as u64, rank as u64);
        }
        let sh: usize = rank + suit * 16;
        assert(1u64 << sh == card_bit(suit as int, rank as int)) by (bit_vector)
            requires sh == (suit as int * 16 + rank as int) && suit < 4 && rank < 13;
        Card(1u64 << sh)
    }

    /// Wraps a raw word as a card, without any validity check.
    pub fn new_from_raw(val: u64) -> (c: Self)
        ensures
            c@ == val,
    {
        Card(val)
    }

    /// The suit symbol of this card.
    pub fn suit(&self) -> (c: char)
        requires
            self.wf(),
        ensures
            c == suit_char(self.spec_suit()),
    {
        let s = self.suit_elem();
        if s == 0 {
            '\u{2665}'
        } else if s == 1 {
            '\u{2663}'
        } else if s == 2 {
            '\u{2666}'
        } else {
            '\u{2660}'
        }
    }

    /// The face label of this card's rank.
    pub fn rank(&self) -> (r: &str)
        requires
            self.wf(),
        ensures
            r@ == rank_chars(self.spec_rank()),
    {
        rank_label(self.rank_elem())
    }

    /// The suit index, recovered from the bit position.
    #[inline]
    pub fn suit_elem(&self) -> (r: u32)
        requires
            self.wf(),
        ensures
            r == self.spec_suit(),
            0 <= r < 4,
    {
        proof {
            lemma_valid_card_form(self@);
            axiom_u64_trailing_zeros(self@);
        }
        let tz = self.0.trailing_zeros();
        assert(tz >> 4 == tz / 16) by (bit_vector);
        tz >> 4
    }

    /// The rank index, recovered from the bit position.
    #[inline]
    pub fn rank_elem(&self) -> (r: u32)
        requires
            self.wf(),
        ensures
            r == self.spec_rank(),
            0 <= r < 13,
    {
        proof {
            lemma_valid_card_form(self@);
            axiom_u64_trailing_zeros(self@);
        }
        let tz = self.0.trailing_zeros();
        assert(tz & 0xf == tz % 16) by (bit_vector);
        tz & 0xf
    }

    /// The card one rank above, as a raw shift: shifting a king lands on a
    /// harmless guard bit that no real hand ever holds.
    #[inline]
    pub fn one_higher(&self) -> (c: Card)
        ensures
            c@ == self@ << 1u64,
    {
        Card(self.0 << 1)
    }

    /// The card one rank below, as a raw shift: shifting an ace lands
    /// outside its lane, on a guard bit or on nothing at all.
    #[inline]
    pub fn one_lower(&self) -> (c: Card)
        ensures
            c@ == self@ >> 1u64,
    {
        Card(self.0 >> 1)
    }

    /// The raw one-bit encoding of this card.
    #[inline]
    pub fn raw(&self) -> (r: u64)
        ensures
            r == self@,
    {
        self.0
    }

    /// The hash symbol of this card, as a byte.
    pub fn hash_byte(&self) -> (b: u8)
        requires
            self.wf(),
        ensures
            b == hash_sym(self.spec_suit(), self.spec_rank()),
            b < 128,
    {
        proof {
            lemma_valid_card_form(self@);
        }
        let pos = self.suit_elem() as usize * 13 + self.rank_elem() as usize;
        if pos < 26 {
            65 + pos as u8
        } else {
            71 + pos as u8
        }
    }

    /// The hash symbol of this card, as a character.
    pub fn hash_val(&self) -> (c: char)
        requires
            self.wf(),
        ensures
            c == hash_sym(self.spec_suit(), self.spec_rank()) as char,
    {
        self.hash_byte() as char
    }

    /// Builds the card that a hash symbol stands for, if the byte is one.
    pub fn new_from_hash(hash: u8) -> (r: Option<Card>)
        ensures
            (sym_pos(hash) >= 0) <==> (r is Some),
            r matches Some(c) ==> c@ == sym_card(hash) && c.wf() && c.spec_suit() == sym_pos(hash)
                / 13 && c.spec_rank() == sym_pos(hash) % 13,
    {
        let p: usize;
        if hash >= 65 && hash <= 90 {
            p = (hash - 65) as usize;
        } else if hash >= 97 && hash <= 122 {
            p = (hash - 97) as usize + 26;
        } else {
            return None;
        }
        Some(Card::new_from_elems(p / 13, p % 13))
    }
}

/// Law: for an interior rank, stepping a card's encoding one rank down
/// and then one rank up gives back the identical card, and likewise up
/// then down.
pub proof fn lemma_neighbor_round_trip(b: u64)
    requires
        one_bit(b),
        only_cards(b),
        1 <= rank_of(b) <= 11,
    ensures
        (b >> 1u64) << 1u64 == b,
        (b << 1u64) >> 1u64 == b,
{
    lemma_valid_card_form(b);
    let s = suit_of(b);
    let r = rank_of(b);
    lemma_neighbor_shift(s as u64, r as u64);
    lemma_neighbor_shift(s as u64, (r - 1) as u64);
    lemma_neighbor_shift(s as u64, (r + 1) as u64);
}

/// Shifting a card bit by one moves it one rank within its suit lane; from
/// an edge rank it lands on a guard bit outside the real card positions.
pub proof fn lemma_neighbor_shift(s: u64, r: u64)
    by (bit_vector)
    requires
        s < 4,
        r < 13,
    ensures
        r < 12 ==> (1u64 << ((16 * s + r) as u64)) << 1u64 == 1u64 << ((16 * s + r + 1) as u64),
        r > 0 ==> (1u64 << ((16 * s + r) as u64)) >> 1u64 == 1u64 << ((16 * s + r - 1) as u64),
        r == 12 ==> ((1u64 << ((16 * s + r) as u64)) << 1u64) & CARD_MASK == 0,
        r == 0 ==> ((1u64 << ((16 * s + r) as u64)) >> 1u64) & CARD_MASK == 0,
{
}

} // verus!
