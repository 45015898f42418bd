//! A set of cards, packed as the bitwise union of their encodings.

use vstd::prelude::*;

verus! {

use crate::bits::{
    high_range_mask, lemma_lsb, lemma_popcnt_le_64, lemma_popcnt_one, lemma_popcnt_remove,
    low_range_mask, lsb, popcnt,
};
use crate::cards::card::Card;

/// A set of cards: the bitwise union of their one-bit encodings. Guard-zone
/// bits may appear transiently (from rank-neighbour shifts) and are
/// harmless as long as the set is only ever intersected with real hands.
#[derive(Clone, Copy, Debug)]
pub struct CardCollection(u64);

impl View for CardCollection {
    type V = u64;

    closed spec fn view(&self) -> u64 {
        self.0
    }
}

impl CardCollection {
    /// The empty collection.
    pub fn new() -> (c: Self)
        ensures
            c@ == 0,
    {
        CardCollection(0)
    }

    /// The collection holding exactly the given card.
    pub fn new_single(card: Card) -> (c: Self)
        ensures
            c@ == card@,
    {
        CardCollection(card.raw())
    }

    /// Wraps a raw word of card bits as a collection.
    pub fn new_from_raw(value: u64) -> (c: Self)
        ensures
            c@ == value,
    {
        CardCollection(value)
    }

    /// Inserts a card.
    #[inline]
    pub fn add(&mut self, card: Card)
        ensures
            final(self)@ == old(self)@ | card@,
    {
        self.0 = self.0 | card.raw();
    }

    /// Removes a card.
    #[inline]
    pub fn remove(&mut self, card: Card)
        ensures
            final(self)@ == old(self)@ & !card@,
    {
        self.0 = self.0 & !card.raw();
    }

    /// Whether the card's bit is set.
    #[inline]
    pub fn contains(&self, card: Card) -> (r: bool)
        ensures
            r == (self@ & card@ != 0),
    {
        self.0 & card.raw() != 0
    }

    /// Whether the collection holds a card of the given suit with rank ace
    /// through six, other than `card` itself.
    #[inline]
    pub fn contains_one_to_six_except(&self, suit: u32, card: &Card) -> (r: bool)
        requires
            suit < 4,
        ensures
            r == (self@ & !card@ & low_range_mask(suit as int) != 0),
    {
        self.0 & !card.raw() & (0x3f << (suit * 16)) != 0
    }

    /// Whether the collection holds a card of the given suit with rank
    /// eight through king, other than `card` itself.
    #[inline]
    pub fn contains_eight_to_king_except(&self, suit: u32, card: &Card) -> (r: bool)
        requires
            suit < 4,
        ensures
            r == (self@ & !card@ & high_range_mask(suit as int) != 0),
    {
        self.0 & !card.raw() & (0x1f80 << (suit * 16)) != 0
    }

    /// The raw encoding of the lowest card in the collection, or 0 when it
    /// is empty.
    #[inline]
    pub fn first(&self) -> (r: u64)
        ensures
            r == lsb(self@),
    {
        if self.0 == 0 {
            0
        } else {
            self.0 ^ (self.0 & (self.0 - 1))
        }
    }

    /// An iterator over the cards in ascending encoding order: suit-major,
    /// rank-minor.
    pub fn card_iterator(&self) -> (it: CardCollectionIterator)
        ensures
            it@ == self@,
    {
        CardCollectionIterator(self.0)
    }

    /// Whether the collection holds no card at all.
    #[inline]
    pub fn is_empty(&self) -> (r: bool)
        ensures
            r == (self@ == 0),
    {
        self.0 == 0
    }

    /// The number of cards held: the population count of the word.
    #[inline]
    pub fn len(&self) -> (n: usize)
        ensures
            n == popcnt(self@),
    {
        let mut x = self.0;
        let mut n: usize = 0;
        proof {
            lemma_popcnt_le_64(self.0);
        }
        while x != 0
            invariant
                n + popcnt(x) == popcnt(self@),
                popcnt(self@) <= 64,
            decreases x,
        {
            proof {
                lemma_lsb(x);
                lemma_popcnt_remove(x, lsb(x));
                lemma_popcnt_one(lsb(x));
                assert(x & ((x - 1) as u64) == x & !lsb(x));
            }
            x = x & (x - 1);
            n = n + 1;
        }
        n
    }

    /// The raw word of the collection.
    #[inline]
    pub fn raw(&self) -> (r: u64)
        ensures
            r == self@,
    {
        self.0
    }
}

/// Yields the cards of a collection from the lowest encoding upward, by
/// repeatedly isolating and clearing the lowest set bit.
pub struct CardCollectionIterator(u64);

impl View for CardCollectionIterator {
    type V = u64;

    closed spec fn view(&self) -> u64 {
        self.0
    }
}

impl CardCollectionIterator {
    /// The next card in ascending order, removed from the iterator.
    pub fn next(&mut self) -> (r: Option<Card>)
        ensures
            old(self)@ == 0 ==> final(self)@ == 0 && r is None,
            old(self)@ != 0 ==> final(self)@ == old(self)@ & !lsb(old(self)@) && (r matches Some(c)
                && c@ == lsb(old(self)@)),
            final(self)@ < old(self)@ || old(self)@ == 0,
    {
        if self.0 == 0 {
            None
        } else {
            proof {
                lemma_lsb(self.0);
            }
            // Isolate the least significant set bit
            let next = self.0 ^ (self.0 & (self.0 - 1));

            // Remove it from the iterator
            self.0 = self.0 & !next;

            // Return the card
            Some(Card::new_from_raw(next))
        }
    }
}

/// Law: what the iterator yields is the least card of what remained, so
/// the cards come out in strictly ascending encoding order: suit-major,
/// rank-minor.
pub proof fn lemma_iterator_ascending(remaining: u64, card: u64)
    by (bit_vector)
    requires
        remaining != 0,
        crate::bits::one_bit(card),
        remaining & card == card,
        card != lsb(remaining),
    ensures
        card > lsb(remaining),
{
}

/// Law: a collection that a card was added to and then removed from does
/// not contain that card, whatever else it holds.
pub proof fn lemma_add_then_remove(col: u64, card: u64)
    by (bit_vector)
    ensures
        ((col | card) & !card) & card == 0,
{
}

/// Law: adding a card grows the count by one exactly when the card was
/// absent; adding a card already present changes nothing.
pub proof fn lemma_add_len(col: u64, card: u64)
    requires
        crate::bits::one_bit(card),
    ensures
        col & card == 0 ==> popcnt(col | card) == popcnt(col) + 1,
        col & card != 0 ==> (col | card) == col,
{
    if col & card == 0 {
        crate::bits::lemma_popcnt_or(col, card);
        lemma_popcnt_one(card);
    } else {
        assert((col & card != 0 && crate::bits::one_bit(card)) ==> (col | card) == col)
            by (bit_vector);
    }
}

/// Law: removing a card shrinks the count by one exactly when the card was
/// present; removing an absent card changes nothing.
pub proof fn lemma_remove_len(col: u64, card: u64)
    requires
        crate::bits::one_bit(card),
    ensures
        col & card != 0 ==> popcnt(col & !card) + 1 == popcnt(col),
        col & card == 0 ==> (col & !card) == col,
{
    if col & card != 0 {
        assert((col & card != 0 && crate::bits::one_bit(card)) ==> col & card == card)
            by (bit_vector);
        lemma_popcnt_remove(col, card);
        lemma_popcnt_one(card);
    } else {
        assert(col & card == 0 ==> (col & !card) == col) by (bit_vector);
    }
}

} // verus!
