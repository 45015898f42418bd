//! The ordered 52-card deck: construction, shuffling, and the lossless
//! text-hash codec.

use vstd::prelude::*;

verus! {

use std::collections::VecDeque;

use rand::Rng;
use vstd::string::StringSliceAdditionalSpecFns;

use crate::bits::{card_bit, lemma_and_or_distrib, lemma_or_empty, lemma_shift_bits, lemma_zero_identities, one_bit, only_cards};
use crate::cards::card::{
    hash_sym, lemma_card_bit_elems, lemma_valid_card_form, rank_of, suit_of, sym_card, sym_pos,
    Card,
};

/// The hash bytes that encode a card sequence, one symbol per card.
pub open spec fn encode_bytes(cards: Seq<u64>) -> Seq<u8> {
    Seq::new(cards.len(), |i: int| hash_sym(suit_of(cards[i]), rank_of(cards[i])))
}

/// A valid deck hash: 52 bytes, each a hash symbol, none repeated. Since
/// the alphabet has exactly 52 symbols, such a string names every card
/// exactly once.
pub open spec fn valid_hash_bytes(bs: Seq<u8>) -> bool {
    &&& bs.len() == 52
    &&& forall|i: int| 0 <= i < 52 ==> sym_pos(#[trigger] bs[i]) >= 0
    &&& forall|i: int, j: int| 0 <= i < j < 52 ==> bs[i] != bs[j]
}

/// Two hash symbols stand for single well-formed card bits, and for the
/// same bit exactly when they are the same symbol.
pub proof fn lemma_sym_card_distinct(b1: u8, b2: u8)
    requires
        sym_pos(b1) >= 0,
        sym_pos(b2) >= 0,
    ensures
        one_bit(sym_card(b1)),
        only_cards(sym_card(b1)),
        suit_of(sym_card(b1)) == sym_pos(b1) / 13,
        rank_of(sym_card(b1)) == sym_pos(b1) % 13,
        (sym_card(b1) & sym_card(b2) != 0) <==> b1 == b2,
{
    let s1 = sym_pos(b1) / 13;
    let r1 = sym_pos(b1) % 13;
    let s2 = sym_pos(b2) / 13;
    let r2 = sym_pos(b2) % 13;
    lemma_card_bit_elems(s1 as u64, r1 as u64);
    lemma_card_bit_elems(s2 as u64, r2 as u64);
    lemma_shift_bits();
    assert(card_bit(s1, r1) == 1u64 << ((s1 * 16 + r1) as u64));
    assert(card_bit(s2, r2) == 1u64 << ((s2 * 16 + r2) as u64));
    assert((s1 * 16 + r1 == s2 * 16 + r2) <==> (s1 == s2 && r1 == r2));
}

/// The card bits seen among the first `n` hash bytes.
pub open spec fn seen_mask(bs: Seq<u8>, n: int) -> u64
    decreases n,
{
    if n <= 0 {
        0
    } else {
        seen_mask(bs, n - 1) | sym_card(bs[n - 1])
    }
}

/// A symbol's card bit is in the seen mask exactly when the symbol already
/// occurred.
pub proof fn lemma_seen_mask_has(bs: Seq<u8>, n: int, b: u8)
    requires
        0 <= n <= bs.len(),
        forall|j: int| 0 <= j < n ==> sym_pos(#[trigger] bs[j]) >= 0,
        sym_pos(b) >= 0,
    ensures
        (seen_mask(bs, n) & sym_card(b) != 0) <==> exists|j: int| 0 <= j < n && bs[j] == b,
    decreases n,
{
    if n <= 0 {
        lemma_zero_identities(sym_card(b));
    } else {
        lemma_seen_mask_has(bs, n - 1, b);
        lemma_sym_card_distinct(bs[n - 1], b);
        let a = seen_mask(bs, n - 1);
        let m1 = sym_card(bs[n - 1]);
        let m = sym_card(b);
        lemma_and_or_distrib(a, m1, m);
        lemma_or_empty(a & m, m1 & m);
        assert((a | m1) & m == (a & m) | (m1 & m));
        assert((a & m) | (m1 & m) == 0 <==> (a & m == 0 && m1 & m == 0));
        assert((seen_mask(bs, n) & m != 0) <==> (a & m != 0) || (m1 & m != 0));
        if seen_mask(bs, n) & m != 0 {
            if m1 & m != 0 {
                assert(0 <= n - 1 < n && bs[n - 1] == b);
            } else {
                let j = choose|j: int| 0 <= j < n - 1 && bs[j] == b;
                assert(0 <= j < n && bs[j] == b);
            }
        }
        if exists|j: int| 0 <= j < n && bs[j] == b {
            let j = choose|j: int| 0 <= j < n && bs[j] == b;
            if j < n - 1 {
                assert(exists|j2: int| 0 <= j2 < n - 1 && bs[j2] == b);
                assert(a & m != 0);
            } else {
                assert(bs[n - 1] == b);
                assert(m1 & m != 0);
            }
            assert(seen_mask(bs, n) & m != 0);
        }
    }
}

/// Relies on std's `String::from_utf8`: bytes below 128 are ASCII, hence
/// valid UTF-8, and decode to the characters with the same code points.
#[verifier::external_body]
fn ascii_to_string(bytes: Vec<u8>) -> (r: String)
    requires
        forall|i: int| 0 <= i < bytes@.len() ==> bytes@[i] < 128,
    ensures
        r@.len() == bytes@.len(),
        forall|i: int| 0 <= i < bytes@.len() ==> r@[i] == #[trigger] (bytes@[i] as char),
{
    String::from_utf8(bytes).unwrap_or_default()
}

#[verifier::external_type_specification]
#[verifier::external_body]
pub struct ExThreadRng(rand::rngs::ThreadRng);

/// Relies on `rand::thread_rng`: a handle to the thread-local generator.
#[verifier::external_body]
fn new_rng() -> rand::rngs::ThreadRng {
    rand::thread_rng()
}

/// Relies on `rand::Rng::gen_range`: a sample from the given range, here
/// `0..bound`, so the result is below the bound; the call panics on an
/// empty range, so the bound must be positive. Nothing more is promised of
/// a random value.
#[verifier::external_body]
fn rng_below(rng: &mut rand::rngs::ThreadRng, bound: usize) -> (r: usize)
    requires
        bound > 0,
    ensures
        r < bound,
{
    rng.gen_range(0..bound)
}

/// An ordered sequence of cards, dealt from the front.
#[derive(Debug)]
pub struct Deck(VecDeque<Card>);

impl View for Deck {
    type V = Seq<Card>;

    closed spec fn view(&self) -> Seq<Card> {
        self.0@
    }
}

impl Deck {
    /// Every card of a well-formed deck is a well-formed card.
    pub open spec fn wf(self) -> bool {
        forall|i: int| 0 <= i < self@.len() ==> (#[trigger] self@[i]).wf()
    }

    /// The full sorted deck: 52 cards, suit-major and rank-minor.
    pub fn new() -> (d: Self)
        ensures
            d@.len() == 52,
            forall|i: int| 0 <= i < 52 ==> (#[trigger] d@[i])@ == card_bit(i / 13, i % 13),
            d.wf(),
    {
        let mut cards: VecDeque<Card> = VecDeque::new();
        let mut n: usize = 0;
        while n < 52
            invariant
                n <= 52,
                cards@.len() == n,
                forall|i: int|
                    0 <= i < n ==> (#[trigger] cards@[i])@ == card_bit(i / 13, i % 13)
                        && cards@[i].wf(),
            decreases 52 - n,
        {
            cards.push_back(Card::new_from_elems(n / 13, n % 13));
            n = n + 1;
        }
        Deck(cards)
    }

    /// Decodes a deck hash. Every returned deck re-encodes to the same
    /// hash; a string of the wrong length, with a symbol outside the
    /// alphabet, or with a repeated symbol is rejected whole.
    pub fn new_from_hash(hash: &str) -> (r: Option<Deck>)
        ensures
            valid_hash_bytes(hash.spec_bytes()) <==> (r is Some),
            r matches Some(d) ==> d@.len() == 52 && d.wf() && forall|i: int|
                0 <= i < 52 ==> (#[trigger] d@[i])@ == sym_card(hash.spec_bytes()[i]),
    {
        let bytes = hash.as_bytes();
        if bytes.len() != 52 {
            return None;
        }
        let mut cards: VecDeque<Card> = VecDeque::new();
        let mut seen: u64 = 0;
        let mut i: usize = 0;
        while i < 52
            invariant
                i <= 52,
                bytes@ == hash.spec_bytes(),
                bytes@.len() == 52,
                cards@.len() == i,
                forall|j: int| 0 <= j < i ==> sym_pos(#[trigger] bytes@[j]) >= 0,
                forall|j1: int, j2: int| 0 <= j1 < j2 < i ==> bytes@[j1] != bytes@[j2],
                forall|j: int|
                    0 <= j < i ==> (#[trigger] cards@[j])@ == sym_card(bytes@[j])
                        && cards@[j].wf(),
                seen == seen_mask(bytes@, i as int),
            decreases 52 - i,
        {
            let b = bytes[i];
            match Card::new_from_hash(b) {
                None => {
                    // A byte outside the alphabet: no valid hash holds it.
                    return None;
                },
                Some(c) => {
                    proof {
                        lemma_seen_mask_has(bytes@, i as int, b);
                    }
                    if seen & c.raw() != 0 {
                        // A repeated symbol: no valid hash holds one.
                        return None;
                    }
                    proof {
                        assert forall|j1: int, j2: int|
                            0 <= j1 < j2 < i + 1 implies bytes@[j1] != bytes@[j2] by {
                            if j2 == i && bytes@[j1] == bytes@[j2] {
                                assert(exists|j: int| 0 <= j < i && bytes@[j] == b);
                            }
                        }
                    }
                    seen = seen | c.raw();
                    cards.push_back(c);
                },
            }
            i = i + 1;
        }
        Some(Deck(cards))
    }

    /// Rearranges the deck into a uniformly random order by repeatedly
    /// drawing a random remaining card. The cards themselves are exactly
    /// preserved: the multiset before and after is the same.
    pub fn shuffle(&mut self)
        ensures
            final(self)@.to_multiset() == old(self)@.to_multiset(),
            final(self)@.len() == old(self)@.len(),
            old(self).wf() ==> final(self).wf(),
    {
        broadcast use vstd::seq_lib::group_to_multiset_ensures;
        broadcast use vstd::multiset::group_multiset_axioms;

        let mut shuffled: VecDeque<Card> = VecDeque::new();

        let mut rng = new_rng();

        while self.0.len() != 0
            invariant
                shuffled@.to_multiset().add(self.0@.to_multiset()) =~= old(
                    self,
                )@.to_multiset(),
                shuffled@.len() + self.0@.len() == old(self)@.len(),
                old(self).wf() ==> forall|i: int|
                    0 <= i < shuffled@.len() ==> (#[trigger] shuffled@[i]).wf(),
                old(self).wf() ==> forall|i: int|
                    0 <= i < self.0@.len() ==> (#[trigger] self.0@[i]).wf(),
            decreases self.0.len(),
        {
            let ghost pre_taken = shuffled@;
            let ghost pre_rest = self.0@;
            let elem = rng_below(&mut rng, self.0.len());
            let card = self.0.remove(elem).unwrap();
            shuffled.push_back(card);
            proof {
                pre_taken.to_multiset_ensures();
                pre_rest.to_multiset_ensures();
                assert(pre_rest[elem as int] == card);
                assert(pre_rest.contains(card));
                assert(pre_rest.to_multiset().count(card) > 0);
                assert(shuffled@ == pre_taken.push(card));
                assert(shuffled@.to_multiset() =~= pre_taken.to_multiset().insert(card));
                assert(self.0@ == pre_rest.remove(elem as int));
                assert(self.0@.to_multiset() =~= pre_rest.to_multiset().remove(card));
                assert(shuffled@.to_multiset().add(self.0@.to_multiset())
                    =~= pre_taken.to_multiset().add(pre_rest.to_multiset()));
            }
        }
        proof {
            assert forall|c: Card| self.0@.to_multiset().count(c) == 0 by {
                if self.0@.to_multiset().count(c) > 0 {
                    assert(self.0@.contains(c));
                }
            }
            assert(shuffled@.to_multiset().add(self.0@.to_multiset()) =~= shuffled@.to_multiset());
        }
        self.0 = shuffled;
    }

    /// Deals the front card, removing it from the deck.
    pub fn pop(&mut self) -> (r: Option<Card>)
        ensures
            old(self)@.len() == 0 ==> r is None && final(self)@ == old(self)@,
            old(self)@.len() > 0 ==> r == Some(old(self)@[0]) && final(self)@ == old(
                self,
            )@.drop_first(),
    {
        let r = self.0.pop_front();
        proof {
            if old(self)@.len() > 0 {
                assert(final(self)@ =~= old(self)@.drop_first());
            }
        }
        r
    }

    /// Encodes the deck as its hash string, one symbol per card in deck
    /// order.
    pub fn hash_string(&self) -> (r: String)
        requires
            self.wf(),
        ensures
            r@.len() == self@.len(),
            forall|i: int|
                0 <= i < self@.len() ==> #[trigger] r@[i] == (hash_sym(
                    suit_of(self@[i]@),
                    rank_of(self@[i]@),
                ) as char),
    {
        let mut bytes: Vec<u8> = Vec::new();
        let mut i: usize = 0;
        while i < self.0.len()
            invariant
                i <= self.0@.len(),
                self.wf(),
                bytes@.len() == i,
                forall|j: int|
                    0 <= j < i ==> #[trigger] bytes@[j] == hash_sym(
                        suit_of(self@[j]@),
                        rank_of(self@[j]@),
                    ) && bytes@[j] < 128,
            decreases self.0.len() - i,
        {
            let card = self.0[i];
            proof {
                assert(card == self@[i as int]);
                assert(card.wf());
                lemma_valid_card_form(card@);
            }
            bytes.push(card.hash_byte());
            i = i + 1;
        }
        let r = ascii_to_string(bytes);
        proof {
            assert forall|j: int| 0 <= j < self@.len() implies #[trigger] r@[j] == (hash_sym(
                suit_of(self@[j]@),
                rank_of(self@[j]@),
            ) as char) by {
                assert(r@[j] == bytes@[j] as char);
            }
        }
        r
    }

    /// The number of cards left in the deck.
    pub fn len(&self) -> (n: usize)
        ensures
            n == self@.len(),
    {
        self.0.len()
    }

    /// The card at the given position, front of the deck first.
    pub fn card_at(&self, i: usize) -> (c: Card)
        requires
            i < self@.len(),
        ensures
            c == self@[i as int],
    {
        self.0[i]
    }
}

/// Law: the freshly built deck holds 52 pairwise distinct well-formed
/// cards, 13 of each suit, in strictly ascending suit-major rank-minor
/// order.
pub proof fn lemma_full_deck(cards: Seq<u64>)
    requires
        cards.len() == 52,
        forall|i: int| 0 <= i < 52 ==> #[trigger] cards[i] == card_bit(i / 13, i % 13),
    ensures
        forall|i: int|
            0 <= i < 52 ==> one_bit(#[trigger] cards[i]) && only_cards(cards[i]) && suit_of(
                cards[i],
            ) == i / 13 && rank_of(cards[i]) == i % 13,
        forall|i: int, j: int| 0 <= i < j < 52 ==> cards[i] < cards[j],
{
    assert forall|i: int|
        0 <= i < 52 implies one_bit(#[trigger] cards[i]) && only_cards(cards[i]) && suit_of(
        cards[i],
    ) == i / 13 && rank_of(cards[i]) == i % 13 by {
        lemma_card_bit_elems((i / 13) as u64, (i % 13) as u64);
    }
    lemma_shift_bits();
    assert forall|i: int, j: int| 0 <= i < j < 52 implies cards[i] < cards[j] by {
        assert(cards[i] == 1u64 << (((i / 13) * 16 + i % 13) as u64));
        assert(cards[j] == 1u64 << (((j / 13) * 16 + j % 13) as u64));
        assert((i / 13) * 16 + i % 13 < (j / 13) * 16 + j % 13);
    }
}

/// Law: the hash of a complete deck of 52 distinct well-formed cards is a
/// valid hash, and decoding it gives back exactly the same cards in the
/// same order.
pub proof fn lemma_hash_round_trip(cards: Seq<u64>)
    requires
        cards.len() == 52,
        forall|i: int| 0 <= i < 52 ==> one_bit(#[trigger] cards[i]) && only_cards(cards[i]),
        forall|i: int, j: int| 0 <= i < j < 52 ==> cards[i] != cards[j],
    ensures
        valid_hash_bytes(encode_bytes(cards)),
        forall|i: int| 0 <= i < 52 ==> sym_card(#[trigger] encode_bytes(cards)[i]) == cards[i],
{
    assert forall|i: int|
        0 <= i < 52 implies sym_pos(#[trigger] encode_bytes(cards)[i]) >= 0 && sym_card(
        encode_bytes(cards)[i],
    ) == cards[i] by {
        lemma_valid_card_form(cards[i]);
        let s = suit_of(cards[i]);
        let r = rank_of(cards[i]);
        assert(sym_pos(hash_sym(s, r)) == s * 13 + r);
        assert(sym_card(hash_sym(s, r)) == card_bit(s, r));
    }
    assert forall|i: int, j: int|
        0 <= i < j < 52 implies encode_bytes(cards)[i] != encode_bytes(cards)[j] by {
        if encode_bytes(cards)[i] == encode_bytes(cards)[j] {
            assert(sym_card(encode_bytes(cards)[i]) == sym_card(encode_bytes(cards)[j]));
        }
    }
}

} // verus!
