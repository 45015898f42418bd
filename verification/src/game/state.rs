//! The per-game state machine: board, legal moves, hands, turn pointer.

use vstd::prelude::*;

verus! {

use crate::bits::{
    card_bit, has, high_range_mask, lemma_and_or_distrib, lemma_andnot_subset, lemma_one_bit_meet,
    lemma_or_empty, lemma_shift_bits, lemma_union_subset, lemma_zero_identities, low_range_mask,
    only_cards, popcnt, CARD_MASK,
};
use crate::cards::card::{lemma_card_bit_elems, lemma_neighbor_shift, Card};
use crate::cards::deck::Deck;
use crate::cards::CardCollection;

/// The raw encoding of the seven of hearts, the card that opens the game.
pub const SEVEN_HEARTS_BIT: u64 = 0x40;

/// The constant above is exactly the card bit of the seven of hearts.
pub proof fn lemma_seven_hearts_bit()
    ensures
        card_bit(0, 6) == SEVEN_HEARTS_BIT,
{
    assert(1u64 << 6u64 == 0x40) by (bit_vector);
}

/// The spec-level picture of a game in progress.
#[verifier::ext_equal]
pub ghost struct GState {
    /// The cards played so far, across all players.
    pub board: u64,
    /// The cards legal to play now; may hold harmless guard bits.
    pub valid: u64,
    /// Whose turn it is.
    pub cur: int,
    /// Each player's hand; hands hold real card bits only.
    pub hands: Seq<u64>,
}

/// A well-formed game state: a supported player count, the turn pointer in
/// range, and no guard bits in any hand.
pub open spec fn g_wf(g: GState) -> bool {
    &&& 1 <= g.hands.len() <= 52
    &&& 0 <= g.cur < g.hands.len()
    &&& forall|i: int| 0 <= i < g.hands.len() ==> only_cards(#[trigger] g.hands[i])
}

/// The state after the turn passes to the next player, round-robin.
pub open spec fn g_next(g: GState) -> GState {
    GState {
        cur: if g.cur + 1 == g.hands.len() {
            0int
        } else {
            g.cur + 1
        },
        ..g
    }
}

/// The legal-move set after the card `c` is played: its rank neighbours
/// open up (shifting an edge rank lands on a harmless guard bit), and the
/// seven of hearts also unlocks the other three suits' sevens.
pub open spec fn valid_after(valid: u64, c: u64) -> u64 {
    (if c == SEVEN_HEARTS_BIT {
        valid | card_bit(1, 6) | card_bit(2, 6) | card_bit(3, 6)
    } else {
        valid
    }) | (c >> 1u64) | (c << 1u64)
}

/// The state after the current player plays the card `c`: it leaves their
/// hand, joins the board, and extends the legal-move set.
pub open spec fn g_play(g: GState, c: u64) -> GState {
    GState {
        board: g.board | c,
        valid: valid_after(g.valid, c),
        cur: g.cur,
        hands: g.hands.update(g.cur, g.hands[g.cur] & !c),
    }
}

/// The raw card encodings of a card sequence.
pub open spec fn deck_bits(cards: Seq<Card>) -> Seq<u64> {
    Seq::new(cards.len(), |i: int| cards[i]@)
}

/// The hand dealt to player `p` out of `pc` players: the union of the
/// cards at deal positions congruent to `p` modulo the player count.
pub open spec fn deal_hand(cards: Seq<u64>, pc: int, p: int) -> u64
    decreases cards.len(),
{
    if cards.len() == 0 {
        0
    } else {
        deal_hand(cards.drop_last(), pc, p) | (if (cards.len() - 1) % pc == p {
            cards.last()
        } else {
            0
        })
    }
}

/// The player dealt the seven of hearts (its last copy, were there several),
/// or -1 when the deck holds none.
pub open spec fn seven_holder(cards: Seq<u64>, pc: int) -> int
    decreases cards.len(),
{
    if cards.len() == 0 {
        -1
    } else if cards.last() == card_bit(0, 6) {
        (cards.len() - 1) % pc
    } else {
        seven_holder(cards.drop_last(), pc)
    }
}

/// The seven of hearts has a holder exactly when the deck contains it, and
/// the holder index is always below the player count.
pub proof fn lemma_seven_holder(cards: Seq<u64>, pc: int)
    requires
        pc >= 1,
    ensures
        (seven_holder(cards, pc) >= 0) <==> exists|j: int|
            0 <= j < cards.len() && cards[j] == card_bit(0, 6),
        seven_holder(cards, pc) < pc,
    decreases cards.len(),
{
    if cards.len() > 0 {
        lemma_seven_holder(cards.drop_last(), pc);
        let last: int = cards.len() - 1;
        if cards.last() == card_bit(0, 6) {
            assert(0 <= last < cards.len() && cards[last] == card_bit(0, 6));
        } else {
            if seven_holder(cards.drop_last(), pc) >= 0 {
                let j = choose|j: int|
                    0 <= j < cards.drop_last().len() && cards.drop_last()[j] == card_bit(0, 6);
                assert(cards[j] == card_bit(0, 6));
            }
            if exists|j: int| 0 <= j < cards.len() && cards[j] == card_bit(0, 6) {
                let j = choose|j: int| 0 <= j < cards.len() && cards[j] == card_bit(0, 6);
                assert(j < last);
                assert(cards.drop_last()[j] == card_bit(0, 6));
            }
        }
    }
}

/// The no-consequence test for the card (s, r) of `hand` against the legal
/// set `valid`: the card is legal, and it is an edge rank, holds its rank
/// neighbour on the side away from seven, or is a seven with both
/// neighbours in hand — playing it cannot reduce future flexibility.
pub open spec fn nc_at(hand: u64, valid: u64, s: int, r: int) -> bool {
    &&& has(hand & valid, s, r)
    &&& if r < 6 {
        r == 0 || has(hand, s, r - 1)
    } else if r > 6 {
        r == 12 || has(hand, s, r + 1)
    } else {
        has(hand, s, 5) && has(hand, s, 7)
    }
}

/// The in-sequence test for the card (s, r): legal, not no-consequence,
/// but the hand holds another card in the same broken chain segment of the
/// suit.
pub open spec fn seq_at(hand: u64, valid: u64, s: int, r: int) -> bool {
    &&& has(hand & valid, s, r)
    &&& if r < 6 {
        &&& !(r == 0 || has(hand, s, r - 1))
        &&& hand & !card_bit(s, r) & low_range_mask(s) != 0
    } else if r > 6 {
        &&& !(r == 12 || has(hand, s, r + 1))
        &&& hand & !card_bit(s, r) & high_range_mask(s) != 0
    } else {
        &&& !(has(hand, s, 5) && has(hand, s, 7))
        &&& (hand & !card_bit(s, r) & low_range_mask(s) != 0 || hand & !card_bit(s, r)
            & high_range_mask(s) != 0)
    }
}

/// The no-consequence cards among the first `n` card positions, as a mask.
pub open spec fn nc_mask_upto(hand: u64, valid: u64, n: int) -> u64
    decreases n,
{
    if n <= 0 {
        0
    } else {
        nc_mask_upto(hand, valid, n - 1) | (if nc_at(hand, valid, (n - 1) / 13, (n - 1) % 13) {
            card_bit((n - 1) / 13, (n - 1) % 13)
        } else {
            0
        })
    }
}

/// The in-sequence cards among the first `n` card positions, as a mask.
pub open spec fn seq_mask_upto(hand: u64, valid: u64, n: int) -> u64
    decreases n,
{
    if n <= 0 {
        0
    } else {
        seq_mask_upto(hand, valid, n - 1) | (if seq_at(hand, valid, (n - 1) / 13, (n - 1) % 13) {
            card_bit((n - 1) / 13, (n - 1) % 13)
        } else {
            0
        })
    }
}

/// All no-consequence cards of the hand, as a mask.
pub open spec fn nc_mask(hand: u64, valid: u64) -> u64 {
    nc_mask_upto(hand, valid, 52)
}

/// All in-sequence cards of the hand, as a mask.
pub open spec fn seq_mask(hand: u64, valid: u64) -> u64 {
    seq_mask_upto(hand, valid, 52)
}

/// Both classified masks pick only legal cards of the hand.
#[verifier::rlimit(50)]
pub proof fn lemma_masks_within(hand: u64, valid: u64, n: int)
    requires
        0 <= n <= 52,
    ensures
        nc_mask_upto(hand, valid, n) & (hand & valid) == nc_mask_upto(hand, valid, n),
        seq_mask_upto(hand, valid, n) & (hand & valid) == seq_mask_upto(hand, valid, n),
    decreases n,
{
    if n <= 0 {
        lemma_zero_identities(hand & valid);
    } else {
        lemma_masks_within(hand, valid, n - 1);
        let s = (n - 1) / 13;
        let r = (n - 1) % 13;
        lemma_card_bit_elems(s as u64, r as u64);
        let cb = card_bit(s, r);
        let prev_nc = nc_mask_upto(hand, valid, n - 1);
        let prev_sq = seq_mask_upto(hand, valid, n - 1);
        let pv = hand & valid;
        lemma_one_bit_meet(pv, cb);
        if nc_at(hand, valid, s, r) {
            assert(pv & cb == cb);
            lemma_union_subset(prev_nc, cb, pv);
        } else {
            assert(nc_mask_upto(hand, valid, n) == prev_nc | 0);
            lemma_zero_identities(prev_nc);
        }
        if seq_at(hand, valid, s, r) {
            assert(pv & cb == cb);
            lemma_union_subset(prev_sq, cb, pv);
        } else {
            assert(seq_mask_upto(hand, valid, n) == prev_sq | 0);
            lemma_zero_identities(prev_sq);
        }
    }
}

/// Each classified mask holds exactly the card positions its test accepts
/// among the first `n` positions.
pub proof fn lemma_mask_membership(hand: u64, valid: u64, n: int, s: int, r: int)
    requires
        0 <= n <= 52,
        0 <= s < 4,
        0 <= r < 13,
    ensures
        has(nc_mask_upto(hand, valid, n), s, r) <==> (s * 13 + r < n && nc_at(hand, valid, s, r)),
        has(seq_mask_upto(hand, valid, n), s, r) <==> (s * 13 + r < n && seq_at(
            hand,
            valid,
            s,
            r,
        )),
    decreases n,
{
    lemma_zero_identities(card_bit(s, r));
    if n > 0 {
        lemma_mask_membership(hand, valid, n - 1, s, r);
        let s2 = (n - 1) / 13;
        let r2 = (n - 1) % 13;
        lemma_card_bit_elems(s2 as u64, r2 as u64);
        lemma_card_bit_elems(s as u64, r as u64);
        lemma_shift_bits();
        assert((card_bit(s2, r2) & card_bit(s, r) != 0) <==> (s2 == s && r2 == r));
        let nc_step = if nc_at(hand, valid, s2, r2) {
            card_bit(s2, r2)
        } else {
            0
        };
        let sq_step = if seq_at(hand, valid, s2, r2) {
            card_bit(s2, r2)
        } else {
            0
        };
        lemma_and_or_distrib(nc_mask_upto(hand, valid, n - 1), nc_step, card_bit(s, r));
        lemma_and_or_distrib(seq_mask_upto(hand, valid, n - 1), sq_step, card_bit(s, r));
        lemma_or_empty(nc_mask_upto(hand, valid, n - 1) & card_bit(s, r), nc_step & card_bit(s, r));
        lemma_or_empty(
            seq_mask_upto(hand, valid, n - 1) & card_bit(s, r),
            sq_step & card_bit(s, r),
        );
        lemma_zero_identities(card_bit(s, r));
    }
}

/// Law: no legal card is classified both ways: the no-consequence and
/// in-sequence subsets are disjoint parts of the playable set.
pub proof fn lemma_classification_partition(hand: u64, valid: u64, s: int, r: int)
    requires
        0 <= s < 4,
        0 <= r < 13,
    ensures
        !(nc_at(hand, valid, s, r) && seq_at(hand, valid, s, r)),
        nc_at(hand, valid, s, r) ==> has(hand & valid, s, r),
        seq_at(hand, valid, s, r) ==> has(hand & valid, s, r),
        !(has(nc_mask(hand, valid), s, r) && has(seq_mask(hand, valid), s, r)),
{
    lemma_mask_membership(hand, valid, 52, s, r);
}

/// A game in progress: the board, the legal-move set, each player's hand,
/// the turn pointer, and a diagnostic count of missed turns.
#[derive(Debug)]
pub struct State {
    board: CardCollection,
    valid_moves: CardCollection,
    cur_player: usize,
    player_cards: Vec<CardCollection>,
    misses: usize,
}

impl View for State {
    type V = GState;

    closed spec fn view(&self) -> GState {
        GState {
            board: self.board@,
            valid: self.valid_moves@,
            cur: self.cur_player as int,
            hands: Seq::new(self.player_cards@.len(), |i: int| self.player_cards@[i]@),
        }
    }
}

impl State {
    /// A well-formed state.
    pub open spec fn wf(self) -> bool {
        g_wf(self@)
    }

    /// The diagnostic count of missed turns.
    pub closed spec fn spec_misses(self) -> int {
        self.misses as int
    }

    /// Deals the whole deck round-robin from player 0 and hands the turn
    /// to whoever was dealt the seven of hearts. A deck without that card
    /// has no defined first player, so it is excluded up front.
    pub fn new(player_count: u8, deck: Deck) -> (r: Self)
        requires
            2 <= player_count <= 52,
            deck.wf(),
            exists|j: int| 0 <= j < deck@.len() && (#[trigger] deck@[j])@ == card_bit(0, 6),
        ensures
            r.wf(),
            r@.board == 0,
            r@.valid == card_bit(0, 6),
            r@.hands.len() == player_count,
            forall|p: int|
                0 <= p < player_count ==> #[trigger] r@.hands[p] == deal_hand(
                    deck_bits(deck@),
                    player_count as int,
                    p,
                ),
            r@.cur == seven_holder(deck_bits(deck@), player_count as int),
            r.spec_misses() == 0,
    {
        let ghost deck0 = deck@;
        let mut deck = deck;
        let ghost all = deck_bits(deck0);
        let pc = player_count as usize;

        let mut player_cards: Vec<CardCollection> = Vec::new();
        let mut i: usize = 0;
        while i < pc
            invariant
                i <= pc,
                player_cards@.len() == i,
                forall|p: int| 0 <= p < i ==> (#[trigger] player_cards@[p])@ == 0,
            decreases pc - i,
        {
            player_cards.push(CardCollection::new());
            i = i + 1;
        }

        proof {
            lemma_seven_hearts_bit();
        }
        let mut state = State {
            board: CardCollection::new(),
            valid_moves: CardCollection::new_single(Card::new_from_elems(0, 6)),
            player_cards,
            cur_player: 0,
            misses: 0,
        };

        // Deal the cards
        let mut first_player: Option<usize> = None;
        let ghost mut dealt: int = 0;

        proof {
            assert(all.take(0) =~= Seq::<u64>::empty());
            lemma_zero_identities(CARD_MASK);
        }
        while deck.len() > 0
            invariant
                2 <= pc <= 52,
                0 <= dealt <= all.len(),
                deck@.len() == all.len() - dealt,
                forall|j: int| 0 <= j < deck@.len() ==> (#[trigger] deck@[j])@ == all[dealt + j],
                forall|j: int| 0 <= j < deck@.len() ==> (#[trigger] deck@[j]).wf(),
                state.player_cards@.len() == pc,
                state.cur_player == dealt % pc as int,
                forall|p: int|
                    0 <= p < pc ==> (#[trigger] state.player_cards@[p])@ == deal_hand(
                        all.take(dealt),
                        pc as int,
                        p,
                    ),
                forall|p: int|
                    0 <= p < pc ==> only_cards((#[trigger] state.player_cards@[p])@),
                match first_player {
                    Some(p) => p == seven_holder(all.take(dealt), pc as int),
                    None => seven_holder(all.take(dealt), pc as int) == -1,
                },
                state.board@ == 0,
                state.valid_moves@ == card_bit(0, 6),
                state.misses == 0,
            decreases deck@.len(),
        {
            let ghost pre_deck = deck@;
            let card = deck.pop().unwrap();
            proof {
                assert(card@ == all[dealt]);
                assert(all.take(dealt + 1).drop_last() =~= all.take(dealt));
                assert(all.take(dealt + 1).last() == all[dealt]);
                lemma_seven_hearts_bit();
            }
            if card.raw() == SEVEN_HEARTS_BIT {
                first_player = Some(state.cur_player);
            }

            let cur = state.cur_player;
            let mut hand = state.player_cards[cur];
            let ghost pre_hand = hand@;
            hand.add(card);
            state.player_cards[cur] = hand;

            state.next_player_dealing();
            proof {
                vstd::arithmetic::div_mod::lemma_add_mod_noop(dealt, 1, pc as int);
                vstd::arithmetic::div_mod::lemma_small_mod(1, pc as nat);
                dealt = dealt + 1;
                assert forall|p: int| 0 <= p < pc implies (#[trigger] state.player_cards@[p])@
                    == deal_hand(all.take(dealt), pc as int, p) by {
                    let step = deal_hand(all.take(dealt - 1), pc as int, p);
                    assert(deal_hand(all.take(dealt), pc as int, p) == step | (if (dealt - 1) % pc
                        as int == p {
                        all[dealt - 1]
                    } else {
                        0
                    }));
                    if (dealt - 1) % pc as int != p {
                        lemma_zero_identities(step);
                    }
                }
                assert forall|p: int| 0 <= p < pc implies only_cards(
                    (#[trigger] state.player_cards@[p])@,
                ) by {
                    if p == (dealt - 1) % pc as int {
                        lemma_one_bit_meet(CARD_MASK, card@);
                        lemma_union_subset(pre_hand, card@, CARD_MASK);
                    }
                }
                assert forall|j: int| 0 <= j < deck@.len() implies (#[trigger] deck@[j])@ == all[dealt
                    + j] by {
                    assert(deck@[j] == pre_deck[j + 1]);
                }
            }
        }
        proof {
            assert(all.take(dealt) =~= all);
            lemma_seven_holder(all, pc as int);
        }

        // Hand the turn to the holder of the seven of hearts
        let first = match first_player {
            Some(p) => p,
            None => {
                proof {
                    assert(exists|j: int|
                        0 <= j < all.len() && all[j] == card_bit(0, 6)) by {
                        let j = choose|j: int|
                            0 <= j < deck0.len() && (#[trigger] deck0[j])@ == card_bit(0, 6);
                        assert(all[j] == card_bit(0, 6));
                    }
                    assert(false);
                }
                0
            },
        };
        state.cur_player = first;
        state
    }

    /// The board: every card played so far.
    #[inline]
    pub fn board(&self) -> (r: &CardCollection)
        ensures
            r@ == self@.board,
    {
        &self.board
    }

    /// The number of players.
    #[inline]
    pub fn player_count(&self) -> (r: usize)
        ensures
            r == self@.hands.len(),
    {
        self.player_cards.len()
    }

    /// The player whose turn it is.
    #[inline]
    pub fn cur_player(&self) -> (r: usize)
        ensures
            r == self@.cur,
    {
        self.cur_player
    }

    /// Every player's hand.
    #[inline]
    pub fn all_player_cards(&self) -> (r: &Vec<CardCollection>)
        ensures
            r@.len() == self@.hands.len(),
            forall|i: int| 0 <= i < r@.len() ==> (#[trigger] r@[i])@ == self@.hands[i],
    {
        &self.player_cards
    }

    /// The current player's hand.
    #[inline]
    pub fn cur_player_cards(&self) -> (r: &CardCollection)
        requires
            self.wf(),
        ensures
            r@ == self@.hands[self@.cur],
    {
        &self.player_cards[self.cur_player]
    }

    /// Moves the turn to the next player, round-robin.
    #[inline]
    pub fn next_player(&mut self)
        requires
            old(self).wf(),
        ensures
            final(self)@ == g_next(old(self)@),
            final(self).wf(),
            final(self).spec_misses() == old(self).spec_misses(),
    {
        // Move to next player
        let mut new_player = self.cur_player + 1;

        if new_player == self.player_cards.len() {
            new_player = 0;
        }

        self.cur_player = new_player;
        proof {
            assert(self@ =~= g_next(old(self)@));
        }
    }

    /// As `next_player`, for the dealing loop, where only the range of the
    /// turn pointer is known.
    #[inline]
    fn next_player_dealing(&mut self)
        requires
            old(self).cur_player < old(self).player_cards@.len(),
        ensures
            final(self).cur_player == (old(self).cur_player + 1) % old(
                self,
            ).player_cards@.len() as int,
            final(self).board == old(self).board,
            final(self).valid_moves == old(self).valid_moves,
            final(self).player_cards == old(self).player_cards,
            final(self).misses == old(self).misses,
    {
        let len = self.player_cards.len();
        let mut new_player = self.cur_player + 1;

        if new_player == len {
            new_player = 0;
        }

        self.cur_player = new_player;
        proof {
            if old(self).cur_player + 1 == len {
                vstd::arithmetic::div_mod::lemma_mod_self_0(len as int);
            } else {
                vstd::arithmetic::div_mod::lemma_small_mod((old(self).cur_player + 1) as nat, len as nat);
            }
        }
    }

    /// Plays a card for the current player: out of the hand, onto the
    /// board, and its neighbours into the legal-move set.
    #[inline]
    #[verifier::rlimit(50)]
    pub fn play_card(&mut self, card: Card)
        requires
            old(self).wf(),
        ensures
            final(self)@ == g_play(old(self)@, card@),
            final(self).wf(),
            final(self).spec_misses() == old(self).spec_misses(),
    {
        proof {
            lemma_seven_hearts_bit();
        }
        if card.raw() == SEVEN_HEARTS_BIT {
            // Other sevens can now be played
            self.valid_moves.add(Card::new_from_elems(1, 6));
            self.valid_moves.add(Card::new_from_elems(2, 6));
            self.valid_moves.add(Card::new_from_elems(3, 6));
        }

        // This may add guard-zone bits when an ace or king is played, but
        // those bits never match a card in a real hand.
        self.valid_moves.add(card.one_lower());
        self.valid_moves.add(card.one_higher());

        // Remove the card from the player's hand
        let cur = self.cur_player;
        let mut hand = self.player_cards[cur];
        hand.remove(card);
        self.player_cards[cur] = hand;

        // Add the card to the board
        self.board.add(card);

        proof {
            assert(self@.hands =~= g_play(old(self)@, card@).hands);
            assert(self@ =~= g_play(old(self)@, card@));
            assert forall|i: int| 0 <= i < self@.hands.len() implies only_cards(
                #[trigger] self@.hands[i],
            ) by {
                assert(old(self)@.hands[i] & CARD_MASK == old(self)@.hands[i]);
                if i == old(self)@.cur {
                    lemma_andnot_subset(old(self)@.hands[i], card@, CARD_MASK);
                }
            }
        }
    }

    /// The number of cards on the board: the count of cards played.
    #[inline]
    pub fn cards_played(&self) -> (r: usize)
        ensures
            r == popcnt(self@.board),
    {
        self.board.len()
    }

    /// Splits the current player's legal cards into the full playable set,
    /// the no-consequence subset and the in-sequence subset.
    #[inline]
    pub fn playable_cards(&self) -> (r: (CardCollection, CardCollection, CardCollection))
        requires
            self.wf(),
        ensures
            r.0@ == self@.hands[self@.cur] & self@.valid,
            r.1@ == nc_mask(self@.hands[self@.cur], self@.valid),
            r.2@ == seq_mask(self@.hands[self@.cur], self@.valid),
    {
        let ghost hand = self@.hands[self@.cur];
        let ghost valid = self@.valid;

        // Get player's cards
        let cards = self.player_cards[self.cur_player];

        // Calculate playable cards
        let playable_cards = CardCollection::new_from_raw(cards.raw() & self.valid_moves.raw());
        let mut no_consequence_cards = CardCollection::new();
        let mut sequence_cards = CardCollection::new();

        let mut n: usize = 0;
        while n < 52
            invariant
                n <= 52,
                cards@ == hand,
                playable_cards@ == hand & valid,
                no_consequence_cards@ == nc_mask_upto(hand, valid, n as int),
                sequence_cards@ == seq_mask_upto(hand, valid, n as int),
            decreases 52 - n,
        {
            let ghost s = n as int / 13;
            let ghost r = n as int % 13;
            let c = Card::new_from_elems(n / 13, n % 13);
            proof {
                lemma_neighbor_shift((n / 13) as u64, (n % 13) as u64);
                lemma_card_bit_elems((n / 13) as u64, (n % 13) as u64);
                lemma_zero_identities(nc_mask_upto(hand, valid, n as int));
                lemma_zero_identities(seq_mask_upto(hand, valid, n as int));
            }
            if playable_cards.contains(c) {
                let rank_elem = c.rank_elem();
                let suit_elem = c.suit_elem();

                if rank_elem < 6 {
                    // Below seven: an ace, or holding the card one lower
                    // too, is a safe play
                    if rank_elem == 0 || cards.contains(c.one_lower()) {
                        no_consequence_cards.add(c);
                    } else if cards.contains_one_to_six_except(suit_elem, &c) {
                        sequence_cards.add(c);
                    }
                } else if rank_elem > 6 {
                    // Above seven: a king, or holding the card one higher
                    // too, is a safe play
                    if rank_elem == 12 || cards.contains(c.one_higher()) {
                        no_consequence_cards.add(c);
                    } else if cards.contains_eight_to_king_except(suit_elem, &c) {
                        sequence_cards.add(c);
                    }
                } else {
                    // A seven: safe when both neighbours are in hand
                    if cards.contains(c.one_lower()) && cards.contains(c.one_higher()) {
                        no_consequence_cards.add(c);
                    } else if cards.contains_one_to_six_except(suit_elem, &c)
                        || cards.contains_eight_to_king_except(suit_elem, &c) {
                        sequence_cards.add(c);
                    }
                }
            }
            n = n + 1;
            proof {
                assert(no_consequence_cards@ == nc_mask_upto(hand, valid, n as int));
                assert(sequence_cards@ == seq_mask_upto(hand, valid, n as int));
            }
        }

        (playable_cards, no_consequence_cards, sequence_cards)
    }

    /// Counts one more missed turn.
    #[inline]
    pub fn add_miss(&mut self)
        ensures
            final(self)@ == old(self)@,
            final(self).spec_misses() == crate::game::results::sadd(old(self).spec_misses(), 1),
    {
        self.misses = self.misses.saturating_add(1);
    }

    /// The diagnostic count of missed turns.
    #[inline]
    pub fn get_misses(&self) -> (r: usize)
        ensures
            r == self.spec_misses(),
    {
        self.misses
    }
}

impl Clone for State {
    /// An independent copy: same board, legal moves, hands and turn.
    fn clone(&self) -> (r: Self)
        ensures
            r@ == self@,
            r.spec_misses() == self.spec_misses(),
    {
        let mut hands: Vec<CardCollection> = Vec::new();
        let mut i: usize = 0;
        while i < self.player_cards.len()
            invariant
                i <= self.player_cards@.len(),
                hands@.len() == i,
                forall|j: int| 0 <= j < i ==> hands@[j] == self.player_cards@[j],
            decreases self.player_cards@.len() - i,
        {
            hands.push(self.player_cards[i]);
            i = i + 1;
        }
        let r = State {
            board: self.board,
            valid_moves: self.valid_moves,
            cur_player: self.cur_player,
            player_cards: hands,
            misses: self.misses,
        };
        proof {
            assert(r@.hands =~= self@.hands);
            assert(r@ =~= self@);
        }
        r
    }
}

} // verus!
