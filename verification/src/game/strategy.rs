//! The three branch-reduction policies: which subset of the legal cards a
//! turn actually branches on.

use vstd::prelude::*;

verus! {

use crate::bits::{lsb, popcnt};
use crate::cards::CardCollection;
use crate::game::results::{t_stat, Results};

/// A stateless move-selection policy.
#[derive(Clone, Copy, Debug, PartialEq, Eq, Structural)]
pub enum Strategy {
    /// A single no consequence card is the preferred play, then in-sequence cards
    NoConsequence,
    /// A single no consequence card and in-sequence cards are the preferred play
    Preferred,
    /// All playable cards are considered equal
    Dumb,
}

/// The set of cards a strategy branches on, given the classified subsets:
/// a no-consequence card collapses the choice to the first such card
/// (`NoConsequence`) or to that card plus the in-sequence cards
/// (`Preferred`); otherwise the in-sequence cards, then everything
/// playable. `Dumb` never filters.
pub open spec fn chosen_set(strat: Strategy, nc: u64, sq: u64, playable: u64) -> u64 {
    match strat {
        Strategy::NoConsequence => if nc != 0 {
            lsb(nc)
        } else if sq != 0 {
            sq
        } else {
            playable
        },
        Strategy::Preferred => if nc != 0 {
            lsb(nc) | sq
        } else if sq != 0 {
            sq
        } else {
            playable
        },
        Strategy::Dumb => playable,
    }
}

/// The set whose size is recorded in the play statistics: the whole
/// classified subset the choice was made from, before any collapsing.
pub open spec fn stat_set(strat: Strategy, nc: u64, sq: u64, playable: u64) -> u64 {
    match strat {
        Strategy::NoConsequence => if nc != 0 {
            nc
        } else if sq != 0 {
            sq
        } else {
            playable
        },
        Strategy::Preferred => if nc != 0 {
            nc | sq
        } else if sq != 0 {
            sq
        } else {
            playable
        },
        Strategy::Dumb => playable,
    }
}

/// The preference bucket a turn's statistics land in: 0 for the most
/// preferred subset, 2 for an unfiltered choice. `Dumb` has one bucket.
pub open spec fn pref_rank_of(strat: Strategy, nc: u64, sq: u64) -> int {
    match strat {
        Strategy::Dumb => 0,
        _ => if nc != 0 {
            0
        } else if sq != 0 {
            1
        } else {
            2
        },
    }
}

impl Strategy {
    /// Selects the branch set for one turn from the classified subsets and
    /// records into `results` which subset supplied it and whether the
    /// choice was forced or open.
    #[inline]
    pub fn choose_cards(
        &self,
        no_consequence_cards: CardCollection,
        sequence_cards: CardCollection,
        playable_cards: CardCollection,
        player: usize,
        results: &mut Results,
    ) -> (r: CardCollection)
        requires
            player < old(results)@.players.len(),
        ensures
            r@ == chosen_set(*self, no_consequence_cards@, sequence_cards@, playable_cards@),
            final(results)@ == t_stat(
                old(results)@,
                player as int,
                popcnt(
                    stat_set(*self, no_consequence_cards@, sequence_cards@, playable_cards@),
                ),
                pref_rank_of(*self, no_consequence_cards@, sequence_cards@),
            ),
    {
        let mut stat_card_set: Option<CardCollection> = None;

        let mut pref_rank: u8 = 0;

        let use_card_set = match self {
            Strategy::NoConsequence => {
                if !no_consequence_cards.is_empty() {
                    // Just choose the first no consequence card
                    let use_card_set = CardCollection::new_from_raw(no_consequence_cards.first());

                    stat_card_set = Some(no_consequence_cards);

                    use_card_set
                } else if !sequence_cards.is_empty() {
                    // Sequence cards
                    pref_rank = 1;

                    sequence_cards
                } else {
                    // Any playable
                    pref_rank = 2;

                    playable_cards
                }
            },
            Strategy::Preferred => {
                if !no_consequence_cards.is_empty() {
                    // Just choose the first no consequence card and add on
                    // the sequence cards
                    let use_card_set = CardCollection::new_from_raw(
                        no_consequence_cards.first() | sequence_cards.raw(),
                    );

                    stat_card_set = Some(
                        CardCollection::new_from_raw(
                            no_consequence_cards.raw() | sequence_cards.raw(),
                        ),
                    );

                    use_card_set
                } else if !sequence_cards.is_empty() {
                    // Sequence cards
                    pref_rank = 1;

                    sequence_cards
                } else {
                    // Any playable
                    pref_rank = 2;

                    playable_cards
                }
            },
            Strategy::Dumb => playable_cards,  // Any playable
        };

        // Update play stats
        let stat_cards = match stat_card_set {
            Some(c) => c,
            None => use_card_set,
        };
        results.update_stats_for(player, &stat_cards, pref_rank);

        use_card_set
    }

    /// The highest preference bucket this strategy can record.
    pub fn max_pref_rank(&self) -> (r: u8)
        ensures
            r == spec_max_pref_rank(*self),
    {
        match self {
            Strategy::NoConsequence => 2,
            Strategy::Preferred => 2,
            Strategy::Dumb => 0,
        }
    }

    /// A short label for a preference bucket of this strategy.
    pub fn pref_rank_desc(&self, pref_rank: u8) -> (r: &str)
        ensures
            r@ == spec_pref_rank_desc(*self, pref_rank as int),
    {
        match self {
            Strategy::NoConsequence => match pref_rank {
                0 => "No Cons",
                1 => "Sequence",
                2 => "Playable",
                _ => "Unknown",
            },
            Strategy::Preferred => match pref_rank {
                0 => "No Cons+Seq",
                1 => "Sequence",
                2 => "Playable",
                _ => "Unknown",
            },
            Strategy::Dumb => match pref_rank {
                0 => "Playable",
                _ => "Unknown",
            },
        }
    }
}

/// The highest preference bucket of each strategy.
pub open spec fn spec_max_pref_rank(strat: Strategy) -> int {
    match strat {
        Strategy::NoConsequence => 2,
        Strategy::Preferred => 2,
        Strategy::Dumb => 0,
    }
}

/// The label of each preference bucket of each strategy.
pub open spec fn spec_pref_rank_desc(strat: Strategy, pref_rank: int) -> Seq<char> {
    match strat {
        Strategy::NoConsequence => if pref_rank == 0 {
            ("No Cons")@
        } else if pref_rank == 1 {
            ("Sequence")@
        } else if pref_rank == 2 {
            ("Playable")@
        } else {
            ("Unknown")@
        },
        Strategy::Preferred => if pref_rank == 0 {
            ("No Cons+Seq")@
        } else if pref_rank == 1 {
            ("Sequence")@
        } else if pref_rank == 2 {
            ("Playable")@
        } else {
            ("Unknown")@
        },
        Strategy::Dumb => if pref_rank == 0 {
            ("Playable")@
        } else {
            ("Unknown")@
        },
    }
}

} // verus!
