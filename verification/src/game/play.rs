//! The exhaustive search engine: drives a game state to completion along
//! every line of play the strategy leaves open and merges the outcomes.

use vstd::prelude::*;

verus! {

use crate::bits::{
    lemma_and_absorb, lemma_and_comm, lemma_andnot_subset, lemma_lsb, lemma_popcnt_is_one,
    lemma_popcnt_one, lemma_popcnt_remove, lemma_popcnt_subset, lemma_popcnt_zero,
    lemma_subset_trans, lemma_union_subset, lsb, popcnt,
};
use crate::game::results::{
    lemma_t_add_assoc, lemma_t_add_comm, lemma_t_add_wf, lemma_t_add_zero, lemma_t_stat_as_add,
    lemma_t_win_as_add, lemma_t_zero_wf, t_add, t_stat, t_wf, t_win, t_zero, Results, Tally,
};
use crate::game::state::{
    g_next, g_play, g_wf, lemma_masks_within, nc_mask, seq_mask, GState, State,
};
use crate::game::strategy::{chosen_set, pref_rank_of, stat_set, Strategy};

/// The number of cards still held, over all hands together.
pub open spec fn hands_total(hands: Seq<u64>) -> nat
    decreases hands.len(),
{
    if hands.len() == 0 {
        0
    } else {
        (popcnt(hands.last()) + hands_total(hands.drop_last())) as nat
    }
}

/// Replacing one hand changes the total by the difference in bit counts.
pub proof fn lemma_hands_total_update(hands: Seq<u64>, i: int, h: u64)
    requires
        0 <= i < hands.len(),
    ensures
        hands_total(hands.update(i, h)) + popcnt(hands[i]) == hands_total(hands) + popcnt(h),
    decreases hands.len(),
{
    if i == hands.len() - 1 {
        assert(hands.update(i, h).drop_last() =~= hands.drop_last());
    } else {
        assert(hands.update(i, h).drop_last() =~= hands.drop_last().update(i, h));
        lemma_hands_total_update(hands.drop_last(), i, h);
    }
}

/// The set of cards a turn chooses from lies within the current hand.
pub proof fn lemma_chosen_in_hand(hand: u64, valid: u64, strat: Strategy)
    ensures
        hand & chosen_set(strat, nc_mask(hand, valid), seq_mask(hand, valid), hand & valid)
            == chosen_set(strat, nc_mask(hand, valid), seq_mask(hand, valid), hand & valid),
{
    let pv = hand & valid;
    let nc = nc_mask(hand, valid);
    let sq = seq_mask(hand, valid);
    lemma_masks_within(hand, valid, 52);
    lemma_and_absorb(hand, valid);
    lemma_subset_trans(sq, pv, hand);
    lemma_and_comm(hand, sq);
    lemma_and_comm(hand, pv);
    if nc != 0 {
        lemma_lsb(nc);
        lemma_and_comm(nc, lsb(nc));
        lemma_subset_trans(lsb(nc), nc, pv);
        lemma_subset_trans(lsb(nc), pv, hand);
        lemma_and_comm(hand, lsb(nc));
        lemma_union_subset(lsb(nc), sq, hand);
        lemma_and_comm(hand, lsb(nc) | sq);
    }
}

/// The exact aggregate of the search from state `g` under the given
/// strategy, with `streak` players having already missed in a row. Each
/// turn classifies the legal cards and lets the strategy choose a branch
/// set: an empty set passes the turn, a single card is played and wins
/// when it empties the hand, and a larger set forks one line per card. A
/// full round of consecutive misses ends the line; no state a legal deal
/// reaches does that, but it bounds the recursion.
pub open spec fn spec_play(g: GState, strat: Strategy, streak: nat) -> Tally
    decreases hands_total(g.hands), g.hands.len() - streak, 1int, 0int,
    via spec_play_decreases
{
    let n = g.hands.len() as int;
    if !g_wf(g) || streak >= g.hands.len() {
        t_zero(n)
    } else {
        let hand = g.hands[g.cur];
        let nc = nc_mask(hand, g.valid);
        let sq = seq_mask(hand, g.valid);
        let set = chosen_set(strat, nc, sq, hand & g.valid);
        let t0 = t_stat(
            t_zero(n),
            g.cur,
            popcnt(stat_set(strat, nc, sq, hand & g.valid)),
            pref_rank_of(strat, nc, sq),
        );
        if popcnt(set) == 0 {
            t_add(t0, spec_play(g_next(g), strat, (streak + 1) as nat))
        } else if popcnt(set) == 1 {
            let g1 = g_play(g, set);
            if g1.hands[g.cur] == 0 {
                t_add(t0, t_win(t_zero(n), g.cur))
            } else {
                t_add(t0, spec_play(g_next(g1), strat, 0))
            }
        } else {
            t_add(t0, branch_sum(g, strat, set))
        }
    }
}

/// The merged outcome of the forked lines, one per card of `set`, taken
/// from the lowest card upward.
pub open spec fn branch_sum(g: GState, strat: Strategy, set: u64) -> Tally
    decreases hands_total(g.hands), 0int, 0int, popcnt(set),
    via branch_sum_decreases
{
    let n = g.hands.len() as int;
    if !g_wf(g) || set == 0 || g.hands[g.cur] & set != set {
        t_zero(n)
    } else {
        let c = lsb(set);
        t_add(spec_play(g_next(g_play(g, c)), strat, 0), branch_sum(g, strat, set & !c))
    }
}

#[via_fn]
proof fn spec_play_decreases(g: GState, strat: Strategy, streak: nat) {
    if g_wf(g) && streak < g.hands.len() {
        let hand = g.hands[g.cur];
        let nc = nc_mask(hand, g.valid);
        let sq = seq_mask(hand, g.valid);
        let set = chosen_set(strat, nc, sq, hand & g.valid);
        lemma_chosen_in_hand(hand, g.valid, strat);
        if popcnt(set) == 1 {
            lemma_popcnt_is_one(set);
            lemma_popcnt_one(set);
            lemma_popcnt_remove(hand, set);
            lemma_hands_total_update(g.hands, g.cur, hand & !set);
        }
    }
}

#[via_fn]
proof fn branch_sum_decreases(g: GState, strat: Strategy, set: u64) {
    if g_wf(g) && set != 0 && g.hands[g.cur] & set == set {
        let hand = g.hands[g.cur];
        let c = lsb(set);
        lemma_lsb(set);
        lemma_popcnt_one(c);
        lemma_and_comm(set, c);
        lemma_and_comm(hand, set);
        lemma_subset_trans(c, set, hand);
        lemma_and_comm(c, hand);
        lemma_popcnt_remove(hand, c);
        lemma_hands_total_update(g.hands, g.cur, hand & !c);
        lemma_popcnt_remove(set, c);
    }
}

/// The aggregate of a search is well formed, with one record per player.
pub proof fn lemma_spec_play_wf(g: GState, strat: Strategy, streak: nat)
    ensures
        t_wf(spec_play(g, strat, streak)),
        spec_play(g, strat, streak).players.len() == g.hands.len(),
    decreases hands_total(g.hands), g.hands.len() - streak, 1int, 0int,
{
    let n = g.hands.len() as int;
    lemma_t_zero_wf(n);
    if g_wf(g) && streak < g.hands.len() {
        let hand = g.hands[g.cur];
        let nc = nc_mask(hand, g.valid);
        let sq = seq_mask(hand, g.valid);
        let set = chosen_set(strat, nc, sq, hand & g.valid);
        let t0 = t_stat(
            t_zero(n),
            g.cur,
            popcnt(stat_set(strat, nc, sq, hand & g.valid)),
            pref_rank_of(strat, nc, sq),
        );
        lemma_t_stat_as_add(
            t_zero(n),
            g.cur,
            popcnt(stat_set(strat, nc, sq, hand & g.valid)),
            pref_rank_of(strat, nc, sq),
        );
        lemma_chosen_in_hand(hand, g.valid, strat);
        if popcnt(set) == 0 {
            lemma_spec_play_wf(g_next(g), strat, (streak + 1) as nat);
            lemma_t_add_wf(t0, spec_play(g_next(g), strat, (streak + 1) as nat));
        } else if popcnt(set) == 1 {
            lemma_popcnt_is_one(set);
            lemma_popcnt_one(set);
            lemma_popcnt_remove(hand, set);
            lemma_hands_total_update(g.hands, g.cur, hand & !set);
            let g1 = g_play(g, set);
            if g1.hands[g.cur] == 0 {
                lemma_t_win_as_add(t_zero(n), g.cur);
                lemma_t_add_wf(t0, t_win(t_zero(n), g.cur));
            } else {
                lemma_spec_play_wf(g_next(g1), strat, 0);
                lemma_t_add_wf(t0, spec_play(g_next(g1), strat, 0));
            }
        } else {
            lemma_branch_sum_wf(g, strat, set);
            lemma_t_add_wf(t0, branch_sum(g, strat, set));
        }
    }
}

/// The merged fork outcomes are well formed, with one record per player.
pub proof fn lemma_branch_sum_wf(g: GState, strat: Strategy, set: u64)
    ensures
        t_wf(branch_sum(g, strat, set)),
        branch_sum(g, strat, set).players.len() == g.hands.len(),
    decreases hands_total(g.hands), 0int, 0int, popcnt(set),
{
    let n = g.hands.len() as int;
    lemma_t_zero_wf(n);
    if g_wf(g) && set != 0 && g.hands[g.cur] & set == set {
        let hand = g.hands[g.cur];
        let c = lsb(set);
        lemma_lsb(set);
        lemma_popcnt_one(c);
        lemma_and_comm(set, c);
        lemma_and_comm(hand, set);
        lemma_subset_trans(c, set, hand);
        lemma_and_comm(c, hand);
        lemma_popcnt_remove(hand, c);
        lemma_hands_total_update(g.hands, g.cur, hand & !c);
        lemma_popcnt_remove(set, c);
        lemma_spec_play_wf(g_next(g_play(g, c)), strat, 0);
        lemma_branch_sum_wf(g, strat, set & !c);
        lemma_t_add_wf(
            spec_play(g_next(g_play(g, c)), strat, 0),
            branch_sum(g, strat, set & !c),
        );
    }
}

/// Runs the exhaustive search from `state`: every line of play the
/// strategy leaves open is followed to its end, and the outcomes are
/// merged into one aggregate. The result is exactly `spec_play` of the
/// starting state, a pure function of the deal and the strategy, so two
/// runs from equal states agree completely.
#[verifier::loop_isolation(false)]
pub fn play(state: State, strategy: Strategy) -> (r: Results)
    requires
        state.wf(),
    ensures
        r@ == spec_play(state@, strategy, 0),
    decreases hands_total(state@.hands),
{
    let ghost g0 = state@;
    let mut state = state;
    let player_count = state.player_count();
    let mut results = Results::new(player_count as u8);
    let mut streak: usize = 0;
    let mut done = false;

    proof {
        lemma_spec_play_wf(g0, strategy, 0);
        lemma_t_add_comm(results@, spec_play(g0, strategy, 0));
        lemma_t_add_zero(spec_play(g0, strategy, 0));
    }

    while !done
        invariant
            !done ==> state.wf(),
            !done ==> state@.hands.len() == g0.hands.len(),
            !done ==> streak < player_count,
            !done ==> t_add(results@, spec_play(state@, strategy, streak as nat)) == spec_play(
                g0,
                strategy,
                0,
            ),
            !done ==> hands_total(state@.hands) <= hands_total(g0.hands),
            done ==> results@ == spec_play(g0, strategy, 0),
            results@.players.len() == g0.hands.len(),
            t_wf(results@),
        decreases hands_total(state@.hands), player_count - streak,
    {
        let ghost g = state@;
        let ghost pre_results = results@;
        let ghost n = g0.hands.len() as int;
        let ghost hand = g.hands[g.cur];
        let ghost nc = nc_mask(hand, g.valid);
        let ghost sq = seq_mask(hand, g.valid);
        let ghost set = chosen_set(strategy, nc, sq, hand & g.valid);
        let ghost t0 = t_stat(
            t_zero(n),
            g.cur,
            popcnt(stat_set(strategy, nc, sq, hand & g.valid)),
            pref_rank_of(strategy, nc, sq),
        );

        // Calculate playable cards
        let (playable_cards, no_consequence_cards, sequence_cards) = state.playable_cards();

        let cur = state.cur_player();
        let card_set = strategy.choose_cards(
            no_consequence_cards,
            sequence_cards,
            playable_cards,
            cur,
            &mut results,
        );

        proof {
            lemma_t_stat_as_add(
                pre_results,
                g.cur,
                popcnt(stat_set(strategy, nc, sq, hand & g.valid)),
                pref_rank_of(strategy, nc, sq),
            );
            lemma_t_stat_as_add(
                t_zero(n),
                g.cur,
                popcnt(stat_set(strategy, nc, sq, hand & g.valid)),
                pref_rank_of(strategy, nc, sq),
            );
            lemma_t_zero_wf(n);
        }

        let count = card_set.len();
        if count == 0 {
            // No cards to play: the turn passes
            proof {
                lemma_popcnt_zero(set);
                lemma_spec_play_wf(g_next(g), strategy, (streak + 1) as nat);
                lemma_t_add_assoc(
                    pre_results,
                    t0,
                    spec_play(g_next(g), strategy, (streak + 1) as nat),
                );
            }
            streak = streak + 1;
            state.next_player();
            if streak == player_count {
                // Every player has missed in turn: nothing is playable
                // anywhere, so this line of the search is done.
                proof {
                    lemma_t_add_zero(results@);
                }
                done = true;
            }
        } else if count == 1 {
            // One card to play
            proof {
                lemma_popcnt_zero(set);
                lemma_popcnt_is_one(set);
                lemma_lsb(set);
            }
            let mut it = card_set.card_iterator();
            let card = it.next().unwrap();
            state.play_card(card);
            let ghost g1 = g_play(g, set);
            proof {
                lemma_chosen_in_hand(hand, g.valid, strategy);
                lemma_popcnt_one(set);
                lemma_popcnt_remove(hand, set);
                lemma_hands_total_update(g.hands, g.cur, hand & !set);
            }
            if state.cur_player_cards().is_empty() {
                // Player has won
                results.win_for(cur);
                proof {
                    lemma_t_add_wf(pre_results, t0);
                    lemma_t_win_as_add(t_add(pre_results, t0), g.cur);
                    lemma_t_win_as_add(t_zero(n), g.cur);
                    lemma_t_add_assoc(pre_results, t0, t_win(t_zero(n), g.cur));
                }
                done = true;
            } else {
                proof {
                    lemma_spec_play_wf(g_next(g1), strategy, 0);
                    lemma_t_add_assoc(pre_results, t0, spec_play(g_next(g1), strategy, 0));
                }
                streak = 0;
                state.next_player();
            }
        } else {
            // Multiple choices: fork one line per further card while this
            // line continues with the first
            proof {
                lemma_popcnt_zero(set);
                lemma_lsb(set);
                lemma_chosen_in_hand(hand, g.valid, strategy);
                lemma_and_comm(hand, set);
            }
            let ghost first_bit = lsb(set);
            let ghost rfirst = spec_play(g_next(g_play(g, first_bit)), strategy, 0);
            let mut card_iter = card_set.card_iterator();
            let first_card = card_iter.next().unwrap();
            let mut forks_done = false;
            proof {
                assert(spec_play(g, strategy, streak as nat) == t_add(
                    t0,
                    branch_sum(g, strategy, set),
                ));
                assert(branch_sum(g, strategy, set) == t_add(
                    rfirst,
                    branch_sum(g, strategy, set & !first_bit),
                ));
                lemma_spec_play_wf(g_next(g_play(g, first_bit)), strategy, 0);
                lemma_branch_sum_wf(g, strategy, set & !first_bit);
                lemma_t_add_wf(rfirst, branch_sum(g, strategy, set & !first_bit));
                lemma_t_add_assoc(
                    pre_results,
                    t0,
                    t_add(rfirst, branch_sum(g, strategy, set & !first_bit)),
                );
                lemma_t_add_comm(rfirst, branch_sum(g, strategy, set & !first_bit));
                lemma_andnot_subset(set, first_bit, hand);
                lemma_and_comm(set & !first_bit, hand);
            }
            while !forks_done
                invariant
                    !forks_done ==> hand & card_iter@ == card_iter@,
                    !forks_done ==> t_add(
                        results@,
                        t_add(branch_sum(g, strategy, card_iter@), rfirst),
                    ) == spec_play(g0, strategy, 0),
                    forks_done ==> t_add(results@, rfirst) == spec_play(g0, strategy, 0),
                    results@.players.len() == g0.hands.len(),
                    t_wf(results@),
                decreases card_iter@, (if forks_done { 0int } else { 1int }),
            {
                let ghost it0 = card_iter@;
                match card_iter.next() {
                    None => {
                        proof {
                            lemma_t_add_comm(t_zero(n), rfirst);
                            lemma_t_add_zero(rfirst);
                        }
                        forks_done = true;
                    },
                    Some(c) => {
                        proof {
                            lemma_lsb(it0);
                            lemma_and_comm(it0, lsb(it0));
                            lemma_and_comm(hand, it0);
                            lemma_subset_trans(lsb(it0), it0, hand);
                            lemma_and_comm(lsb(it0), hand);
                            lemma_popcnt_one(lsb(it0));
                            lemma_popcnt_remove(hand, lsb(it0));
                            lemma_hands_total_update(g.hands, g.cur, hand & !lsb(it0));
                        }
                        let mut next_state = state.clone();
                        next_state.play_card(c);
                        next_state.next_player();
                        let result = play(next_state, strategy);
                        let ghost pre_fork = results@;
                        let ghost rc = spec_play(g_next(g_play(g, lsb(it0))), strategy, 0);
                        let ghost bs_rest = branch_sum(g, strategy, it0 & !lsb(it0));
                        proof {
                            lemma_spec_play_wf(g_next(g_play(g, lsb(it0))), strategy, 0);
                            lemma_branch_sum_wf(g, strategy, it0 & !lsb(it0));
                        }
                        results.add(result);
                        proof {
                            lemma_t_add_wf(bs_rest, rfirst);
                            lemma_t_add_assoc(rc, bs_rest, rfirst);
                            lemma_t_add_assoc(pre_fork, rc, t_add(bs_rest, rfirst));
                            lemma_andnot_subset(it0, lsb(it0), hand);
                            lemma_and_comm(it0 & !lsb(it0), hand);
                        }
                    },
                }
            }
            state.play_card(first_card);
            // A fork card never empties the hand: the player held at least
            // two playable cards, and only one of them was played.
            proof {
                lemma_popcnt_subset(hand, set);
                lemma_popcnt_one(first_bit);
                lemma_and_comm(set, first_bit);
                lemma_subset_trans(first_bit, set, hand);
                lemma_and_comm(first_bit, hand);
                lemma_popcnt_remove(hand, first_bit);
                lemma_popcnt_zero(hand & !first_bit);
                lemma_hands_total_update(g.hands, g.cur, hand & !first_bit);
            }
            streak = 0;
            state.next_player();
        }
    }
    results
}

} // verus!
