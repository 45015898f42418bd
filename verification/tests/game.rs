use sevens::cards::{Card, Deck};
use sevens::game::{play, Results, State, Strategy};

/// A 2-player hash where player A (dealt the even positions) gets all
/// hearts and clubs, and player B all diamonds and spades.
fn two_player_suited_hash() -> String {
    let mut hash = String::new();
    for i in 0..26u8 {
        hash.push((b'A' + i) as char);
        hash.push((b'a' + i) as char);
    }
    hash
}

#[test]
fn state_deals_round_robin() {
    let deck = Deck::new();
    let state = State::new(4, deck);

    assert_eq!(state.player_count(), 4);

    // The seven of hearts sits at deal position 6, so player 2 starts
    assert_eq!(state.cur_player(), 2);

    // Each player drew 13 cards, and card i went to player i % 4
    let hands = state.all_player_cards();
    assert_eq!(hands.len(), 4);
    for (p, hand) in hands.iter().enumerate() {
        assert_eq!(hand.len(), 13);
        for n in 0usize..52 {
            let card = Card::new_from_elems(n / 13, n % 13);
            assert_eq!(hand.contains(card), n % 4 == p);
        }
    }

    // Nothing has been played yet
    assert_eq!(state.cards_played(), 0);
    assert!(state.board().is_empty());
}

#[test]
fn state_initial_playable_cards() {
    let state = State::new(4, Deck::new());

    // Only the seven of hearts is legal at the start; its holder has
    // neither heart neighbour (they went to other players), but does hold
    // another low heart, so it classifies as an in-sequence card
    let (playable, no_consequence, sequence) = state.playable_cards();
    let seven_hearts = Card::new_from_elems(0, 6);

    assert_eq!(playable.raw(), seven_hearts.raw());
    assert_eq!(no_consequence.raw(), 0);
    assert_eq!(sequence.raw(), seven_hearts.raw());
}

#[test]
fn state_play_card_opens_neighbours() {
    let mut state = State::new(4, Deck::new());
    let seven_hearts = Card::new_from_elems(0, 6);

    state.play_card(seven_hearts);

    assert_eq!(state.cards_played(), 1);
    assert!(state.board().contains(seven_hearts));

    // The player's hand no longer holds it
    assert!(!state.cur_player_cards().contains(seven_hearts));

    // The other three sevens and both heart neighbours are now legal for
    // whoever holds them
    let six_hearts = Card::new_from_elems(0, 5);
    let holder_of_six = 5 % 4;
    let mut next = state;
    while next.cur_player() != holder_of_six {
        next.next_player();
    }
    let (playable, _, _) = next.playable_cards();
    assert!(playable.contains(six_hearts));
}

#[test]
fn state_next_player_wraps() {
    let mut state = State::new(3, Deck::new());
    let start = state.cur_player();
    state.next_player();
    assert_eq!(state.cur_player(), (start + 1) % 3);
    state.next_player();
    state.next_player();
    assert_eq!(state.cur_player(), (start + 3) % 3);
}

#[test]
fn state_miss_counter() {
    let mut state = State::new(2, Deck::new());
    assert_eq!(state.get_misses(), 0);
    state.add_miss();
    state.add_miss();
    assert_eq!(state.get_misses(), 2);
}

#[test]
fn results_accumulate() {
    let mut a = Results::new(3);
    assert_eq!(a.games(), 0);

    a.win_for(0);
    a.win_for(2);
    a.win_for(2);
    assert_eq!(a.games(), 3);
    assert_eq!(a.player_results()[0].wins, 1);
    assert_eq!(a.player_results()[1].wins, 0);
    assert_eq!(a.player_results()[2].wins, 2);

    let mut b = Results::new(3);
    b.win_for(1);
    a.add(b);
    assert_eq!(a.games(), 4);
    assert_eq!(a.player_results()[1].wins, 1);
}

#[test]
fn results_merge_is_commutative() {
    let mut x1 = Results::new(2);
    x1.win_for(0);
    x1.win_for(0);
    let mut y1 = Results::new(2);
    y1.win_for(1);

    let mut x2 = Results::new(2);
    x2.win_for(0);
    x2.win_for(0);
    let mut y2 = Results::new(2);
    y2.win_for(1);

    // Merge in both orders and compare element-wise
    x1.add(y1);
    y2.add(x2);
    assert_eq!(x1.games(), y2.games());
    assert_eq!(x1.player_results(), y2.player_results());
}

#[test]
fn strategy_collapses_no_consequence() {
    let mut results = Results::new(2);
    let mut nc = sevens::cards::CardCollection::new();
    nc.add(Card::new_from_elems(0, 0));
    nc.add(Card::new_from_elems(1, 3));
    let mut seq = sevens::cards::CardCollection::new();
    seq.add(Card::new_from_elems(2, 4));
    let mut playable = sevens::cards::CardCollection::new();
    playable.add(Card::new_from_elems(0, 0));
    playable.add(Card::new_from_elems(1, 3));
    playable.add(Card::new_from_elems(2, 4));

    // NoConsequence keeps just the first safe card
    let chosen = Strategy::NoConsequence.choose_cards(nc, seq, playable, 0, &mut results);
    assert_eq!(chosen.raw(), Card::new_from_elems(0, 0).raw());
    // The decision had several safe candidates, in the top bucket
    assert_eq!(results.player_results()[0].multi[0], 1);

    // Preferred keeps the first safe card plus every in-sequence card
    let chosen = Strategy::Preferred.choose_cards(nc, seq, playable, 0, &mut results);
    assert_eq!(
        chosen.raw(),
        Card::new_from_elems(0, 0).raw() | Card::new_from_elems(2, 4).raw()
    );

    // Dumb never filters
    let chosen = Strategy::Dumb.choose_cards(nc, seq, playable, 1, &mut results);
    assert_eq!(chosen.raw(), playable.raw());
}

#[test]
fn strategy_falls_back_to_sequence_then_playable() {
    let mut results = Results::new(1);
    let empty = sevens::cards::CardCollection::new();
    let mut seq = sevens::cards::CardCollection::new();
    seq.add(Card::new_from_elems(3, 8));
    let mut playable = sevens::cards::CardCollection::new();
    playable.add(Card::new_from_elems(3, 8));
    playable.add(Card::new_from_elems(0, 1));

    let chosen = Strategy::NoConsequence.choose_cards(empty, seq, playable, 0, &mut results);
    assert_eq!(chosen.raw(), seq.raw());
    assert_eq!(results.player_results()[0].single[1], 1);

    let chosen = Strategy::NoConsequence.choose_cards(empty, empty, playable, 0, &mut results);
    assert_eq!(chosen.raw(), playable.raw());
    assert_eq!(results.player_results()[0].multi[2], 1);

    // An empty choice set counts a missed turn
    let chosen = Strategy::Preferred.choose_cards(empty, empty, empty, 0, &mut results);
    assert_eq!(chosen.raw(), 0);
    assert_eq!(results.player_results()[0].misses, 1);
}

#[test]
fn strategy_labels() {
    assert_eq!(Strategy::NoConsequence.max_pref_rank(), 2);
    assert_eq!(Strategy::Preferred.max_pref_rank(), 2);
    assert_eq!(Strategy::Dumb.max_pref_rank(), 0);

    assert_eq!(Strategy::NoConsequence.pref_rank_desc(0), "No Cons");
    assert_eq!(Strategy::Preferred.pref_rank_desc(0), "No Cons+Seq");
    assert_eq!(Strategy::Preferred.pref_rank_desc(1), "Sequence");
    assert_eq!(Strategy::Dumb.pref_rank_desc(0), "Playable");
    assert_eq!(Strategy::Dumb.pref_rank_desc(3), "Unknown");
}

#[test]
fn play_single_card_hands() {
    // 52 players hold one card each: the holder of the seven of hearts
    // opens, wins at once, and the game count is exactly one
    let state = State::new(52, Deck::new());
    let results = play(state, Strategy::Dumb);

    assert_eq!(results.games(), 1);
    for (p, pr) in results.player_results().iter().enumerate() {
        assert_eq!(pr.wins, if p == 6 { 1 } else { 0 });
    }
}

#[test]
fn play_suited_two_player_deal() {
    // Player A holds the seven of hearts inside a full run of hearts (and
    // all clubs); player B holds no hearts. Every turn collapses to a
    // single safe play, so exactly one game finishes, won by player A.
    let hash = two_player_suited_hash();
    let deck = Deck::new_from_hash(&hash).unwrap();
    let state = State::new(2, deck);
    assert_eq!(state.cur_player(), 0);

    let results = play(state, Strategy::NoConsequence);

    assert_eq!(results.games(), 1);
    assert_eq!(results.player_results()[0].wins, 1);
    assert_eq!(results.player_results()[1].wins, 0);
    assert_eq!(results.player_results()[0].misses, 0);
    assert_eq!(results.player_results()[1].misses, 0);
}

#[test]
fn play_is_deterministic() {
    // Two independently built states from one hash give identical results
    let hash = two_player_suited_hash();

    let deck1 = Deck::new_from_hash(&hash).unwrap();
    let deck2 = Deck::new_from_hash(&hash).unwrap();
    let r1 = play(State::new(2, deck1), Strategy::Preferred);
    let r2 = play(State::new(2, deck2), Strategy::Preferred);

    assert_eq!(r1.games(), r2.games());
    assert_eq!(r1.player_results(), r2.player_results());
}

#[test]
fn play_preferred_on_suited_deal() {
    // On the suit-partitioned deal every safe choice is unique for the
    // Preferred policy too, so it finds the same single finished game
    let deck = Deck::new_from_hash(&two_player_suited_hash()).unwrap();
    let results = play(State::new(2, deck), Strategy::Preferred);

    assert_eq!(results.games(), 1);
    assert_eq!(results.player_results()[0].wins, 1);
    assert_eq!(results.player_results()[1].wins, 0);
}
