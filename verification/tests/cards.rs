use sevens::cards::{Card, CardCollection, Deck};

const SUITS: [char; 4] = ['\u{2665}', '\u{2663}', '\u{2666}', '\u{2660}'];

const RANKS: [&str; 13] = [
    "A", "2", "3", "4", "5", "6", "7", "8", "9", "10", "J", "Q", "K",
];

#[test]
fn card_test1() {
    for (sno, suit) in SUITS.iter().enumerate() {
        for (rno, rank) in RANKS.iter().enumerate() {
            let card = Card::new(suit, rank).unwrap();

            assert_eq!(format!("{rank}{suit}"), format!("{}{}", card.rank(), card.suit()));
            assert_eq!(&card.rank(), rank);
            assert_eq!(&card.suit(), suit);
            assert_eq!(card.rank_elem(), rno as u32);
            assert_eq!(card.suit_elem(), sno as u32);

            let card2 = Card::new_from_elems(sno, rno);
            assert_eq!(card, card2);

            let card3 = Card::new_from_raw(card.raw());
            assert_eq!(card, card3);
        }
    }
}

#[test]
fn test2() {
    for sno in 0..4 {
        for rno in 1..12 {
            let card = Card::new_from_elems(sno, rno);
            let lower = Card::new_from_elems(sno, rno - 1);
            let higher = Card::new_from_elems(sno, rno + 1);

            assert_eq!(card.one_higher(), higher);
            assert_eq!(card.one_lower(), lower);
        }
    }
}

#[test]
fn card_collection_test1() {
    let mut collection = CardCollection::new();

    let card1 = Card::new(&'\u{2665}', "A").unwrap();
    let card2 = Card::new(&'\u{2663}', "7").unwrap();
    let card3 = Card::new(&'\u{2666}', "10").unwrap();
    let card4 = Card::new(&'\u{2660}', "K").unwrap();

    // Test adding cards
    collection.add(card1.clone());
    collection.add(card2.clone());
    collection.add(card3.clone());
    collection.add(card4.clone());

    // Test contains A-6 and 8-K
    println!("{:x} {:x}", collection.raw(), card2.raw());
    assert!(collection.contains_one_to_six_except(0, &card2));
    assert!(!collection.contains_eight_to_king_except(0, &card2));
    assert!(!collection.contains_one_to_six_except(1, &card2));
    assert!(!collection.contains_eight_to_king_except(1, &card2));
    assert!(!collection.contains_one_to_six_except(2, &card2));
    assert!(collection.contains_eight_to_king_except(2, &card2));
    assert!(!collection.contains_one_to_six_except(3, &card2));
    assert!(collection.contains_eight_to_king_except(3, &card2));

    // Test contains
    let mut deck = Deck::new();

    while let Some(card) = deck.pop() {
        if card == card1 || card == card2 || card == card3 || card == card4 {
            assert!(collection.contains(card.clone()));
        } else {
            assert!(!collection.contains(card.clone()));
        }
    }

    // Test iterating cards
    let mut iter = collection.card_iterator();

    assert_eq!(iter.next(), Some(card1.clone()));
    assert_eq!(iter.next(), Some(card2.clone()));
    assert_eq!(iter.next(), Some(card3.clone()));
    assert_eq!(iter.next(), Some(card4.clone()));
    assert_eq!(iter.next(), None);

    // Test removing some cards
    collection.remove(card1);
    collection.remove(card2);

    let mut deck = Deck::new();

    while let Some(card) = deck.pop() {
        if card == card3 || card == card4 {
            assert!(collection.contains(card.clone()));
        } else {
            assert!(!collection.contains(card.clone()));
        }
    }

    // Test removing all cards
    collection.remove(card3);
    collection.remove(card4);

    let mut deck = Deck::new();

    while let Some(card) = deck.pop() {
        assert!(!collection.contains(card.clone()));
    }
}

#[test]
fn deck_test1() {
    // Build deck
    let mut deck = Deck::new();

    // Build expected deck
    let mut expected = Vec::new();

    for i in 0..4 {
        for j in 0..13 {
            expected.push(Card::new_from_raw((1 << j) << (i * 16)));
        }
    }

    // Check equal
    assert_eq!(deck.len(), expected.len());
    for (i, e) in expected.iter().enumerate() {
        assert_eq!(deck.card_at(i), *e);
    }

    // Shuffle deck
    deck.shuffle();

    // Make sure we've got all of the cards
    while let Some(c) = deck.pop() {
        let index = expected.iter().position(|e| *e == c).unwrap();
        expected.swap_remove(index);
    }

    assert!(expected.is_empty());
}

#[test]
fn card_new_rejects_bad_names() {
    assert!(Card::new(&'x', "A").is_none());
    assert!(Card::new(&'\u{2665}', "11").is_none());
    assert!(Card::new(&'\u{2665}', "").is_none());
    assert!(Card::new(&'?', "Q").is_none());
}

#[test]
fn card_hash_symbols() {
    // The alphabet runs A..Z over hearts and clubs, a..z over the rest
    assert_eq!(Card::new_from_elems(0, 0).hash_val(), 'A');
    assert_eq!(Card::new_from_elems(0, 12).hash_val(), 'M');
    assert_eq!(Card::new_from_elems(1, 0).hash_val(), 'N');
    assert_eq!(Card::new_from_elems(1, 12).hash_val(), 'Z');
    assert_eq!(Card::new_from_elems(2, 0).hash_val(), 'a');
    assert_eq!(Card::new_from_elems(3, 12).hash_val(), 'z');

    assert_eq!(Card::new_from_hash(b'A'), Some(Card::new_from_elems(0, 0)));
    assert_eq!(Card::new_from_hash(b'Z'), Some(Card::new_from_elems(1, 12)));
    assert_eq!(Card::new_from_hash(b'a'), Some(Card::new_from_elems(2, 0)));
    assert_eq!(Card::new_from_hash(b'z'), Some(Card::new_from_elems(3, 12)));
    assert_eq!(Card::new_from_hash(b'!'), None);
    assert_eq!(Card::new_from_hash(b'0'), None);
}

#[test]
fn deck_hash_of_sorted_deck() {
    let deck = Deck::new();
    assert_eq!(
        deck.hash_string(),
        "ABCDEFGHIJKLMNOPQRSTUVWXYZabcdefghijklmnopqrstuvwxyz"
    );

    let decoded = Deck::new_from_hash("ABCDEFGHIJKLMNOPQRSTUVWXYZabcdefghijklmnopqrstuvwxyz")
        .unwrap();
    assert_eq!(decoded.len(), 52);
    for i in 0..52 {
        assert_eq!(decoded.card_at(i), deck.card_at(i));
    }
}

#[test]
fn deck_hash_round_trip() {
    // A shuffled deck decodes back from its own hash, order and all
    let mut deck = Deck::new();
    deck.shuffle();

    let hash = deck.hash_string();
    let decoded = Deck::new_from_hash(&hash).unwrap();

    assert_eq!(decoded.len(), 52);
    for i in 0..52 {
        assert_eq!(decoded.card_at(i), deck.card_at(i));
    }
    assert_eq!(decoded.hash_string(), hash);
}

#[test]
fn deck_hash_rejects_invalid() {
    // Wrong length
    assert!(Deck::new_from_hash("").is_none());
    assert!(Deck::new_from_hash("ABCDEFGHIJKLMNOPQRSTUVWXYZabcdefghijklmnopqrstuvwxy").is_none());
    assert!(
        Deck::new_from_hash("ABCDEFGHIJKLMNOPQRSTUVWXYZabcdefghijklmnopqrstuvwxyzA").is_none()
    );

    // A repeated symbol (second position repeats the first)
    assert!(Deck::new_from_hash("AACDEFGHIJKLMNOPQRSTUVWXYZabcdefghijklmnopqrstuvwxyz").is_none());

    // A character outside the alphabet
    assert!(Deck::new_from_hash("!BCDEFGHIJKLMNOPQRSTUVWXYZabcdefghijklmnopqrstuvwxyz").is_none());

    // A multi-byte character never matches the alphabet
    assert!(
        Deck::new_from_hash("\u{2665}BCDEFGHIJKLMNOPQRSTUVWXYZabcdefghijklmnopqrstuvwxyz")
            .is_none()
    );
}

#[test]
fn collection_len_counts_each_card_once() {
    let mut collection = CardCollection::new();
    let card = Card::new_from_elems(2, 5);
    let other = Card::new_from_elems(0, 11);

    assert_eq!(collection.len(), 0);
    assert!(collection.is_empty());

    collection.add(card);
    assert_eq!(collection.len(), 1);

    // A repeated add does not double-count
    collection.add(card);
    assert_eq!(collection.len(), 1);

    collection.add(other);
    assert_eq!(collection.len(), 2);

    // After add then remove the card is gone
    collection.remove(card);
    assert!(!collection.contains(card));
    assert_eq!(collection.len(), 1);

    // Removing an absent card changes nothing
    collection.remove(card);
    assert_eq!(collection.len(), 1);
    assert!(collection.contains(other));
}

#[test]
fn collection_first_is_lowest() {
    let mut collection = CardCollection::new();
    assert_eq!(collection.first(), 0);

    collection.add(Card::new_from_elems(3, 0));
    collection.add(Card::new_from_elems(1, 2));
    collection.add(Card::new_from_elems(0, 9));

    // Lowest encoding wins: suit-major, rank-minor
    assert_eq!(collection.first(), Card::new_from_elems(0, 9).raw());
}
