use card_game_ai::card::{Card, CardEnhancement, CardRank, CardSuit};
use card_game_ai::hand::{ChipsAndMult, HandLevels, HandType};
use card_game_ai::pools::{borrow_all, find_card, move_all, move_card};
use card_game_ai::scoring::score_cards;
use card_game_ai::strategy::{best_place, value_of_type};

#[test]
fn cards_add_their_chips_to_the_hand() {
    let levels = HandLevels::new();
    let cards = vec![
        Card::new(0, CardRank::Two, CardSuit::Spades),
        Card::new(1, CardRank::Three, CardSuit::Hearts),
        Card::new(2, CardRank::Four, CardSuit::Clubs),
        Card::new(3, CardRank::Five, CardSuit::Diamonds),
        Card::new(4, CardRank::Six, CardSuit::Spades),
    ];
    let scored: Vec<&Card> = cards.iter().collect();
    assert_eq!(
        score_cards(&HandType::Straight, &levels, &scored),
        Some(ChipsAndMult { chips: 60, mult: 4 })
    );
    assert_eq!(
        score_cards(&HandType::Straight, &levels, &Vec::new()),
        Some(ChipsAndMult { chips: 40, mult: 4 })
    );
    assert_eq!(
        score_cards(&HandType::FlushFive, &levels, &scored),
        Some(ChipsAndMult { chips: 20, mult: 0 })
    );
}

#[test]
fn enhancements_and_extra_chips_are_counted() {
    let mut levels = HandLevels::new();
    levels.set(&HandType::ThreeOfAKind, 4);
    let mut cards = vec![
        Card::new(0, CardRank::Ace, CardSuit::Spades),
        Card::new(1, CardRank::Ace, CardSuit::Hearts),
        Card::new(2, CardRank::Ace, CardSuit::Clubs),
    ];
    cards[0].enhancement = Some(CardEnhancement::Bonus);
    cards[1].enhancement = Some(CardEnhancement::Mult);
    cards[2].enhancement = Some(CardEnhancement::Glass);
    cards[2].extra_chips = 7;
    let scored: Vec<&Card> = cards.iter().collect();
    assert_eq!(
        score_cards(&HandType::ThreeOfAKind, &levels, &scored),
        Some(ChipsAndMult { chips: 30 + 4 * 20 + 11 + 30 + 11 + 11 + 7, mult: 3 + 4 * 2 + 4 })
    );
}

#[test]
fn chips_beyond_32_bits_are_no_value() {
    let levels = HandLevels::new();
    let mut cards = vec![
        Card::new(0, CardRank::King, CardSuit::Spades),
        Card::new(1, CardRank::King, CardSuit::Hearts),
    ];
    cards[0].extra_chips = u32::MAX - 29;
    let scored: Vec<&Card> = cards.iter().collect();
    // 10 for the pair, 10 for each king and the extra chips: one too many.
    assert_eq!(score_cards(&HandType::Pair, &levels, &scored), None);
    cards[0].extra_chips = u32::MAX - 30;
    let scored: Vec<&Card> = cards.iter().collect();
    assert_eq!(
        score_cards(&HandType::Pair, &levels, &scored),
        Some(ChipsAndMult { chips: u32::MAX, mult: 2 })
    );
}

#[test]
fn best_place_is_the_last_of_the_best() {
    let levels = HandLevels::new();
    let card = Card::new(0, CardRank::King, CardSuit::Spades);
    let hands = vec![
        (HandType::Pair, vec![&card]),
        (HandType::Flush, vec![&card]),
        (HandType::Straight, vec![&card]),
        (HandType::Straight, vec![&card]),
        (HandType::HighCard, vec![&card]),
    ];
    assert_eq!(value_of_type(&HandType::Flush, &levels), 140);
    assert_eq!(value_of_type(&HandType::Straight, &levels), 160);
    assert_eq!(best_place(&hands, &levels), Some(3));
    let mut levels = levels;
    levels.set(&HandType::Flush, 1);
    assert_eq!(value_of_type(&HandType::Flush, &levels), 50 * 6);
    assert_eq!(best_place(&hands, &levels), Some(1));
    assert_eq!(best_place(&Vec::new(), &levels), None);
    levels.set(&HandType::StraightFlush, 255);
    assert_eq!(value_of_type(&HandType::StraightFlush, &levels), 10300 * 1028);
}

#[test]
fn finding_and_moving_cards() {
    let mut from = vec![
        Card::new(4, CardRank::King, CardSuit::Spades),
        Card::new(9, CardRank::Two, CardSuit::Spades),
        Card::new(4, CardRank::Ten, CardSuit::Hearts),
    ];
    let mut to = vec![Card::new(1, CardRank::Ace, CardSuit::Clubs)];
    assert_eq!(find_card(&from, 9), Some(1));
    assert_eq!(find_card(&from, 4), Some(0));
    assert_eq!(find_card(&from, 5), None);
    assert_eq!(borrow_all(&from).iter().map(|card| card.id).collect::<Vec<u32>>(), vec![4, 9, 4]);
    move_card(&mut from, &mut to, 4);
    assert_eq!(
        from.iter().map(|card| card.rank).collect::<Vec<CardRank>>(),
        vec![CardRank::Two, CardRank::Ten]
    );
    assert_eq!(
        to.iter().map(|card| card.rank).collect::<Vec<CardRank>>(),
        vec![CardRank::Ace, CardRank::King]
    );
    move_all(&mut from, &mut to);
    assert!(from.is_empty());
    assert_eq!(
        to.iter().map(|card| card.rank).collect::<Vec<CardRank>>(),
        vec![CardRank::Ace, CardRank::King, CardRank::Two, CardRank::Ten]
    );
}
