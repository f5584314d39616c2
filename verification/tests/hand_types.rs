use card_game_ai::card::{Card, CardEnhancement, CardRank, CardSuit};
use card_game_ai::hand::{HandLevels, HandType};

fn ranks_of(cards: &Vec<&Card>) -> Vec<CardRank> {
    cards.iter().map(|card| card.rank).collect()
}

fn ids_of(cards: &Vec<&Card>) -> Vec<u32> {
    cards.iter().map(|card| card.id).collect()
}

#[test]
fn test_hand_type_full_house() {
    let cards = vec![
        Card::new(0, CardRank::Two, CardSuit::Spades),
        Card::new(1, CardRank::Two, CardSuit::Hearts),
        Card::new(2, CardRank::Two, CardSuit::Clubs),
        Card::new(3, CardRank::Ace, CardSuit::Spades),
        Card::new(4, CardRank::Ace, CardSuit::Hearts),
    ];
    let (hand_type, cards) = HandType::from_cards(cards.iter().collect());
    assert_eq!(hand_type, HandType::FullHouse);
    assert_eq!(ids_of(&cards), vec![0, 1, 2, 3, 4]);
}

#[test]
fn test_hand_type_flush() {
    let _suit = CardSuit::get_rand();
    let cards = vec![
        Card::new(0, CardRank::Two, CardSuit::Diamonds),
        Card::new(1, CardRank::Five, CardSuit::Diamonds),
        Card::new(2, CardRank::Queen, CardSuit::Diamonds),
        Card::new(3, CardRank::Ace, CardSuit::Diamonds),
        Card::new(4, CardRank::King, CardSuit::Diamonds),
    ];
    let (hand_type, cards) = HandType::from_cards(cards.iter().collect());
    assert_eq!(hand_type, HandType::Flush);
    assert_eq!(ids_of(&cards), vec![0, 1, 2, 3, 4]);
}

#[test]
fn test_hand_type_straight() {
    let cards = vec![
        Card::new(0, CardRank::Two, CardSuit::Spades),
        Card::new(1, CardRank::Three, CardSuit::Hearts),
        Card::new(2, CardRank::Four, CardSuit::Clubs),
        Card::new(3, CardRank::Five, CardSuit::Diamonds),
        Card::new(4, CardRank::Six, CardSuit::Spades),
    ];
    let (hand_type, cards) = HandType::from_cards(cards.iter().collect());
    assert_eq!(hand_type, HandType::Straight);
    assert_eq!(
        ranks_of(&cards),
        vec![CardRank::Six, CardRank::Five, CardRank::Four, CardRank::Three, CardRank::Two]
    );
}

#[test]
fn test_hand_type_three_of_a_kind() {
    let cards = vec![
        Card::new(0, CardRank::Ace, CardSuit::Spades),
        Card::new(1, CardRank::Ace, CardSuit::Hearts),
        Card::new(2, CardRank::Ace, CardSuit::Clubs),
    ];
    let (hand_type, cards) = HandType::from_cards(cards.iter().collect());
    assert_eq!(hand_type, HandType::ThreeOfAKind);
    assert_eq!(cards.len(), 3);
}

#[test]
fn test_hand_type_two_pair() {
    let cards = vec![
        Card::new(0, CardRank::Ace, CardSuit::Spades),
        Card::new(1, CardRank::Ace, CardSuit::Hearts),
        Card::new(2, CardRank::Two, CardSuit::Clubs),
        Card::new(3, CardRank::Two, CardSuit::Diamonds),
    ];
    let (hand_type, cards) = HandType::from_cards(cards.iter().collect());
    assert_eq!(hand_type, HandType::TwoPair);
    // The pair of the higher rank comes first, and the ace is the lowest rank.
    assert_eq!(ids_of(&cards), vec![2, 3, 0, 1]);
}

#[test]
fn test_hand_type_pair() {
    let cards = vec![
        Card::new(0, CardRank::Ace, CardSuit::Spades),
        Card::new(1, CardRank::Ace, CardSuit::Hearts),
    ];
    let (hand_type, cards) = HandType::from_cards(cards.iter().collect());
    assert_eq!(hand_type, HandType::Pair);
    assert_eq!(ids_of(&cards), vec![0, 1]);
}

#[test]
fn test_hand_type_high_card() {
    let cards = vec![Card::new(0, CardRank::Ace, CardSuit::Spades)];
    let (hand_type, cards) = HandType::from_cards(cards.iter().collect());
    assert_eq!(hand_type, HandType::HighCard);
    assert_eq!(ids_of(&cards), vec![0]);
}

#[test]
fn high_card_is_the_highest_rank_and_the_first_of_it() {
    let cards = vec![
        Card::new(0, CardRank::Ace, CardSuit::Spades),
        Card::new(1, CardRank::Nine, CardSuit::Hearts),
        Card::new(2, CardRank::King, CardSuit::Clubs),
        Card::new(3, CardRank::King, CardSuit::Hearts),
    ];
    let (hand_type, cards) = HandType::from_cards(cards.iter().collect());
    assert_eq!(hand_type, HandType::Pair);
    assert_eq!(ids_of(&cards), vec![2, 3]);

    let cards = vec![
        Card::new(0, CardRank::Ace, CardSuit::Spades),
        Card::new(1, CardRank::Nine, CardSuit::Hearts),
        Card::new(2, CardRank::Queen, CardSuit::Clubs),
        Card::new(3, CardRank::Three, CardSuit::Hearts),
    ];
    let (hand_type, cards) = HandType::from_cards(cards.iter().collect());
    assert_eq!(hand_type, HandType::HighCard);
    assert_eq!(ids_of(&cards), vec![2]);
}

#[test]
fn five_and_four_of_a_kind_come_before_a_flush() {
    let five: Vec<Card> =
        (0..5).map(|id| Card::new(id, CardRank::Seven, CardSuit::Hearts)).collect();
    let (hand_type, cards) = HandType::from_cards(five.iter().collect());
    assert_eq!(hand_type, HandType::FiveOfAKind);
    assert_eq!(cards.len(), 5);

    let mut four: Vec<Card> =
        (0..4).map(|id| Card::new(id, CardRank::Seven, CardSuit::Hearts)).collect();
    four.push(Card::new(4, CardRank::Two, CardSuit::Hearts));
    let (hand_type, cards) = HandType::from_cards(four.iter().collect());
    assert_eq!(hand_type, HandType::FourOfAKind);
    assert_eq!(ids_of(&cards), vec![0, 1, 2, 3]);
}

#[test]
fn flush_comes_before_straight() {
    let cards = vec![
        Card::new(0, CardRank::Two, CardSuit::Clubs),
        Card::new(1, CardRank::Three, CardSuit::Clubs),
        Card::new(2, CardRank::Four, CardSuit::Clubs),
        Card::new(3, CardRank::Five, CardSuit::Clubs),
        Card::new(4, CardRank::Six, CardSuit::Clubs),
    ];
    let (hand_type, _) = HandType::from_cards(cards.iter().collect());
    assert_eq!(hand_type, HandType::Flush);
}

#[test]
fn six_cards_of_a_suit_are_no_flush() {
    let cards = vec![
        Card::new(0, CardRank::Two, CardSuit::Clubs),
        Card::new(1, CardRank::Four, CardSuit::Clubs),
        Card::new(2, CardRank::Six, CardSuit::Clubs),
        Card::new(3, CardRank::Eight, CardSuit::Clubs),
        Card::new(4, CardRank::Ten, CardSuit::Clubs),
        Card::new(5, CardRank::Queen, CardSuit::Clubs),
    ];
    let (hand_type, cards) = HandType::from_cards(cards.iter().collect());
    assert_eq!(hand_type, HandType::HighCard);
    assert_eq!(ids_of(&cards), vec![5]);
}

#[test]
fn straight_with_a_low_ace() {
    let cards = vec![
        Card::new(0, CardRank::Three, CardSuit::Spades),
        Card::new(1, CardRank::Ace, CardSuit::Hearts),
        Card::new(2, CardRank::Five, CardSuit::Clubs),
        Card::new(3, CardRank::Two, CardSuit::Diamonds),
        Card::new(4, CardRank::Four, CardSuit::Spades),
    ];
    let (hand_type, cards) = HandType::from_cards(cards.iter().collect());
    assert_eq!(hand_type, HandType::Straight);
    assert_eq!(
        ranks_of(&cards),
        vec![CardRank::Five, CardRank::Four, CardRank::Three, CardRank::Two, CardRank::Ace]
    );
}

#[test]
fn straight_with_a_high_ace() {
    let cards = vec![
        Card::new(0, CardRank::Ten, CardSuit::Spades),
        Card::new(1, CardRank::Ace, CardSuit::Hearts),
        Card::new(2, CardRank::King, CardSuit::Clubs),
        Card::new(3, CardRank::Jack, CardSuit::Diamonds),
        Card::new(4, CardRank::Queen, CardSuit::Spades),
    ];
    let (hand_type, cards) = HandType::from_cards(cards.iter().collect());
    assert_eq!(hand_type, HandType::Straight);
    assert_eq!(
        ranks_of(&cards),
        vec![CardRank::Ace, CardRank::King, CardRank::Queen, CardRank::Jack, CardRank::Ten]
    );
}

#[test]
fn straight_round_the_ace() {
    let cards = vec![
        Card::new(0, CardRank::Queen, CardSuit::Spades),
        Card::new(1, CardRank::Ace, CardSuit::Hearts),
        Card::new(2, CardRank::King, CardSuit::Clubs),
        Card::new(3, CardRank::Two, CardSuit::Diamonds),
        Card::new(4, CardRank::Three, CardSuit::Spades),
    ];
    let (hand_type, cards) = HandType::from_cards(cards.iter().collect());
    assert_eq!(hand_type, HandType::Straight);
    assert_eq!(
        ranks_of(&cards),
        vec![CardRank::Three, CardRank::Two, CardRank::Ace, CardRank::King, CardRank::Queen]
    );
}

#[test]
fn no_straight_over_a_gap_or_a_repeated_rank() {
    let cards = vec![
        Card::new(0, CardRank::Two, CardSuit::Spades),
        Card::new(1, CardRank::Three, CardSuit::Hearts),
        Card::new(2, CardRank::Four, CardSuit::Clubs),
        Card::new(3, CardRank::Five, CardSuit::Diamonds),
        Card::new(4, CardRank::Seven, CardSuit::Spades),
    ];
    let (hand_type, _) = HandType::from_cards(cards.iter().collect());
    assert_eq!(hand_type, HandType::HighCard);

    let cards = vec![
        Card::new(0, CardRank::Two, CardSuit::Spades),
        Card::new(1, CardRank::Three, CardSuit::Hearts),
        Card::new(2, CardRank::Four, CardSuit::Clubs),
        Card::new(3, CardRank::Five, CardSuit::Diamonds),
        Card::new(4, CardRank::Five, CardSuit::Spades),
        Card::new(5, CardRank::Six, CardSuit::Spades),
    ];
    let (hand_type, cards) = HandType::from_cards(cards.iter().collect());
    assert_eq!(hand_type, HandType::Pair);
    assert_eq!(ids_of(&cards), vec![3, 4]);
}

#[test]
fn straight_among_more_than_five_cards() {
    let cards = vec![
        Card::new(0, CardRank::King, CardSuit::Spades),
        Card::new(1, CardRank::Three, CardSuit::Hearts),
        Card::new(2, CardRank::Seven, CardSuit::Clubs),
        Card::new(3, CardRank::Five, CardSuit::Diamonds),
        Card::new(4, CardRank::Four, CardSuit::Spades),
        Card::new(5, CardRank::Six, CardSuit::Hearts),
    ];
    let (hand_type, cards) = HandType::from_cards(cards.iter().collect());
    assert_eq!(hand_type, HandType::Straight);
    assert_eq!(ids_of(&cards), vec![2, 5, 3, 4, 1]);
}

#[test]
fn three_of_a_kind_with_a_pair_is_a_full_house() {
    let cards = vec![
        Card::new(0, CardRank::Nine, CardSuit::Spades),
        Card::new(1, CardRank::Jack, CardSuit::Hearts),
        Card::new(2, CardRank::Nine, CardSuit::Clubs),
        Card::new(3, CardRank::Jack, CardSuit::Diamonds),
        Card::new(4, CardRank::Nine, CardSuit::Hearts),
        Card::new(5, CardRank::Four, CardSuit::Hearts),
    ];
    let (hand_type, cards) = HandType::from_cards(cards.iter().collect());
    assert_eq!(hand_type, HandType::FullHouse);
    assert_eq!(ids_of(&cards), vec![0, 2, 4, 1, 3]);
}

#[test]
fn possible_hands_of_a_straight_flush_hold_both() {
    let cards = vec![
        Card::new(0, CardRank::Two, CardSuit::Clubs),
        Card::new(1, CardRank::Three, CardSuit::Clubs),
        Card::new(2, CardRank::Four, CardSuit::Clubs),
        Card::new(3, CardRank::Five, CardSuit::Clubs),
        Card::new(4, CardRank::Six, CardSuit::Clubs),
    ];
    let hands = HandType::get_possible_hands(cards.iter().collect());
    let types: Vec<HandType> = hands.iter().map(|hand| hand.0).collect();
    assert_eq!(
        types,
        vec![
            HandType::Flush,
            HandType::Straight,
            HandType::HighCard,
            HandType::HighCard,
            HandType::HighCard,
            HandType::HighCard,
            HandType::HighCard,
        ]
    );
    assert_eq!(ids_of(&hands[0].1), vec![0, 1, 2, 3, 4]);
    assert_eq!(ids_of(&hands[1].1), vec![4, 3, 2, 1, 0]);
    assert_eq!(ids_of(&hands[2].1), vec![0]);
    assert_eq!(ids_of(&hands[6].1), vec![4]);
}

#[test]
fn possible_hands_pair_every_two_pairs() {
    let cards = vec![
        Card::new(0, CardRank::Two, CardSuit::Clubs),
        Card::new(1, CardRank::King, CardSuit::Clubs),
        Card::new(2, CardRank::Seven, CardSuit::Hearts),
        Card::new(3, CardRank::Two, CardSuit::Hearts),
        Card::new(4, CardRank::Seven, CardSuit::Spades),
        Card::new(5, CardRank::King, CardSuit::Diamonds),
        Card::new(6, CardRank::Nine, CardSuit::Diamonds),
    ];
    let hands = HandType::get_possible_hands(cards.iter().collect());
    let two_pairs: Vec<Vec<u32>> = hands
        .iter()
        .filter(|hand| hand.0 == HandType::TwoPair)
        .map(|hand| ids_of(&hand.1))
        .collect();
    assert_eq!(two_pairs, vec![vec![1, 5, 2, 4], vec![1, 5, 0, 3], vec![2, 4, 0, 3]]);
    let pairs: Vec<Vec<u32>> = hands
        .iter()
        .filter(|hand| hand.0 == HandType::Pair)
        .map(|hand| ids_of(&hand.1))
        .collect();
    assert_eq!(pairs, vec![vec![1, 5], vec![2, 4], vec![0, 3]]);
    let high_cards = hands.iter().filter(|hand| hand.0 == HandType::HighCard).count();
    assert_eq!(high_cards, 7);
    assert_eq!(hands.len(), 3 + 3 + 7);
}

#[test]
fn possible_hands_list_every_three_of_a_kind() {
    let cards = vec![
        Card::new(0, CardRank::Two, CardSuit::Clubs),
        Card::new(1, CardRank::Two, CardSuit::Hearts),
        Card::new(2, CardRank::Two, CardSuit::Spades),
        Card::new(3, CardRank::Ten, CardSuit::Hearts),
        Card::new(4, CardRank::Ten, CardSuit::Spades),
        Card::new(5, CardRank::Ten, CardSuit::Diamonds),
    ];
    let hands = HandType::get_possible_hands(cards.iter().collect());
    let triples: Vec<Vec<u32>> = hands
        .iter()
        .filter(|hand| hand.0 == HandType::ThreeOfAKind)
        .map(|hand| ids_of(&hand.1))
        .collect();
    assert_eq!(triples, vec![vec![3, 4, 5], vec![0, 1, 2]]);
}

#[test]
fn possible_hands_of_no_cards_are_none() {
    let hands = HandType::get_possible_hands(Vec::new());
    assert!(hands.is_empty());
}

#[test]
fn value_at_level_zero() {
    let levels = HandLevels::new();
    assert_eq!(HandType::HighCard.get_value(&levels), (5, 1));
    assert_eq!(HandType::Pair.get_value(&levels), (10, 2));
    assert_eq!(HandType::TwoPair.get_value(&levels), (20, 2));
    assert_eq!(HandType::ThreeOfAKind.get_value(&levels), (30, 3));
    assert_eq!(HandType::Straight.get_value(&levels), (40, 4));
    assert_eq!(HandType::Flush.get_value(&levels), (35, 4));
    assert_eq!(HandType::FullHouse.get_value(&levels), (40, 4));
    assert_eq!(HandType::FourOfAKind.get_value(&levels), (60, 7));
    assert_eq!(HandType::StraightFlush.get_value(&levels), (100, 8));
    assert_eq!(HandType::RoyalFlush.get_value(&levels), (100, 8));
    assert_eq!(HandType::FiveOfAKind.get_value(&levels), (0, 0));
    assert_eq!(HandType::FlushHouse.get_value(&levels), (0, 0));
    assert_eq!(HandType::FlushFive.get_value(&levels), (0, 0));
}

#[test]
fn value_grows_with_the_level() {
    let mut levels = HandLevels::new();
    levels.set(&HandType::Flush, 3);
    levels.set(&HandType::Straight, 255);
    levels.set(&HandType::FiveOfAKind, 9);
    assert_eq!(levels.get(&HandType::Flush), 3);
    assert_eq!(levels.get(&HandType::Pair), 0);
    assert_eq!(HandType::Flush.get_value(&levels), (35 + 3 * 15, 4 + 3 * 2));
    assert_eq!(HandType::Straight.get_value(&levels), (40 + 255 * 30, 4 + 255 * 3));
    assert_eq!(HandType::Pair.get_value(&levels), (10, 2));
    assert_eq!(HandType::FiveOfAKind.get_value(&levels), (0, 0));
    let mut last = HandType::FullHouse.get_value(&HandLevels::new());
    for level in 1..=255u8 {
        levels.set(&HandType::FullHouse, level);
        let value = HandType::FullHouse.get_value(&levels);
        assert!(value.0 > last.0 && value.1 > last.1);
        last = value;
    }
}

#[test]
fn enhanced_cards_are_classified_like_plain_ones() {
    let mut first = Card::new(0, CardRank::Ace, CardSuit::Spades);
    first.enhancement = Some(CardEnhancement::Bonus);
    let cards = vec![first, Card::new(1, CardRank::Ace, CardSuit::Hearts)];
    let (hand_type, cards) = HandType::from_cards(cards.iter().collect());
    assert_eq!(hand_type, HandType::Pair);
    assert_eq!(cards[0].enhancement, Some(CardEnhancement::Bonus));
}

#[test]
fn straight_round_the_ace_among_six_cards() {
    let cards = vec![
        Card::new(0, CardRank::Nine, CardSuit::Spades),
        Card::new(1, CardRank::Ace, CardSuit::Hearts),
        Card::new(2, CardRank::King, CardSuit::Clubs),
        Card::new(3, CardRank::Two, CardSuit::Diamonds),
        Card::new(4, CardRank::Three, CardSuit::Spades),
        Card::new(5, CardRank::Queen, CardSuit::Spades),
    ];
    let (hand_type, scored) = HandType::from_cards(cards.iter().collect());
    assert_eq!(hand_type, HandType::Straight);
    assert_eq!(ids_of(&scored), vec![4, 3, 1, 2, 5]);
    let hands = HandType::get_possible_hands(cards.iter().collect());
    let straights: Vec<Vec<u32>> = hands
        .iter()
        .filter(|hand| hand.0 == HandType::Straight)
        .map(|hand| ids_of(&hand.1))
        .collect();
    assert_eq!(straights, vec![vec![4, 3, 1, 2, 5]]);
}

#[test]
fn every_start_of_a_full_circle_is_a_straight() {
    let ranks = [
        CardRank::Ace,
        CardRank::Two,
        CardRank::Three,
        CardRank::Four,
        CardRank::Five,
        CardRank::Six,
        CardRank::Seven,
        CardRank::Eight,
        CardRank::Nine,
        CardRank::Ten,
        CardRank::Jack,
        CardRank::Queen,
        CardRank::King,
    ];
    let cards: Vec<Card> = ranks
        .iter()
        .enumerate()
        .map(|(id, rank)| {
            let suit = if id % 2 == 0 { CardSuit::Hearts } else { CardSuit::Clubs };
            Card::new(id as u32, *rank, suit)
        })
        .collect();
    let hands = HandType::get_possible_hands(cards.iter().collect());
    let straights: Vec<Vec<u32>> = hands
        .iter()
        .filter(|hand| hand.0 == HandType::Straight)
        .map(|hand| ids_of(&hand.1))
        .collect();
    assert_eq!(straights.len(), 13);
    assert_eq!(straights[0], vec![12, 11, 10, 9, 8]);
    assert_eq!(straights[8], vec![4, 3, 2, 1, 0]);
    assert_eq!(straights[9], vec![3, 2, 1, 0, 12]);
    assert_eq!(straights[12], vec![0, 12, 11, 10, 9]);
    let (hand_type, scored) = HandType::from_cards(cards.iter().collect());
    assert_eq!(hand_type, HandType::Straight);
    assert_eq!(ids_of(&scored), vec![12, 11, 10, 9, 8]);
}

fn listed(cards: &Vec<Card>) -> Vec<(HandType, Vec<u32>)> {
    HandType::get_possible_hands(cards.iter().collect())
        .iter()
        .map(|hand| (hand.0, ids_of(&hand.1)))
        .collect()
}

#[test]
fn possible_hands_of_a_full_house() {
    let cards = vec![
        Card::new(0, CardRank::Two, CardSuit::Spades),
        Card::new(1, CardRank::Two, CardSuit::Hearts),
        Card::new(2, CardRank::Two, CardSuit::Clubs),
        Card::new(3, CardRank::Ace, CardSuit::Spades),
        Card::new(4, CardRank::Ace, CardSuit::Hearts),
    ];
    assert_eq!(
        listed(&cards),
        vec![
            (HandType::FullHouse, vec![0, 1, 2, 3, 4]),
            (HandType::ThreeOfAKind, vec![0, 1, 2]),
            (HandType::Pair, vec![3, 4]),
            (HandType::HighCard, vec![0]),
            (HandType::HighCard, vec![1]),
            (HandType::HighCard, vec![2]),
            (HandType::HighCard, vec![3]),
            (HandType::HighCard, vec![4]),
        ]
    );
}

#[test]
fn possible_hands_of_four_and_five_of_a_kind() {
    let mut cards: Vec<Card> =
        (0..4).map(|id| Card::new(id, CardRank::Seven, CardSuit::Hearts)).collect();
    cards.push(Card::new(4, CardRank::Two, CardSuit::Clubs));
    let hands = listed(&cards);
    assert_eq!(hands[0], (HandType::FourOfAKind, vec![0, 1, 2, 3]));
    assert_eq!(hands.len(), 1 + 5);
    assert!(hands[1..].iter().all(|hand| hand.0 == HandType::HighCard));

    cards[4] = Card::new(4, CardRank::Seven, CardSuit::Hearts);
    let hands = listed(&cards);
    assert_eq!(hands[0], (HandType::FiveOfAKind, vec![0, 1, 2, 3, 4]));
    assert_eq!(hands[1], (HandType::Flush, vec![0, 1, 2, 3, 4]));
    assert_eq!(hands.len(), 2 + 5);
}

#[test]
fn possible_hands_join_every_three_with_every_pair() {
    let cards = vec![
        Card::new(0, CardRank::Four, CardSuit::Spades),
        Card::new(1, CardRank::Nine, CardSuit::Hearts),
        Card::new(2, CardRank::Jack, CardSuit::Clubs),
        Card::new(3, CardRank::King, CardSuit::Spades),
        Card::new(4, CardRank::Nine, CardSuit::Spades),
        Card::new(5, CardRank::Jack, CardSuit::Hearts),
        Card::new(6, CardRank::Four, CardSuit::Hearts),
        Card::new(7, CardRank::King, CardSuit::Diamonds),
        Card::new(8, CardRank::Jack, CardSuit::Diamonds),
        Card::new(9, CardRank::Nine, CardSuit::Clubs),
    ];
    let hands = listed(&cards);
    let full_houses: Vec<Vec<u32>> = hands
        .iter()
        .filter(|hand| hand.0 == HandType::FullHouse)
        .map(|hand| hand.1.clone())
        .collect();
    assert_eq!(
        full_houses,
        vec![
            vec![2, 5, 8, 3, 7],
            vec![2, 5, 8, 0, 6],
            vec![1, 4, 9, 3, 7],
            vec![1, 4, 9, 0, 6],
        ]
    );
    let types: Vec<HandType> = hands.iter().map(|hand| hand.0).collect();
    let mut expected = vec![HandType::FullHouse; 4];
    expected.extend(vec![HandType::ThreeOfAKind; 2]);
    expected.extend(vec![HandType::TwoPair; 1]);
    expected.extend(vec![HandType::Pair; 2]);
    expected.extend(vec![HandType::HighCard; 10]);
    assert_eq!(types, expected);
}

#[test]
fn possible_hands_hold_the_hand_that_is_played() {
    let suits = [CardSuit::Spades, CardSuit::Hearts, CardSuit::Diamonds, CardSuit::Clubs];
    let ranks = [
        CardRank::Ace,
        CardRank::Two,
        CardRank::Three,
        CardRank::Four,
        CardRank::Five,
        CardRank::King,
    ];
    // Every hand of one to five cards over a small set of ranks and two suits per card.
    let mut seen = Vec::new();
    for code in 0..6u32.pow(5) {
        let mut cards = Vec::new();
        let mut rest = code;
        for id in 0..5u32 {
            let rank = ranks[(rest % 6) as usize];
            rest /= 6;
            let suit = suits[((code / 7 + id * (code % 3)) % 4) as usize];
            cards.push(Card::new(id, rank, suit));
        }
        cards.truncate(1 + ((code / 11) % 5) as usize);
        let (hand_type, scored) = HandType::from_cards(cards.iter().collect());
        let played = (hand_type, ids_of(&scored));
        assert!(listed(&cards).contains(&played));
        if !seen.contains(&hand_type) {
            seen.push(hand_type);
        }
    }
    for hand_type in [
        HandType::FiveOfAKind,
        HandType::FourOfAKind,
        HandType::Flush,
        HandType::Straight,
        HandType::FullHouse,
        HandType::ThreeOfAKind,
        HandType::TwoPair,
        HandType::Pair,
        HandType::HighCard,
    ] {
        assert!(seen.contains(&hand_type), "no hand of type {:?} was tried", hand_type);
    }
}

#[test]
fn straight_below_the_highest_cards_of_eight() {
    let cards = vec![
        Card::new(0, CardRank::Seven, CardSuit::Spades),
        Card::new(1, CardRank::King, CardSuit::Hearts),
        Card::new(2, CardRank::Five, CardSuit::Clubs),
        Card::new(3, CardRank::Nine, CardSuit::Diamonds),
        Card::new(4, CardRank::King, CardSuit::Spades),
        Card::new(5, CardRank::Six, CardSuit::Hearts),
        Card::new(6, CardRank::Queen, CardSuit::Hearts),
        Card::new(7, CardRank::Eight, CardSuit::Clubs),
    ];
    let (hand_type, scored) = HandType::from_cards(cards.iter().collect());
    assert_eq!(hand_type, HandType::Straight);
    assert_eq!(ids_of(&scored), vec![3, 7, 0, 5, 2]);
    let hands = listed(&cards);
    assert_eq!(hands[0], (HandType::Straight, vec![3, 7, 0, 5, 2]));
    assert_eq!(hands[1], (HandType::Pair, vec![1, 4]));
    assert_eq!(hands.len(), 2 + 8);
}
