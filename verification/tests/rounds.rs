use card_game_ai::blind::{Blind, BossBlind};
use card_game_ai::card::{CardEnhancement, CardRank, CardSuit};
use card_game_ai::consumable::{Consumable, TarotCard};
use card_game_ai::deck::GameStartingDeck;
use card_game_ai::game::{GameOptions, GamePhase, GameState, HandResult};
use card_game_ai::hand::HandType;
use card_game_ai::stake::GameStake;
use card_game_ai::voucher::Voucher;

fn new_state(starting_deck: GameStartingDeck) -> GameState {
    GameState::new(GameOptions { starting_deck, stake: GameStake::White })
}

fn sorted_ids(state: &GameState) -> Vec<u32> {
    let mut ids: Vec<u32> = state
        .remaining_deck
        .iter()
        .chain(state.used_cards.iter())
        .chain(state.in_hand.iter())
        .chain(state.selected_cards.iter())
        .map(|card| card.id)
        .collect();
    ids.sort();
    ids
}

fn total_cards(state: &GameState) -> usize {
    state.remaining_deck.len()
        + state.used_cards.len()
        + state.in_hand.len()
        + state.selected_cards.len()
}

/// Puts every card back into the deck and then the named cards into the hand.
fn deal(state: &mut GameState, wanted: &[(CardRank, CardSuit)]) {
    let mut deck = Vec::new();
    deck.append(&mut state.remaining_deck);
    deck.append(&mut state.used_cards);
    deck.append(&mut state.in_hand);
    deck.append(&mut state.selected_cards);
    for (rank, suit) in wanted {
        let place = deck.iter().position(|card| card.rank == *rank && card.suit == *suit).unwrap();
        state.in_hand.push(deck.remove(place));
    }
    state.remaining_deck = deck;
}

fn select_all(state: &mut GameState) {
    let ids: Vec<u32> = state.in_hand.iter().map(|card| card.id).collect();
    for id in ids {
        state.select_card(id);
    }
}

const SMALL_STRAIGHT: [(CardRank, CardSuit); 5] = [
    (CardRank::Two, CardSuit::Spades),
    (CardRank::Three, CardSuit::Hearts),
    (CardRank::Four, CardSuit::Clubs),
    (CardRank::Five, CardSuit::Diamonds),
    (CardRank::Six, CardSuit::Spades),
];

#[test]
fn new_session_with_a_plain_deck() {
    let state = new_state(GameStartingDeck::Plasma);
    assert_eq!(state.hands_total, 4);
    assert_eq!(state.hands, 4);
    assert_eq!(state.discards_total, 3);
    assert_eq!(state.discards, 3);
    assert_eq!(state.money, 4);
    assert_eq!(state.hand_size, 8);
    assert_eq!(state.interest_cap, 10);
    assert_eq!(state.consumable_slots, 2);
    assert_eq!(state.joker_slots, 5);
    assert!(state.vouchers.is_empty());
    assert!(state.consumables.is_empty());
    assert!(state.jokers.is_empty());
    assert_eq!(state.phase, GamePhase::Playing);
    assert_eq!(state.ante, 1);
    assert_eq!(state.blind, Blind::Small);
    assert!(state.boss_blind.get_min_ante() <= 1);
    assert_eq!((state.chips, state.mult, state.score), (0, 0, 0));
    assert_eq!(state.total_tarot_played, 0);
    assert_eq!(state.in_hand.len(), 8);
    assert_eq!(state.remaining_deck.len(), 44);
    assert!(state.used_cards.is_empty());
    assert!(state.selected_cards.is_empty());
    assert_eq!(sorted_ids(&state), (0..52).collect::<Vec<u32>>());
    assert_eq!(state.hand_levels.get(&HandType::Straight), 0);
    assert_eq!(state.get_score_needed(), 300);
    for card in state.remaining_deck.iter().chain(state.in_hand.iter()) {
        assert_eq!(card.enhancement, None);
        assert_eq!(card.extra_chips, 0);
        // The deck is built suit by suit, each suit from the two to the ace.
        let suit = [CardSuit::Spades, CardSuit::Hearts, CardSuit::Diamonds, CardSuit::Clubs]
            [(card.id / 13) as usize];
        assert_eq!(card.suit, suit);
        let rank_place = if card.id % 13 == 12 { 0 } else { card.id % 13 + 1 };
        assert_eq!(card.rank.order(), rank_place as usize);
    }
}

#[test]
fn starting_decks_change_the_limits() {
    let state = new_state(GameStartingDeck::Red);
    assert_eq!((state.discards_total, state.discards, state.hands), (4, 4, 4));
    let state = new_state(GameStartingDeck::Blue);
    assert_eq!((state.hands_total, state.hands, state.discards), (5, 5, 3));
    let state = new_state(GameStartingDeck::Yellow);
    assert_eq!(state.money, 14);
    let state = new_state(GameStartingDeck::Green);
    assert_eq!(state.interest_cap, 0);
    let state = new_state(GameStartingDeck::Black);
    assert_eq!((state.hand_size, state.joker_slots), (7, 6));
    assert_eq!(state.in_hand.len(), 7);
    let state = new_state(GameStartingDeck::Magic);
    assert_eq!(state.vouchers, vec![Voucher::CrystalBall]);
    assert_eq!(
        state.consumables,
        vec![Consumable::Tarot(TarotCard::TheFool), Consumable::Tarot(TarotCard::TheFool)]
    );
    let state = new_state(GameStartingDeck::Nebula);
    assert_eq!(state.vouchers, vec![Voucher::Telescope]);
    assert_eq!(state.consumable_slots, 1);
    let state = new_state(GameStartingDeck::Zodiac);
    assert_eq!(
        state.vouchers,
        vec![Voucher::TarotMerchant, Voucher::PlanetMerchant, Voucher::Overstock]
    );
    let state = new_state(GameStartingDeck::Painted);
    assert_eq!((state.hand_size, state.joker_slots), (10, 4));
    assert_eq!(state.in_hand.len(), 10);
    assert_eq!(state.remaining_deck.len(), 42);
    let state = new_state(GameStartingDeck::GhostDeck);
    assert_eq!((state.hands, state.discards, state.hand_size), (4, 3, 8));
}

#[test]
fn abandoned_deck_has_no_face_cards() {
    let state = new_state(GameStartingDeck::Abandoned);
    assert_eq!(total_cards(&state), 40);
    assert_eq!(state.in_hand.len(), 8);
    for card in state.remaining_deck.iter().chain(state.in_hand.iter()) {
        assert!(!matches!(card.rank, CardRank::Jack | CardRank::Queen | CardRank::King));
    }
    let kept: Vec<u32> = (0..52).filter(|id| !(9..12).contains(&(id % 13))).collect();
    assert_eq!(sorted_ids(&state), kept);
}

#[test]
fn checkered_deck_has_two_suits() {
    let state = new_state(GameStartingDeck::Checkered);
    assert_eq!(total_cards(&state), 52);
    let mut spades = 0;
    let mut hearts = 0;
    for card in state.remaining_deck.iter().chain(state.in_hand.iter()) {
        match card.suit {
            CardSuit::Spades => {
                assert!(card.id < 13 || card.id >= 39);
                spades += 1;
            }
            CardSuit::Hearts => {
                assert!((13..39).contains(&card.id));
                hearts += 1;
            }
            _ => panic!("a checkered deck holds spades and hearts only"),
        }
    }
    assert_eq!((spades, hearts), (26, 26));
}

#[test]
fn erratic_deck_has_52_plain_cards() {
    let state = new_state(GameStartingDeck::Erratic);
    assert_eq!(total_cards(&state), 52);
    assert_eq!(sorted_ids(&state), (52..104).collect::<Vec<u32>>());
    for card in state.remaining_deck.iter().chain(state.in_hand.iter()) {
        assert_eq!(card.enhancement, None);
        assert_eq!(card.edition, None);
        assert_eq!(card.seal, None);
        assert_eq!(card.extra_chips, 0);
    }
}

#[test]
fn playing_a_small_straight() {
    let mut state = new_state(GameStartingDeck::Plasma);
    assert_eq!((state.hands_total, state.discards_total, state.hand_size), (4, 3, 8));
    deal(&mut state, &SMALL_STRAIGHT);
    select_all(&mut state);
    assert_eq!(state.selected_cards.len(), 5);
    assert!(state.in_hand.is_empty());

    let (hand_type, scored) = HandType::from_cards(state.selected_cards.iter().collect());
    assert_eq!(hand_type, HandType::Straight);
    assert_eq!(scored.len(), 5);
    let (chips, mult) = hand_type.get_value(&state.hand_levels);
    assert_eq!((chips, mult), (40, 4));
    assert_eq!(chips * mult, 160);

    assert!(state.is_playable());
    let result = state.play_hand();
    assert_eq!(result, None);
    assert_eq!(state.hands, 3);
    assert_eq!(state.discards, 3);
    // The five cards add 2 + 3 + 4 + 5 + 6 chips to the 40 of the straight.
    assert_eq!(state.score, (40 + 20) * 4);
    assert_eq!((state.chips, state.mult), (0, 0));
    assert_eq!(state.phase, GamePhase::Playing);
    assert_eq!(state.blind, Blind::Small);
    assert!(state.selected_cards.is_empty());
    assert_eq!(state.used_cards.len(), 5);
    assert_eq!(state.in_hand.len(), 8);
    assert_eq!(state.remaining_deck.len(), 39);
    assert_eq!(sorted_ids(&state), (0..52).collect::<Vec<u32>>());
}

#[test]
fn bonus_and_mult_cards_add_to_the_score() {
    let mut state = new_state(GameStartingDeck::Plasma);
    deal(
        &mut state,
        &[
            (CardRank::Ace, CardSuit::Spades),
            (CardRank::Ace, CardSuit::Hearts),
            (CardRank::Nine, CardSuit::Clubs),
        ],
    );
    state.in_hand[0].enhancement = Some(CardEnhancement::Bonus);
    state.in_hand[0].extra_chips = 5;
    state.in_hand[1].enhancement = Some(CardEnhancement::Mult);
    state.in_hand[2].enhancement = Some(CardEnhancement::Bonus);
    state.hand_levels.set(&HandType::Pair, 2);
    select_all(&mut state);
    assert!(state.is_playable());
    assert_eq!(state.play_hand(), Some(HandResult::Win));
    // A pair at level 2 is worth 10 + 2 * 15 chips and 2 + 2 * 1 mult; the
    // nine is not part of the pair and brings nothing.
    assert_eq!(state.score, (40 + (11 + 5 + 30) + 11) * (4 + 4));
    assert_eq!(state.phase, GamePhase::Shop);
    assert_eq!(state.blind, Blind::Big);
    assert_eq!(state.ante, 1);
    assert_eq!(state.used_cards.len(), 3);
}

#[test]
fn winning_leads_through_the_blinds() {
    let mut state = new_state(GameStartingDeck::Plasma);
    let first_boss = state.boss_blind;
    state.hand_levels.set(&HandType::HighCard, 255);
    let mut blinds = vec![state.blind];
    for _ in 0..7 {
        deal(&mut state, &[(CardRank::King, CardSuit::Hearts)]);
        state.in_hand[0].extra_chips = 100_000;
        select_all(&mut state);
        assert!(state.is_playable());
        let needed = state.get_score_needed();
        let result = state.play_hand();
        assert_eq!(state.score, (5 + 255 * 5 + 10 + 100_000) * (1 + 255));
        assert!(state.score >= needed);
        assert_eq!(result, Some(HandResult::Win));
        assert_eq!(state.phase, GamePhase::Shop);
        blinds.push(state.blind);
        state.start_blind();
        assert_eq!(state.phase, GamePhase::Playing);
        assert_eq!((state.hands, state.discards, state.score), (4, 3, 0));
        assert!(state.used_cards.is_empty() && state.selected_cards.is_empty());
        assert_eq!(state.in_hand.len(), 8);
        assert_eq!(state.remaining_deck.len(), 44);
        assert_eq!(sorted_ids(&state), (0..52).collect::<Vec<u32>>());
    }
    assert_eq!(blinds[0], Blind::Small);
    assert_eq!(blinds[1], Blind::Big);
    assert_eq!(blinds[2], Blind::Boss(first_boss));
    assert_eq!(blinds[3], Blind::Small);
    assert_eq!(blinds[4], Blind::Big);
    assert!(matches!(blinds[5], Blind::Boss(_)));
    assert_eq!(blinds[6], Blind::Small);
    assert_eq!(state.ante, 3);
    assert!(state.boss_blind.get_min_ante() <= 3);
}

#[test]
fn losing_when_the_hands_run_out() {
    let mut state = new_state(GameStartingDeck::Plasma);
    for left in (0..4).rev() {
        deal(&mut state, &[(CardRank::Two, CardSuit::Hearts)]);
        select_all(&mut state);
        assert!(state.is_playable());
        let result = state.play_hand();
        assert_eq!(state.hands, left);
        if left > 0 {
            assert_eq!(result, None);
        } else {
            assert_eq!(result, Some(HandResult::Lose));
        }
    }
    assert_eq!(state.score, 4 * (5 + 2));
    assert_eq!(state.phase, GamePhase::Playing);
    // With no hand left, playing is a loss and changes nothing.
    let before = sorted_ids(&state);
    let hand_before: Vec<u32> = state.in_hand.iter().map(|card| card.id).collect();
    assert!(state.is_playable());
    assert_eq!(state.play_hand(), Some(HandResult::Lose));
    assert_eq!(state.hands, 0);
    assert_eq!(state.score, 28);
    assert_eq!(sorted_ids(&state), before);
    assert_eq!(state.in_hand.iter().map(|card| card.id).collect::<Vec<u32>>(), hand_before);
}

#[test]
fn not_playable_without_cards_or_out_of_range() {
    let mut state = new_state(GameStartingDeck::Plasma);
    assert!(!state.is_playable());
    deal(&mut state, &[(CardRank::Two, CardSuit::Hearts)]);
    state.in_hand[0].extra_chips = u32::MAX;
    select_all(&mut state);
    assert!(!state.is_playable());
    state.selected_cards[0].extra_chips = u32::MAX - 7;
    assert!(state.is_playable());
    state.score = 1;
    assert!(!state.is_playable());
    state.score = 0;
    state.hand_levels.set(&HandType::HighCard, 1);
    assert!(!state.is_playable());
    state.hand_levels.set(&HandType::HighCard, 0);
    state.phase = GamePhase::Shop;
    assert!(!state.is_playable());
    state.phase = GamePhase::Playing;
    state.blind = Blind::Boss(state.boss_blind);
    state.ante = 255;
    assert!(!state.is_playable());
    state.ante = 254;
    assert!(state.is_playable());
}

#[test]
fn discarding_spends_a_discard_and_refills_the_hand() {
    let mut state = new_state(GameStartingDeck::Plasma);
    let ids: Vec<u32> = state.in_hand.iter().take(3).map(|card| card.id).collect();
    for id in ids.iter() {
        state.select_card(*id);
    }
    assert_eq!(state.in_hand.len(), 5);
    assert!(state.discard_hand());
    assert_eq!(state.discards, 2);
    assert_eq!(state.hands, 4);
    assert_eq!(state.score, 0);
    assert_eq!(state.used_cards.iter().map(|card| card.id).collect::<Vec<u32>>(), ids);
    assert!(state.selected_cards.is_empty());
    assert_eq!(state.in_hand.len(), 8);
    assert_eq!(state.remaining_deck.len(), 41);
    assert_eq!(sorted_ids(&state), (0..52).collect::<Vec<u32>>());
}

#[test]
fn discarding_without_a_discard_left_changes_nothing() {
    let mut state = new_state(GameStartingDeck::Plasma);
    state.discards = 0;
    let id = state.in_hand[0].id;
    state.select_card(id);
    assert!(!state.discard_hand());
    assert_eq!(state.discards, 0);
    assert_eq!(state.selected_cards.len(), 1);
    assert_eq!(state.in_hand.len(), 7);
    assert!(state.used_cards.is_empty());
    assert_eq!(state.remaining_deck.len(), 44);
}

#[test]
fn selecting_and_deselecting_moves_one_card() {
    let mut state = new_state(GameStartingDeck::Plasma);
    let hand: Vec<u32> = state.in_hand.iter().map(|card| card.id).collect();
    state.select_card(hand[2]);
    state.select_card(hand[5]);
    assert_eq!(
        state.selected_cards.iter().map(|card| card.id).collect::<Vec<u32>>(),
        vec![hand[2], hand[5]]
    );
    assert_eq!(
        state.in_hand.iter().map(|card| card.id).collect::<Vec<u32>>(),
        vec![hand[0], hand[1], hand[3], hand[4], hand[6], hand[7]]
    );
    state.deselect_card(hand[2]);
    assert_eq!(
        state.selected_cards.iter().map(|card| card.id).collect::<Vec<u32>>(),
        vec![hand[5]]
    );
    assert_eq!(
        state.in_hand.iter().map(|card| card.id).collect::<Vec<u32>>(),
        vec![hand[0], hand[1], hand[3], hand[4], hand[6], hand[7], hand[2]]
    );
    assert_eq!(total_cards(&state), 52);
}

#[test]
fn drawing_takes_the_card_out_of_the_deck() {
    let mut state = new_state(GameStartingDeck::Plasma);
    let id = state.remaining_deck[10].id;
    let before: Vec<u32> = state.remaining_deck.iter().map(|card| card.id).collect();
    state.draw_card(id);
    assert_eq!(state.in_hand.len(), 9);
    assert_eq!(state.in_hand[8].id, id);
    let mut expected = before.clone();
    expected.remove(10);
    assert_eq!(state.remaining_deck.iter().map(|card| card.id).collect::<Vec<u32>>(), expected);
    // A full hand is not filled further.
    state.fill_in_hand();
    assert_eq!(state.in_hand.len(), 9);
    assert_eq!(state.remaining_deck.len(), 43);
}

#[test]
fn filling_the_hand_stops_when_the_deck_is_empty() {
    let mut state = new_state(GameStartingDeck::Plasma);
    deal(&mut state, &[]);
    let mut deck = Vec::new();
    deck.append(&mut state.remaining_deck);
    state.remaining_deck = deck.split_off(49);
    state.used_cards = deck;
    state.fill_in_hand();
    assert_eq!(state.in_hand.len(), 3);
    assert!(state.remaining_deck.is_empty());
    assert_eq!(state.used_cards.len(), 49);
    assert_eq!(sorted_ids(&state), (0..52).collect::<Vec<u32>>());
    state.use_selected_cards();
    assert_eq!(state.used_cards.len(), 49);
    state.init_blind();
    assert_eq!(state.in_hand.len(), 8);
    assert_eq!(state.remaining_deck.len(), 44);
    assert!(state.used_cards.is_empty());
}

#[test]
fn advancing_with_a_given_boss() {
    let mut state = new_state(GameStartingDeck::Plasma);
    let boss = state.boss_blind;
    state.advance_blind_with(BossBlind::Wall);
    assert_eq!((state.blind, state.ante, state.boss_blind), (Blind::Big, 1, boss));
    assert_eq!(state.phase, GamePhase::Shop);
    state.phase = GamePhase::Playing;
    state.advance_blind_with(BossBlind::Wall);
    assert_eq!((state.blind, state.ante, state.boss_blind), (Blind::Boss(boss), 1, boss));
    state.phase = GamePhase::Playing;
    state.advance_blind_with(BossBlind::Wall);
    assert_eq!((state.blind, state.ante, state.boss_blind), (Blind::Small, 2, BossBlind::Wall));
    assert_eq!(state.get_score_needed(), 800);
    state.phase = GamePhase::Playing;
    state.advance_blind();
    state.phase = GamePhase::Playing;
    state.advance_blind();
    assert_eq!(state.blind, Blind::Boss(BossBlind::Wall));
    assert_eq!(state.get_score_needed(), 3200);
    state.ante = 7;
    state.phase = GamePhase::Playing;
    state.advance_blind();
    assert_eq!((state.blind, state.ante), (Blind::Small, 8));
    assert_eq!(state.boss_blind.get_min_ante(), 7);
    assert_eq!(state.get_score_needed(), 50000);
}

#[test]
fn validity_of_a_state() {
    let state = new_state(GameStartingDeck::Plasma);
    assert!(state.is_valid());

    let mut twice = state.clone();
    let card = twice.in_hand[0];
    twice.used_cards.push(card);
    assert!(!twice.is_valid());

    let mut shared = state.clone();
    shared.remaining_deck[3].id = shared.in_hand[2].id;
    assert!(!shared.is_valid());

    let mut no_ante = state.clone();
    no_ante.ante = 0;
    assert!(!no_ante.is_valid());

    let mut early = state.clone();
    early.boss_blind = BossBlind::Ox;
    assert!(!early.is_valid());
    early.ante = 5;
    assert!(early.is_valid());
    early.ante = 8;
    assert!(!early.is_valid());
    early.boss_blind = BossBlind::VioletVessel;
    assert!(early.is_valid());

    let mut other_boss = state.clone();
    other_boss.boss_blind = BossBlind::Hook;
    other_boss.blind = Blind::Boss(BossBlind::Pillar);
    assert!(!other_boss.is_valid());
    other_boss.blind = Blind::Boss(BossBlind::Hook);
    assert!(other_boss.is_valid());

    let mut mid_play = state.clone();
    mid_play.chips = 1;
    assert!(!mid_play.is_valid());
    mid_play.chips = 0;
    mid_play.mult = 1;
    assert!(!mid_play.is_valid());
}

#[test]
fn every_step_keeps_the_state_valid_and_the_cards_together() {
    let mut state = new_state(GameStartingDeck::Abandoned);
    for round in 0..6 {
        assert!(state.is_valid());
        assert_eq!(total_cards(&state), 40);
        let ids: Vec<u32> = state.in_hand.iter().take(2 + round % 3).map(|card| card.id).collect();
        for id in ids.iter() {
            state.select_card(*id);
        }
        state.deselect_card(ids[0]);
        assert!(state.is_valid());
        if round % 2 == 0 {
            state.discard_hand();
        } else if state.is_playable() {
            state.play_hand();
        }
        assert!(state.is_valid());
        assert_eq!(total_cards(&state), 40);
        if state.phase == GamePhase::Shop {
            state.start_blind();
        }
    }
    let kept: Vec<u32> = (0..52).filter(|id| !(9..12).contains(&(id % 13))).collect();
    assert_eq!(sorted_ids(&state), kept);
}

#[test]
fn trying_to_play_keeps_every_card() {
    let mut state = new_state(GameStartingDeck::Plasma);
    // Nothing is selected: there is no play and nothing changes.
    let hand_before: Vec<u32> = state.in_hand.iter().map(|card| card.id).collect();
    assert_eq!(state.try_play_hand(), None);
    assert_eq!(state.in_hand.iter().map(|card| card.id).collect::<Vec<u32>>(), hand_before);
    assert_eq!((state.hands, state.score), (4, 0));

    deal(&mut state, &SMALL_STRAIGHT);
    select_all(&mut state);
    assert_eq!(state.try_play_hand(), Some(None));
    assert_eq!((state.hands, state.score), (3, 240));
    assert_eq!(state.used_cards.len(), 5);
    assert_eq!(sorted_ids(&state), (0..52).collect::<Vec<u32>>());

    // A score that does not fit: no play, and the cards stay selected.
    deal(&mut state, &[(CardRank::Two, CardSuit::Hearts)]);
    state.in_hand[0].extra_chips = u32::MAX;
    select_all(&mut state);
    assert_eq!(state.try_play_hand(), None);
    assert_eq!((state.hands, state.score), (3, 240));
    assert_eq!(state.selected_cards.len(), 1);
    assert_eq!(total_cards(&state), 52);
    state.selected_cards[0].extra_chips = 0;

    // A state that is not valid is left alone.
    state.chips = 9;
    assert_eq!(state.try_play_hand(), None);
    assert_eq!((state.hands, state.score, state.chips), (3, 240, 9));
    state.chips = 0;

    // In the shop nothing is played.
    state.phase = GamePhase::Shop;
    assert_eq!(state.try_play_hand(), None);
    state.phase = GamePhase::Playing;

    // With no hand left the play is a loss and changes nothing.
    state.hands = 0;
    assert_eq!(state.try_play_hand(), Some(Some(HandResult::Lose)));
    assert_eq!(state.selected_cards.len(), 1);
    assert_eq!(total_cards(&state), 52);
}

#[test]
fn trying_to_discard_keeps_every_card() {
    let mut state = new_state(GameStartingDeck::Plasma);
    let ids: Vec<u32> = state.in_hand.iter().take(2).map(|card| card.id).collect();
    for id in ids.iter() {
        state.select_card(*id);
    }
    state.phase = GamePhase::Shop;
    assert_eq!(state.try_discard_hand(), None);
    assert_eq!((state.discards, state.selected_cards.len(), state.in_hand.len()), (3, 2, 6));
    state.phase = GamePhase::Playing;

    let copy = state.in_hand[0];
    state.used_cards.push(copy);
    assert_eq!(state.try_discard_hand(), None);
    assert_eq!((state.discards, state.selected_cards.len(), state.used_cards.len()), (3, 2, 1));
    state.used_cards.clear();

    assert_eq!(state.try_discard_hand(), Some(true));
    assert_eq!(state.discards, 2);
    assert_eq!(state.used_cards.iter().map(|card| card.id).collect::<Vec<u32>>(), ids);
    assert_eq!(state.in_hand.len(), 8);
    assert_eq!(sorted_ids(&state), (0..52).collect::<Vec<u32>>());

    state.discards = 0;
    let id = state.in_hand[0].id;
    state.select_card(id);
    assert_eq!(state.try_discard_hand(), Some(false));
    assert_eq!(state.selected_cards.len(), 1);
    assert_eq!((state.in_hand.len(), state.used_cards.len()), (7, 2));
    assert_eq!(total_cards(&state), 52);
}
