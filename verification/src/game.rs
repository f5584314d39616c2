use crate::ante::{base_score, get_base_score};
use crate::blind::{Blind, BossBlind};
use crate::card::{Card, CardId};
use crate::chance::choose_from;
use crate::consumable::{Consumable, TarotCard};
use crate::counting::lemma_empty_multiset;
use crate::deck::{is_plain, GameStartingDeck};
use crate::hand::{HandLevels, HandType};
use crate::joker::JokerCard;
use crate::pools::{
    borrow_all, check_ids_differ, first_with_id, holds_id, ids_unique, lemma_first_exists,
    lemma_ids_differ_unique, lemma_ids_unique_differ, lemma_move_keeps_cards,
    lemma_without_nothing, lemma_without_one_more, move_all, move_card, push_all, without,
};
use crate::scoring::{play_fits, play_score, score_cards};
use crate::stake::GameStake;
use crate::voucher::Voucher;
use vstd::multiset::Multiset;
use vstd::prelude::*;

verus! {

/// Whether a round is being played or the shop is open between two rounds.
#[derive(Clone, Copy, Debug, PartialEq, Eq, Structural)]
pub enum GamePhase {
    Playing,
    Shop,
}

/// How a round has ended.
#[derive(Clone, Copy, Debug, PartialEq, Eq, Structural)]
pub enum HandResult {
    Win,
    Lose,
}

/// What a session is started with.
#[derive(Clone, Copy, Debug)]
pub struct GameOptions {
    pub starting_deck: GameStartingDeck,
    pub stake: GameStake,
}

/// An amount of money, which may be a debt.
pub type PlayerMoney = i32;

/// The state of a session: its options and limits, the four pools of
/// cards (the deck, the used cards, the hand and the selected cards), and
/// the course of the round.
#[derive(Clone, Debug)]
pub struct GameState {
    // Options
    pub stake: GameStake,
    pub starting_deck: GameStartingDeck,
    pub hands_total: u8,
    pub hand_size: u8,
    pub discards_total: u8,
    pub interest_cap: u8,
    pub joker_slots: u8,
    pub consumable_slots: u8,
    pub hand_levels: HandLevels,
    pub vouchers: Vec<Voucher>,
    pub jokers: Vec<JokerCard>,
    pub remaining_deck: Vec<Card>,
    pub used_cards: Vec<Card>,
    pub consumables: Vec<Consumable>,
    pub money: u8,
    pub ante: u8,
    pub blind: Blind,
    pub boss_blind: BossBlind,
    pub phase: GamePhase,
    // Playing
    pub hands: u8,
    pub discards: u8,
    pub in_hand: Vec<Card>,
    pub selected_cards: Vec<Card>,
    // Scoring
    pub chips: u32,
    pub mult: u32,
    pub score: u32,
    // Statistics
    pub total_tarot_played: u32,
}

/// Whether `new_hand` and `new_deck` are what a hand of `old_hand` and a
/// deck of `old_deck` become when the hand is filled up to `hand_size`
/// cards from the deck: the hand keeps its cards and gets the missing ones
/// at its end, or all of the deck if the deck has fewer, and the deck is
/// left with the cards that the hand did not get, in the order that they
/// had.
pub open spec fn refilled(
    old_deck: Seq<Card>,
    old_hand: Seq<Card>,
    hand_size: nat,
    new_deck: Seq<Card>,
    new_hand: Seq<Card>,
) -> bool {
    let missing = if old_hand.len() < hand_size {
        hand_size - old_hand.len()
    } else {
        0
    };
    let drawn = if missing < old_deck.len() {
        missing
    } else {
        old_deck.len() as int
    };
    &&& new_hand.len() == old_hand.len() + drawn
    &&& new_deck.len() == old_deck.len() - drawn
    &&& new_hand.take(old_hand.len() as int) == old_hand
    &&& new_deck == without(old_deck, new_hand.skip(old_hand.len() as int))
    &&& new_deck.to_multiset().add(new_hand.to_multiset()) == old_deck.to_multiset().add(
        old_hand.to_multiset(),
    )
}

/// The blind that follows `blind` when it is beaten: the big blind after
/// the small one, the boss `boss` after the big one, and after a boss the
/// small blind again.
pub open spec fn next_blind(blind: Blind, boss: BossBlind) -> Blind {
    match blind {
        Blind::Small => Blind::Big,
        Blind::Big => Blind::Boss(boss),
        Blind::Boss(_) => Blind::Small,
    }
}

impl GameState {
    /// All the cards of the session, whichever pool holds them.
    pub open spec fn card_pool(&self) -> Multiset<Card> {
        self.remaining_deck@.to_multiset().add(self.used_cards@.to_multiset()).add(
            self.in_hand@.to_multiset(),
        ).add(self.selected_cards@.to_multiset())
    }

    /// The number of cards in the four pools together.
    pub open spec fn total_cards(&self) -> nat {
        self.remaining_deck@.len() + self.used_cards@.len() + self.in_hand@.len()
            + self.selected_cards@.len()
    }

    /// The pool holds as many cards as the four lists together.
    pub proof fn lemma_pool_size(&self)
        ensures
            self.card_pool().len() == self.total_cards(),
    {
        broadcast use vstd::multiset::group_multiset_axioms;

        vstd::seq_lib::to_multiset_len(self.remaining_deck@);
        vstd::seq_lib::to_multiset_len(self.used_cards@);
        vstd::seq_lib::to_multiset_len(self.in_hand@);
        vstd::seq_lib::to_multiset_len(self.selected_cards@);
    }

    /// In a valid state the deck holds no card twice.
    pub proof fn lemma_deck_holds_no_card_twice(&self)
        requires
            self.wf(),
        ensures
            self.remaining_deck@.no_duplicates(),
    {
        broadcast use vstd::multiset::group_multiset_axioms;

        let deck = self.remaining_deck@;
        assert forall|card: Card| deck.to_multiset().count(card) <= 1 by {
            assert(deck.to_multiset().count(card) <= self.card_pool().count(card));
        }
        deck.lemma_multiset_has_no_duplicates_conv();
    }

    /// The state is valid: every card is in one pool only and has an
    /// identifier of its own, the ante is at least 1, the boss is one that
    /// may appear at this ante and is the one that a boss blind shows, and
    /// the chips and the multiplier of the last play have been cleared.
    pub open spec fn wf(&self) -> bool {
        &&& ids_unique(self.card_pool())
        &&& self.ante >= 1
        &&& self.boss_blind.may_appear_at(self.ante as nat)
        &&& (self.blind matches Blind::Boss(boss) ==> boss == self.boss_blind)
        &&& self.chips == 0
        &&& self.mult == 0
    }

    /// Whether the state is valid.
    pub fn is_valid(&self) -> (valid: bool)
        ensures
            valid == self.wf(),
    {
        let mut all: Vec<Card> = Vec::new();
        push_all(&mut all, &self.remaining_deck);
        push_all(&mut all, &self.used_cards);
        push_all(&mut all, &self.in_hand);
        push_all(&mut all, &self.selected_cards);
        let ids_differ = check_ids_differ(&all);
        proof {
            broadcast use vstd::multiset::group_multiset_axioms;

            let deck = self.remaining_deck@;
            let used = self.used_cards@;
            let hand = self.in_hand@;
            let selected = self.selected_cards@;
            assert(all@ =~= deck + used + hand + selected);
            vstd::seq_lib::lemma_multiset_commutative(deck, used);
            vstd::seq_lib::lemma_multiset_commutative(deck + used, hand);
            vstd::seq_lib::lemma_multiset_commutative(deck + used + hand, selected);
            assert(all@.to_multiset() =~= self.card_pool());
            if ids_differ {
                lemma_ids_differ_unique(all@);
            }
            if ids_unique(self.card_pool()) {
                lemma_ids_unique_differ(all@);
            }
        }
        let boss_shown = match self.blind {
            Blind::Boss(boss) => boss == self.boss_blind,
            _ => true,
        };
        ids_differ && self.ante >= 1 && self.boss_blind.check_may_appear(self.ante) && boss_shown
            && self.chips == 0 && self.mult == 0
    }

    /// Whether `other` has the same options, limits, levels and belongings
    /// as this state: everything but the cards and the course of the round.
    pub open spec fn same_rules(&self, other: &GameState) -> bool {
        &&& self.stake == other.stake
        &&& self.starting_deck == other.starting_deck
        &&& self.hands_total == other.hands_total
        &&& self.hand_size == other.hand_size
        &&& self.discards_total == other.discards_total
        &&& self.interest_cap == other.interest_cap
        &&& self.joker_slots == other.joker_slots
        &&& self.consumable_slots == other.consumable_slots
        &&& self.hand_levels == other.hand_levels
        &&& self.vouchers@ == other.vouchers@
        &&& self.jokers@ == other.jokers@
        &&& self.consumables@ == other.consumables@
        &&& self.money == other.money
        &&& self.total_tarot_played == other.total_tarot_played
    }

    /// Whether `other` stands at the same point of the same round: the same
    /// ante, blind, boss and phase, the same hands and discards left, and
    /// the same score.
    pub open spec fn same_round(&self, other: &GameState) -> bool {
        &&& self.ante == other.ante
        &&& self.blind == other.blind
        &&& self.boss_blind == other.boss_blind
        &&& self.phase == other.phase
        &&& self.hands == other.hands
        &&& self.discards == other.discards
        &&& self.chips == other.chips
        &&& self.mult == other.mult
        &&& self.score == other.score
    }

    /// The score that the current blind asks for.
    pub open spec fn score_needed(&self) -> nat {
        self.blind.min_score(base_score(self.ante as nat, self.stake.tier()))
    }

    /// A new session with the given options: the first round of ante 1
    /// has begun, against the small blind.
    ///
    /// The limits, the money, the vouchers and the consumables are those of
    /// the starting deck. Its cards are in the deck, in the order in which
    /// the deck is built, but for a hand of `hand_size` cards drawn at
    /// random. The boss is drawn at random among those that may appear at
    /// ante 1.
    pub fn new(options: GameOptions) -> (state: Self)
        ensures
            state.wf(),
            state.stake == options.stake,
            state.starting_deck == options.starting_deck,
            state.hands_total == options.starting_deck.hands(),
            state.hands == options.starting_deck.hands(),
            state.discards_total == options.starting_deck.discards(),
            state.discards == options.starting_deck.discards(),
            state.money == options.starting_deck.money(),
            state.hand_size == options.starting_deck.hand_size(),
            state.interest_cap == options.starting_deck.interest_cap(),
            state.consumable_slots == options.starting_deck.consumable_slots(),
            state.joker_slots == options.starting_deck.joker_slots(),
            state.vouchers@ == options.starting_deck.vouchers(),
            state.consumables@ == options.starting_deck.consumables(),
            state.jokers@ == Seq::<JokerCard>::empty(),
            forall|hand: HandType| state.hand_levels.level(hand) == 0,
            state.phase == GamePhase::Playing,
            state.ante == 1,
            state.blind == Blind::Small,
            state.score == 0,
            state.total_tarot_played == 0,
            state.used_cards@ == Seq::<Card>::empty(),
            state.selected_cards@ == Seq::<Card>::empty(),
            state.in_hand@.len() == state.hand_size,
            options.starting_deck != GameStartingDeck::Erratic ==> {
                &&& state.remaining_deck@ == without(
                    options.starting_deck.cards(),
                    state.in_hand@,
                )
                &&& state.remaining_deck@.to_multiset().add(state.in_hand@.to_multiset())
                    == options.starting_deck.cards().to_multiset()
            },
            options.starting_deck == GameStartingDeck::Erratic ==> {
                &&& state.total_cards() == 52
                &&& forall|card: Card| #[trigger]
                    state.card_pool().count(card) > 0 ==> is_plain(card) && 52 <= card.id < 104
            },
    {
        let mut hands: u8 = 4;
        let mut discards: u8 = 3;
        let mut money: u8 = 4;
        let mut hand_size: u8 = 8;
        let mut interest_cap: u8 = 10;
        let mut consumable_slots: u8 = 2;
        let mut joker_slots: u8 = 5;
        let mut vouchers: Vec<Voucher> = Vec::new();
        let mut consumables: Vec<Consumable> = Vec::new();
        let ante: u8 = 1;
        let boss_blind = BossBlind::get_rand(ante);
        let deck = options.starting_deck.build_cards();
        match options.starting_deck {
            GameStartingDeck::Red => {
                discards = discards + 1;
            },
            GameStartingDeck::Blue => {
                hands = hands + 1;
            },
            GameStartingDeck::Yellow => {
                money = money + 10;
            },
            GameStartingDeck::Green => {
                interest_cap = 0;
            },
            GameStartingDeck::Black => {
                hand_size = hand_size - 1;
                joker_slots = joker_slots + 1;
            },
            GameStartingDeck::Magic => {
                vouchers.push(Voucher::CrystalBall);
                consumables.push(Consumable::Tarot(TarotCard::TheFool));
                consumables.push(Consumable::Tarot(TarotCard::TheFool));
            },
            GameStartingDeck::Nebula => {
                vouchers.push(Voucher::Telescope);
                consumable_slots = consumable_slots - 1;
            },
            GameStartingDeck::Zodiac => {
                vouchers.push(Voucher::TarotMerchant);
                vouchers.push(Voucher::PlanetMerchant);
                vouchers.push(Voucher::Overstock);
            },
            GameStartingDeck::Painted => {
                hand_size = hand_size + 2;
                joker_slots = joker_slots - 1;
            },
            _ => {},
        }
        proof {
            assert(vouchers@ =~= options.starting_deck.vouchers());
            assert(consumables@ =~= options.starting_deck.consumables());
        }
        let mut state = GameState {
            hands_total: hands,
            discards_total: discards,
            hands,
            discards,
            money,
            hand_size,
            hand_levels: HandLevels::new(),
            interest_cap,
            consumable_slots,
            joker_slots,
            vouchers,
            consumables,
            jokers: Vec::new(),
            stake: options.stake,
            starting_deck: options.starting_deck,
            remaining_deck: deck,
            used_cards: Vec::new(),
            in_hand: Vec::new(),
            selected_cards: Vec::new(),
            phase: GamePhase::Playing,
            ante,
            blind: Blind::Small,
            boss_blind,
            chips: 0,
            mult: 0,
            score: 0,
            total_tarot_played: 0,
        };
        let ghost built = state.remaining_deck@;
        proof {
            broadcast use vstd::multiset::group_multiset_axioms;

            lemma_empty_multiset(state.used_cards@);
            lemma_empty_multiset(state.in_hand@);
            lemma_empty_multiset(state.selected_cards@);
            assert(state.card_pool() =~= built.to_multiset());
        }
        state.init_blind();
        proof {
            broadcast use vstd::multiset::group_multiset_axioms;

            let empty = Seq::<Card>::empty();
            assert(built + empty + empty + empty =~= built);
            assert(state.in_hand@.skip(0) =~= state.in_hand@);
            lemma_empty_multiset(empty);
            lemma_empty_multiset(state.used_cards@);
            lemma_empty_multiset(state.selected_cards@);
            assert(state.remaining_deck@.to_multiset().add(state.in_hand@.to_multiset())
                =~= built.to_multiset());
            assert(state.card_pool() =~= built.to_multiset());
            if options.starting_deck == GameStartingDeck::Erratic {
                built.to_multiset_ensures();
                assert forall|card: Card| #[trigger]
                    state.card_pool().count(card) > 0 implies is_plain(card) && 52 <= card.id
                    < 104 by {
                    let i = built.index_of(card);
                    assert(built[i] == card);
                }
            }
        }
        state
    }

    /// At the same ante and stake, facing the Needle asks for half the score
    /// that facing a boss with the usual factor of 2 asks for.
    pub proof fn lemma_needle_halves_score_needed(&self, other: &GameState)
        requires
            self.ante == other.ante,
            self.stake == other.stake,
            self.blind == Blind::Boss(BossBlind::Needle),
            other.blind matches Blind::Boss(boss) && boss.score_factor() == 2,
        ensures
            2 * self.score_needed() == other.score_needed(),
    {
        let base = base_score(self.ante as nat, self.stake.tier());
        assert(2 * (base * 1) == base * 2) by (nonlinear_arith);
    }

    /// The score that the current blind asks for.
    pub fn get_score_needed(&self) -> (score: u32)
        ensures
            score == self.score_needed(),
            score <= 1200000,
    {
        let base_chips = get_base_score(self.ante, &self.stake);
        assert(base_chips * self.blind.score_factor() <= 1200000) by (nonlinear_arith)
            requires
                base_chips <= 200000,
                self.blind.score_factor() <= 6,
        ;
        self.blind.get_min_score(base_chips)
    }

    /// Moves the card with the identifier `card_id` from the hand to the
    /// end of the selected cards. The hand must hold such a card.
    pub fn select_card(&mut self, card_id: CardId)
        requires
            old(self).wf(),
            holds_id(old(self).in_hand@, card_id),
        ensures
            final(self).wf(),
            final(self).in_hand@ == old(self).in_hand@.remove(
                first_with_id(old(self).in_hand@, card_id),
            ),
            final(self).selected_cards@ == old(self).selected_cards@.push(
                old(self).in_hand@[first_with_id(old(self).in_hand@, card_id)],
            ),
            final(self).remaining_deck@ == old(self).remaining_deck@,
            final(self).used_cards@ == old(self).used_cards@,
            final(self).same_rules(old(self)),
            final(self).same_round(old(self)),
            final(self).card_pool() == old(self).card_pool(),
            final(self).total_cards() == old(self).total_cards(),
    {
        proof {
            let i = first_with_id(self.in_hand@, card_id);
            lemma_first_exists(self.in_hand@, card_id);
            lemma_move_keeps_cards(self.in_hand@, self.selected_cards@, i);
        }
        move_card(&mut self.in_hand, &mut self.selected_cards, card_id);
        proof {
            broadcast use vstd::multiset::group_multiset_axioms;

            assert(self.card_pool() =~= old(self).card_pool());
        }
    }

    /// Moves the card with the identifier `card_id` from the selected cards
    /// to the end of the hand. Such a card must be selected.
    pub fn deselect_card(&mut self, card_id: CardId)
        requires
            old(self).wf(),
            holds_id(old(self).selected_cards@, card_id),
        ensures
            final(self).wf(),
            final(self).selected_cards@ == old(self).selected_cards@.remove(
                first_with_id(old(self).selected_cards@, card_id),
            ),
            final(self).in_hand@ == old(self).in_hand@.push(
                old(self).selected_cards@[first_with_id(old(self).selected_cards@, card_id)],
            ),
            final(self).remaining_deck@ == old(self).remaining_deck@,
            final(self).used_cards@ == old(self).used_cards@,
            final(self).same_rules(old(self)),
            final(self).same_round(old(self)),
            final(self).card_pool() == old(self).card_pool(),
            final(self).total_cards() == old(self).total_cards(),
    {
        proof {
            let i = first_with_id(self.selected_cards@, card_id);
            lemma_first_exists(self.selected_cards@, card_id);
            lemma_move_keeps_cards(self.selected_cards@, self.in_hand@, i);
        }
        move_card(&mut self.selected_cards, &mut self.in_hand, card_id);
        proof {
            broadcast use vstd::multiset::group_multiset_axioms;

            assert(self.card_pool() =~= old(self).card_pool());
        }
    }

    /// Moves the card with the identifier `card_id` from the deck to the
    /// end of the hand. The deck must hold such a card.
    pub fn draw_card(&mut self, card_id: CardId)
        requires
            old(self).wf(),
            holds_id(old(self).remaining_deck@, card_id),
        ensures
            final(self).wf(),
            final(self).remaining_deck@ == old(self).remaining_deck@.remove(
                first_with_id(old(self).remaining_deck@, card_id),
            ),
            final(self).in_hand@ == old(self).in_hand@.push(
                old(self).remaining_deck@[first_with_id(old(self).remaining_deck@, card_id)],
            ),
            final(self).selected_cards@ == old(self).selected_cards@,
            final(self).used_cards@ == old(self).used_cards@,
            final(self).same_rules(old(self)),
            final(self).same_round(old(self)),
            final(self).card_pool() == old(self).card_pool(),
            final(self).total_cards() == old(self).total_cards(),
    {
        proof {
            let i = first_with_id(self.remaining_deck@, card_id);
            lemma_first_exists(self.remaining_deck@, card_id);
            lemma_move_keeps_cards(self.remaining_deck@, self.in_hand@, i);
        }
        move_card(&mut self.remaining_deck, &mut self.in_hand, card_id);
        proof {
            broadcast use vstd::multiset::group_multiset_axioms;

            assert(self.card_pool() =~= old(self).card_pool());
        }
    }

    /// Fills the hand up to `hand_size` cards with cards drawn at random
    /// from the deck, as far as the deck goes. Which cards are drawn is left
    /// open; each of them leaves the deck.
    pub fn fill_in_hand(&mut self)
        requires
            old(self).wf(),
        ensures
            final(self).wf(),
            refilled(
                old(self).remaining_deck@,
                old(self).in_hand@,
                old(self).hand_size as nat,
                final(self).remaining_deck@,
                final(self).in_hand@,
            ),
            final(self).selected_cards@ == old(self).selected_cards@,
            final(self).used_cards@ == old(self).used_cards@,
            final(self).same_rules(old(self)),
            final(self).same_round(old(self)),
            final(self).card_pool() == old(self).card_pool(),
            final(self).total_cards() == old(self).total_cards(),
    {
        let ghost deck0 = self.remaining_deck@;
        let ghost hand0 = self.in_hand@;
        proof {
            assert(self.in_hand@.take(hand0.len() as int) =~= hand0);
            assert(self.in_hand@.skip(hand0.len() as int) =~= Seq::<Card>::empty());
            lemma_without_nothing(deck0);
            self.lemma_deck_holds_no_card_twice();
        }
        while self.in_hand.len() < self.hand_size as usize && self.remaining_deck.len() > 0
            invariant
                self.wf(),
                deck0 == old(self).remaining_deck@,
                hand0 == old(self).in_hand@,
                self.selected_cards@ == old(self).selected_cards@,
                self.used_cards@ == old(self).used_cards@,
                self.same_rules(old(self)),
                self.same_round(old(self)),
                self.card_pool() == old(self).card_pool(),
                self.in_hand@.len() + self.remaining_deck@.len() == hand0.len() + deck0.len(),
                self.in_hand@.len() >= hand0.len(),
                self.in_hand@.len() == hand0.len() || self.in_hand@.len() <= self.hand_size,
                self.in_hand@.take(hand0.len() as int) == hand0,
                deck0.no_duplicates(),
                self.remaining_deck@ == without(deck0, self.in_hand@.skip(hand0.len() as int)),
                self.remaining_deck@.to_multiset().add(self.in_hand@.to_multiset())
                    == deck0.to_multiset().add(hand0.to_multiset()),
            decreases self.remaining_deck.len(),
        {
            let ghost deck = self.remaining_deck@;
            let ghost hand = self.in_hand@;
            match choose_from(self.remaining_deck.as_slice()) {
                Some(card) => {
                    proof {
                        let k = deck.index_of(card);
                        assert(deck[k].id == card.id);
                        let i = first_with_id(deck, card.id);
                        lemma_first_exists(deck, card.id);
                        lemma_move_keeps_cards(deck, hand, i);
                        lemma_without_one_more(deck0, hand.skip(hand0.len() as int), i);
                    }
                    self.draw_card(card.id);
                    proof {
                        broadcast use vstd::multiset::group_multiset_axioms;

                        assert(self.in_hand@.take(hand0.len() as int) =~= hand.take(
                            hand0.len() as int,
                        ));
                        assert(self.in_hand@.skip(hand0.len() as int) =~= hand.skip(
                            hand0.len() as int,
                        ).push(deck[first_with_id(deck, card.id)]));
                        assert(self.remaining_deck@.to_multiset().add(self.in_hand@.to_multiset())
                            =~= deck.to_multiset().add(hand.to_multiset()));
                    }
                },
                None => {},
            }
        }
    }

    /// Moves the selected cards to the end of the used cards, in order.
    pub fn use_selected_cards(&mut self)
        requires
            old(self).wf(),
        ensures
            final(self).wf(),
            final(self).selected_cards@ == Seq::<Card>::empty(),
            final(self).used_cards@ == old(self).used_cards@ + old(self).selected_cards@,
            final(self).remaining_deck@ == old(self).remaining_deck@,
            final(self).in_hand@ == old(self).in_hand@,
            final(self).same_rules(old(self)),
            final(self).same_round(old(self)),
            final(self).card_pool() == old(self).card_pool(),
            final(self).total_cards() == old(self).total_cards(),
    {
        move_all(&mut self.selected_cards, &mut self.used_cards);
        proof {
            broadcast use vstd::multiset::group_multiset_axioms;

            vstd::seq_lib::lemma_multiset_commutative(
                old(self).used_cards@,
                old(self).selected_cards@,
            );
            crate::counting::lemma_empty_multiset(self.selected_cards@);
            assert(self.card_pool() =~= old(self).card_pool());
        }
    }

    /// Starts a round over: all the hands and discards are there again and
    /// the score is 0, every card goes back to the deck, and a new hand is
    /// drawn at random.
    ///
    /// The used cards, the hand and the selected cards are put at the end of
    /// the deck in this order before the hand is drawn.
    pub fn init_blind(&mut self)
        requires
            old(self).wf(),
        ensures
            final(self).wf(),
            final(self).hands == old(self).hands_total,
            final(self).discards == old(self).discards_total,
            final(self).score == 0,
            final(self).chips == 0,
            final(self).mult == 0,
            final(self).used_cards@ == Seq::<Card>::empty(),
            final(self).selected_cards@ == Seq::<Card>::empty(),
            refilled(
                old(self).remaining_deck@ + old(self).used_cards@ + old(self).in_hand@ + old(
                    self,
                ).selected_cards@,
                Seq::<Card>::empty(),
                old(self).hand_size as nat,
                final(self).remaining_deck@,
                final(self).in_hand@,
            ),
            final(self).ante == old(self).ante,
            final(self).blind == old(self).blind,
            final(self).boss_blind == old(self).boss_blind,
            final(self).phase == old(self).phase,
            final(self).same_rules(old(self)),
            final(self).card_pool() == old(self).card_pool(),
            final(self).total_cards() == old(self).total_cards(),
    {
        self.hands = self.hands_total;
        self.discards = self.discards_total;
        self.score = 0;
        self.chips = 0;
        self.mult = 0;
        // Put all cards back into deck
        move_all(&mut self.used_cards, &mut self.remaining_deck);
        move_all(&mut self.in_hand, &mut self.remaining_deck);
        move_all(&mut self.selected_cards, &mut self.remaining_deck);
        proof {
            broadcast use vstd::multiset::group_multiset_axioms;

            let deck = old(self).remaining_deck@;
            let used = old(self).used_cards@;
            let hand = old(self).in_hand@;
            let selected = old(self).selected_cards@;
            vstd::seq_lib::lemma_multiset_commutative(deck, used);
            vstd::seq_lib::lemma_multiset_commutative(deck + used, hand);
            vstd::seq_lib::lemma_multiset_commutative(deck + used + hand, selected);
            crate::counting::lemma_empty_multiset(self.used_cards@);
            crate::counting::lemma_empty_multiset(self.in_hand@);
            crate::counting::lemma_empty_multiset(self.selected_cards@);
            assert(self.card_pool() =~= old(self).card_pool());
        }
        self.fill_in_hand();
    }

    /// Leaves the shop and starts the round of the next blind.
    pub fn start_blind(&mut self)
        requires
            old(self).wf(),
            old(self).phase == GamePhase::Shop,
        ensures
            final(self).wf(),
            final(self).phase == GamePhase::Playing,
            final(self).hands == old(self).hands_total,
            final(self).discards == old(self).discards_total,
            final(self).score == 0,
            final(self).chips == 0,
            final(self).mult == 0,
            final(self).used_cards@ == Seq::<Card>::empty(),
            final(self).selected_cards@ == Seq::<Card>::empty(),
            refilled(
                old(self).remaining_deck@ + old(self).used_cards@ + old(self).in_hand@ + old(
                    self,
                ).selected_cards@,
                Seq::<Card>::empty(),
                old(self).hand_size as nat,
                final(self).remaining_deck@,
                final(self).in_hand@,
            ),
            final(self).ante == old(self).ante,
            final(self).blind == old(self).blind,
            final(self).boss_blind == old(self).boss_blind,
            final(self).same_rules(old(self)),
            final(self).card_pool() == old(self).card_pool(),
            final(self).total_cards() == old(self).total_cards(),
    {
        self.phase = GamePhase::Playing;
        self.init_blind();
    }

    /// Goes on to the next blind and into the shop, with `next_boss` as the
    /// boss of the next ante where a boss has just been beaten.
    pub fn advance_blind_with(&mut self, next_boss: BossBlind)
        requires
            old(self).wf(),
            old(self).phase == GamePhase::Playing,
            old(self).blind is Boss ==> old(self).ante < u8::MAX && next_boss.may_appear_at(
                old(self).ante as nat + 1,
            ),
        ensures
            final(self).wf(),
            final(self).phase == GamePhase::Shop,
            final(self).blind == next_blind(old(self).blind, old(self).boss_blind),
            final(self).ante == if old(self).blind is Boss {
                old(self).ante + 1
            } else {
                old(self).ante as int
            },
            final(self).boss_blind == if old(self).blind is Boss {
                next_boss
            } else {
                old(self).boss_blind
            },
            final(self).hands == old(self).hands,
            final(self).discards == old(self).discards,
            final(self).score == old(self).score,
            final(self).remaining_deck@ == old(self).remaining_deck@,
            final(self).used_cards@ == old(self).used_cards@,
            final(self).in_hand@ == old(self).in_hand@,
            final(self).selected_cards@ == old(self).selected_cards@,
            final(self).same_rules(old(self)),
            final(self).card_pool() == old(self).card_pool(),
            final(self).total_cards() == old(self).total_cards(),
    {
        match self.blind {
            Blind::Small => {
                self.blind = Blind::Big;
            },
            Blind::Big => {
                self.blind = Blind::Boss(self.boss_blind);
            },
            Blind::Boss(_) => {
                self.ante = self.ante + 1;
                self.boss_blind = next_boss;
                self.blind = Blind::Small;
            },
        }
        self.phase = GamePhase::Shop;
    }

    /// Goes on to the next blind and into the shop. After a boss the ante
    /// goes up by one and a new boss is drawn at random among those that
    /// may appear at the new ante.
    pub fn advance_blind(&mut self)
        requires
            old(self).wf(),
            old(self).phase == GamePhase::Playing,
            old(self).blind is Boss ==> old(self).ante < u8::MAX,
        ensures
            final(self).wf(),
            final(self).phase == GamePhase::Shop,
            final(self).blind == next_blind(old(self).blind, old(self).boss_blind),
            final(self).ante == if old(self).blind is Boss {
                old(self).ante + 1
            } else {
                old(self).ante as int
            },
            !(old(self).blind is Boss) ==> final(self).boss_blind == old(self).boss_blind,
            final(self).hands == old(self).hands,
            final(self).discards == old(self).discards,
            final(self).score == old(self).score,
            final(self).remaining_deck@ == old(self).remaining_deck@,
            final(self).used_cards@ == old(self).used_cards@,
            final(self).in_hand@ == old(self).in_hand@,
            final(self).selected_cards@ == old(self).selected_cards@,
            final(self).same_rules(old(self)),
            final(self).card_pool() == old(self).card_pool(),
            final(self).total_cards() == old(self).total_cards(),
    {
        let next_boss = match self.blind {
            Blind::Boss(_) => BossBlind::get_rand(self.ante + 1),
            _ => self.boss_blind,
        };
        self.advance_blind_with(next_boss);
    }

    /// Whether this state is in every part the state `before`.
    pub open spec fn same_as(&self, before: &GameState) -> bool {
        &&& self.same_rules(before)
        &&& self.same_round(before)
        &&& self.remaining_deck@ == before.remaining_deck@
        &&& self.used_cards@ == before.used_cards@
        &&& self.in_hand@ == before.in_hand@
        &&& self.selected_cards@ == before.selected_cards@
    }

    /// Whether this state and `result` are what playing the selected cards
    /// makes of the state `before`.
    ///
    /// With no hand left the round is lost and nothing changes. Otherwise
    /// the score grows by what the selected cards are worth, one hand is
    /// spent, the selected cards go to the used cards and the hand is filled
    /// again from the deck. The round is won if the score has reached what
    /// the blind asks for, which leads on to the next blind and into the
    /// shop; it is lost if it has not and no hand is left; and it goes on
    /// otherwise.
    pub open spec fn follows_play(&self, before: &GameState, result: Option<HandResult>) -> bool {
        &&& before.hands == 0 ==> {
            &&& result == Some(HandResult::Lose)
            &&& self.same_round(before)
            &&& self.remaining_deck@ == before.remaining_deck@
            &&& self.used_cards@ == before.used_cards@
            &&& self.in_hand@ == before.in_hand@
            &&& self.selected_cards@ == before.selected_cards@
        }
        &&& before.hands > 0 ==> {
            let score = before.score + play_score(before.selected_cards@, before.hand_levels);
            let won = score >= before.score_needed();
            &&& self.score == score
            &&& self.hands == before.hands - 1
            &&& self.discards == before.discards
            &&& self.selected_cards@ == Seq::<Card>::empty()
            &&& self.used_cards@ == before.used_cards@ + before.selected_cards@
            &&& refilled(
                before.remaining_deck@,
                before.in_hand@,
                before.hand_size as nat,
                self.remaining_deck@,
                self.in_hand@,
            )
            &&& result == if won {
                Some(HandResult::Win)
            } else if before.hands == 1 {
                Some(HandResult::Lose)
            } else {
                None
            }
            &&& won ==> {
                &&& self.phase == GamePhase::Shop
                &&& self.blind == next_blind(before.blind, before.boss_blind)
                &&& self.ante == if before.blind is Boss {
                    before.ante + 1
                } else {
                    before.ante as int
                }
                &&& !(before.blind is Boss) ==> self.boss_blind == before.boss_blind
            }
            &&& !won ==> {
                &&& self.phase == before.phase
                &&& self.blind == before.blind
                &&& self.ante == before.ante
                &&& self.boss_blind == before.boss_blind
            }
        }
    }

    /// Whether this state and `discarded` are what discarding the selected
    /// cards makes of the state `before`.
    ///
    /// With no discard left nothing changes. Otherwise one discard is
    /// spent, the selected cards go to the used cards and the hand is
    /// filled again from the deck.
    pub open spec fn follows_discard(&self, before: &GameState, discarded: bool) -> bool {
        &&& discarded == (before.discards > 0)
        &&& self.ante == before.ante
        &&& self.blind == before.blind
        &&& self.boss_blind == before.boss_blind
        &&& self.phase == before.phase
        &&& self.hands == before.hands
        &&& self.score == before.score
        &&& !discarded ==> {
            &&& self.discards == before.discards
            &&& self.remaining_deck@ == before.remaining_deck@
            &&& self.used_cards@ == before.used_cards@
            &&& self.in_hand@ == before.in_hand@
            &&& self.selected_cards@ == before.selected_cards@
        }
        &&& discarded ==> {
            &&& self.discards == before.discards - 1
            &&& self.selected_cards@ == Seq::<Card>::empty()
            &&& self.used_cards@ == before.used_cards@ + before.selected_cards@
            &&& refilled(
                before.remaining_deck@,
                before.in_hand@,
                before.hand_size as nat,
                self.remaining_deck@,
                self.in_hand@,
            )
        }
    }

    /// Whether the selected cards may be played now: the round is being
    /// played and, if a hand is left, at least one card is selected, the
    /// chips, the multiplier and the new score each fit 32 bits, and the
    /// ante can still go up where a boss is faced.
    pub open spec fn playable(&self) -> bool {
        &&& self.phase == GamePhase::Playing
        &&& self.hands > 0 ==> {
            &&& self.selected_cards@.len() > 0
            &&& play_fits(self.selected_cards@, self.hand_levels)
            &&& self.score + play_score(self.selected_cards@, self.hand_levels) <= u32::MAX
            &&& (self.blind is Boss ==> self.ante < u8::MAX)
        }
    }

    /// Whether the selected cards may be played now.
    pub fn is_playable(&self) -> (playable: bool)
        ensures
            playable == self.playable(),
    {
        if self.phase != GamePhase::Playing {
            return false;
        }
        if self.hands == 0 {
            return true;
        }
        if self.selected_cards.len() == 0 {
            return false;
        }
        match self.blind {
            Blind::Boss(_) => {
                if self.ante == u8::MAX {
                    return false;
                }
            },
            _ => {},
        }
        let cards = borrow_all(&self.selected_cards);
        let (hand, scored) = HandType::from_cards(cards);
        match score_cards(&hand, &self.hand_levels, &scored) {
            None => false,
            Some(value) => {
                assert(value.chips * value.mult <= 0xffff_ffff * 0xffff_ffff) by (nonlinear_arith)
                    requires
                        value.chips <= 0xffff_ffff,
                        value.mult <= 0xffff_ffff,
                ;
                let gained: u64 = value.chips as u64 * value.mult as u64;
                gained + self.score as u64 <= u32::MAX as u64
            },
        }
    }

    /// Plays the selected cards.
    ///
    /// With no hand left the round is lost and nothing changes. Otherwise
    /// the cards are scored as the hand that they make, the score grows by
    /// its chips times its multiplier, one hand is spent, the selected cards
    /// go to the used cards and the hand is filled again from the deck.
    /// Then the round is won if the score has reached what the blind asks
    /// for, which leads on to the next blind and into the shop; it is lost
    /// if it has not and no hand is left; and it goes on otherwise.
    pub fn play_hand(&mut self) -> (result: Option<HandResult>)
        requires
            old(self).wf(),
            old(self).playable(),
        ensures
            final(self).wf(),
            final(self).same_rules(old(self)),
            final(self).card_pool() == old(self).card_pool(),
            final(self).total_cards() == old(self).total_cards(),
            final(self).follows_play(old(self), result),
    {
        if self.hands == 0 {
            return Some(HandResult::Lose);
        }
        let chips_and_mult = {
            let cards = borrow_all(&self.selected_cards);
            let (hand_type, cards) = HandType::from_cards(cards);
            score_cards(&hand_type, &self.hand_levels, &cards)
        };
        let chips_and_mult = chips_and_mult.unwrap();
        self.chips = self.chips + chips_and_mult.chips;
        self.mult = self.mult + chips_and_mult.mult;
        self.hands = self.hands - 1;
        self.score = self.score + self.chips * self.mult;
        self.chips = 0;
        self.mult = 0;
        // Put selected cards into used cards
        self.use_selected_cards();
        // Redraw cards up to hand size
        self.fill_in_hand();
        if self.score >= self.get_score_needed() {
            self.advance_blind();
            return Some(HandResult::Win);
        }
        if self.hands == 0 {
            return Some(HandResult::Lose);
        }
        None
    }

    /// Discards the selected cards, where a discard is left, and says
    /// whether it did.
    ///
    /// With no discard left nothing changes. Otherwise one discard is
    /// spent, the selected cards go to the used cards and the hand is
    /// filled again from the deck.
    pub fn discard_hand(&mut self) -> (discarded: bool)
        requires
            old(self).wf(),
            old(self).phase == GamePhase::Playing,
        ensures
            final(self).wf(),
            final(self).same_rules(old(self)),
            final(self).card_pool() == old(self).card_pool(),
            final(self).total_cards() == old(self).total_cards(),
            final(self).follows_discard(old(self), discarded),
    {
        if self.discards == 0 {
            return false;
        }
        self.discards = self.discards - 1;
        self.use_selected_cards();
        self.fill_in_hand();
        true
    }

    /// Plays the selected cards if the state is valid and they may be
    /// played, and gives the result of the play; else leaves the state as it
    /// is and gives nothing. Either way every card stays in the session:
    /// cards move between the pools, and none is copied or lost.
    pub fn try_play_hand(&mut self) -> (played: Option<Option<HandResult>>)
        ensures
            final(self).card_pool() == old(self).card_pool(),
            final(self).total_cards() == old(self).total_cards(),
            played is Some <==> old(self).wf() && old(self).playable(),
            final(self).same_rules(old(self)),
            match played {
                Some(result) => final(self).wf() && final(self).follows_play(old(self), result),
                None => final(self).same_as(old(self)),
            },
    {
        if self.is_valid() && self.is_playable() {
            Some(self.play_hand())
        } else {
            None
        }
    }

    /// Discards the selected cards if the state is valid and a round is
    /// being played, and says whether a discard was left for it; else leaves
    /// the state as it is and gives nothing. Either way every card stays in
    /// the session: cards move between the pools, and none is copied or
    /// lost.
    pub fn try_discard_hand(&mut self) -> (tried: Option<bool>)
        ensures
            final(self).card_pool() == old(self).card_pool(),
            final(self).total_cards() == old(self).total_cards(),
            tried is Some <==> old(self).wf() && old(self).phase == GamePhase::Playing,
            final(self).same_rules(old(self)),
            match tried {
                Some(discarded) => final(self).wf() && final(self).follows_discard(
                    old(self),
                    discarded,
                ),
                None => final(self).same_as(old(self)),
            },
    {
        if self.is_valid() && self.phase == GamePhase::Playing {
            Some(self.discard_hand())
        } else {
            None
        }
    }
}

} // verus!
